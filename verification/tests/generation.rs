use zonarl::DungeonRng;
use zonarl::Rect;
use zonarl::TileGrid;
use zonarl::generator::make_map;
use zonarl::generator::place_objects;
use zonarl::GameError;

const WIDTH: i32 = 80;
const HEIGHT: i32 = 45;
const MAX_ROOMS: u32 = 30;
const ROOM_MIN: i32 = 6;
const ROOM_MAX: i32 = 10;
const MAX_ROOM_MONSTERS: u32 = 3;

fn generate(seed: u64) -> (TileGrid, Vec<Rect>, (i32, i32), Vec<zonarl::Object>) {
    let mut rng = DungeonRng::new(seed);
    make_map(WIDTH, HEIGHT, MAX_ROOMS, ROOM_MIN, ROOM_MAX, MAX_ROOM_MONSTERS, &mut rng)
        .expect("valid configuration")
}

fn blocked(grid: &TileGrid, x: i32, y: i32) -> bool {
    grid.tile_at(x as usize, y as usize).expect("in bounds").blocked
}

fn h_path_clear(grid: &TileGrid, xa: i32, xb: i32, y: i32) -> bool {
    (xa.min(xb)..=xa.max(xb)).all(|x| !blocked(grid, x, y))
}

fn v_path_clear(grid: &TileGrid, ya: i32, yb: i32, x: i32) -> bool {
    (ya.min(yb)..=ya.max(yb)).all(|y| !blocked(grid, x, y))
}

fn elbow_carved(grid: &TileGrid, c1: (i32, i32), c2: (i32, i32)) -> bool {
    (h_path_clear(grid, c1.0, c2.0, c1.1) && v_path_clear(grid, c1.1, c2.1, c2.0))
        || (v_path_clear(grid, c1.1, c2.1, c1.0) && h_path_clear(grid, c1.0, c2.0, c2.1))
}

#[test]
fn at_least_one_room_and_spawn_is_walkable() {
    for seed in 0..10u64 {
        let (grid, rooms, spawn, _) = generate(seed);
        assert!(!rooms.is_empty());
        assert!(!blocked(&grid, spawn.0, spawn.1));
        assert_eq!(spawn, rooms[0].center());
    }
}

#[test]
fn accepted_rooms_never_intersect() {
    for seed in 0..10u64 {
        let (_, rooms, _, _) = generate(seed);
        for i in 0..rooms.len() {
            for j in 0..rooms.len() {
                if i != j {
                    assert!(!rooms[i].intersects_with(&rooms[j]));
                }
            }
        }
    }
}

#[test]
fn room_sizes_respect_the_configured_bounds() {
    let (_, rooms, _, _) = generate(7);
    for r in &rooms {
        assert!((ROOM_MIN..=ROOM_MAX).contains(&(r.x2 - r.x1)));
        assert!((ROOM_MIN..=ROOM_MAX).contains(&(r.y2 - r.y1)));
        assert!(r.x1 >= 0 && r.y1 >= 0 && r.x2 < WIDTH && r.y2 < HEIGHT);
    }
}

#[test]
fn consecutive_rooms_are_joined_by_carved_corridors() {
    for seed in 0..10u64 {
        let (grid, rooms, _, _) = generate(seed);
        for w in rooms.windows(2) {
            assert!(elbow_carved(&grid, w[0].center(), w[1].center()));
        }
    }
}

#[test]
fn monsters_stand_strictly_inside_some_room() {
    let (_, rooms, _, monsters) = generate(3);
    for m in &monsters {
        let (x, y) = m.pos();
        assert!(
            rooms.iter().any(|r| r.x1 < x && x < r.x2 && r.y1 < y && y < r.y2),
            "monster outside every room interior"
        );
        assert!(m.blocks);
        assert!(!m.alive);
        match m.glyph {
            'o' => assert_eq!(m.name, "orc"),
            'T' => assert_eq!(m.name, "troll"),
            other => panic!("unexpected species glyph {other}"),
        }
    }
}

#[test]
fn placed_monster_count_respects_the_cap() {
    let room = Rect::new(10, 10, 8, 8);
    for seed in 0..20u64 {
        let mut rng = DungeonRng::new(seed);
        let mut sink = Vec::new();
        place_objects(room, MAX_ROOM_MONSTERS, &mut rng, &mut sink);
        assert!(sink.len() <= MAX_ROOM_MONSTERS as usize);
        for m in &sink {
            let (x, y) = m.pos();
            assert!(room.x1 < x && x < room.x2 && room.y1 < y && y < room.y2);
        }
        // Same seed, same placement, monster for monster.
        let mut rng2 = DungeonRng::new(seed);
        let mut sink2 = Vec::new();
        place_objects(room, MAX_ROOM_MONSTERS, &mut rng2, &mut sink2);
        assert_eq!(sink.len(), sink2.len());
        for (a, b) in sink.iter().zip(sink2.iter()) {
            assert_eq!(a.pos(), b.pos());
            assert_eq!(a.glyph, b.glyph);
            assert_eq!(a.name, b.name);
        }
    }
}

#[test]
fn same_seed_generates_identical_levels() {
    let (grid_a, rooms_a, spawn_a, monsters_a) = generate(123456);
    let (grid_b, rooms_b, spawn_b, monsters_b) = generate(123456);
    assert_eq!(rooms_a, rooms_b);
    assert_eq!(spawn_a, spawn_b);
    assert_eq!(monsters_a.len(), monsters_b.len());
    for (a, b) in monsters_a.iter().zip(monsters_b.iter()) {
        assert_eq!(a.pos(), b.pos());
        assert_eq!(a.glyph, b.glyph);
        assert_eq!(a.name, b.name);
    }
    for x in 0..WIDTH as usize {
        for y in 0..HEIGHT as usize {
            assert_eq!(grid_a.tile_at(x, y), grid_b.tile_at(x, y));
        }
    }
}

#[test]
fn different_seeds_do_not_all_agree() {
    let (_, rooms_first, _, _) = generate(0);
    let mut all_same = true;
    for seed in 1..20u64 {
        let (_, rooms, _, _) = generate(seed);
        if rooms != rooms_first {
            all_same = false;
        }
    }
    assert!(!all_same);
}

#[test]
fn degenerate_configurations_fail_fast() {
    let mut rng = DungeonRng::new(1);
    // Zero-size map.
    assert!(matches!(
        make_map(0, HEIGHT, MAX_ROOMS, ROOM_MIN, ROOM_MAX, MAX_ROOM_MONSTERS, &mut rng),
        Err(GameError::Configuration)
    ));
    // Rooms too small to have an interior.
    assert!(matches!(
        make_map(WIDTH, HEIGHT, MAX_ROOMS, 1, ROOM_MAX, MAX_ROOM_MONSTERS, &mut rng),
        Err(GameError::Configuration)
    ));
    // Largest room cannot fit inside the map.
    assert!(matches!(
        make_map(10, HEIGHT, MAX_ROOMS, 6, 10, MAX_ROOM_MONSTERS, &mut rng),
        Err(GameError::Configuration)
    ));
    // Inverted size bounds.
    assert!(matches!(
        make_map(WIDTH, HEIGHT, MAX_ROOMS, 10, 6, MAX_ROOM_MONSTERS, &mut rng),
        Err(GameError::Configuration)
    ));
}

#[test]
fn rolls_stay_inside_their_bounds() {
    let mut rng = DungeonRng::new(99);
    for _ in 0..100 {
        let r = rng.roll(5, 10);
        assert!((5..10).contains(&r));
    }
}

#[test]
fn same_seed_rolls_identically() {
    let mut a = DungeonRng::new(77);
    let mut b = DungeonRng::new(77);
    for _ in 0..50 {
        assert_eq!(a.roll(0, 1000), b.roll(0, 1000));
    }
}

#[test]
fn zero_max_rooms_yields_an_empty_level() {
    let mut rng = DungeonRng::new(5);
    let (grid, rooms, _, monsters) =
        make_map(WIDTH, HEIGHT, 0, ROOM_MIN, ROOM_MAX, MAX_ROOM_MONSTERS, &mut rng).unwrap();
    assert!(rooms.is_empty());
    assert!(monsters.is_empty());
    for x in 0..WIDTH as usize {
        for y in 0..HEIGHT as usize {
            let t = grid.tile_at(x, y).unwrap();
            assert!(t.blocked && t.block_sight && !t.explored);
        }
    }
}
