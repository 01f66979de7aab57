use zonarl::DungeonRng;
use zonarl::Fov;
use zonarl::Rect;
use zonarl::TileGrid;
use zonarl::generator::create_room;
use zonarl::generator::make_map;
use zonarl::GameError;

const RADIUS: u32 = 10;

fn open_arena(side: usize) -> TileGrid {
    let mut grid = TileGrid::new_filled(side, side);
    create_room(Rect::new(0, 0, side as i32 - 1, side as i32 - 1), &mut grid);
    grid
}

fn cheb(a: (usize, usize), b: (usize, usize)) -> usize {
    let dx = a.0.abs_diff(b.0);
    let dy = a.1.abs_diff(b.1);
    dx.max(dy)
}

#[test]
fn no_cell_beyond_the_radius_is_visible() {
    let mut grid = open_arena(30);
    let mut fov = Fov::new(30, 30);
    let origin = (15usize, 15usize);
    fov.recompute(&mut grid, origin.0, origin.1, RADIUS, true);
    for x in 0..30 {
        for y in 0..30 {
            if cheb(origin, (x, y)) == RADIUS as usize + 1 {
                assert!(!fov.is_visible(x, y).unwrap());
            }
        }
    }
}

#[test]
fn open_cells_inside_the_radius_are_visible() {
    let mut grid = open_arena(30);
    let mut fov = Fov::new(30, 30);
    fov.recompute(&mut grid, 15, 15, RADIUS, true);
    assert!(fov.is_visible(15, 15).unwrap());
    assert!(fov.is_visible(15, 5).unwrap());
    assert!(fov.is_visible(5, 15).unwrap());
    assert!(fov.is_visible(20, 20).unwrap());
}

#[test]
fn walls_hide_what_lies_behind_them() {
    // Two rooms separated by an uncarved wall at columns 10 and 11.
    let mut grid = TileGrid::new_filled(21, 9);
    create_room(Rect::new(0, 0, 10, 8), &mut grid); // interior x in 1..=9
    create_room(Rect::new(11, 0, 9, 8), &mut grid); // interior x in 12..=19
    let mut fov = Fov::new(21, 9);
    fov.recompute(&mut grid, 5, 4, RADIUS, true);
    assert!(fov.is_visible(5, 4).unwrap());
    assert!(!fov.is_visible(16, 4).unwrap());
}

#[test]
fn explored_follows_visibility() {
    let mut grid = open_arena(30);
    let mut fov = Fov::new(30, 30);
    assert!(!grid.tile_at(15, 10).unwrap().explored);
    fov.recompute(&mut grid, 15, 15, RADIUS, true);
    assert!(grid.tile_at(15, 10).unwrap().explored);
    // A cell far outside the radius stays unexplored.
    assert!(!grid.tile_at(1, 1).unwrap().explored);
}

#[test]
fn explored_never_reverts_across_recomputes() {
    let (mut grid, _, spawn, _) = {
        let mut rng = DungeonRng::new(11);
        make_map(80, 45, 30, 6, 10, 3, &mut rng).unwrap()
    };
    let mut fov = Fov::new(80, 45);
    fov.recompute(&mut grid, spawn.0 as usize, spawn.1 as usize, RADIUS, true);
    let explored_once: Vec<(usize, usize)> = (0..80usize)
        .flat_map(|x| (0..45usize).map(move |y| (x, y)))
        .filter(|&(x, y)| grid.tile_at(x, y).unwrap().explored)
        .collect();
    assert!(!explored_once.is_empty());
    // Recompute from other corners of the map, several times.
    for origin in [(1usize, 1usize), (78, 43), (1, 43), (78, 1)] {
        fov.recompute(&mut grid, origin.0, origin.1, RADIUS, true);
        for &(x, y) in &explored_once {
            assert!(grid.tile_at(x, y).unwrap().explored);
        }
    }
}

#[test]
fn visibility_query_rejects_out_of_range_coordinates() {
    let fov = Fov::new(10, 10);
    assert_eq!(fov.is_visible(10, 0), Err(GameError::OutOfBounds));
    assert!(fov.is_visible(9, 9).is_ok());
}

#[test]
fn fresh_fov_sees_nothing() {
    let fov = Fov::new(12, 12);
    for x in 0..12 {
        for y in 0..12 {
            assert!(!fov.is_visible(x, y).unwrap());
        }
    }
}
