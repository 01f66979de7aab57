use zonarl::Color;
use zonarl::Game;
use zonarl::GameError;
use zonarl::Object;
use zonarl::Rect;
use zonarl::Tile;
use zonarl::TileGrid;
use zonarl::object::try_move;

fn three_by_three_room() -> TileGrid {
    // A 5x5 grid whose carved interior is the 3x3 block at 1..=3 in both axes.
    let mut grid = TileGrid::new_filled(5, 5);
    zonarl::generator::create_room(Rect::new(0, 0, 4, 4), &mut grid);
    grid
}

#[test]
fn tile_constructors_have_documented_flags() {
    let e = Tile::empty();
    assert!(!e.blocked && !e.block_sight && !e.explored);
    let w = Tile::wall();
    assert!(w.blocked && w.block_sight && !w.explored);
}

#[test]
fn rect_center_is_integer_midpoint() {
    let r = Rect::new(1, 1, 6, 6);
    assert_eq!(r.x2, 7);
    assert_eq!(r.y2, 7);
    assert_eq!(r.center(), (4, 4));
    let r2 = Rect::new(0, 0, 5, 3);
    assert_eq!(r2.center(), (2, 1));
}

#[test]
fn rect_intersection_is_inclusive_on_edges() {
    let a = Rect::new(0, 0, 4, 4);
    let b = Rect::new(4, 0, 4, 4); // edges touch: x2 == 4 == b.x1
    assert!(a.intersects_with(&b));
    let c = Rect::new(5, 0, 4, 4);
    assert!(!a.intersects_with(&c));
    let d = Rect::new(2, 2, 2, 2);
    assert!(a.intersects_with(&d));
}

#[test]
fn object_new_starts_inactive() {
    let o = Object::new(3, 4, '@', "player", Color { r: 251, g: 242, b: 54 }, true);
    assert_eq!(o.pos(), (3, 4));
    assert_eq!(o.glyph, '@');
    assert_eq!(o.name, "player");
    assert!(o.blocks);
    assert!(!o.alive);
}

#[test]
fn set_pos_moves_the_object() {
    let mut o = Object::new(0, 0, '@', "player", Color { r: 0, g: 0, b: 0 }, true);
    o.set_pos(7, 9);
    assert_eq!(o.pos(), (7, 9));
}

#[test]
fn movement_into_wall_is_blocked_and_into_floor_moves() {
    let grid = three_by_three_room();
    let mut player = Object::new(2, 2, '@', "player", Color { r: 0, g: 0, b: 0 }, true);

    // Delta pointing at a known wall tile: blocked, position unchanged.
    let r = try_move(&mut player, -2, 0, &grid);
    assert_eq!(r, Ok(false));
    assert_eq!(player.pos(), (2, 2));

    // Delta pointing at a known floor tile: moved by exactly the delta.
    let r = try_move(&mut player, 0, -1, &grid);
    assert_eq!(r, Ok(true));
    assert_eq!(player.pos(), (2, 1));
}

#[test]
fn movement_off_the_grid_is_an_error() {
    let grid = three_by_three_room();
    let mut player = Object::new(2, 2, '@', "player", Color { r: 0, g: 0, b: 0 }, true);
    let r = try_move(&mut player, -9, 0, &grid);
    assert_eq!(r, Err(GameError::OutOfBounds));
    assert_eq!(player.pos(), (2, 2));
}

#[test]
fn move_by_obeys_the_blocking_flag() {
    let grid = three_by_three_room();
    let game = Game { map: grid };
    let mut player = Object::new(2, 2, '@', "player", Color { r: 0, g: 0, b: 0 }, true);
    player.move_by(0, 2, &game); // (2, 4) is border wall
    assert_eq!(player.pos(), (2, 2));
    player.move_by(1, 0, &game); // (3, 2) is floor
    assert_eq!(player.pos(), (3, 2));
}

#[test]
fn tile_at_rejects_out_of_range_coordinates() {
    let grid = TileGrid::new_filled(4, 4);
    assert!(grid.tile_at(3, 3).is_ok());
    assert_eq!(grid.tile_at(4, 0), Err(GameError::OutOfBounds));
    assert_eq!(grid.tile_at(0, 17), Err(GameError::OutOfBounds));
}
