use vstd::prelude::*;
use vstd::string::StringExecFns;
use crate::Game;
use crate::GameError;
use crate::TileGrid;

verus! {

/// A plain red-green-blue triple; how the renderer shows an entity.
#[derive(Clone, Copy, Debug, PartialEq, Eq, Structural)]
pub struct Color {
    pub r: u8,
    pub g: u8,
    pub b: u8,
}

/// A generic placed entity: the player or a monster.
pub struct Object {
    pub x: i32,
    pub y: i32,
    pub glyph: char,
    pub color: Color,
    pub name: String,
    pub blocks: bool,
    pub alive: bool,
}

impl Object {
    pub fn new(x: i32, y: i32, glyph: char, name: &str, color: Color, blocks: bool) -> (o: Object)
        ensures
            o.x == x,
            o.y == y,
            o.glyph == glyph,
            o.name@ == name@,
            o.color == color,
            o.blocks == blocks,
            o.alive == false,
    {
        Object { x, y, glyph, color, name: String::from_str(name), blocks, alive: false }
    }

    pub fn pos(&self) -> (p: (i32, i32))
        ensures
            p == (self.x, self.y),
    {
        (self.x, self.y)
    }

    pub fn set_pos(&mut self, x: i32, y: i32)
        ensures
            final(self).x == x,
            final(self).y == y,
            final(self).glyph == old(self).glyph,
            final(self).color == old(self).color,
            final(self).name == old(self).name,
            final(self).blocks == old(self).blocks,
            final(self).alive == old(self).alive,
    {
        self.x = x;
        self.y = y;
    }

    /// Move by the given delta unless the target tile blocks movement.
    /// The caller must keep the target inside the grid; `try_move` is the
    /// variant that reports an out-of-bounds target as an error instead.
    pub fn move_by(&mut self, dx: i32, dy: i32, game: &Game)
        requires
            game.map.wf(),
            game.map.in_bounds(old(self).x + dx, old(self).y + dy),
        ensures
            final(self).glyph == old(self).glyph,
            final(self).color == old(self).color,
            final(self).name == old(self).name,
            final(self).blocks == old(self).blocks,
            final(self).alive == old(self).alive,
            game.map.at(old(self).x + dx, old(self).y + dy).blocked ==> final(self).x == old(
                self,
            ).x && final(self).y == old(self).y,
            !game.map.at(old(self).x + dx, old(self).y + dy).blocked ==> final(self).x == old(
                self,
            ).x + dx && final(self).y == old(self).y + dy,
    {
        let tx = self.x + dx;
        let ty = self.y + dy;
        if !game.map.get(tx as usize, ty as usize).blocked {
            self.x = tx;
            self.y = ty;
        }
    }
}

/// Validate a proposed displacement of `obj` against the grid's blocking
/// flags: report `Ok(true)` and commit the move when the target is free,
/// `Ok(false)` and stand still when it blocks, and an out-of-bounds error,
/// with no mutation, when the target leaves the grid.
pub fn try_move(obj: &mut Object, dx: i32, dy: i32, grid: &TileGrid) -> (r: Result<bool, GameError>)
    requires
        grid.wf(),
    ensures
        final(obj).glyph == old(obj).glyph,
        final(obj).color == old(obj).color,
        final(obj).name == old(obj).name,
        final(obj).blocks == old(obj).blocks,
        final(obj).alive == old(obj).alive,
        !grid.in_bounds(old(obj).x + dx, old(obj).y + dy) ==> r == Result::<bool, GameError>::Err(
            GameError::OutOfBounds,
        ) && final(obj).x == old(obj).x && final(obj).y == old(obj).y,
        grid.in_bounds(old(obj).x + dx, old(obj).y + dy) && grid.at(
            old(obj).x + dx,
            old(obj).y + dy,
        ).blocked ==> r == Result::<bool, GameError>::Ok(false) && final(obj).x == old(obj).x
            && final(obj).y == old(obj).y,
        grid.in_bounds(old(obj).x + dx, old(obj).y + dy) && !grid.at(
            old(obj).x + dx,
            old(obj).y + dy,
        ).blocked ==> r == Result::<bool, GameError>::Ok(true) && final(obj).x == old(obj).x + dx
            && final(obj).y == old(obj).y + dy,
{
    let tx: i64 = (obj.x as i64) + (dx as i64);
    let ty: i64 = (obj.y as i64) + (dy as i64);
    if tx < 0 || ty < 0 || tx >= grid.width() as i64 || ty >= grid.height() as i64 {
        return Err(GameError::OutOfBounds);
    }
    if grid.get(tx as usize, ty as usize).blocked {
        Ok(false)
    } else {
        obj.x = tx as i32;
        obj.y = ty as i32;
        Ok(true)
    }
}

} // verus!
