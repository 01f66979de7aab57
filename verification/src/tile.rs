use vstd::prelude::*;

verus! {

/// One grid cell's terrain state: whether it blocks movement, whether it
/// blocks sight, and whether the player has ever seen it.
#[derive(Clone, Copy, Debug, PartialEq, Eq, Structural)]
pub struct Tile {
    pub blocked: bool,
    pub block_sight: bool,
    pub explored: bool,
}

/// The tile every cell starts as: an impassable, opaque, unexplored wall.
pub open spec fn wall_tile() -> Tile {
    Tile { blocked: true, block_sight: true, explored: false }
}

/// A carved cell: passable, transparent, unexplored floor.
pub open spec fn empty_tile() -> Tile {
    Tile { blocked: false, block_sight: false, explored: false }
}

impl Tile {
    /// A passable, transparent, unexplored floor tile.
    pub fn empty() -> (t: Tile)
        ensures
            t == empty_tile(),
    {
        Tile { blocked: false, block_sight: false, explored: false }
    }

    /// An impassable, opaque, unexplored wall tile.
    pub fn wall() -> (t: Tile)
        ensures
            t == wall_tile(),
    {
        Tile { blocked: true, block_sight: true, explored: false }
    }
}

/// Largest accepted extent of a grid in either dimension; keeps every index
/// computation comfortably inside the machine integer types.
pub const MAX_DIM: usize = 4096;

/// A fixed-size two-dimensional store of tiles, addressed by
/// `0 <= x < width`, `0 <= y < height`. Cells are kept in one flat vector
/// in column order: cell `(x, y)` lives at index `x * height + y`.
pub struct TileGrid {
    width: usize,
    height: usize,
    tiles: Vec<Tile>,
}

impl TileGrid {
    /// The cell store matches the grid's shape.
    pub closed spec fn store_inv(self) -> bool {
        self.tiles@.len() == self.width * self.height
    }

    /// The grid's shape matches its cell store and stays within `MAX_DIM`.
    pub open spec fn wf(self) -> bool {
        &&& self.store_inv()
        &&& 1 <= self.spec_width() <= MAX_DIM
        &&& 1 <= self.spec_height() <= MAX_DIM
    }

    pub closed spec fn spec_width(self) -> int {
        self.width as int
    }

    pub closed spec fn spec_height(self) -> int {
        self.height as int
    }

    /// The tile at cell `(x, y)`.
    pub closed spec fn at(self, x: int, y: int) -> Tile {
        self.tiles@[x * self.spec_height() + y]
    }

    pub open spec fn in_bounds(self, x: int, y: int) -> bool {
        0 <= x < self.spec_width() && 0 <= y < self.spec_height()
    }

    pub fn width(&self) -> (w: usize)
        ensures
            w == self.spec_width(),
    {
        self.width
    }

    pub fn height(&self) -> (h: usize)
        ensures
            h == self.spec_height(),
    {
        self.height
    }

    /// A fresh grid of the given extents, every cell a wall.
    pub fn new_filled(width: usize, height: usize) -> (g: TileGrid)
        requires
            1 <= width <= MAX_DIM,
            1 <= height <= MAX_DIM,
        ensures
            g.wf(),
            g.spec_width() == width,
            g.spec_height() == height,
            forall|x: int, y: int| g.in_bounds(x, y) ==> g.at(x, y) == wall_tile(),
    {
        proof {
            assert(width * height <= MAX_DIM * MAX_DIM) by (nonlinear_arith)
                requires
                    1 <= width <= MAX_DIM,
                    1 <= height <= MAX_DIM,
            ;
        }
        let total: usize = width * height;
        let mut tiles: Vec<Tile> = Vec::new();
        let mut i: usize = 0;
        while i < total
            invariant
                i <= total,
                tiles@.len() == i,
                forall|j: int| 0 <= j < i ==> tiles@[j] == wall_tile(),
            decreases total - i,
        {
            tiles.push(Tile::wall());
            i += 1;
        }
        let g = TileGrid { width, height, tiles };
        proof {
            assert forall|x: int, y: int| g.in_bounds(x, y) implies g.at(x, y) == wall_tile() by {
                lemma_flat_index_bounds(x, y, width as int, height as int);
            }
        }
        g
    }

    /// Read the tile at `(x, y)`.
    pub fn get(&self, x: usize, y: usize) -> (t: Tile)
        requires
            self.wf(),
            self.in_bounds(x as int, y as int),
        ensures
            t == self.at(x as int, y as int),
    {
        proof {
            lemma_flat_index_bounds(x as int, y as int, self.spec_width(), self.spec_height());
        }
        self.tiles[x * self.height + y]
    }

    /// Overwrite the tile at `(x, y)`, leaving every other cell as it was.
    pub fn set(&mut self, x: usize, y: usize, t: Tile)
        requires
            old(self).wf(),
            old(self).in_bounds(x as int, y as int),
        ensures
            final(self).wf(),
            final(self).spec_width() == old(self).spec_width(),
            final(self).spec_height() == old(self).spec_height(),
            final(self).at(x as int, y as int) == t,
            forall|a: int, b: int|
                old(self).in_bounds(a, b) && (a != x || b != y) ==> final(self).at(a, b) == old(
                    self,
                ).at(a, b),
    {
        proof {
            lemma_flat_index_bounds(x as int, y as int, self.spec_width(), self.spec_height());
        }
        let idx: usize = x * self.height + y;
        self.tiles[idx] = t;
        proof {
            let w = self.spec_width();
            let h = self.spec_height();
            assert forall|a: int, b: int|
                old(self).in_bounds(a, b) && (a != x || b != y) implies self.at(a, b) == old(
                self,
            ).at(a, b) by {
                lemma_flat_index_bounds(a, b, w, h);
                lemma_flat_index_injective(a, b, x as int, y as int, h);
            }
        }
    }

    /// Mark the tile at `(x, y)` as explored, leaving its terrain flags and
    /// every other cell as they were.
    pub fn set_explored(&mut self, x: usize, y: usize)
        requires
            old(self).wf(),
            old(self).in_bounds(x as int, y as int),
        ensures
            final(self).wf(),
            final(self).spec_width() == old(self).spec_width(),
            final(self).spec_height() == old(self).spec_height(),
            final(self).at(x as int, y as int) == (Tile {
                explored: true,
                ..old(self).at(x as int, y as int)
            }),
            forall|a: int, b: int|
                old(self).in_bounds(a, b) && (a != x || b != y) ==> final(self).at(a, b) == old(
                    self,
                ).at(a, b),
    {
        let t = self.get(x, y);
        self.set(x, y, Tile { blocked: t.blocked, block_sight: t.block_sight, explored: true });
    }

    /// Read the tile at `(x, y)`, rejecting coordinates outside the grid.
    pub fn tile_at(&self, x: usize, y: usize) -> (r: Result<Tile, crate::GameError>)
        requires
            self.wf(),
        ensures
            self.in_bounds(x as int, y as int) ==> r == Result::<Tile, crate::GameError>::Ok(
                self.at(x as int, y as int),
            ),
            !self.in_bounds(x as int, y as int) ==> r == Result::<Tile, crate::GameError>::Err(
                crate::GameError::OutOfBounds,
            ),
    {
        if x < self.width && y < self.height {
            Ok(self.get(x, y))
        } else {
            Err(crate::GameError::OutOfBounds)
        }
    }
}

/// A cell's flat index lies inside a `w * h` store, which itself fits well
/// inside the machine integers.
pub(crate) proof fn lemma_flat_index_bounds(x: int, y: int, w: int, h: int)
    requires
        0 <= x < w <= MAX_DIM,
        0 <= y < h <= MAX_DIM,
    ensures
        0 <= x * h + y < w * h,
        w * h <= MAX_DIM * MAX_DIM,
{
    assert(0 <= x * h + y < w * h && w * h <= MAX_DIM * MAX_DIM) by (nonlinear_arith)
        requires
            0 <= x < w <= MAX_DIM,
            0 <= y < h <= MAX_DIM,
    ;
}

/// Distinct cells have distinct flat indices.
pub(crate) proof fn lemma_flat_index_injective(a: int, b: int, x: int, y: int, h: int)
    requires
        0 <= b < h,
        0 <= y < h,
        a != x || b != y,
    ensures
        a * h + b != x * h + y,
{
    assert(a * h + b != x * h + y) by (nonlinear_arith)
        requires
            0 <= b < h,
            0 <= y < h,
            a != x || b != y,
    ;
}

} // verus!
