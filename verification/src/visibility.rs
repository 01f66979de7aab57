use vstd::prelude::*;
use vstd::arithmetic::div_mod::lemma_fundamental_div_mod;
use vstd::math::abs;
use vstd::math::max;
use vstd::math::min;
use crate::GameError;
use crate::tile::MAX_DIM;
use crate::tile::Tile;
use crate::tile::TileGrid;
use crate::tile::lemma_flat_index_bounds;
use crate::tile::lemma_flat_index_injective;

verus! {

/// Chebyshev distance between two cells: the visibility radius is measured
/// in this metric.
pub open spec fn cheb_dist(ax: int, ay: int, bx: int, by: int) -> int {
    max(abs(ax - bx) as int, abs(ay - by) as int)
}

/// Step `k` of the discrete ray from `a` toward `b`, out of `n` equal steps:
/// the rounded interpolation `a + k * (b - a) / n`.
pub open spec fn line_coord(a: int, b: int, k: int, n: int) -> int {
    if b >= a {
        a + (2 * k * (b - a) + n) / (2 * n)
    } else {
        a - (2 * k * (a - b) + n) / (2 * n)
    }
}

/// The column of step `k` of the ray from the origin to the target.
pub open spec fn line_x(ox: int, oy: int, tx: int, ty: int, k: int) -> int {
    line_coord(ox, tx, k, cheb_dist(ox, oy, tx, ty))
}

/// The row of step `k` of the ray from the origin to the target.
pub open spec fn line_y(ox: int, oy: int, tx: int, ty: int, k: int) -> int {
    line_coord(oy, ty, k, cheb_dist(ox, oy, tx, ty))
}

/// No cell strictly between the origin and the target along the ray blocks
/// sight.
pub open spec fn path_clear(g: TileGrid, ox: int, oy: int, tx: int, ty: int) -> bool {
    forall|k: int|
        1 <= k < cheb_dist(ox, oy, tx, ty) ==> !(#[trigger] g.at(
            line_x(ox, oy, tx, ty, k),
            line_y(ox, oy, tx, ty, k),
        )).block_sight
}

/// The target cell is visible from the origin: within the radius, behind no
/// sight-blocking cell, and itself transparent unless lit walls are wanted.
pub open spec fn visible_from(
    g: TileGrid,
    ox: int,
    oy: int,
    tx: int,
    ty: int,
    radius: int,
    light_walls: bool,
) -> bool {
    &&& cheb_dist(ox, oy, tx, ty) <= radius
    &&& path_clear(g, ox, oy, tx, ty)
    &&& (light_walls || !g.at(tx, ty).block_sight)
}

/// The rounded interpolation step stays between its endpoints.
proof fn lemma_lerp_bound(d: int, k: int, n: int)
    requires
        0 <= d,
        1 <= n,
        0 <= k <= n,
    ensures
        0 <= (2 * k * d + n) / (2 * n) <= d,
{
    let num = 2 * k * d + n;
    assert(0 <= num < 2 * n * (d + 1)) by (nonlinear_arith)
        requires
            num == 2 * k * d + n,
            0 <= d,
            1 <= n,
            0 <= k <= n,
    ;
    lemma_fundamental_div_mod(num, 2 * n);
    let q = num / (2 * n);
    let r = num % (2 * n);
    assert(0 <= q <= d) by (nonlinear_arith)
        requires
            num == 2 * n * q + r,
            0 <= r < 2 * n,
            0 <= num,
            num < 2 * n * (d + 1),
            1 <= n,
    ;
}

/// One interpolation step, computed exactly as `line_coord` states it.
fn lerp_exec(a: usize, b: usize, k: usize, n: usize) -> (c: usize)
    requires
        a <= MAX_DIM,
        b <= MAX_DIM,
        1 <= n <= MAX_DIM,
        0 <= k <= n,
    ensures
        c == line_coord(a as int, b as int, k as int, n as int),
        min(a as int, b as int) <= c <= max(a as int, b as int),
{
    if b >= a {
        proof {
            lemma_lerp_bound(b - a, k as int, n as int);
            assert(2 * k * (b - a) <= 2 * MAX_DIM * MAX_DIM) by (nonlinear_arith)
                requires
                    k <= MAX_DIM,
                    b - a <= MAX_DIM,
            ;
        }
        let num: usize = 2 * k * (b - a) + n;
        a + num / (2 * n)
    } else {
        proof {
            lemma_lerp_bound(a - b, k as int, n as int);
            assert(2 * k * (a - b) <= 2 * MAX_DIM * MAX_DIM) by (nonlinear_arith)
                requires
                    k <= MAX_DIM,
                    a - b <= MAX_DIM,
            ;
        }
        let num: usize = 2 * k * (a - b) + n;
        a - num / (2 * n)
    }
}

/// The Chebyshev distance of two cells.
fn cheb_exec(ox: usize, oy: usize, tx: usize, ty: usize) -> (n: usize)
    requires
        ox <= MAX_DIM,
        oy <= MAX_DIM,
        tx <= MAX_DIM,
        ty <= MAX_DIM,
    ensures
        n == cheb_dist(ox as int, oy as int, tx as int, ty as int),
{
    let dx: usize = if tx >= ox {
        tx - ox
    } else {
        ox - tx
    };
    let dy: usize = if ty >= oy {
        ty - oy
    } else {
        oy - ty
    };
    if dx >= dy {
        dx
    } else {
        dy
    }
}

/// Walk the ray from the origin to the target and report whether every
/// strictly intermediate cell is transparent.
fn transparent_path(grid: &TileGrid, ox: usize, oy: usize, tx: usize, ty: usize) -> (b: bool)
    requires
        grid.wf(),
        grid.in_bounds(ox as int, oy as int),
        grid.in_bounds(tx as int, ty as int),
    ensures
        b == path_clear(*grid, ox as int, oy as int, tx as int, ty as int),
{
    let n = cheb_exec(ox, oy, tx, ty);
    let mut k: usize = 1;
    while k < n
        invariant
            grid.wf(),
            grid.in_bounds(ox as int, oy as int),
            grid.in_bounds(tx as int, ty as int),
            n == cheb_dist(ox as int, oy as int, tx as int, ty as int),
            1 <= k,
            k <= n || k == 1,
            forall|j: int|
                1 <= j < k ==> !(#[trigger] grid.at(
                    line_x(ox as int, oy as int, tx as int, ty as int, j),
                    line_y(ox as int, oy as int, tx as int, ty as int, j),
                )).block_sight,
        decreases n - k,
    {
        let cx = lerp_exec(ox, tx, k, n);
        let cy = lerp_exec(oy, ty, k, n);
        if grid.get(cx, cy).block_sight {
            proof {
                assert(grid.at(
                    line_x(ox as int, oy as int, tx as int, ty as int, k as int),
                    line_y(ox as int, oy as int, tx as int, ty as int, k as int),
                ).block_sight);
            }
            return false;
        }
        k += 1;
    }
    true
}

/// Whether one cell is visible from the origin, exactly as `visible_from`
/// states it.
fn compute_visible(
    grid: &TileGrid,
    ox: usize,
    oy: usize,
    tx: usize,
    ty: usize,
    radius: u32,
    light_walls: bool,
) -> (b: bool)
    requires
        grid.wf(),
        grid.in_bounds(ox as int, oy as int),
        grid.in_bounds(tx as int, ty as int),
    ensures
        b == visible_from(
            *grid,
            ox as int,
            oy as int,
            tx as int,
            ty as int,
            radius as int,
            light_walls,
        ),
{
    let n = cheb_exec(ox, oy, tx, ty);
    if n > radius as usize {
        return false;
    }
    if !transparent_path(grid, ox, oy, tx, ty) {
        return false;
    }
    if light_walls {
        true
    } else {
        !grid.get(tx, ty).block_sight
    }
}

/// The per-cell visibility of the latest field-of-view computation.
pub struct Fov {
    width: usize,
    height: usize,
    visible: Vec<bool>,
}

impl Fov {
    /// The flag store matches the field's shape.
    pub closed spec fn store_inv(self) -> bool {
        self.visible@.len() == self.width * self.height
    }

    /// The field's shape matches its store and stays within `MAX_DIM`.
    pub open spec fn wf(self) -> bool {
        &&& self.store_inv()
        &&& 1 <= self.spec_width() <= MAX_DIM
        &&& 1 <= self.spec_height() <= MAX_DIM
    }

    pub closed spec fn spec_width(self) -> int {
        self.width as int
    }

    pub closed spec fn spec_height(self) -> int {
        self.height as int
    }

    /// Whether cell `(x, y)` was visible at the latest recomputation.
    pub closed spec fn vis_at(self, x: int, y: int) -> bool {
        self.visible@[x * self.spec_height() + y]
    }

    pub open spec fn in_bounds(self, x: int, y: int) -> bool {
        0 <= x < self.spec_width() && 0 <= y < self.spec_height()
    }

    /// A fresh field of view with nothing visible yet.
    pub fn new(width: usize, height: usize) -> (f: Fov)
        requires
            1 <= width <= MAX_DIM,
            1 <= height <= MAX_DIM,
        ensures
            f.wf(),
            f.spec_width() == width,
            f.spec_height() == height,
            forall|x: int, y: int| f.in_bounds(x, y) ==> !f.vis_at(x, y),
    {
        proof {
            assert(width * height <= MAX_DIM * MAX_DIM) by (nonlinear_arith)
                requires
                    1 <= width <= MAX_DIM,
                    1 <= height <= MAX_DIM,
            ;
        }
        let total: usize = width * height;
        let mut visible: Vec<bool> = Vec::new();
        let mut i: usize = 0;
        while i < total
            invariant
                i <= total,
                visible@.len() == i,
                forall|j: int| 0 <= j < i ==> !visible@[j],
            decreases total - i,
        {
            visible.push(false);
            i += 1;
        }
        let f = Fov { width, height, visible };
        proof {
            assert forall|x: int, y: int| f.in_bounds(x, y) implies !f.vis_at(x, y) by {
                lemma_flat_index_bounds(x, y, width as int, height as int);
            }
        }
        f
    }

    /// Read the visibility flag at `(x, y)`.
    pub fn get(&self, x: usize, y: usize) -> (b: bool)
        requires
            self.wf(),
            self.in_bounds(x as int, y as int),
        ensures
            b == self.vis_at(x as int, y as int),
    {
        proof {
            lemma_flat_index_bounds(x as int, y as int, self.spec_width(), self.spec_height());
        }
        self.visible[x * self.height + y]
    }

    /// Current-frame visibility of `(x, y)`, rejecting coordinates outside
    /// the field. Valid only after the latest `recompute`.
    pub fn is_visible(&self, x: usize, y: usize) -> (r: Result<bool, GameError>)
        requires
            self.wf(),
        ensures
            self.in_bounds(x as int, y as int) ==> r == Result::<bool, GameError>::Ok(
                self.vis_at(x as int, y as int),
            ),
            !self.in_bounds(x as int, y as int) ==> r == Result::<bool, GameError>::Err(
                GameError::OutOfBounds,
            ),
    {
        if x < self.width && y < self.height {
            Ok(self.get(x, y))
        } else {
            Err(GameError::OutOfBounds)
        }
    }

    /// Overwrite the flag at `(x, y)`, leaving every other cell as it was.
    fn set(&mut self, x: usize, y: usize, v: bool)
        requires
            old(self).wf(),
            old(self).in_bounds(x as int, y as int),
        ensures
            final(self).wf(),
            final(self).spec_width() == old(self).spec_width(),
            final(self).spec_height() == old(self).spec_height(),
            final(self).vis_at(x as int, y as int) == v,
            forall|a: int, b: int|
                old(self).in_bounds(a, b) && (a != x || b != y) ==> final(self).vis_at(a, b) == old(
                    self,
                ).vis_at(a, b),
    {
        proof {
            lemma_flat_index_bounds(x as int, y as int, self.spec_width(), self.spec_height());
        }
        let idx: usize = x * self.height + y;
        self.visible[idx] = v;
        proof {
            let w = self.spec_width();
            let h = self.spec_height();
            assert forall|a: int, b: int|
                old(self).in_bounds(a, b) && (a != x || b != y) implies self.vis_at(a, b) == old(
                self,
            ).vis_at(a, b) by {
                lemma_flat_index_bounds(a, b, w, h);
                lemma_flat_index_injective(a, b, x as int, y as int, h);
            }
        }
    }

    /// Recompute the set of cells visible from `(ox, oy)` within `radius`,
    /// then fold it into the grid's persistent `explored` flags: a visible
    /// cell becomes explored, and no cell's `explored` flag ever reverts.
    /// Terrain flags are untouched. Intended to be called only when the
    /// origin moved since the last computation; skipping the call when it has
    /// not costs nothing, since the result depends only on the grid's
    /// terrain, the origin and the radius.
    pub fn recompute(
        &mut self,
        grid: &mut TileGrid,
        ox: usize,
        oy: usize,
        radius: u32,
        light_walls: bool,
    )
        requires
            old(self).wf(),
            old(grid).wf(),
            old(self).spec_width() == old(grid).spec_width(),
            old(self).spec_height() == old(grid).spec_height(),
            old(grid).in_bounds(ox as int, oy as int),
        ensures
            final(self).wf(),
            final(grid).wf(),
            final(self).spec_width() == old(self).spec_width(),
            final(self).spec_height() == old(self).spec_height(),
            final(grid).spec_width() == old(grid).spec_width(),
            final(grid).spec_height() == old(grid).spec_height(),
            forall|x: int, y: int|
                old(grid).in_bounds(x, y) ==> final(self).vis_at(x, y) == visible_from(
                    *old(grid),
                    ox as int,
                    oy as int,
                    x,
                    y,
                    radius as int,
                    light_walls,
                ),
            forall|x: int, y: int|
                old(grid).in_bounds(x, y) ==> final(grid).at(x, y) == (Tile {
                    explored: old(grid).at(x, y).explored || visible_from(
                        *old(grid),
                        ox as int,
                        oy as int,
                        x,
                        y,
                        radius as int,
                        light_walls,
                    ),
                    ..old(grid).at(x, y)
                }),
            forall|x: int, y: int|
                old(grid).in_bounds(x, y) && old(grid).at(x, y).explored ==> final(grid).at(
                    x,
                    y,
                ).explored,
            forall|x: int, y: int|
                old(grid).in_bounds(x, y) && final(self).vis_at(x, y) ==> cheb_dist(
                    ox as int,
                    oy as int,
                    x,
                    y,
                ) <= radius as int,
    {
        let width = grid.width();
        let height = grid.height();
        let mut x: usize = 0;
        while x < width
            invariant
                self.wf(),
                grid.wf(),
                self.spec_width() == grid.spec_width(),
                self.spec_height() == grid.spec_height(),
                grid == old(grid),
                grid.spec_width() == width,
                grid.spec_height() == height,
                grid.in_bounds(ox as int, oy as int),
                x <= width,
                forall|a: int, b: int|
                    grid.in_bounds(a, b) && a < x ==> self.vis_at(a, b) == visible_from(
                        *grid,
                        ox as int,
                        oy as int,
                        a,
                        b,
                        radius as int,
                        light_walls,
                    ),
            decreases width - x,
        {
            let mut y: usize = 0;
            while y < height
                invariant
                    self.wf(),
                    grid.wf(),
                    self.spec_width() == grid.spec_width(),
                    self.spec_height() == grid.spec_height(),
                    grid == old(grid),
                    grid.spec_width() == width,
                    grid.spec_height() == height,
                    grid.in_bounds(ox as int, oy as int),
                    x < width,
                    y <= height,
                    forall|a: int, b: int|
                        grid.in_bounds(a, b) && (a < x || (a == x && b < y)) ==> self.vis_at(a, b)
                            == visible_from(
                            *grid,
                            ox as int,
                            oy as int,
                            a,
                            b,
                            radius as int,
                            light_walls,
                        ),
                decreases height - y,
            {
                let v = compute_visible(grid, ox, oy, x, y, radius, light_walls);
                self.set(x, y, v);
                y += 1;
            }
            x += 1;
        }
        let ghost vis_done = *self;
        let mut x: usize = 0;
        while x < width
            invariant
                self.wf(),
                grid.wf(),
                *self == vis_done,
                self.spec_width() == grid.spec_width(),
                self.spec_height() == grid.spec_height(),
                grid.spec_width() == width,
                grid.spec_height() == height,
                x <= width,
                forall|a: int, b: int|
                    grid.in_bounds(a, b) ==> self.vis_at(a, b) == visible_from(
                        *old(grid),
                        ox as int,
                        oy as int,
                        a,
                        b,
                        radius as int,
                        light_walls,
                    ),
                forall|a: int, b: int|
                    grid.in_bounds(a, b) ==> grid.at(a, b) == (if a < x && self.vis_at(a, b) {
                        Tile { explored: true, ..old(grid).at(a, b) }
                    } else {
                        old(grid).at(a, b)
                    }),
            decreases width - x,
        {
            let mut y: usize = 0;
            while y < height
                invariant
                    self.wf(),
                    grid.wf(),
                    *self == vis_done,
                    self.spec_width() == grid.spec_width(),
                    self.spec_height() == grid.spec_height(),
                    grid.spec_width() == width,
                    grid.spec_height() == height,
                    x < width,
                    y <= height,
                    forall|a: int, b: int|
                        grid.in_bounds(a, b) ==> self.vis_at(a, b) == visible_from(
                            *old(grid),
                            ox as int,
                            oy as int,
                            a,
                            b,
                            radius as int,
                            light_walls,
                        ),
                    forall|a: int, b: int|
                        grid.in_bounds(a, b) ==> grid.at(a, b) == (if (a < x || (a == x && b < y))
                            && self.vis_at(a, b) {
                            Tile { explored: true, ..old(grid).at(a, b) }
                        } else {
                            old(grid).at(a, b)
                        }),
                decreases height - y,
            {
                if self.get(x, y) {
                    grid.set_explored(x, y);
                }
                y += 1;
            }
            x += 1;
        }
    }
}

} // verus!
