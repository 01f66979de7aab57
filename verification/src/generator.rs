use vstd::prelude::*;
use vstd::arithmetic::div_mod::lemma_fundamental_div_mod;
use vstd::math::max;
use vstd::math::min;
use crate::GameError;
use crate::geometry::Rect;
use crate::geometry::in_interior;
use crate::object::Color;
use crate::object::Object;
use crate::rng::DungeonRng;
use crate::rng::draw_of;
use crate::tile::MAX_DIM;
use crate::tile::Tile;
use crate::tile::TileGrid;
use crate::tile::empty_tile;
use crate::tile::wall_tile;

verus! {

/// Every cell of row `y` between columns `xa` and `xb` (inclusive, in either
/// order) is passable.
pub open spec fn h_clear(g: TileGrid, xa: int, xb: int, y: int) -> bool {
    forall|x: int| min(xa, xb) <= x <= max(xa, xb) ==> !(#[trigger] g.at(x, y)).blocked
}

/// Every cell of column `x` between rows `ya` and `yb` (inclusive, in either
/// order) is passable.
pub open spec fn v_clear(g: TileGrid, ya: int, yb: int, x: int) -> bool {
    forall|y: int| min(ya, yb) <= y <= max(ya, yb) ==> !(#[trigger] g.at(x, y)).blocked
}

/// Two points are joined by one carved horizontal segment and one carved
/// vertical segment, elbowing at either corner.
pub open spec fn elbow_connected(g: TileGrid, c1: (int, int), c2: (int, int)) -> bool {
    ||| (h_clear(g, c1.0, c2.0, c1.1) && v_clear(g, c1.1, c2.1, c2.0))
    ||| (v_clear(g, c1.1, c2.1, c1.0) && h_clear(g, c1.0, c2.0, c2.1))
}

/// A room the generator may accept: it lies inside the map with a one-cell
/// border to spare on the far edges, and its extents are within the
/// configured sizes.
pub open spec fn room_fits(r: Rect, width: int, height: int, room_min: int, room_max: int) -> bool {
    &&& 0 <= r.x1 && 0 <= r.y1
    &&& r.x2 < width && r.y2 < height
    &&& room_min <= r.x2 - r.x1 <= room_max
    &&& room_min <= r.y2 - r.y1 <= room_max
}

/// A generator configuration at least one room can satisfy: positive map
/// extents, rooms of at least two cells a side (so that every room has a
/// carved interior), and a maximum room size that leaves the sampled
/// top-left corner at least one choice.
pub open spec fn valid_config(width: int, height: int, room_min: int, room_max: int) -> bool {
    &&& 1 <= width && 1 <= height
    &&& 2 <= room_min <= room_max
    &&& room_max <= width - 1
    &&& room_max <= height - 1
}

/// A monster as the placer leaves it: strictly inside its room's interior,
/// blocking movement, not yet activated, one of the two species.
pub open spec fn monster_ok(o: Object, room: Rect) -> bool {
    &&& in_interior(room, o.x as int, o.y as int)
    &&& o.blocks
    &&& !o.alive
    &&& (o.glyph == 'o' || o.glyph == 'T')
    &&& (o.glyph == 'o' ==> o.name@ == "orc"@)
    &&& (o.glyph == 'T' ==> o.name@ == "troll"@)
}

/// The monster stands inside the interior of one of the accepted rooms.
pub open spec fn monster_housed(m: Object, rooms: Seq<Rect>) -> bool {
    exists|j: int| 0 <= j < rooms.len() && monster_ok(m, #[trigger] rooms[j])
}

/// Every placed monster stands inside the interior of one of the accepted
/// rooms.
pub open spec fn monsters_in_rooms(monsters: Seq<Object>, rooms: Seq<Rect>) -> bool {
    forall|i: int| 0 <= i < monsters.len() ==> monster_housed(#[trigger] monsters[i], rooms)
}

/// Appending monsters that live in a newly accepted room keeps every monster
/// housed once the room joins the list.
proof fn lemma_monsters_extend(
    m1: Seq<Object>,
    m2: Seq<Object>,
    r1: Seq<Rect>,
    r2: Seq<Rect>,
    room: Rect,
)
    requires
        monsters_in_rooms(m1, r1),
        r2 == r1.push(room),
        m1.len() <= m2.len(),
        forall|i: int| 0 <= i < m1.len() ==> m2[i] == m1[i],
        forall|i: int| m1.len() <= i < m2.len() ==> monster_ok(#[trigger] m2[i], room),
    ensures
        monsters_in_rooms(m2, r2),
{
    assert forall|i: int| 0 <= i < m2.len() implies monster_housed(#[trigger] m2[i], r2) by {
        if i < m1.len() {
            assert(m2[i] == m1[i]);
            assert(monster_housed(m1[i], r1));
            let j = choose|j: int| 0 <= j < r1.len() && monster_ok(m1[i], #[trigger] r1[j]);
            assert(r2[j] == r1[j]);
            assert(monster_ok(m2[i], r2[j]));
        } else {
            assert(r2[r2.len() - 1] == room);
            assert(monster_ok(m2[i], r2[r2.len() - 1]));
        }
    }
}

/// Everything `make_map` promises of a generated level.
pub open spec fn generated_ok(
    grid: TileGrid,
    rooms: Seq<Rect>,
    spawn: (i32, i32),
    monsters: Seq<Object>,
    width: int,
    height: int,
    max_rooms: int,
    room_min: int,
    room_max: int,
    max_monsters: int,
) -> bool {
    &&& grid.wf()
    &&& grid.spec_width() == width && grid.spec_height() == height
    &&& rooms.len() <= max_rooms
    &&& (max_rooms >= 1 ==> rooms.len() >= 1)
    &&& forall|i: int|
        0 <= i < rooms.len() ==> room_fits(#[trigger] rooms[i], width, height, room_min, room_max)
    &&& forall|i: int, j: int|
        0 <= i < j < rooms.len() ==> !(#[trigger] rooms[i]).spec_intersects(#[trigger] rooms[j])
    &&& forall|i: int|
        1 <= i < rooms.len() ==> elbow_connected(
            grid,
            rooms[i - 1].spec_center(),
            (#[trigger] rooms[i]).spec_center(),
        )
    &&& (rooms.len() >= 1 ==> (spawn.0 as int, spawn.1 as int) == rooms[0].spec_center() && !grid.at(
        spawn.0 as int,
        spawn.1 as int,
    ).blocked)
    &&& monsters_in_rooms(monsters, rooms)
    &&& forall|x: int, y: int|
        grid.in_bounds(x, y) ==> (#[trigger] grid.at(x, y) == wall_tile() || grid.at(x, y)
            == empty_tile())
}


/// The level a seed deterministically produces, modelled attempt by attempt:
/// the accepted rooms, the set of carved cells, the placed monsters (column,
/// row, species glyph), and the bounds of every draw made so far.
pub struct GenModel {
    pub rooms: Seq<Rect>,
    pub carved: Set<(int, int)>,
    pub monsters: Seq<(int, int, char)>,
    pub hist: Seq<(u64, u64)>,
}

/// Every placed monster agrees with the model's, field for field.
pub open spec fn monsters_match(ms: Seq<Object>, model: Seq<(int, int, char)>) -> bool {
    &&& ms.len() == model.len()
    &&& forall|i: int| 0 <= i < ms.len() ==> monster_is(#[trigger] ms[i], model[i])
}

/// The cells a room's carve opens.
pub open spec fn interior_set(r: Rect) -> Set<(int, int)> {
    Set::new(|p: (int, int)| in_interior(r, p.0, p.1))
}

/// The cells a horizontal corridor opens.
pub open spec fn h_seg(xa: int, xb: int, y: int) -> Set<(int, int)> {
    Set::new(|p: (int, int)| p.1 == y && min(xa, xb) <= p.0 <= max(xa, xb))
}

/// The cells a vertical corridor opens.
pub open spec fn v_seg(ya: int, yb: int, x: int) -> Set<(int, int)> {
    Set::new(|p: (int, int)| p.0 == x && min(ya, yb) <= p.1 <= max(ya, yb))
}

/// One generator attempt, as a pure function of the seed and the state so
/// far: sample a candidate room, reject it on overlap, otherwise carve it,
/// place its monsters, and join it to the previously accepted room.
pub open spec fn gen_step(
    seed: u64,
    width: int,
    height: int,
    room_min: u64,
    room_max: u64,
    maxm: u32,
    st: GenModel,
) -> GenModel {
    let wd = draw_of(seed, st.hist, room_min, (room_max + 1) as u64);
    let h1 = st.hist.push((room_min, (room_max + 1) as u64));
    let hd = draw_of(seed, h1, room_min, (room_max + 1) as u64);
    let h2 = h1.push((room_min, (room_max + 1) as u64));
    let xd = draw_of(seed, h2, 0u64, (width - wd) as u64);
    let h3 = h2.push((0u64, (width - wd) as u64));
    let yd = draw_of(seed, h3, 0u64, (height - hd) as u64);
    let h4 = h3.push((0u64, (height - hd) as u64));
    let cand = Rect { x1: xd as i32, y1: yd as i32, x2: (xd + wd) as i32, y2: (yd + hd) as i32 };
    if exists|j: int| 0 <= j < st.rooms.len() && cand.spec_intersects(#[trigger] st.rooms[j]) {
        GenModel { rooms: st.rooms, carved: st.carved, monsters: st.monsters, hist: h4 }
    } else {
        let carved1 = st.carved.union(interior_set(cand));
        let h5 = place_draw_hist(seed, h4, cand, maxm);
        let monsters1 = st.monsters + Seq::new(
            placed_count(seed, h4, maxm) as nat,
            |i: int| placed_monster(seed, h4, cand, maxm, i as nat),
        );
        if st.rooms.len() == 0 {
            GenModel { rooms: st.rooms.push(cand), carved: carved1, monsters: monsters1, hist: h5 }
        } else {
            let prev = st.rooms[st.rooms.len() - 1];
            let pc = prev.spec_center();
            let nc = cand.spec_center();
            let coin = draw_of(seed, h5, 0u64, 2u64);
            let h6 = h5.push((0u64, 2u64));
            let segs = if coin == 1 {
                h_seg(pc.0, nc.0, pc.1).union(v_seg(pc.1, nc.1, nc.0))
            } else {
                v_seg(pc.1, nc.1, pc.0).union(h_seg(pc.0, nc.0, nc.1))
            };
            GenModel {
                rooms: st.rooms.push(cand),
                carved: carved1.union(segs),
                monsters: monsters1,
                hist: h6,
            }
        }
    }
}

/// The model after `k` attempts from a fresh grid.
pub open spec fn gen_iter(
    seed: u64,
    h0: Seq<(u64, u64)>,
    width: int,
    height: int,
    room_min: u64,
    room_max: u64,
    maxm: u32,
    k: nat,
) -> GenModel
    decreases k,
{
    if k == 0 {
        GenModel { rooms: Seq::empty(), carved: Set::empty(), monsters: Seq::empty(), hist: h0 }
    } else {
        gen_step(
            seed,
            width,
            height,
            room_min,
            room_max,
            maxm,
            gen_iter(seed, h0, width, height, room_min, room_max, maxm, (k - 1) as nat),
        )
    }
}

/// A generated level agrees with its seed's model: the room list is the
/// model's, a cell is floor exactly when the model carved it, and every
/// monster stands where the model placed it, with the model's species.
pub open spec fn matches_model(
    grid: TileGrid,
    rooms: Seq<Rect>,
    monsters: Seq<Object>,
    seed: u64,
    h0: Seq<(u64, u64)>,
    width: int,
    height: int,
    room_min: u64,
    room_max: u64,
    maxm: u32,
    attempts: nat,
) -> bool {
    let m = gen_iter(seed, h0, width, height, room_min, room_max, maxm, attempts);
    &&& rooms == m.rooms
    &&& monsters_match(monsters, m.monsters)
    &&& forall|x: int, y: int|
        grid.in_bounds(x, y) ==> #[trigger] grid.at(x, y) == (if m.carved.contains((x, y)) {
            empty_tile()
        } else {
            wall_tile()
        })
}

/// Determinism of generation: two levels built from the same seed, prior
/// draw history, map extents and room parameters agree room for room, cell
/// for cell, and monster for monster; the names agree too, since each
/// species glyph fixes its name.
pub proof fn lemma_generation_deterministic(
    g1: TileGrid,
    r1: Seq<Rect>,
    m1: Seq<Object>,
    g2: TileGrid,
    r2: Seq<Rect>,
    m2: Seq<Object>,
    seed: u64,
    h0: Seq<(u64, u64)>,
    width: int,
    height: int,
    room_min: u64,
    room_max: u64,
    maxm: u32,
    attempts: nat,
)
    requires
        g1.spec_width() == width,
        g1.spec_height() == height,
        g2.spec_width() == width,
        g2.spec_height() == height,
        matches_model(g1, r1, m1, seed, h0, width, height, room_min, room_max, maxm, attempts),
        matches_model(g2, r2, m2, seed, h0, width, height, room_min, room_max, maxm, attempts),
        monsters_in_rooms(m1, r1),
        monsters_in_rooms(m2, r2),
    ensures
        r1 == r2,
        forall|x: int, y: int| g1.in_bounds(x, y) ==> g1.at(x, y) == g2.at(x, y),
        m1.len() == m2.len(),
        forall|i: int|
            0 <= i < m1.len() ==> (#[trigger] m1[i]).x == m2[i].x && m1[i].y == m2[i].y
                && m1[i].glyph == m2[i].glyph && m1[i].name@ == m2[i].name@,
{
    assert forall|x: int, y: int| g1.in_bounds(x, y) implies g1.at(x, y) == g2.at(x, y) by {
        assert(g2.in_bounds(x, y));
        assert(g2.at(x, y) == g1.at(x, y));
    }
    assert forall|i: int|
        0 <= i < m1.len() implies (#[trigger] m1[i]).x == m2[i].x && m1[i].y == m2[i].y
        && m1[i].glyph == m2[i].glyph && m1[i].name@ == m2[i].name@ by {
        assert(monster_housed(m1[i], r1));
        assert(monster_housed(m2[i], r2));
        let j1 = choose|j: int| 0 <= j < r1.len() && monster_ok(m1[i], #[trigger] r1[j]);
        let j2 = choose|j: int| 0 <= j < r2.len() && monster_ok(m2[i], #[trigger] r2[j]);
        assert(monster_ok(m1[i], r1[j1]));
        assert(monster_ok(m2[i], r2[j2]));
    }
}

/// Carve the open interior of `room` to floor, leaving a one-tile border
/// against the rectangle's own edges and every other cell untouched.
pub fn create_room(room: Rect, grid: &mut TileGrid)
    requires
        old(grid).wf(),
        0 <= room.x1 <= old(grid).spec_width(),
        0 <= room.y1 <= old(grid).spec_height(),
        room.x2 <= old(grid).spec_width(),
        room.y2 <= old(grid).spec_height(),
    ensures
        final(grid).wf(),
        final(grid).spec_width() == old(grid).spec_width(),
        final(grid).spec_height() == old(grid).spec_height(),
        forall|a: int, b: int|
            old(grid).in_bounds(a, b) ==> final(grid).at(a, b) == (if in_interior(room, a, b) {
                empty_tile()
            } else {
                old(grid).at(a, b)
            }),
{
    let mut x: i32 = room.x1 + 1;
    while x < room.x2
        invariant
            grid.wf(),
            grid.spec_width() == old(grid).spec_width(),
            grid.spec_height() == old(grid).spec_height(),
            0 <= room.x1 <= grid.spec_width(),
            0 <= room.y1 <= grid.spec_height(),
            room.x2 <= grid.spec_width(),
            room.y2 <= grid.spec_height(),
            room.x1 + 1 <= x,
            forall|a: int, b: int|
                grid.in_bounds(a, b) ==> grid.at(a, b) == (if room.x1 < a < x && a < room.x2
                    && room.y1 < b < room.y2 {
                    empty_tile()
                } else {
                    old(grid).at(a, b)
                }),
        decreases room.x2 - x,
    {
        let mut y: i32 = room.y1 + 1;
        while y < room.y2
            invariant
                grid.wf(),
                grid.spec_width() == old(grid).spec_width(),
                grid.spec_height() == old(grid).spec_height(),
                0 <= room.x1,
                0 <= room.y1,
                room.x2 <= grid.spec_width(),
                room.y2 <= grid.spec_height(),
                room.x1 + 1 <= x < room.x2,
                room.y1 + 1 <= y,
                forall|a: int, b: int|
                    grid.in_bounds(a, b) ==> grid.at(a, b) == (if (room.x1 < a < x && a < room.x2
                        && room.y1 < b < room.y2) || (a == x && room.y1 < b < y && b < room.y2) {
                        empty_tile()
                    } else {
                        old(grid).at(a, b)
                    }),
            decreases room.y2 - y,
        {
            grid.set(x as usize, y as usize, Tile::empty());
            y += 1;
        }
        x += 1;
    }
}

/// Carve a horizontal corridor along row `y` between columns `x1` and `x2`,
/// inclusive on both ends and in either order.
pub fn create_h_tunnel(x1: i32, x2: i32, y: i32, grid: &mut TileGrid)
    requires
        old(grid).wf(),
        0 <= min(x1 as int, x2 as int),
        max(x1 as int, x2 as int) < old(grid).spec_width(),
        0 <= y < old(grid).spec_height(),
    ensures
        final(grid).wf(),
        final(grid).spec_width() == old(grid).spec_width(),
        final(grid).spec_height() == old(grid).spec_height(),
        forall|a: int, b: int|
            old(grid).in_bounds(a, b) ==> final(grid).at(a, b) == (if b == y && min(
                x1 as int,
                x2 as int,
            ) <= a <= max(x1 as int, x2 as int) {
                empty_tile()
            } else {
                old(grid).at(a, b)
            }),
        h_clear(*final(grid), x1 as int, x2 as int, y as int),
{
    let lo: i32 = if x1 <= x2 {
        x1
    } else {
        x2
    };
    let hi: i32 = if x1 <= x2 {
        x2
    } else {
        x1
    };
    let mut a: i32 = lo;
    while a <= hi
        invariant
            grid.wf(),
            grid.spec_width() == old(grid).spec_width(),
            grid.spec_height() == old(grid).spec_height(),
            lo == min(x1 as int, x2 as int),
            hi == max(x1 as int, x2 as int),
            0 <= lo,
            hi < grid.spec_width(),
            0 <= y < grid.spec_height(),
            lo <= a <= hi + 1,
            forall|c: int, b: int|
                grid.in_bounds(c, b) ==> grid.at(c, b) == (if b == y && lo <= c < a {
                    empty_tile()
                } else {
                    old(grid).at(c, b)
                }),
        decreases hi + 1 - a,
    {
        grid.set(a as usize, y as usize, Tile::empty());
        a += 1;
    }
}

/// Carve a vertical corridor along column `x` between rows `y1` and `y2`,
/// inclusive on both ends and in either order.
pub fn create_v_tunnel(y1: i32, y2: i32, x: i32, grid: &mut TileGrid)
    requires
        old(grid).wf(),
        0 <= min(y1 as int, y2 as int),
        max(y1 as int, y2 as int) < old(grid).spec_height(),
        0 <= x < old(grid).spec_width(),
    ensures
        final(grid).wf(),
        final(grid).spec_width() == old(grid).spec_width(),
        final(grid).spec_height() == old(grid).spec_height(),
        forall|a: int, b: int|
            old(grid).in_bounds(a, b) ==> final(grid).at(a, b) == (if a == x && min(
                y1 as int,
                y2 as int,
            ) <= b <= max(y1 as int, y2 as int) {
                empty_tile()
            } else {
                old(grid).at(a, b)
            }),
        v_clear(*final(grid), y1 as int, y2 as int, x as int),
{
    let lo: i32 = if y1 <= y2 {
        y1
    } else {
        y2
    };
    let hi: i32 = if y1 <= y2 {
        y2
    } else {
        y1
    };
    let mut b: i32 = lo;
    while b <= hi
        invariant
            grid.wf(),
            grid.spec_width() == old(grid).spec_width(),
            grid.spec_height() == old(grid).spec_height(),
            lo == min(y1 as int, y2 as int),
            hi == max(y1 as int, y2 as int),
            0 <= lo,
            hi < grid.spec_height(),
            0 <= x < grid.spec_width(),
            lo <= b <= hi + 1,
            forall|a: int, c: int|
                grid.in_bounds(a, c) ==> grid.at(a, c) == (if a == x && lo <= c < b {
                    empty_tile()
                } else {
                    old(grid).at(a, c)
                }),
        decreases hi + 1 - b,
    {
        grid.set(x as usize, b as usize, Tile::empty());
        b += 1;
    }
}

/// The bounds pushed onto the draw history by placing `k` monsters in
/// `room`: each monster draws a column, a row and a species weight.
pub open spec fn monster_draw_hist(hist: Seq<(u64, u64)>, room: Rect, k: nat) -> Seq<(u64, u64)>
    decreases k,
{
    if k == 0 {
        hist
    } else {
        monster_draw_hist(hist, room, (k - 1) as nat).push(
            (((room.x1 + 1) as u64, room.x2 as u64)),
        ).push((((room.y1 + 1) as u64, room.y2 as u64))).push((0u64, 100u64))
    }
}

/// How many monsters `place_objects` puts in a room: the seeded stream's
/// answer to the count draw.
pub open spec fn placed_count(seed: u64, hist: Seq<(u64, u64)>, maxm: u32) -> u64 {
    draw_of(seed, hist, 0u64, (maxm as u64 + 1) as u64)
}

/// The column, row and species glyph of the `i`-th monster placed in `room`,
/// as a pure function of the seed and of the draw history at placement
/// start: each monster draws its column, its row, and a species weight, the
/// common species winning on weights below eighty of one hundred.
pub open spec fn placed_monster(
    seed: u64,
    hist: Seq<(u64, u64)>,
    room: Rect,
    maxm: u32,
    i: nat,
) -> (int, int, char) {
    let hi = monster_draw_hist(hist.push((0u64, (maxm as u64 + 1) as u64)), room, i);
    let xd = draw_of(seed, hi, (room.x1 + 1) as u64, room.x2 as u64);
    let hx = hi.push(((room.x1 + 1) as u64, room.x2 as u64));
    let yd = draw_of(seed, hx, (room.y1 + 1) as u64, room.y2 as u64);
    let hy = hx.push(((room.y1 + 1) as u64, room.y2 as u64));
    let sd = draw_of(seed, hy, 0u64, 100u64);
    (xd as int, yd as int, if sd < 80 { 'o' } else { 'T' })
}

/// The observable fields the placement model pins: position and species.
pub open spec fn monster_is(o: Object, pm: (int, int, char)) -> bool {
    o.x as int == pm.0 && o.y as int == pm.1 && o.glyph == pm.2
}

/// The draw history after `place_objects` runs on `room`: one count draw,
/// then three draws per monster; the count itself is the seeded stream's
/// answer to the first draw.
pub open spec fn place_draw_hist(
    seed: u64,
    hist: Seq<(u64, u64)>,
    room: Rect,
    maxm: u32,
) -> Seq<(u64, u64)> {
    let n = draw_of(seed, hist, 0u64, (maxm as u64 + 1) as u64);
    monster_draw_hist(hist.push((0u64, (maxm as u64 + 1) as u64)), room, n as nat)
}

/// Populate a room with a uniformly drawn number of monsters, each placed
/// uniformly in the room's interior; roughly four of five are orcs, the rest
/// trolls.
pub fn place_objects(
    room: Rect,
    max_room_monsters: u32,
    rng: &mut DungeonRng,
    objects: &mut Vec<Object>,
)
    requires
        0 <= room.x1,
        0 <= room.y1,
        room.x1 + 2 <= room.x2,
        room.y1 + 2 <= room.y2,
        room.x2 <= MAX_DIM as int,
        room.y2 <= MAX_DIM as int,
    ensures
        old(objects)@.len() <= final(objects)@.len() <= old(objects)@.len()
            + max_room_monsters as int,
        forall|i: int| 0 <= i < old(objects)@.len() ==> final(objects)@[i] == old(objects)@[i],
        forall|i: int|
            old(objects)@.len() <= i < final(objects)@.len() ==> monster_ok(
                #[trigger] final(objects)@[i],
                room,
            ),
        final(rng).seed() == old(rng).seed(),
        final(rng).history() == place_draw_hist(
            old(rng).seed(),
            old(rng).history(),
            room,
            max_room_monsters,
        ),
        final(objects)@.len() == old(objects)@.len() + placed_count(
            old(rng).seed(),
            old(rng).history(),
            max_room_monsters,
        ),
        forall|i: int|
            old(objects)@.len() <= i < final(objects)@.len() ==> monster_is(
                #[trigger] final(objects)@[i],
                placed_monster(
                    old(rng).seed(),
                    old(rng).history(),
                    room,
                    max_room_monsters,
                    (i - old(objects)@.len()) as nat,
                ),
            ),
{
    let ghost h0 = rng.history();
    let n: u64 = rng.roll(0, max_room_monsters as u64 + 1);
    let mut k: u64 = 0;
    while k < n
        invariant
            k <= n,
            n <= max_room_monsters as u64,
            0 <= room.x1,
            0 <= room.y1,
            room.x1 + 2 <= room.x2,
            room.y1 + 2 <= room.y2,
            room.x2 <= MAX_DIM as int,
            room.y2 <= MAX_DIM as int,
            objects@.len() == old(objects)@.len() + k,
            forall|i: int| 0 <= i < old(objects)@.len() ==> objects@[i] == old(objects)@[i],
            forall|i: int|
                old(objects)@.len() <= i < objects@.len() ==> monster_ok(
                    #[trigger] objects@[i],
                    room,
                ),
            rng.seed() == old(rng).seed(),
            n == draw_of(old(rng).seed(), h0, 0u64, (max_room_monsters as u64 + 1) as u64),
            rng.history() == monster_draw_hist(
                h0.push((0u64, (max_room_monsters as u64 + 1) as u64)),
                room,
                k as nat,
            ),
            forall|i: int|
                old(objects)@.len() <= i < objects@.len() ==> monster_is(
                    #[trigger] objects@[i],
                    placed_monster(
                        old(rng).seed(),
                        h0,
                        room,
                        max_room_monsters,
                        (i - old(objects)@.len()) as nat,
                    ),
                ),
        decreases n - k,
    {
        let mx = rng.roll(room.x1 as u64 + 1, room.x2 as u64) as i32;
        let my = rng.roll(room.y1 as u64 + 1, room.y2 as u64) as i32;
        let species = rng.roll(0, 100);
        let monster = if species < 80 {
            Object::new(mx, my, 'o', "orc", Color { r: 106, g: 190, b: 48 }, true)
        } else {
            Object::new(mx, my, 'T', "troll", Color { r: 106, g: 190, b: 48 }, true)
        };
        objects.push(monster);
        k += 1;
    }
}

/// Half of a sum, bracketed: the floor midpoint of `[2*lo, 2*hi]` lies in
/// `[lo, hi]`.
proof fn lemma_half_bounds(lo: int, s: int, hi: int)
    requires
        2 * lo <= s <= 2 * hi,
    ensures
        lo <= s / 2 <= hi,
{
    lemma_fundamental_div_mod(s, 2);
}

/// A room with a nonempty interior holds its own center.
proof fn lemma_center_in_interior(r: Rect)
    requires
        r.x1 + 2 <= r.x2,
        r.y1 + 2 <= r.y2,
    ensures
        in_interior(r, r.spec_center().0, r.spec_center().1),
{
    lemma_half_bounds(r.x1 + 1, r.x1 + r.x2, r.x2 - 1);
    lemma_half_bounds(r.y1 + 1, r.y1 + r.y2, r.y2 - 1);
}

/// Carving only ever unblocks cells, so an elbow connection between two
/// in-bounds points survives any later carve.
proof fn lemma_preserve_elbow(g1: TileGrid, g2: TileGrid, c1: (int, int), c2: (int, int))
    requires
        g1.spec_width() == g2.spec_width(),
        g1.spec_height() == g2.spec_height(),
        forall|x: int, y: int|
            g1.in_bounds(x, y) && !(#[trigger] g1.at(x, y)).blocked ==> !g2.at(x, y).blocked,
        g1.in_bounds(c1.0, c1.1),
        g1.in_bounds(c2.0, c2.1),
        elbow_connected(g1, c1, c2),
    ensures
        elbow_connected(g2, c1, c2),
{
    if h_clear(g1, c1.0, c2.0, c1.1) && v_clear(g1, c1.1, c2.1, c2.0) {
        assert forall|x: int| min(c1.0, c2.0) <= x <= max(c1.0, c2.0) implies !(#[trigger] g2.at(
            x,
            c1.1,
        )).blocked by {
            assert(g1.in_bounds(x, c1.1));
            assert(!g1.at(x, c1.1).blocked);
        }
        assert forall|y: int| min(c1.1, c2.1) <= y <= max(c1.1, c2.1) implies !(#[trigger] g2.at(
            c2.0,
            y,
        )).blocked by {
            assert(g1.in_bounds(c2.0, y));
            assert(!g1.at(c2.0, y).blocked);
        }
        assert(h_clear(g2, c1.0, c2.0, c1.1) && v_clear(g2, c1.1, c2.1, c2.0));
    } else {
        assert forall|y: int| min(c1.1, c2.1) <= y <= max(c1.1, c2.1) implies !(#[trigger] g2.at(
            c1.0,
            y,
        )).blocked by {
            assert(g1.in_bounds(c1.0, y));
            assert(!g1.at(c1.0, y).blocked);
        }
        assert forall|x: int| min(c1.0, c2.0) <= x <= max(c1.0, c2.0) implies !(#[trigger] g2.at(
            x,
            c2.1,
        )).blocked by {
            assert(g1.in_bounds(x, c2.1));
            assert(!g1.at(x, c2.1).blocked);
        }
        assert(v_clear(g2, c1.1, c2.1, c1.0) && h_clear(g2, c1.0, c2.0, c2.1));
    }
}

/// Build one dungeon level: a grid initially all wall, up to `max_rooms`
/// accepted non-overlapping rooms carved into it, each joined to the
/// previously accepted room by one horizontal and one vertical corridor, the
/// first room's center as the player spawn, and the monsters placed in the
/// rooms. Rejected candidates still consume an attempt, so fewer than
/// `max_rooms` rooms may come back. A configuration no room can satisfy is
/// rejected outright, before any grid is built.
pub fn make_map(
    width: i32,
    height: i32,
    max_rooms: u32,
    room_min: i32,
    room_max: i32,
    max_room_monsters: u32,
    rng: &mut DungeonRng,
) -> (r: Result<(TileGrid, Vec<Rect>, (i32, i32), Vec<Object>), GameError>)
    requires
        width <= MAX_DIM as int,
        height <= MAX_DIM as int,
    ensures
        !valid_config(width as int, height as int, room_min as int, room_max as int) ==> r
            == Result::<(TileGrid, Vec<Rect>, (i32, i32), Vec<Object>), GameError>::Err(
            GameError::Configuration,
        ),
        valid_config(width as int, height as int, room_min as int, room_max as int) ==> (r matches Ok(
            out,
        ) && generated_ok(
            out.0,
            out.1@,
            out.2,
            out.3@,
            width as int,
            height as int,
            max_rooms as int,
            room_min as int,
            room_max as int,
            max_room_monsters as int,
        ) && matches_model(
            out.0,
            out.1@,
            out.3@,
            old(rng).seed(),
            old(rng).history(),
            width as int,
            height as int,
            room_min as u64,
            room_max as u64,
            max_room_monsters,
            max_rooms as nat,
        )),
        final(rng).seed() == old(rng).seed(),
{
    if !(width >= 1 && height >= 1 && room_min >= 2 && room_min <= room_max && room_max <= width - 1
        && room_max <= height - 1) {
        return Err(GameError::Configuration);
    }
    let ghost seed0 = rng.seed();
    let ghost hist0 = rng.history();
    let mut grid = TileGrid::new_filled(width as usize, height as usize);
    let mut rooms: Vec<Rect> = Vec::new();
    let mut monsters: Vec<Object> = Vec::new();
    let mut spawn: (i32, i32) = (0, 0);
    let mut attempt: u32 = 0;
    while attempt < max_rooms
        invariant
            valid_config(width as int, height as int, room_min as int, room_max as int),
            width <= MAX_DIM as int,
            height <= MAX_DIM as int,
            grid.wf(),
            grid.spec_width() == width,
            grid.spec_height() == height,
            attempt <= max_rooms,
            rooms@.len() <= attempt,
            attempt >= 1 ==> rooms@.len() >= 1,
            forall|i: int|
                0 <= i < rooms@.len() ==> room_fits(
                    #[trigger] rooms@[i],
                    width as int,
                    height as int,
                    room_min as int,
                    room_max as int,
                ),
            forall|i: int, j: int|
                0 <= i < j < rooms@.len() ==> !(#[trigger] rooms@[i]).spec_intersects(
                    #[trigger] rooms@[j],
                ),
            forall|i: int|
                1 <= i < rooms@.len() ==> elbow_connected(
                    grid,
                    rooms@[i - 1].spec_center(),
                    (#[trigger] rooms@[i]).spec_center(),
                ),
            rooms@.len() >= 1 ==> (spawn.0 as int, spawn.1 as int) == rooms@[0].spec_center()
                && !grid.at(spawn.0 as int, spawn.1 as int).blocked,
            monsters_in_rooms(monsters@, rooms@),
            forall|x: int, y: int|
                grid.in_bounds(x, y) ==> (#[trigger] grid.at(x, y) == wall_tile() || grid.at(x, y)
                    == empty_tile()),
            rng.seed() == old(rng).seed(),
            rng.seed() == seed0,
            rooms@ == gen_iter(
                seed0,
                hist0,
                width as int,
                height as int,
                room_min as u64,
                room_max as u64,
                max_room_monsters,
                attempt as nat,
            ).rooms,
            monsters_match(
                monsters@,
                gen_iter(
                    seed0,
                    hist0,
                    width as int,
                    height as int,
                    room_min as u64,
                    room_max as u64,
                    max_room_monsters,
                    attempt as nat,
                ).monsters,
            ),
            rng.history() == gen_iter(
                seed0,
                hist0,
                width as int,
                height as int,
                room_min as u64,
                room_max as u64,
                max_room_monsters,
                attempt as nat,
            ).hist,
            forall|a: int, b: int|
                grid.in_bounds(a, b) ==> #[trigger] grid.at(a, b) == (if gen_iter(
                    seed0,
                    hist0,
                    width as int,
                    height as int,
                    room_min as u64,
                    room_max as u64,
                    max_room_monsters,
                    attempt as nat,
                ).carved.contains((a, b)) {
                    empty_tile()
                } else {
                    wall_tile()
                }),
        decreases max_rooms - attempt,
    {
        let ghost st = gen_iter(
            seed0,
            hist0,
            width as int,
            height as int,
            room_min as u64,
            room_max as u64,
            max_room_monsters,
            attempt as nat,
        );
        let ghost stp = gen_step(
            seed0,
            width as int,
            height as int,
            room_min as u64,
            room_max as u64,
            max_room_monsters,
            st,
        );
        proof {
            assert(gen_iter(
                seed0,
                hist0,
                width as int,
                height as int,
                room_min as u64,
                room_max as u64,
                max_room_monsters,
                (attempt + 1) as nat,
            ) == stp);
        }
        let wr = rng.roll(room_min as u64, room_max as u64 + 1);
        let hr = rng.roll(room_min as u64, room_max as u64 + 1);
        let w = wr as i32;
        let h = hr as i32;
        let xr = rng.roll(0, (width - w) as u64);
        let yr = rng.roll(0, (height - h) as u64);
        let x = xr as i32;
        let y = yr as i32;

        let new_room = Rect::new(x, y, w, h);

        let mut failed = false;
        let mut i: usize = 0;
        while i < rooms.len()
            invariant
                i <= rooms@.len(),
                !failed ==> forall|j: int|
                    0 <= j < i ==> !new_room.spec_intersects(#[trigger] rooms@[j]),
                failed ==> exists|j: int|
                    0 <= j < rooms@.len() && new_room.spec_intersects(#[trigger] rooms@[j]),
            decreases rooms@.len() - i,
        {
            if new_room.intersects_with(&rooms[i]) {
                failed = true;
            }
            i += 1;
        }
        proof {
            if failed {
                let j = choose|j: int|
                    0 <= j < rooms@.len() && new_room.spec_intersects(#[trigger] rooms@[j]);
                assert(st.rooms[j] == rooms@[j]);
                assert(0 <= j < st.rooms.len() && new_room.spec_intersects(st.rooms[j]));
            } else {
                assert forall|j: int|
                    0 <= j < st.rooms.len() implies !new_room.spec_intersects(
                    #[trigger] st.rooms[j],
                ) by {
                    assert(st.rooms[j] == rooms@[j]);
                }
            }
            assert(failed == (exists|j: int|
                0 <= j < st.rooms.len() && new_room.spec_intersects(#[trigger] st.rooms[j])));
        }

        if !failed {
            let ghost pre_carve = grid;
            create_room(new_room, &mut grid);
            proof {
                lemma_room_step(pre_carve, grid, rooms@, new_room, spawn, room_min as int, room_max as int);
                assert forall|a: int, b: int| grid.in_bounds(a, b) implies grid.at(a, b) == (if st.carved.union(
                    interior_set(new_room),
                ).contains((a, b)) {
                    empty_tile()
                } else {
                    wall_tile()
                }) by {
                    assert(pre_carve.at(a, b) == (if st.carved.contains((a, b)) {
                        empty_tile()
                    } else {
                        wall_tile()
                    }));
                    if in_interior(new_room, a, b) {
                        assert(interior_set(new_room).contains((a, b)));
                    } else {
                        assert(!interior_set(new_room).contains((a, b)));
                    }
                }
            }
            let ghost pre_monsters = monsters@;
            place_objects(new_room, max_room_monsters, rng, &mut monsters);

            let (new_x, new_y) = new_room.center();
            proof {
                lemma_center_in_interior(new_room);
            }

            if rooms.len() == 0 {
                spawn = (new_x, new_y);
                proof {
                    assert(in_interior(new_room, new_x as int, new_y as int));
                    assert(!grid.at(new_x as int, new_y as int).blocked);
                }
            } else {
                let prev = rooms[rooms.len() - 1];
                let (prev_x, prev_y) = prev.center();
                proof {
                    lemma_center_in_interior(prev);
                }
                let coin = rng.roll(0, 2);
                let ghost pre_tunnel = grid;
                if coin == 1 {
                    create_h_tunnel(prev_x, new_x, prev_y, &mut grid);
                    let ghost mid = grid;
                    create_v_tunnel(prev_y, new_y, new_x, &mut grid);
                    proof {
                        lemma_tunnel_steps(pre_tunnel, mid, grid, rooms@, spawn, room_min as int, room_max as int);
                        assert(h_clear(grid, prev_x as int, new_x as int, prev_y as int)) by {
                            assert forall|c: int|
                                min(prev_x as int, new_x as int) <= c <= max(
                                    prev_x as int,
                                    new_x as int,
                                ) implies !(#[trigger] grid.at(c, prev_y as int)).blocked by {
                                assert(!mid.at(c, prev_y as int).blocked);
                            }
                        }
                        assert forall|a: int, b: int| grid.in_bounds(a, b) implies grid.at(a, b)
                            == (if st.carved.union(interior_set(new_room)).union(
                            h_seg(prev_x as int, new_x as int, prev_y as int).union(
                                v_seg(prev_y as int, new_y as int, new_x as int),
                            ),
                        ).contains((a, b)) {
                            empty_tile()
                        } else {
                            wall_tile()
                        }) by {
                            assert(h_seg(prev_x as int, new_x as int, prev_y as int).contains(
                                (a, b),
                            ) == (b == prev_y as int && min(prev_x as int, new_x as int) <= a <= max(
                                prev_x as int,
                                new_x as int,
                            )));
                            assert(v_seg(prev_y as int, new_y as int, new_x as int).contains(
                                (a, b),
                            ) == (a == new_x as int && min(prev_y as int, new_y as int) <= b <= max(
                                prev_y as int,
                                new_y as int,
                            )));
                        }
                    }
                } else {
                    create_v_tunnel(prev_y, new_y, prev_x, &mut grid);
                    let ghost mid = grid;
                    create_h_tunnel(prev_x, new_x, new_y, &mut grid);
                    proof {
                        lemma_tunnel_steps(pre_tunnel, mid, grid, rooms@, spawn, room_min as int, room_max as int);
                        assert(v_clear(grid, prev_y as int, new_y as int, prev_x as int)) by {
                            assert forall|c: int|
                                min(prev_y as int, new_y as int) <= c <= max(
                                    prev_y as int,
                                    new_y as int,
                                ) implies !(#[trigger] grid.at(prev_x as int, c)).blocked by {
                                assert(!mid.at(prev_x as int, c).blocked);
                            }
                        }
                        assert forall|a: int, b: int| grid.in_bounds(a, b) implies grid.at(a, b)
                            == (if st.carved.union(interior_set(new_room)).union(
                            v_seg(prev_y as int, new_y as int, prev_x as int).union(
                                h_seg(prev_x as int, new_x as int, new_y as int),
                            ),
                        ).contains((a, b)) {
                            empty_tile()
                        } else {
                            wall_tile()
                        }) by {
                            assert(v_seg(prev_y as int, new_y as int, prev_x as int).contains(
                                (a, b),
                            ) == (a == prev_x as int && min(prev_y as int, new_y as int) <= b <= max(
                                prev_y as int,
                                new_y as int,
                            )));
                            assert(h_seg(prev_x as int, new_x as int, new_y as int).contains(
                                (a, b),
                            ) == (b == new_y as int && min(prev_x as int, new_x as int) <= a <= max(
                                prev_x as int,
                                new_x as int,
                            )));
                        }
                    }
                }
                proof {
                    assert(elbow_connected(grid, prev.spec_center(), new_room.spec_center()));
                }
            }
            let ghost pre_rooms = rooms@;
            rooms.push(new_room);
            proof {
                lemma_monsters_extend(pre_monsters, monsters@, pre_rooms, rooms@, new_room);
                assert(monsters@.len() == stp.monsters.len());
                assert forall|i: int| 0 <= i < monsters@.len() implies monster_is(
                    #[trigger] monsters@[i],
                    stp.monsters[i],
                ) by {
                    if i < pre_monsters.len() {
                        assert(monsters@[i] == pre_monsters[i]);
                        assert(monster_is(pre_monsters[i], st.monsters[i]));
                    }
                }
            }
        }
        proof {
            assert(rooms@ == stp.rooms);
            assert(rng.history() == stp.hist);
            assert(monsters_match(monsters@, stp.monsters));
            assert(forall|a: int, b: int|
                grid.in_bounds(a, b) ==> #[trigger] grid.at(a, b) == (if stp.carved.contains(
                    (a, b),
                ) {
                    empty_tile()
                } else {
                    wall_tile()
                }));
        }
        attempt += 1;
    }
    Ok((grid, rooms, spawn, monsters))
}

/// After a room's interior is carved, everything already promised of the
/// partially built level still holds: carving only unblocks cells.
proof fn lemma_room_step(
    g1: TileGrid,
    g2: TileGrid,
    rooms: Seq<Rect>,
    room: Rect,
    spawn: (i32, i32),
    rm: int,
    rx: int,
)
    requires
        2 <= rm,
        g1.wf(),
        g2.wf(),
        g1.spec_width() == g2.spec_width(),
        g1.spec_height() == g2.spec_height(),
        forall|a: int, b: int|
            g1.in_bounds(a, b) ==> g2.at(a, b) == (if in_interior(room, a, b) {
                empty_tile()
            } else {
                g1.at(a, b)
            }),
        forall|i: int|
            0 <= i < rooms.len() ==> room_fits(
                #[trigger] rooms[i],
                g1.spec_width(),
                g1.spec_height(),
                rm,
                rx,
            ),
        forall|i: int|
            1 <= i < rooms.len() ==> elbow_connected(
                g1,
                rooms[i - 1].spec_center(),
                (#[trigger] rooms[i]).spec_center(),
            ),
        rooms.len() >= 1 ==> (spawn.0 as int, spawn.1 as int) == rooms[0].spec_center() && !g1.at(
            spawn.0 as int,
            spawn.1 as int,
        ).blocked,
        forall|x: int, y: int|
            g1.in_bounds(x, y) ==> (#[trigger] g1.at(x, y) == wall_tile() || g1.at(x, y)
                == empty_tile()),
    ensures
        forall|i: int|
            1 <= i < rooms.len() ==> elbow_connected(
                g2,
                rooms[i - 1].spec_center(),
                (#[trigger] rooms[i]).spec_center(),
            ),
        rooms.len() >= 1 ==> (spawn.0 as int, spawn.1 as int) == rooms[0].spec_center() && !g2.at(
            spawn.0 as int,
            spawn.1 as int,
        ).blocked,
        forall|x: int, y: int|
            g2.in_bounds(x, y) ==> (#[trigger] g2.at(x, y) == wall_tile() || g2.at(x, y)
                == empty_tile()),
{
    assert(forall|x: int, y: int|
        g1.in_bounds(x, y) && !(#[trigger] g1.at(x, y)).blocked ==> !g2.at(x, y).blocked);
    assert forall|i: int| 0 <= i < rooms.len() implies g1.in_bounds(
        (#[trigger] rooms[i]).spec_center().0,
        rooms[i].spec_center().1,
    ) by {
        lemma_center_in_interior(rooms[i]);
    }
    assert forall|i: int| 1 <= i < rooms.len() implies elbow_connected(
        g2,
        rooms[i - 1].spec_center(),
        (#[trigger] rooms[i]).spec_center(),
    ) by {
        lemma_preserve_elbow(g1, g2, rooms[i - 1].spec_center(), rooms[i].spec_center());
    }
    if rooms.len() >= 1 {
        lemma_center_in_interior(rooms[0]);
    }
}

/// The same preservation, chained across the two corridor carves of one
/// connection.
proof fn lemma_tunnel_steps(
    g1: TileGrid,
    g2: TileGrid,
    g3: TileGrid,
    rooms: Seq<Rect>,
    spawn: (i32, i32),
    rm: int,
    rx: int,
)
    requires
        2 <= rm,
        g1.wf(),
        g2.wf(),
        g3.wf(),
        g1.spec_width() == g2.spec_width(),
        g2.spec_width() == g3.spec_width(),
        g1.spec_height() == g2.spec_height(),
        g2.spec_height() == g3.spec_height(),
        forall|a: int, b: int|
            g1.in_bounds(a, b) && !(#[trigger] g1.at(a, b)).blocked ==> !g2.at(a, b).blocked,
        forall|a: int, b: int|
            g2.in_bounds(a, b) && !(#[trigger] g2.at(a, b)).blocked ==> !g3.at(a, b).blocked,
        forall|i: int|
            0 <= i < rooms.len() ==> room_fits(
                #[trigger] rooms[i],
                g1.spec_width(),
                g1.spec_height(),
                rm,
                rx,
            ),
        forall|i: int|
            1 <= i < rooms.len() ==> elbow_connected(
                g1,
                rooms[i - 1].spec_center(),
                (#[trigger] rooms[i]).spec_center(),
            ),
        rooms.len() >= 1 ==> (spawn.0 as int, spawn.1 as int) == rooms[0].spec_center() && !g1.at(
            spawn.0 as int,
            spawn.1 as int,
        ).blocked,
    ensures
        forall|i: int|
            1 <= i < rooms.len() ==> elbow_connected(
                g3,
                rooms[i - 1].spec_center(),
                (#[trigger] rooms[i]).spec_center(),
            ),
        rooms.len() >= 1 ==> (spawn.0 as int, spawn.1 as int) == rooms[0].spec_center() && !g3.at(
            spawn.0 as int,
            spawn.1 as int,
        ).blocked,
{
    assert forall|i: int| 0 <= i < rooms.len() implies g1.in_bounds(
        (#[trigger] rooms[i]).spec_center().0,
        rooms[i].spec_center().1,
    ) by {
        lemma_center_in_interior(rooms[i]);
    }
    assert forall|i: int| 1 <= i < rooms.len() implies elbow_connected(
        g3,
        rooms[i - 1].spec_center(),
        (#[trigger] rooms[i]).spec_center(),
    ) by {
        lemma_preserve_elbow(g1, g2, rooms[i - 1].spec_center(), rooms[i].spec_center());
        lemma_preserve_elbow(g2, g3, rooms[i - 1].spec_center(), rooms[i].spec_center());
    }
    if rooms.len() >= 1 {
        lemma_center_in_interior(rooms[0]);
    }
}

} // verus!

