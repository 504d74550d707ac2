use vstd::prelude::*;
use crate::tile::{Grid, MAP_HEIGHT, MAP_WIDTH, Tile, in_bounds, tile_at, wf_map};

verus! {

/// How many candidate rooms one level draws.
pub const MAX_ROOMS: i32 = 30;

/// Smallest side a sampled room may have.
pub const ROOM_MIN_SIZE: i32 = 6;

/// Largest side a sampled room may have.
pub const ROOM_MAX_SIZE: i32 = 10;

/// An axis-aligned rectangle; rooms carve the strict interior
/// `(x1, x2) x (y1, y2)`, keeping the boundary as wall.
#[derive(Clone, Copy, Debug, PartialEq, Eq, Structural)]
pub struct Rect {
    pub x1: i32,
    pub y1: i32,
    pub x2: i32,
    pub y2: i32,
}

pub open spec fn spec_center_x(r: Rect) -> int {
    (r.x1 + r.x2) / 2
}

pub open spec fn spec_center_y(r: Rect) -> int {
    (r.y1 + r.y2) / 2
}

/// Two rectangles overlap (borders touching counts as overlap).
pub open spec fn spec_intersects(a: Rect, b: Rect) -> bool {
    a.x1 <= b.x2 && a.x2 >= b.x1 && a.y1 <= b.y2 && a.y2 >= b.y1
}

/// A room rectangle that lies strictly within the grid with at least a
/// one-tile border, and is wide enough to have a nonempty interior.
pub open spec fn wf_rect(r: Rect) -> bool {
    &&& 1 <= r.x1
    &&& r.x1 + 2 <= r.x2
    &&& r.x2 <= MAP_WIDTH as int - 1
    &&& 1 <= r.y1
    &&& r.y1 + 2 <= r.y2
    &&& r.y2 <= MAP_HEIGHT as int - 1
}

/// The carved part of a room: everything strictly inside its rectangle.
pub open spec fn in_interior(r: Rect, x: int, y: int) -> bool {
    r.x1 < x < r.x2 && r.y1 < y < r.y2
}

/// No two rectangles of the sequence overlap.
pub open spec fn pairwise_disjoint(rooms: Seq<Rect>) -> bool {
    forall|i: int, j: int|
        0 <= i < j < rooms.len() ==> !spec_intersects(#[trigger] rooms[i], #[trigger] rooms[j])
}

/// Every candidate after the first overlaps some earlier candidate, so only
/// the first was accepted and carved.
pub open spec fn only_first_accepted(rooms: Seq<Rect>) -> bool {
    forall|k: int|
        1 <= k < rooms.len() ==> exists|j: int|
            0 <= j < k && spec_intersects(#[trigger] rooms[k], #[trigger] rooms[j])
}

impl Rect {
    pub fn new(x: i32, y: i32, w: i32, h: i32) -> (r: Rect)
        requires
            0 <= x,
            0 <= y,
            0 <= w,
            0 <= h,
            x + w <= i32::MAX,
            y + h <= i32::MAX,
        ensures
            r.x1 == x && r.y1 == y,
            r.x2 as int == x + w,
            r.y2 as int == y + h,
    {
        Rect { x1: x, y1: y, x2: x + w, y2: y + h }
    }

    /// The integer midpoint of the rectangle.
    pub fn center(&self) -> (c: (i32, i32))
        requires
            0 <= self.x1 <= self.x2 <= MAP_WIDTH,
            0 <= self.y1 <= self.y2 <= MAP_HEIGHT,
        ensures
            c.0 as int == spec_center_x(*self),
            c.1 as int == spec_center_y(*self),
    {
        ((self.x1 + self.x2) / 2, (self.y1 + self.y2) / 2)
    }

    /// Axis-aligned overlap test.
    pub fn intersects_with(&self, other: &Rect) -> (r: bool)
        ensures
            r == spec_intersects(*self, *other),
    {
        self.x1 <= other.x2 && self.x2 >= other.x1 && self.y1 <= other.y2 && self.y2 >= other.y1
    }
}

/// The center of a well-formed room lies in its interior.
pub proof fn lemma_center_in_interior(r: Rect)
    requires
        wf_rect(r),
    ensures
        in_interior(r, spec_center_x(r), spec_center_y(r)),
        in_bounds(spec_center_x(r), spec_center_y(r)),
{
}

/// Clear one tile to open floor, leaving every other tile as it was.
fn carve_tile(map: &mut Grid, x: i32, y: i32)
    requires
        wf_map(old(map)),
        in_bounds(x as int, y as int),
    ensures
        wf_map(final(map)),
        forall|xx: int, yy: int|
            in_bounds(xx, yy) ==> #[trigger] tile_at(final(map), xx, yy) == (if xx == x as int
                && yy == y as int {
                Tile { blocked: false, block_sight: false, visible: false, currently_visible: false }
            } else {
                tile_at(old(map), xx, yy)
            }),
{
    let col = &mut map[x as usize];
    let t = &mut col[y as usize];
    *t = Tile::empty();
}

/// Carve the strict interior of `room` to open floor; nothing else changes.
pub fn create_room(room: Rect, map: &mut Grid)
    requires
        wf_map(old(map)),
        wf_rect(room),
    ensures
        wf_map(final(map)),
        forall|xx: int, yy: int|
            in_bounds(xx, yy) ==> #[trigger] tile_at(final(map), xx, yy) == (if in_interior(
                room,
                xx,
                yy,
            ) {
                Tile { blocked: false, block_sight: false, visible: false, currently_visible: false }
            } else {
                tile_at(old(map), xx, yy)
            }),
{
    let mut x = room.x1 + 1;
    while x < room.x2
        invariant
            wf_map(map),
            wf_rect(room),
            room.x1 + 1 <= x <= room.x2,
            forall|xx: int, yy: int|
                in_bounds(xx, yy) ==> #[trigger] tile_at(map, xx, yy) == (if in_interior(
                    room,
                    xx,
                    yy,
                ) && xx < x as int {
                    Tile {
                        blocked: false,
                        block_sight: false,
                        visible: false,
                        currently_visible: false,
                    }
                } else {
                    tile_at(old(map), xx, yy)
                }),
        decreases room.x2 - x,
    {
        let mut y = room.y1 + 1;
        while y < room.y2
            invariant
                wf_map(map),
                wf_rect(room),
                room.x1 + 1 <= x < room.x2,
                room.y1 + 1 <= y <= room.y2,
                forall|xx: int, yy: int|
                    in_bounds(xx, yy) ==> #[trigger] tile_at(map, xx, yy) == (if in_interior(
                        room,
                        xx,
                        yy,
                    ) && (xx < x as int || (xx == x as int && yy < y as int)) {
                        Tile {
                            blocked: false,
                            block_sight: false,
                            visible: false,
                            currently_visible: false,
                        }
                    } else {
                        tile_at(old(map), xx, yy)
                    }),
            decreases room.y2 - y,
        {
            carve_tile(map, x, y);
            y += 1;
        }
        x += 1;
    }
}

/// `x` lies between `a` and `b`, whichever order they come in.
pub open spec fn between(a: int, x: int, b: int) -> bool {
    (a <= x <= b) || (b <= x <= a)
}

/// Carve a one-tile-high horizontal corridor covering every column between
/// `x1` and `x2` (inclusive, either order) at row `y`.
pub fn create_h_tunnel(x1: i32, x2: i32, y: i32, map: &mut Grid)
    requires
        wf_map(old(map)),
        1 <= x1 <= MAP_WIDTH - 2,
        1 <= x2 <= MAP_WIDTH - 2,
        1 <= y <= MAP_HEIGHT - 2,
    ensures
        wf_map(final(map)),
        forall|xx: int, yy: int|
            in_bounds(xx, yy) ==> #[trigger] tile_at(final(map), xx, yy) == (if yy == y as int
                && between(x1 as int, xx, x2 as int) {
                Tile { blocked: false, block_sight: false, visible: false, currently_visible: false }
            } else {
                tile_at(old(map), xx, yy)
            }),
{
    let lo = if x1 <= x2 {
        x1
    } else {
        x2
    };
    let hi = if x1 <= x2 {
        x2
    } else {
        x1
    };
    let mut x = lo;
    while x <= hi
        invariant
            wf_map(map),
            lo <= x <= hi + 1,
            1 <= lo <= hi <= MAP_WIDTH - 2,
            1 <= y <= MAP_HEIGHT - 2,
            forall|xx: int, yy: int|
                in_bounds(xx, yy) ==> #[trigger] tile_at(map, xx, yy) == (if yy == y as int && lo
                    as int <= xx < x as int {
                    Tile {
                        blocked: false,
                        block_sight: false,
                        visible: false,
                        currently_visible: false,
                    }
                } else {
                    tile_at(old(map), xx, yy)
                }),
        decreases hi + 1 - x,
    {
        carve_tile(map, x, y);
        x += 1;
    }
}

/// Carve a one-tile-wide vertical corridor covering every row between `y1`
/// and `y2` (inclusive, either order) at column `x`.
pub fn create_v_tunnel(y1: i32, y2: i32, x: i32, map: &mut Grid)
    requires
        wf_map(old(map)),
        1 <= y1 <= MAP_HEIGHT - 2,
        1 <= y2 <= MAP_HEIGHT - 2,
        1 <= x <= MAP_WIDTH - 2,
    ensures
        wf_map(final(map)),
        forall|xx: int, yy: int|
            in_bounds(xx, yy) ==> #[trigger] tile_at(final(map), xx, yy) == (if xx == x as int
                && between(y1 as int, yy, y2 as int) {
                Tile { blocked: false, block_sight: false, visible: false, currently_visible: false }
            } else {
                tile_at(old(map), xx, yy)
            }),
{
    let lo = if y1 <= y2 {
        y1
    } else {
        y2
    };
    let hi = if y1 <= y2 {
        y2
    } else {
        y1
    };
    let mut y = lo;
    while y <= hi
        invariant
            wf_map(map),
            lo <= y <= hi + 1,
            1 <= lo <= hi <= MAP_HEIGHT - 2,
            1 <= x <= MAP_WIDTH - 2,
            forall|xx: int, yy: int|
                in_bounds(xx, yy) ==> #[trigger] tile_at(map, xx, yy) == (if xx == x as int && lo
                    as int <= yy < y as int {
                    Tile {
                        blocked: false,
                        block_sight: false,
                        visible: false,
                        currently_visible: false,
                    }
                } else {
                    tile_at(old(map), xx, yy)
                }),
        decreases hi + 1 - y,
    {
        carve_tile(map, x, y);
        y += 1;
    }
}

// ---------------------------------------------------------------------------
// Connectivity: a path of adjacent, unblocked tiles. This is what the level
// generator guarantees between the player's start and the exit.
// ---------------------------------------------------------------------------

/// Two positions share an edge (no diagonals).
pub open spec fn adjacent(x0: int, y0: int, x1: int, y1: int) -> bool {
    ||| (x0 == x1 && (y1 == y0 + 1 || y1 == y0 - 1))
    ||| (y0 == y1 && (x1 == x0 + 1 || x1 == x0 - 1))
}

/// A walkable path: nonempty, every step on an unblocked tile of the grid,
/// consecutive steps adjacent.
pub open spec fn path_ok(m: &Grid, p: Seq<(int, int)>) -> bool {
    &&& p.len() >= 1
    &&& forall|i: int|
        0 <= i < p.len() ==> in_bounds((#[trigger] p[i]).0, p[i].1) && !tile_at(
            m,
            p[i].0,
            p[i].1,
        ).blocked
    &&& forall|i: int|
        0 <= i < p.len() - 1 ==> adjacent((#[trigger] p[i]).0, p[i].1, p[i + 1].0, p[i + 1].1)
}

/// A walkable path leads from one position to the other.
pub open spec fn connected(m: &Grid, x0: int, y0: int, x1: int, y1: int) -> bool {
    exists|p: Seq<(int, int)>| path_ok(m, p) && p.first() == (x0, y0) && p.last() == (x1, y1)
}

/// An unblocked tile is connected to itself.
pub proof fn lemma_connected_refl(m: &Grid, x: int, y: int)
    requires
        in_bounds(x, y),
        !tile_at(m, x, y).blocked,
    ensures
        connected(m, x, y, x, y),
{
    let p = seq![(x, y)];
    assert(path_ok(m, p) && p.first() == (x, y) && p.last() == (x, y));
}

/// Connectivity composes.
pub proof fn lemma_connected_trans(m: &Grid, x0: int, y0: int, x1: int, y1: int, x2: int, y2: int)
    requires
        connected(m, x0, y0, x1, y1),
        connected(m, x1, y1, x2, y2),
    ensures
        connected(m, x0, y0, x2, y2),
{
    let p1 = choose|p: Seq<(int, int)>|
        path_ok(m, p) && p.first() == (x0, y0) && p.last() == (x1, y1);
    let p2 = choose|p: Seq<(int, int)>|
        path_ok(m, p) && p.first() == (x1, y1) && p.last() == (x2, y2);
    if p2.len() == 1 {
        assert(path_ok(m, p1) && p1.first() == (x0, y0) && p1.last() == (x2, y2));
    } else {
        let p = p1 + p2.subrange(1, p2.len() as int);
        assert(p.last() == p2.last());
        assert forall|i: int| 0 <= i < p.len() - 1 implies adjacent(
            (#[trigger] p[i]).0,
            p[i].1,
            p[i + 1].0,
            p[i + 1].1,
        ) by {
            if i < p1.len() - 1 {
            } else if i == p1.len() - 1 {
                assert(p[i] == p1.last());
                assert(p[i + 1] == p2[1]);
                assert(adjacent(p2[0].0, p2[0].1, p2[1].0, p2[1].1));
            } else {
                let j = i - p1.len() + 1;
                assert(p[i] == p2[j]);
                assert(p[i + 1] == p2[j + 1]);
                assert(adjacent(p2[j].0, p2[j].1, p2[j + 1].0, p2[j + 1].1));
            }
        }
        assert(path_ok(m, p) && p.first() == (x0, y0) && p.last() == (x2, y2));
    }
}

/// Carving only ever opens tiles, so any established connection survives
/// later carving.
pub proof fn lemma_connected_monotone(
    m1: &Grid,
    m2: &Grid,
    x0: int,
    y0: int,
    x1: int,
    y1: int,
)
    requires
        connected(m1, x0, y0, x1, y1),
        forall|x: int, y: int|
            in_bounds(x, y) && !tile_at(m1, x, y).blocked ==> !(#[trigger] tile_at(
                m2,
                x,
                y,
            )).blocked,
    ensures
        connected(m2, x0, y0, x1, y1),
{
    let p = choose|p: Seq<(int, int)>|
        path_ok(m1, p) && p.first() == (x0, y0) && p.last() == (x1, y1);
    assert forall|i: int| 0 <= i < p.len() implies in_bounds((#[trigger] p[i]).0, p[i].1)
        && !tile_at(m2, p[i].0, p[i].1).blocked by {
        assert(!tile_at(m1, p[i].0, p[i].1).blocked);
    }
    assert(path_ok(m2, p) && p.first() == (x0, y0) && p.last() == (x1, y1));
}

/// Any two cells of an unblocked horizontal span are connected.
pub proof fn lemma_h_connected(m: &Grid, y: int, u: int, v: int)
    requires
        forall|x: int| #[trigger] between(u, x, v) ==> in_bounds(x, y) && !tile_at(m, x, y).blocked,
    ensures
        connected(m, u, y, v, y),
    decreases (if v >= u { v - u } else { u - v }),
{
    assert(between(u, u, v) && between(u, v, v));
    assert(in_bounds(u, y) && !tile_at(m, u, y).blocked);
    assert(in_bounds(v, y) && !tile_at(m, v, y).blocked);
    if u == v {
        lemma_connected_refl(m, u, y);
    } else {
        let s: int = if v > u { v - 1 } else { v + 1 };
        assert(between(u, s, v));
        assert(in_bounds(s, y) && !tile_at(m, s, y).blocked);
        assert forall|x: int| #[trigger] between(u, x, s) implies in_bounds(x, y) && !tile_at(
            m,
            x,
            y,
        ).blocked by {
            assert(between(u, x, v));
        }
        lemma_h_connected(m, y, u, s);
        let p = seq![(s, y), (v, y)];
        assert(path_ok(m, p) && p.first() == (s, y) && p.last() == (v, y));
        lemma_connected_trans(m, u, y, s, y, v, y);
    }
}

/// Any two cells of an unblocked vertical span are connected.
pub proof fn lemma_v_connected(m: &Grid, x: int, u: int, v: int)
    requires
        forall|y: int| #[trigger] between(u, y, v) ==> in_bounds(x, y) && !tile_at(m, x, y).blocked,
    ensures
        connected(m, x, u, x, v),
    decreases (if v >= u { v - u } else { u - v }),
{
    assert(between(u, u, v) && between(u, v, v));
    assert(in_bounds(x, u) && !tile_at(m, x, u).blocked);
    assert(in_bounds(x, v) && !tile_at(m, x, v).blocked);
    if u == v {
        lemma_connected_refl(m, x, u);
    } else {
        let s: int = if v > u { v - 1 } else { v + 1 };
        assert(between(u, s, v));
        assert(in_bounds(x, s) && !tile_at(m, x, s).blocked);
        assert forall|y: int| #[trigger] between(u, y, s) implies in_bounds(x, y) && !tile_at(
            m,
            x,
            y,
        ).blocked by {
            assert(between(u, y, v));
        }
        lemma_v_connected(m, x, u, s);
        let p = seq![(x, s), (x, v)];
        assert(path_ok(m, p) && p.first() == (x, s) && p.last() == (x, v));
        lemma_connected_trans(m, x, u, x, s, x, v);
    }
}

/// Inside a fully carved room, every interior cell is connected to every
/// other: walk vertically, then horizontally, never leaving the interior.
pub proof fn lemma_room_connected(m: &Grid, r: Rect, ax: int, ay: int, bx: int, by: int)
    requires
        wf_rect(r),
        in_interior(r, ax, ay),
        in_interior(r, bx, by),
        forall|x: int, y: int|
            in_interior(r, x, y) ==> in_bounds(x, y) && !(#[trigger] tile_at(m, x, y)).blocked,
    ensures
        connected(m, ax, ay, bx, by),
{
    assert forall|y: int| #[trigger] between(ay, y, by) implies in_bounds(ax, y) && !tile_at(
        m,
        ax,
        y,
    ).blocked by {
        assert(in_interior(r, ax, y));
    }
    lemma_v_connected(m, ax, ay, by);
    assert forall|x: int| #[trigger] between(ax, x, bx) implies in_bounds(x, by) && !tile_at(
        m,
        x,
        by,
    ).blocked by {
        assert(in_interior(r, x, by));
    }
    lemma_h_connected(m, by, ax, bx);
    lemma_connected_trans(m, ax, ay, ax, by, bx, by);
}

} // verus!

verus! {

/// Walkable paths reverse.
pub proof fn lemma_connected_sym(m: &Grid, x0: int, y0: int, x1: int, y1: int)
    requires
        connected(m, x0, y0, x1, y1),
    ensures
        connected(m, x1, y1, x0, y0),
{
    let p = choose|p: Seq<(int, int)>|
        path_ok(m, p) && p.first() == (x0, y0) && p.last() == (x1, y1);
    let q = Seq::new(p.len(), |i: int| p[p.len() - 1 - i]);
    assert forall|i: int| 0 <= i < q.len() - 1 implies adjacent(
        (#[trigger] q[i]).0,
        q[i].1,
        q[i + 1].0,
        q[i + 1].1,
    ) by {
        let k = p.len() - 2 - i;
        assert(adjacent(p[k].0, p[k].1, p[k + 1].0, p[k + 1].1));
        assert(q[i] == p[k + 1] && q[i + 1] == p[k]);
    }
    assert forall|i: int| 0 <= i < q.len() implies in_bounds((#[trigger] q[i]).0, q[i].1)
        && !tile_at(m, q[i].0, q[i].1).blocked by {
        let k = p.len() - 1 - i;
        assert(in_bounds(p[k].0, p[k].1) && !tile_at(m, p[k].0, p[k].1).blocked);
    }
    assert(path_ok(m, q) && q.first() == (x1, y1) && q.last() == (x0, y0));
}

/// One fully open tile.
pub open spec fn open_tile() -> Tile {
    Tile { blocked: false, block_sight: false, visible: false, currently_visible: false }
}

/// A tile as the generator emits it: the open or the wall preset, movement
/// and sight blocking agreeing, both visibility flags clear.
pub open spec fn preset_tile(t: Tile) -> bool {
    t == open_tile() || t == (Tile {
        blocked: true,
        block_sight: true,
        visible: false,
        currently_visible: false,
    })
}

/// After accepting a room and carving its connecting L-tunnel, every
/// unblocked tile is still connected to the player: old tiles keep their old
/// paths, the new interior reaches the new center, the tunnel reaches both
/// centers, and the previous center was already connected.
pub proof fn lemma_carve_step_connectivity(
    m0: &Grid,
    m1: &Grid,
    m2: &Grid,
    m3: &Grid,
    room: Rect,
    cpx: int,
    cpy: int,
    px: int,
    py: int,
    horiz_first: bool,
)
    requires
        wf_rect(room),
        1 <= cpx <= MAP_WIDTH as int - 2,
        1 <= cpy <= MAP_HEIGHT as int - 2,
        forall|x: int, y: int|
            in_bounds(x, y) ==> #[trigger] tile_at(m1, x, y) == (if in_interior(room, x, y) {
                open_tile()
            } else {
                tile_at(m0, x, y)
            }),
        horiz_first ==> forall|x: int, y: int|
            in_bounds(x, y) ==> #[trigger] tile_at(m2, x, y) == (if y == cpy && between(
                cpx,
                x,
                spec_center_x(room),
            ) {
                open_tile()
            } else {
                tile_at(m1, x, y)
            }),
        horiz_first ==> forall|x: int, y: int|
            in_bounds(x, y) ==> #[trigger] tile_at(m3, x, y) == (if x == spec_center_x(room)
                && between(cpy, y, spec_center_y(room)) {
                open_tile()
            } else {
                tile_at(m2, x, y)
            }),
        !horiz_first ==> forall|x: int, y: int|
            in_bounds(x, y) ==> #[trigger] tile_at(m2, x, y) == (if x == cpx && between(
                cpy,
                y,
                spec_center_y(room),
            ) {
                open_tile()
            } else {
                tile_at(m1, x, y)
            }),
        !horiz_first ==> forall|x: int, y: int|
            in_bounds(x, y) ==> #[trigger] tile_at(m3, x, y) == (if y == spec_center_y(room)
                && between(cpx, x, spec_center_x(room)) {
                open_tile()
            } else {
                tile_at(m2, x, y)
            }),
        forall|x: int, y: int|
            in_bounds(x, y) && !(#[trigger] tile_at(m0, x, y)).blocked ==> connected(
                m0,
                x,
                y,
                px,
                py,
            ),
        !tile_at(m0, cpx, cpy).blocked,
    ensures
        forall|x: int, y: int|
            in_bounds(x, y) && !(#[trigger] tile_at(m3, x, y)).blocked ==> connected(
                m3,
                x,
                y,
                px,
                py,
            ),
{
    let cnx = spec_center_x(room);
    let cny = spec_center_y(room);
    lemma_center_in_interior(room);

    // Carving never blocks a tile.
    assert forall|x: int, y: int|
        in_bounds(x, y) && !(#[trigger] tile_at(m0, x, y)).blocked implies !tile_at(
        m3,
        x,
        y,
    ).blocked by {
        assert(!tile_at(m1, x, y).blocked);
        assert(!tile_at(m2, x, y).blocked);
    }

    // The whole interior is open in m3.
    assert forall|x: int, y: int| in_interior(room, x, y) implies in_bounds(x, y) && !(
    #[trigger] tile_at(m3, x, y)).blocked by {
        assert(in_bounds(x, y));
        assert(!tile_at(m1, x, y).blocked);
        assert(!tile_at(m2, x, y).blocked);
    }

    // Both tunnel legs are open in m3.
    if horiz_first {
        assert forall|x: int| #[trigger] between(cpx, x, cnx) implies in_bounds(x, cpy)
            && !tile_at(m3, x, cpy).blocked by {
            assert(1 <= x <= MAP_WIDTH as int - 2);
            assert(!tile_at(m2, x, cpy).blocked);
        }
        assert forall|y: int| #[trigger] between(cpy, y, cny) implies in_bounds(cnx, y)
            && !tile_at(m3, cnx, y).blocked by {
            assert(1 <= y <= MAP_HEIGHT as int - 2);
        }
    } else {
        assert forall|x: int| #[trigger] between(cpx, x, cnx) implies in_bounds(x, cny)
            && !tile_at(m3, x, cny).blocked by {
            assert(1 <= x <= MAP_WIDTH as int - 2);
        }
        assert forall|y: int| #[trigger] between(cpy, y, cny) implies in_bounds(cpx, y)
            && !tile_at(m3, cpx, y).blocked by {
            assert(1 <= y <= MAP_HEIGHT as int - 2);
            assert(!tile_at(m2, cpx, y).blocked);
        }
    }

    // The previous center reaches the player in m3.
    lemma_connected_monotone(m0, m3, cpx, cpy, px, py);

    // The new center reaches the previous center through the tunnel corner.
    if horiz_first {
        lemma_v_connected(m3, cnx, cny, cpy);
        lemma_h_connected(m3, cpy, cnx, cpx);
        lemma_connected_trans(m3, cnx, cny, cnx, cpy, cpx, cpy);
    } else {
        lemma_h_connected(m3, cny, cnx, cpx);
        lemma_v_connected(m3, cpx, cny, cpy);
        lemma_connected_trans(m3, cnx, cny, cpx, cny, cpx, cpy);
    }
    lemma_connected_trans(m3, cnx, cny, cpx, cpy, px, py);

    // Every open tile of m3 reaches the player.
    assert forall|x: int, y: int|
        in_bounds(x, y) && !(#[trigger] tile_at(m3, x, y)).blocked implies connected(
        m3,
        x,
        y,
        px,
        py,
    ) by {
        if !tile_at(m0, x, y).blocked {
            lemma_connected_monotone(m0, m3, x, y, px, py);
        } else if in_interior(room, x, y) {
            lemma_room_connected(m3, room, x, y, cnx, cny);
            lemma_connected_trans(m3, x, y, cnx, cny, px, py);
        } else if horiz_first {
            if x == cnx && between(cpy, y, cny) {
                assert forall|yy: int| between(y, yy, cny) implies in_bounds(cnx, yy) && !tile_at(
                    m3,
                    cnx,
                    yy,
                ).blocked by {
                    assert(between(cpy, yy, cny));
                }
                lemma_v_connected(m3, cnx, y, cny);
                lemma_connected_trans(m3, x, y, cnx, cny, px, py);
            } else {
                assert(y == cpy && between(cpx, x, cnx));
                assert forall|xx: int| between(x, xx, cpx) implies in_bounds(xx, cpy) && !tile_at(
                    m3,
                    xx,
                    cpy,
                ).blocked by {
                    assert(between(cpx, xx, cnx));
                }
                lemma_h_connected(m3, cpy, x, cpx);
                lemma_connected_trans(m3, x, y, cpx, cpy, px, py);
            }
        } else {
            if y == cny && between(cpx, x, cnx) {
                assert forall|xx: int| between(x, xx, cnx) implies in_bounds(xx, cny) && !tile_at(
                    m3,
                    xx,
                    cny,
                ).blocked by {
                    assert(between(cpx, xx, cnx));
                }
                lemma_h_connected(m3, cny, x, cnx);
                lemma_connected_trans(m3, x, y, cnx, cny, px, py);
            } else {
                assert(x == cpx && between(cpy, y, cny));
                assert forall|yy: int| between(y, yy, cpy) implies in_bounds(cpx, yy) && !tile_at(
                    m3,
                    cpx,
                    yy,
                ).blocked by {
                    assert(between(cpy, yy, cny));
                }
                lemma_v_connected(m3, cpx, y, cpy);
                lemma_connected_trans(m3, x, y, cpx, cpy, px, py);
            }
        }
    }
}

} // verus!
