use vstd::prelude::*;
use crate::tile::{Grid, Tile, in_bounds, set_tile, tile_at, wf_map, MAP_HEIGHT, MAP_WIDTH};

verus! {

/// Squared Euclidean distance between two grid positions.
pub open spec fn dist2(x0: int, y0: int, x1: int, y1: int) -> int {
    (x1 - x0) * (x1 - x0) + (y1 - y0) * (y1 - y0)
}

/// Sign of an integer: the unit step toward zero distance.
pub open spec fn sgn(d: int) -> int {
    if d > 0 {
        1
    } else if d < 0 {
        -1
    } else {
        0
    }
}

/// Chebyshev distance: how many ray steps separate two positions.
pub open spec fn cheb(x0: int, y0: int, x1: int, y1: int) -> int {
    let dx = if x1 >= x0 { x1 - x0 } else { x0 - x1 };
    let dy = if y1 >= y0 { y1 - y0 } else { y0 - y1 };
    if dx >= dy {
        dx
    } else {
        dy
    }
}

/// The sight ray from `(x, y)` to `(tx, ty)`: one unit step on each axis
/// toward the target per move. The ray is clear when no tile strictly
/// between the endpoints blocks sight; both endpoints are exempt.
pub open spec fn ray_clear(m: &Grid, x: int, y: int, tx: int, ty: int) -> bool
    decreases cheb(x, y, tx, ty),
{
    if x == tx && y == ty {
        true
    } else {
        let nx = x + sgn(tx - x);
        let ny = y + sgn(ty - y);
        if nx == tx && ny == ty {
            true
        } else {
            !tile_at(m, nx, ny).block_sight && ray_clear(m, nx, ny, tx, ty)
        }
    }
}

/// A tile is visible from the origin iff it lies within the sight radius
/// (squared Euclidean) and its ray is clear. The origin itself is always
/// visible. Visibility is a function of the grid's sight-blocking flags, the
/// origin and the radius alone.
pub open spec fn visible_from(m: &Grid, ox: int, oy: int, radius: int, x: int, y: int) -> bool {
    dist2(ox, oy, x, y) <= radius * radius && ray_clear(m, ox, oy, x, y)
}

/// Walk the ray and report whether it is clear.
fn ray_is_clear(map: &Grid, x: i32, y: i32, tx: i32, ty: i32) -> (r: bool)
    requires
        wf_map(map),
        in_bounds(x as int, y as int),
        in_bounds(tx as int, ty as int),
    ensures
        r == ray_clear(map, x as int, y as int, tx as int, ty as int),
    decreases cheb(x as int, y as int, tx as int, ty as int),
{
    if x == tx && y == ty {
        true
    } else {
        let dx: i32 = if tx > x {
            1
        } else if tx < x {
            -1
        } else {
            0
        };
        let dy: i32 = if ty > y {
            1
        } else if ty < y {
            -1
        } else {
            0
        };
        let nx = x + dx;
        let ny = y + dy;
        if nx == tx && ny == ty {
            true
        } else if map[nx as usize][ny as usize].block_sight {
            false
        } else {
            ray_is_clear(map, nx, ny, tx, ty)
        }
    }
}

/// What one tile becomes after a visibility pass from `(ox, oy)`.
pub open spec fn fov_tile(m0: &Grid, ox: int, oy: int, radius: int, x: int, y: int) -> Tile {
    Tile {
        blocked: tile_at(m0, x, y).blocked,
        block_sight: tile_at(m0, x, y).block_sight,
        visible: tile_at(m0, x, y).visible || visible_from(m0, ox, oy, radius, x, y),
        currently_visible: visible_from(m0, ox, oy, radius, x, y),
    }
}

/// Recompute the visible set from `(ox, oy)`: every tile's
/// `currently_visible` flag is cleared and set afresh to exactly
/// `visible_from`, every visible tile is permanently marked ever-seen, and
/// the terrain flags are untouched.
#[verifier::rlimit(60)]
pub fn compute_fov(map: &mut Grid, ox: i32, oy: i32, radius: i32)
    requires
        wf_map(old(map)),
        in_bounds(ox as int, oy as int),
        0 <= radius <= 10000,
    ensures
        wf_map(final(map)),
        forall|x: int, y: int|
            in_bounds(x, y) ==> #[trigger] tile_at(final(map), x, y) == fov_tile(
                old(map),
                ox as int,
                oy as int,
                radius as int,
                x,
                y,
            ),
{
    let mut x: i32 = 0;
    while x < MAP_WIDTH
        invariant
            wf_map(map),
            in_bounds(ox as int, oy as int),
            0 <= radius <= 10000,
            0 <= x <= MAP_WIDTH,
            forall|xx: int, yy: int|
                in_bounds(xx, yy) ==> #[trigger] tile_at(map, xx, yy) == (if xx < x as int {
                    fov_tile(old(map), ox as int, oy as int, radius as int, xx, yy)
                } else {
                    tile_at(old(map), xx, yy)
                }),
        decreases MAP_WIDTH - x,
    {
        let mut y: i32 = 0;
        while y < MAP_HEIGHT
            invariant
                wf_map(map),
                in_bounds(ox as int, oy as int),
                0 <= radius <= 10000,
                0 <= x < MAP_WIDTH,
                0 <= y <= MAP_HEIGHT,
                forall|xx: int, yy: int|
                    in_bounds(xx, yy) ==> #[trigger] tile_at(map, xx, yy) == (if xx < x as int || (
                    xx == x as int && yy < y as int) {
                        fov_tile(old(map), ox as int, oy as int, radius as int, xx, yy)
                    } else {
                        tile_at(old(map), xx, yy)
                    }),
            decreases MAP_HEIGHT - y,
        {
            let dx = x - ox;
            let dy = y - oy;
            proof {
                assert(0 <= dx as int * dx as int <= 10000 && 0 <= dy as int * dy as int
                    <= 10000) by (nonlinear_arith)
                    requires
                        -100 <= dx as int <= 100,
                        -100 <= dy as int <= 100,
                ;
                assert(0 <= radius as int * radius as int <= 100000000) by (nonlinear_arith)
                    requires
                        0 <= radius as int <= 10000,
                ;
            }
            let within = dx * dx + dy * dy <= radius * radius;
            let cv = within && ray_is_clear(map, ox, oy, x, y);
            proof {
                // Earlier columns only changed visibility flags, so rays over
                // the current grid agree with rays over the starting grid.
                assert forall|a: int, b: int| in_bounds(a, b) implies (#[trigger] tile_at(
                    map,
                    a,
                    b,
                )).block_sight == tile_at(old(map), a, b).block_sight by {
                    assert(tile_at(map, a, b) == tile_at(map, a, b));
                }
                lemma_ray_same_sight(
                    map,
                    old(map),
                    ox as int,
                    oy as int,
                    x as int,
                    y as int,
                );
            }
            let t = map[x as usize][y as usize];
            proof {
                assert(t == tile_at(map, x as int, y as int));
                assert(t == tile_at(old(map), x as int, y as int));
            }
            set_tile(
                map,
                x,
                y,
                Tile {
                    blocked: t.blocked,
                    block_sight: t.block_sight,
                    visible: t.visible || cv,
                    currently_visible: cv,
                },
            );
            proof {
                assert(tile_at(map, x as int, y as int) == fov_tile(
                    old(map),
                    ox as int,
                    oy as int,
                    radius as int,
                    x as int,
                    y as int,
                ));
            }
            y += 1;
        }
        x += 1;
    }
}

/// Two grids that agree on which tiles block sight agree on every ray.
pub proof fn lemma_ray_same_sight(m1: &Grid, m2: &Grid, x: int, y: int, tx: int, ty: int)
    requires
        forall|a: int, b: int|
            in_bounds(a, b) ==> (#[trigger] tile_at(m1, a, b)).block_sight == tile_at(
                m2,
                a,
                b,
            ).block_sight,
        in_bounds(x, y),
        in_bounds(tx, ty),
    ensures
        ray_clear(m1, x, y, tx, ty) == ray_clear(m2, x, y, tx, ty),
    decreases cheb(x, y, tx, ty),
{
    if x == tx && y == ty {
    } else {
        let nx = x + sgn(tx - x);
        let ny = y + sgn(ty - y);
        assert(in_bounds(nx, ny));
        assert(tile_at(m1, nx, ny).block_sight == tile_at(m2, nx, ny).block_sight);
        if nx == tx && ny == ty {
        } else {
            lemma_ray_same_sight(m1, m2, nx, ny, tx, ty);
        }
    }
}

/// Visibility is deterministic: it depends only on the grid's sight-blocking
/// content, the origin and the radius — two grids that agree on those agree
/// on every tile's visibility.
pub proof fn lemma_visibility_deterministic(
    m1: &Grid,
    m2: &Grid,
    ox: int,
    oy: int,
    radius: int,
    x: int,
    y: int,
)
    requires
        forall|a: int, b: int|
            in_bounds(a, b) ==> (#[trigger] tile_at(m1, a, b)).block_sight == tile_at(
                m2,
                a,
                b,
            ).block_sight,
        in_bounds(ox, oy),
        in_bounds(x, y),
    ensures
        visible_from(m1, ox, oy, radius, x, y) == visible_from(m2, ox, oy, radius, x, y),
{
    lemma_ray_same_sight(m1, m2, ox, oy, x, y);
}

/// In the open, every ray is clear.
proof fn lemma_ray_clear_open(m: &Grid, x: int, y: int, tx: int, ty: int)
    requires
        forall|a: int, b: int| in_bounds(a, b) ==> !(#[trigger] tile_at(m, a, b)).block_sight,
        in_bounds(x, y),
        in_bounds(tx, ty),
    ensures
        ray_clear(m, x, y, tx, ty),
    decreases cheb(x, y, tx, ty),
{
    if x == tx && y == ty {
    } else {
        let nx = x + sgn(tx - x);
        let ny = y + sgn(ty - y);
        assert(in_bounds(nx, ny));
        assert(!tile_at(m, nx, ny).block_sight);
        if nx == tx && ny == ty {
        } else {
            lemma_ray_clear_open(m, nx, ny, tx, ty);
        }
    }
}

/// With no sight-blocking tile anywhere, a tile is visible exactly when it
/// lies within the radius: near tiles are always seen, far tiles never.
pub proof fn lemma_open_room_visibility(m: &Grid, ox: int, oy: int, radius: int, x: int, y: int)
    requires
        forall|a: int, b: int| in_bounds(a, b) ==> !(#[trigger] tile_at(m, a, b)).block_sight,
        in_bounds(ox, oy),
        in_bounds(x, y),
    ensures
        visible_from(m, ox, oy, radius, x, y) <==> dist2(ox, oy, x, y) <= radius * radius,
{
    lemma_ray_clear_open(m, ox, oy, x, y);
}

/// The positions strictly between the endpoints on the sight ray.
pub open spec fn on_ray_strict(ox: int, oy: int, tx: int, ty: int, bx: int, by: int) -> bool
    decreases cheb(ox, oy, tx, ty),
{
    if ox == tx && oy == ty {
        false
    } else {
        let nx = ox + sgn(tx - ox);
        let ny = oy + sgn(ty - oy);
        if nx == tx && ny == ty {
            false
        } else {
            (nx == bx && ny == by) || on_ray_strict(nx, ny, tx, ty, bx, by)
        }
    }
}

/// A sight-blocking tile directly on the line between origin and target
/// hides the target, whatever the radius.
pub proof fn lemma_blocker_hides(
    m: &Grid,
    ox: int,
    oy: int,
    radius: int,
    tx: int,
    ty: int,
    bx: int,
    by: int,
)
    requires
        on_ray_strict(ox, oy, tx, ty, bx, by),
        tile_at(m, bx, by).block_sight,
    ensures
        !visible_from(m, ox, oy, radius, tx, ty),
{
    lemma_blocker_blocks_ray(m, ox, oy, tx, ty, bx, by);
}

/// A sight-blocking tile strictly on the ray interrupts it.
proof fn lemma_blocker_blocks_ray(m: &Grid, ox: int, oy: int, tx: int, ty: int, bx: int, by: int)
    requires
        on_ray_strict(ox, oy, tx, ty, bx, by),
        tile_at(m, bx, by).block_sight,
    ensures
        !ray_clear(m, ox, oy, tx, ty),
    decreases cheb(ox, oy, tx, ty),
{
    let nx = ox + sgn(tx - ox);
    let ny = oy + sgn(ty - oy);
    if nx == bx && ny == by {
    } else {
        lemma_blocker_blocks_ray(m, nx, ny, tx, ty, bx, by);
    }
}

} // verus!
