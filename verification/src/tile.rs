use vstd::prelude::*;
use crate::object::{Color, Object, wf_object};
use crate::object_gen::{is_orc, is_potion, is_troll, spawn};
use crate::map_gen::{MAX_ROOMS, create_h_tunnel, create_room, create_v_tunnel, open_tile, preset_tile, ROOM_MAX_SIZE, ROOM_MIN_SIZE, Rect, between, connected, in_interior, lemma_carve_step_connectivity, lemma_center_in_interior, lemma_connected_sym, lemma_room_connected, only_first_accepted, pairwise_disjoint, spec_center_x, spec_center_y, spec_intersects, wf_rect};
use crate::rng::{rng_coin, rng_range};

verus! {

/// Width of the level grid, in tiles.
pub const MAP_WIDTH: i32 = 100;

/// Height of the level grid, in tiles.
pub const MAP_HEIGHT: i32 = 30;

/// One grid cell's terrain state.
///
/// `blocked` stops movement, `block_sight` stops vision; the generator only
/// produces tiles where both flags agree ("open" and "wall"), but the two are
/// independent. `visible` is the permanent "ever seen" memory, while
/// `currently_visible` is recomputed from scratch every turn.
#[derive(Clone, Copy, Debug, PartialEq, Eq, Structural)]
pub struct Tile {
    pub blocked: bool,
    pub block_sight: bool,
    pub visible: bool,
    pub currently_visible: bool,
}

impl Tile {
    /// An open floor tile: walkable, transparent, not yet seen.
    pub fn empty() -> (t: Tile)
        ensures
            t == (Tile { blocked: false, block_sight: false, visible: false, currently_visible: false }),
    {
        Tile { blocked: false, block_sight: false, visible: false, currently_visible: false }
    }

    /// A wall tile: impassable, opaque, not yet seen.
    pub fn wall() -> (t: Tile)
        ensures
            t == (Tile { blocked: true, block_sight: true, visible: false, currently_visible: false }),
    {
        Tile { blocked: true, block_sight: true, visible: false, currently_visible: false }
    }
}

/// The level grid, addressed as `map[x][y]` with `x` in `0..MAP_WIDTH` and
/// `y` in `0..MAP_HEIGHT`.
pub type Grid = Vec<Vec<Tile>>;

/// A grid has exactly `MAP_WIDTH` columns of exactly `MAP_HEIGHT` tiles each.
pub open spec fn wf_map(m: &Grid) -> bool {
    &&& m@.len() == MAP_WIDTH as int
    &&& forall|x: int| 0 <= x < m@.len() ==> (#[trigger] m@[x])@.len() == MAP_HEIGHT as int
}

/// The tile at column `x`, row `y`.
pub open spec fn tile_at(m: &Grid, x: int, y: int) -> Tile {
    m@[x]@[y]
}

/// A coordinate pair lies on the grid.
pub open spec fn in_bounds(x: int, y: int) -> bool {
    0 <= x < MAP_WIDTH as int && 0 <= y < MAP_HEIGHT as int
}

/// Replace one tile, leaving every other tile as it was.
pub(crate) fn set_tile(map: &mut Grid, x: i32, y: i32, t: Tile)
    requires
        wf_map(old(map)),
        in_bounds(x as int, y as int),
    ensures
        wf_map(final(map)),
        forall|xx: int, yy: int|
            in_bounds(xx, yy) ==> #[trigger] tile_at(final(map), xx, yy) == (if xx == x as int
                && yy == y as int {
                t
            } else {
                tile_at(old(map), xx, yy)
            }),
{
    let col = &mut map[x as usize];
    let slot = &mut col[y as usize];
    *slot = t;
}

/// A position is blocked when its tile blocks movement or some blocking
/// entity stands on it.
pub open spec fn blocked_at(m: &Grid, objs: Seq<Object>, x: int, y: int) -> bool {
    ||| tile_at(m, x, y).blocked
    ||| exists|i: int|
        0 <= i < objs.len() && (#[trigger] objs[i]).blocks && objs[i].x as int == x
            && objs[i].y as int == y
}

/// Whether anything stops movement onto `(x, y)`: first the terrain, then a
/// scan of the registry for a blocking entity standing there.
pub fn is_blocked(x: i32, y: i32, map: &Grid, objects: &Vec<Object>) -> (r: bool)
    requires
        wf_map(map),
        in_bounds(x as int, y as int),
    ensures
        r == blocked_at(map, objects@, x as int, y as int),
{
    if map[x as usize][y as usize].blocked {
        return true;
    }
    let n = objects.len();
    let mut i: usize = 0;
    while i < n
        invariant
            n == objects@.len(),
            0 <= i <= n,
            forall|j: int|
                0 <= j < i ==> !((#[trigger] objects@[j]).blocks && objects@[j].x == x
                    && objects@[j].y == y),
        decreases n - i,
    {
        if objects[i].blocks && objects[i].x == x && objects[i].y == y {
            return true;
        }
        i += 1;
    }
    false
}

} // verus!

verus! {

/// Two entities that differ at most in their position.
pub open spec fn same_except_pos(a: Object, b: Object) -> bool {
    a == (Object { x: a.x, y: a.y, ..b })
}

/// A grid filled with one tile value.
pub(crate) fn filled_grid(t: Tile) -> (m: Grid)
    ensures
        wf_map(&m),
        forall|x: int, y: int| in_bounds(x, y) ==> #[trigger] tile_at(&m, x, y) == t,
{
    let mut m: Grid = Vec::new();
    let mut x: i32 = 0;
    while x < MAP_WIDTH
        invariant
            0 <= x <= MAP_WIDTH,
            m@.len() == x as int,
            forall|xx: int|
                0 <= xx < x as int ==> (#[trigger] m@[xx])@.len() == MAP_HEIGHT as int,
            forall|xx: int, yy: int|
                0 <= xx < x as int && 0 <= yy < MAP_HEIGHT as int ==> #[trigger] (m@[xx])@[yy]
                    == t,
        decreases MAP_WIDTH - x,
    {
        let mut col: Vec<Tile> = Vec::new();
        let mut y: i32 = 0;
        while y < MAP_HEIGHT
            invariant
                0 <= y <= MAP_HEIGHT,
                col@.len() == y as int,
                forall|yy: int| 0 <= yy < y as int ==> #[trigger] col@[yy] == t,
            decreases MAP_HEIGHT - y,
        {
            col.push(t);
            y += 1;
        }
        m.push(col);
        x += 1;
    }
    m
}

/// Carve a full level: draw `max_rooms` candidate rectangles, spawn each
/// one's monsters and items before testing it for overlap, carve and tunnel
/// the accepted ones, seat the player at the first accepted room's center,
/// and finally place the exit stairs on an unblocked tile. Returns the grid
/// and the full candidate list.
///
/// Every candidate lies strictly inside the grid with a one-tile border, the
/// grid holds only the open and wall presets, and all carved floor stays
/// strictly interior. When the candidates happen to be pairwise disjoint
/// (every room accepted), the player's tile and the stairs' tile are
/// connected by a walkable path. When only the first candidate was accepted,
/// the carved floor is exactly that room's interior; the player sits at the
/// first candidate's center in every case.
pub fn make_map_rooms(objects: &mut Vec<Object>, max_rooms: i32, rng: &mut rand::rngs::StdRng) -> (res: (
    Grid,
    Vec<Rect>,
))
    requires
        old(objects)@.len() >= 1,
        forall|j: int| 0 <= j < old(objects)@.len() ==> wf_object(#[trigger] old(objects)@[j]),
        1 <= max_rooms,
    ensures
        ({
            let map = &res.0;
            let rooms = res.1@;
            let objs = final(objects)@;
            let px = objs[0].x as int;
            let py = objs[0].y as int;
            let s = objs.last();
            &&& wf_map(map)
            &&& rooms.len() == max_rooms as int
            &&& forall|k: int| 0 <= k < rooms.len() ==> wf_rect(#[trigger] rooms[k])
            &&& objs.len() > old(objects)@.len()
            &&& forall|j: int| 1 <= j < old(objects)@.len() ==> objs[j] == old(objects)@[j]
            &&& same_except_pos(objs[0], old(objects)@[0])
            &&& forall|j: int| 0 <= j < objs.len() ==> wf_object(#[trigger] objs[j])
            &&& forall|j: int|
                old(objects)@.len() <= j < objs.len() - 1 ==> is_orc(#[trigger] objs[j])
                    || is_troll(objs[j]) || is_potion(objs[j])
            &&& px == spec_center_x(rooms[0]) && py == spec_center_y(rooms[0])
            &&& !tile_at(map, px, py).blocked
            &&& s.name@ == "stairs"@ && s.glyph == '>' && !s.blocks && !s.alive
            &&& s.fighter.is_none() && s.ai.is_none() && s.item.is_none()
            &&& 1 <= s.x as int <= MAP_WIDTH as int - 2 && 1 <= s.y as int <= MAP_HEIGHT as int - 2
            &&& !tile_at(map, s.x as int, s.y as int).blocked
            &&& ((exists|x: int, y: int|
                1 <= x <= MAP_WIDTH as int - 2 && 1 <= y <= MAP_HEIGHT as int - 2 && !(
                #[trigger] blocked_at(map, objs.drop_last(), x, y))) ==> !blocked_at(
                map,
                objs.drop_last(),
                s.x as int,
                s.y as int,
            ))
            &&& forall|j: int|
                old(objects)@.len() <= j < objs.len() - 1 ==> (#[trigger] objs[j]).name@
                    != "stairs"@
            &&& forall|x: int, y: int|
                in_bounds(x, y) ==> preset_tile(#[trigger] tile_at(map, x, y))
            &&& forall|x: int, y: int|
                in_bounds(x, y) && !(#[trigger] tile_at(map, x, y)).blocked ==> 1 <= x
                    <= MAP_WIDTH as int - 2 && 1 <= y <= MAP_HEIGHT as int - 2
            &&& (only_first_accepted(rooms) ==> forall|x: int, y: int|
                in_bounds(x, y) ==> (!(#[trigger] tile_at(map, x, y)).blocked <==> in_interior(
                    rooms[0],
                    x,
                    y,
                )))
            &&& (pairwise_disjoint(rooms) ==> connected(map, px, py, s.x as int, s.y as int)
                && connected(map, s.x as int, s.y as int, px, py))
        }),
{
    let mut map = filled_grid(Tile::wall());
    let mut rooms: Vec<Rect> = Vec::new();
    let mut i: i32 = 0;
    while i < max_rooms
        invariant
            1 <= max_rooms,
            0 <= i <= max_rooms,
            rooms@.len() == i as int,
            wf_map(&map),
            forall|k: int| 0 <= k < rooms@.len() ==> wf_rect(#[trigger] rooms@[k]),
            old(objects)@.len() >= 1,
            objects@.len() >= old(objects)@.len(),
            forall|j: int| 1 <= j < old(objects)@.len() ==> objects@[j] == old(objects)@[j],
            same_except_pos(objects@[0], old(objects)@[0]),
            forall|j: int| 0 <= j < objects@.len() ==> wf_object(#[trigger] objects@[j]),
            forall|j: int|
                old(objects)@.len() <= j < objects@.len() ==> is_orc(#[trigger] objects@[j])
                    || is_troll(objects@[j]) || is_potion(objects@[j]),
            rooms@.len() == 0 ==> objects@[0] == old(objects)@[0],
            rooms@.len() == 0 ==> forall|x: int, y: int|
                in_bounds(x, y) ==> (#[trigger] tile_at(&map, x, y)).blocked,
            forall|x: int, y: int| in_bounds(x, y) ==> preset_tile(#[trigger] tile_at(&map, x, y)),
            forall|x: int, y: int|
                in_bounds(x, y) && !(#[trigger] tile_at(&map, x, y)).blocked ==> 1 <= x
                    <= MAP_WIDTH as int - 2 && 1 <= y <= MAP_HEIGHT as int - 2,
            rooms@.len() >= 1 ==> objects@[0].x as int == spec_center_x(rooms@[0]) && objects@[0].y
                as int == spec_center_y(rooms@[0]) && !tile_at(
                &map,
                objects@[0].x as int,
                objects@[0].y as int,
            ).blocked,
            rooms@.len() >= 1 && only_first_accepted(rooms@) ==> forall|x: int, y: int|
                in_bounds(x, y) ==> (!(#[trigger] tile_at(&map, x, y)).blocked <==> in_interior(
                    rooms@[0],
                    x,
                    y,
                )),
            pairwise_disjoint(rooms@) ==> forall|k: int|
                0 <= k < rooms@.len() ==> !tile_at(
                    &map,
                    spec_center_x(#[trigger] rooms@[k]),
                    spec_center_y(rooms@[k]),
                ).blocked,
            pairwise_disjoint(rooms@) && rooms@.len() >= 1 ==> forall|x: int, y: int|
                in_bounds(x, y) && !(#[trigger] tile_at(&map, x, y)).blocked ==> connected(
                    &map,
                    x,
                    y,
                    objects@[0].x as int,
                    objects@[0].y as int,
                ),
        decreases max_rooms - i,
    {
        let w = rng_range(rng, ROOM_MIN_SIZE, ROOM_MAX_SIZE + 1);
        let h = rng_range(rng, ROOM_MIN_SIZE, ROOM_MAX_SIZE + 1);
        let x = rng_range(rng, 1, MAP_WIDTH - w);
        let y = rng_range(rng, 1, MAP_HEIGHT - h);
        let new_room = Rect::new(x, y, w, h);
        spawn(new_room, objects, &map, rng);

        let mut failed = false;
        let mut j: usize = 0;
        while j < rooms.len()
            invariant
                0 <= j <= rooms@.len(),
                failed ==> exists|jj: int|
                    0 <= jj < rooms@.len() && spec_intersects(new_room, #[trigger] rooms@[jj]),
                !failed ==> forall|jj: int|
                    0 <= jj < j ==> !spec_intersects(new_room, #[trigger] rooms@[jj]),
            decreases rooms@.len() - j,
        {
            if new_room.intersects_with(&rooms[j]) {
                failed = true;
            }
            j += 1;
        }

        let ghost m0 = map;
        if !failed {
            create_room(new_room, &mut map);
            let ghost m1 = map;
            let (new_x, new_y) = new_room.center();
            proof {
                lemma_center_in_interior(new_room);
            }
            if rooms.len() == 0 {
                let p = &mut objects[0];
                p.x = new_x;
                p.y = new_y;
                proof {
                    let rs = rooms@.push(new_room);
                    let cnx = spec_center_x(new_room);
                    let cny = spec_center_y(new_room);
                    assert(rs[0] == new_room && rs.len() == 1);
                    assert forall|a: int, b: int| in_interior(new_room, a, b) implies in_bounds(
                        a,
                        b,
                    ) && !(#[trigger] tile_at(&map, a, b)).blocked by {
                        assert(tile_at(&map, a, b) == crate::map_gen::open_tile());
                    }
                    assert forall|xx: int, yy: int|
                        in_bounds(xx, yy) && !(#[trigger] tile_at(&map, xx, yy)).blocked implies
                    in_interior(new_room, xx, yy) && connected(&map, xx, yy, cnx, cny) && 1 <= xx
                        <= MAP_WIDTH as int - 2 && 1 <= yy <= MAP_HEIGHT as int - 2 by {
                        assert(tile_at(&m0, xx, yy).blocked);
                        assert(in_interior(new_room, xx, yy));
                        lemma_room_connected(&map, new_room, xx, yy, cnx, cny);
                    }
                    assert forall|a: int, b: int| in_bounds(a, b) implies preset_tile(
                        #[trigger] tile_at(&map, a, b),
                    ) by {
                        assert(tile_at(&map, a, b) == open_tile() || tile_at(&map, a, b) == tile_at(
                            &m0,
                            a,
                            b,
                        ));
                        assert(preset_tile(tile_at(&m0, a, b)));
                    }
                }
            } else {
                let prev = rooms[rooms.len() - 1];
                let (prev_x, prev_y) = prev.center();
                proof {
                    lemma_center_in_interior(prev);
                    assert(prev == rooms@[rooms@.len() - 1]);
                }
                if rng_coin(rng) {
                    create_h_tunnel(prev_x, new_x, prev_y, &mut map);
                    let ghost m2 = map;
                    create_v_tunnel(prev_y, new_y, new_x, &mut map);
                    proof {
                        restore_after_tunnels(
                            &m0,
                            &m1,
                            &m2,
                            &map,
                            rooms@,
                            new_room,
                            prev_x as int,
                            prev_y as int,
                            objects@[0].x as int,
                            objects@[0].y as int,
                            true,
                        );
                    }
                } else {
                    create_v_tunnel(prev_y, new_y, prev_x, &mut map);
                    let ghost m2 = map;
                    create_h_tunnel(prev_x, new_x, new_y, &mut map);
                    proof {
                        restore_after_tunnels(
                            &m0,
                            &m1,
                            &m2,
                            &map,
                            rooms@,
                            new_room,
                            prev_x as int,
                            prev_y as int,
                            objects@[0].x as int,
                            objects@[0].y as int,
                            false,
                        );
                    }
                }
            }
        } else {
            proof {
                let rs = rooms@.push(new_room);
                if pairwise_disjoint(rs) {
                    let jj = choose|jj: int|
                        0 <= jj < rooms@.len() && spec_intersects(new_room, rooms@[jj]);
                    assert(rs[jj] == rooms@[jj]);
                    assert(rs[rooms@.len() as int] == new_room);
                    assert(false);
                }
                // A rejection keeps the only-first-accepted condition stable.
                if only_first_accepted(rs) && rooms@.len() >= 1 {
                    assert forall|k: int| 1 <= k < rooms@.len() implies exists|j: int|
                        0 <= j < k && spec_intersects(#[trigger] rooms@[k], #[trigger] rooms@[j]) by {
                        assert(rs[k] == rooms@[k]);
                        let j = choose|j: int|
                            0 <= j < k && spec_intersects(#[trigger] rs[k], #[trigger] rs[j]);
                        assert(rs[j] == rooms@[j]);
                        assert(spec_intersects(rooms@[k], rooms@[j]));
                    }
                    assert(only_first_accepted(rooms@));
                    assert(rs[0] == rooms@[0]);
                }
            }
        }
        proof {
            // An acceptance after the first voids the only-first condition.
            if !failed && rooms@.len() >= 1 {
                let rs = rooms@.push(new_room);
                if only_first_accepted(rs) {
                    assert(rs[rooms@.len() as int] == new_room);
                    let j = choose|j: int|
                        0 <= j < rooms@.len() as int && spec_intersects(
                            #[trigger] rs[rooms@.len() as int],
                            #[trigger] rs[j],
                        );
                    assert(rs[j] == rooms@[j]);
                    assert(spec_intersects(new_room, rooms@[j]));
                    assert(false);
                }
            }
        }
        rooms.push(new_room);
        i += 1;
    }

    let last = rooms[rooms.len() - 1];
    let (mut lx, mut ly) = last.center();
    proof {
        lemma_center_in_interior(last);
    }
    let mut found = false;
    let mut fuel: i32 = 1000;
    while fuel > 0 && !found
        invariant
            wf_map(&map),
            rooms@.len() >= 1,
            forall|k: int| 0 <= k < rooms@.len() ==> wf_rect(#[trigger] rooms@[k]),
            -2 <= lx <= MAP_WIDTH,
            -2 <= ly <= MAP_HEIGHT,
            found ==> 1 <= lx <= MAP_WIDTH - 2 && 1 <= ly <= MAP_HEIGHT - 2 && !blocked_at(
                &map,
                objects@,
                lx as int,
                ly as int,
            ),
        decreases fuel,
    {
        if 1 <= lx && lx <= MAP_WIDTH - 2 && 1 <= ly && ly <= MAP_HEIGHT - 2 {
            if !is_blocked(lx, ly, &map, objects) {
                found = true;
            } else {
                lx = lx + rng_range(rng, -1, 1);
                ly = ly + rng_range(rng, -1, 1);
            }
        } else {
            let k: i32 = if rooms.len() >= 3 {
                rng_range(rng, 1, 4)
            } else {
                1
            };
            let idx = rooms.len() - (k as usize);
            let c = rooms[idx].center();
            proof {
                lemma_center_in_interior(rooms@[idx as int]);
            }
            lx = c.0;
            ly = c.1;
        }
        fuel -= 1;
    }
    let mut entity_free = found;
    if !found {
        match find_free_tile(&map, objects) {
            Some(p) => {
                lx = p.0;
                ly = p.1;
                entity_free = true;
            },
            None => {
                let c0 = rooms[0].center();
                lx = c0.0;
                ly = c0.1;
                proof {
                    lemma_center_in_interior(rooms@[0]);
                }
            },
        }
    }
    proof {
        assert(1 <= lx <= MAP_WIDTH - 2 && 1 <= ly <= MAP_HEIGHT - 2);
        assert(!tile_at(&map, lx as int, ly as int).blocked);
    }
    let ghost pre = objects@;
    let stairs = Object::new(lx, ly, '>', Color::Red, false, "stairs", false);
    objects.push(stairs);
    proof {
        assert(objects@.drop_last() =~= pre);
        if pairwise_disjoint(rooms@) {
            lemma_connected_sym(
                &map,
                lx as int,
                ly as int,
                objects@[0].x as int,
                objects@[0].y as int,
            );
        }
        assert forall|j: int|
            old(objects)@.len() <= j < objects@.len() - 1 implies (#[trigger] objects@[j]).name@
                != "stairs"@ by {
            reveal_strlit("orc");
            reveal_strlit("troll");
            reveal_strlit("healing potion");
            reveal_strlit("stairs");
            assert(0 <= j < pre.len());
            assert(objects@[j] == pre[j]);
            assert(is_orc(pre[j]) || is_troll(pre[j]) || is_potion(pre[j]));
            assert(pre[j].name@ == "orc"@ || pre[j].name@ == "troll"@ || pre[j].name@
                == "healing potion"@);
            assert("orc"@.len() == 3 && "troll"@.len() == 5 && "healing potion"@.len() == 14
                && "stairs"@.len() == 6);
        }
    }
    (map, rooms)
}

/// Scan the grid's interior for the first position that neither terrain nor
/// a blocking entity occupies.
fn find_free_tile(map: &Grid, objects: &Vec<Object>) -> (r: Option<(i32, i32)>)
    requires
        wf_map(map),
    ensures
        match r {
            Some(p) => 1 <= p.0 <= MAP_WIDTH - 2 && 1 <= p.1 <= MAP_HEIGHT - 2 && !blocked_at(
                map,
                objects@,
                p.0 as int,
                p.1 as int,
            ),
            None => forall|x: int, y: int|
                1 <= x <= MAP_WIDTH as int - 2 && 1 <= y <= MAP_HEIGHT as int - 2
                    ==> #[trigger] blocked_at(map, objects@, x, y),
        },
{
    let mut x: i32 = 1;
    while x <= MAP_WIDTH - 2
        invariant
            wf_map(map),
            1 <= x <= MAP_WIDTH - 1,
            forall|xx: int, yy: int|
                1 <= xx < x as int && 1 <= yy <= MAP_HEIGHT as int - 2 ==> #[trigger] blocked_at(
                    map,
                    objects@,
                    xx,
                    yy,
                ),
        decreases MAP_WIDTH - x,
    {
        let mut y: i32 = 1;
        while y <= MAP_HEIGHT - 2
            invariant
                wf_map(map),
                1 <= x <= MAP_WIDTH - 2,
                1 <= y <= MAP_HEIGHT - 1,
                forall|xx: int, yy: int|
                    1 <= xx < x as int && 1 <= yy <= MAP_HEIGHT as int - 2 ==> #[trigger] blocked_at(
                        map,
                        objects@,
                        xx,
                        yy,
                    ),
                forall|yy: int|
                    1 <= yy < y as int ==> #[trigger] blocked_at(map, objects@, x as int, yy),
            decreases MAP_HEIGHT - y,
        {
            if !is_blocked(x, y, map, objects) {
                return Some((x, y));
            }
            y += 1;
        }
        x += 1;
    }
    None
}

/// Carve a full level with the default room count; the player entity in slot
/// zero is moved to the first room's center, spawned monsters and items come
/// after the entities already present, and the stairs entity is appended
/// last, on a tile that terrain does not block.
pub fn make_map(objects: &mut Vec<Object>, rng: &mut rand::rngs::StdRng) -> (map: Grid)
    requires
        old(objects)@.len() >= 1,
        forall|j: int| 0 <= j < old(objects)@.len() ==> wf_object(#[trigger] old(objects)@[j]),
    ensures
        ({
            let objs = final(objects)@;
            let s = objs.last();
            &&& wf_map(&map)
            &&& objs.len() > old(objects)@.len()
            &&& forall|j: int| 1 <= j < old(objects)@.len() ==> objs[j] == old(objects)@[j]
            &&& same_except_pos(objs[0], old(objects)@[0])
            &&& forall|j: int| 0 <= j < objs.len() ==> wf_object(#[trigger] objs[j])
            &&& in_bounds(objs[0].x as int, objs[0].y as int)
            &&& !tile_at(&map, objs[0].x as int, objs[0].y as int).blocked
            &&& s.name@ == "stairs"@ && s.glyph == '>' && !s.blocks && !s.alive
            &&& 1 <= s.x as int <= MAP_WIDTH as int - 2 && 1 <= s.y as int <= MAP_HEIGHT as int - 2
            &&& !tile_at(&map, s.x as int, s.y as int).blocked
            &&& ((exists|x: int, y: int|
                1 <= x <= MAP_WIDTH as int - 2 && 1 <= y <= MAP_HEIGHT as int - 2 && !(
                #[trigger] blocked_at(&map, objs.drop_last(), x, y))) ==> !blocked_at(
                &map,
                objs.drop_last(),
                s.x as int,
                s.y as int,
            ))
            &&& forall|j: int|
                old(objects)@.len() <= j < objs.len() - 1 ==> is_orc(#[trigger] objs[j])
                    || is_troll(objs[j]) || is_potion(objs[j])
            &&& forall|j: int|
                old(objects)@.len() <= j < objs.len() - 1 ==> (#[trigger] objs[j]).name@
                    != "stairs"@
            &&& forall|x: int, y: int|
                in_bounds(x, y) ==> preset_tile(#[trigger] tile_at(&map, x, y))
            &&& forall|x: int, y: int|
                in_bounds(x, y) && !(#[trigger] tile_at(&map, x, y)).blocked ==> 1 <= x
                    <= MAP_WIDTH as int - 2 && 1 <= y <= MAP_HEIGHT as int - 2
        }),
{
    let (map, _rooms) = make_map_rooms(objects, MAX_ROOMS, rng);
    map
}

/// Re-establish the generator's conditional invariants after a room was
/// accepted, carved and tunnelled to the previous candidate's center.
proof fn restore_after_tunnels(
    m0: &Grid,
    m1: &Grid,
    m2: &Grid,
    m3: &Grid,
    rooms: Seq<Rect>,
    new_room: Rect,
    cpx: int,
    cpy: int,
    px: int,
    py: int,
    horiz_first: bool,
)
    requires
        wf_rect(new_room),
        rooms.len() >= 1,
        forall|k: int| 0 <= k < rooms.len() ==> wf_rect(#[trigger] rooms[k]),
        cpx == spec_center_x(rooms[rooms.len() - 1]),
        cpy == spec_center_y(rooms[rooms.len() - 1]),
        forall|x: int, y: int|
            in_bounds(x, y) ==> #[trigger] tile_at(m1, x, y) == (if in_interior(new_room, x, y) {
                crate::map_gen::open_tile()
            } else {
                tile_at(m0, x, y)
            }),
        horiz_first ==> forall|x: int, y: int|
            in_bounds(x, y) ==> #[trigger] tile_at(m2, x, y) == (if y == cpy && between(
                cpx,
                x,
                spec_center_x(new_room),
            ) {
                crate::map_gen::open_tile()
            } else {
                tile_at(m1, x, y)
            }),
        horiz_first ==> forall|x: int, y: int|
            in_bounds(x, y) ==> #[trigger] tile_at(m3, x, y) == (if x == spec_center_x(new_room)
                && between(cpy, y, spec_center_y(new_room)) {
                crate::map_gen::open_tile()
            } else {
                tile_at(m2, x, y)
            }),
        !horiz_first ==> forall|x: int, y: int|
            in_bounds(x, y) ==> #[trigger] tile_at(m2, x, y) == (if x == cpx && between(
                cpy,
                y,
                spec_center_y(new_room),
            ) {
                crate::map_gen::open_tile()
            } else {
                tile_at(m1, x, y)
            }),
        !horiz_first ==> forall|x: int, y: int|
            in_bounds(x, y) ==> #[trigger] tile_at(m3, x, y) == (if y == spec_center_y(new_room)
                && between(cpx, x, spec_center_x(new_room)) {
                crate::map_gen::open_tile()
            } else {
                tile_at(m2, x, y)
            }),
        in_bounds(px, py),
        !tile_at(m0, px, py).blocked,
        pairwise_disjoint(rooms) ==> forall|k: int|
            0 <= k < rooms.len() ==> !tile_at(
                m0,
                spec_center_x(#[trigger] rooms[k]),
                spec_center_y(rooms[k]),
            ).blocked,
        pairwise_disjoint(rooms) ==> forall|x: int, y: int|
            in_bounds(x, y) && !(#[trigger] tile_at(m0, x, y)).blocked ==> connected(
                m0,
                x,
                y,
                px,
                py,
            ),
        forall|x: int, y: int| in_bounds(x, y) ==> preset_tile(#[trigger] tile_at(m0, x, y)),
        forall|x: int, y: int|
            in_bounds(x, y) && !(#[trigger] tile_at(m0, x, y)).blocked ==> 1 <= x <= MAP_WIDTH as int
                - 2 && 1 <= y <= MAP_HEIGHT as int - 2,
    ensures
        !tile_at(m3, px, py).blocked,
        forall|x: int, y: int| in_bounds(x, y) ==> preset_tile(#[trigger] tile_at(m3, x, y)),
        forall|x: int, y: int|
            in_bounds(x, y) && !(#[trigger] tile_at(m3, x, y)).blocked ==> 1 <= x <= MAP_WIDTH as int
                - 2 && 1 <= y <= MAP_HEIGHT as int - 2,
        pairwise_disjoint(rooms.push(new_room)) ==> forall|k: int|
            0 <= k < rooms.push(new_room).len() ==> !tile_at(
                m3,
                spec_center_x(#[trigger] rooms.push(new_room)[k]),
                spec_center_y(rooms.push(new_room)[k]),
            ).blocked,
        pairwise_disjoint(rooms.push(new_room)) ==> forall|x: int, y: int|
            in_bounds(x, y) && !(#[trigger] tile_at(m3, x, y)).blocked ==> connected(
                m3,
                x,
                y,
                px,
                py,
            ),
{
    let rs = rooms.push(new_room);
    let cnx = spec_center_x(new_room);
    let cny = spec_center_y(new_room);
    lemma_center_in_interior(new_room);
    lemma_center_in_interior(rooms[rooms.len() - 1]);

    assert forall|xx: int, yy: int|
        in_bounds(xx, yy) && !(#[trigger] tile_at(m0, xx, yy)).blocked implies !tile_at(
        m3,
        xx,
        yy,
    ).blocked by {
        assert(!tile_at(m1, xx, yy).blocked);
        assert(!tile_at(m2, xx, yy).blocked);
    }
    assert(!tile_at(m3, px, py).blocked);

    assert forall|x: int, y: int| in_bounds(x, y) implies preset_tile(
        #[trigger] tile_at(m3, x, y),
    ) by {
        assert(preset_tile(tile_at(m0, x, y)));
        assert(tile_at(m1, x, y) == crate::map_gen::open_tile() || tile_at(m1, x, y) == tile_at(
            m0,
            x,
            y,
        ));
        assert(tile_at(m2, x, y) == crate::map_gen::open_tile() || tile_at(m2, x, y) == tile_at(
            m1,
            x,
            y,
        ));
        assert(tile_at(m3, x, y) == crate::map_gen::open_tile() || tile_at(m3, x, y) == tile_at(
            m2,
            x,
            y,
        ));
    }

    assert forall|x: int, y: int|
        in_bounds(x, y) && !(#[trigger] tile_at(m3, x, y)).blocked implies 1 <= x <= MAP_WIDTH as int
            - 2 && 1 <= y <= MAP_HEIGHT as int - 2 by {
        if tile_at(m0, x, y).blocked && !in_interior(new_room, x, y) {
            assert(tile_at(m1, x, y) == tile_at(m0, x, y));
            if horiz_first {
                if tile_at(m2, x, y) != tile_at(m1, x, y) {
                    assert(y == cpy && between(cpx, x, cnx));
                } else {
                    assert(x == cnx && between(cpy, y, cny));
                }
            } else {
                if tile_at(m2, x, y) != tile_at(m1, x, y) {
                    assert(x == cpx && between(cpy, y, cny));
                } else {
                    assert(y == cny && between(cpx, x, cnx));
                }
            }
        }
    }

    assert(!tile_at(m3, cnx, cny).blocked) by {
        assert(tile_at(m1, cnx, cny) == crate::map_gen::open_tile());
        assert(!tile_at(m2, cnx, cny).blocked);
    }

    if pairwise_disjoint(rs) {
        assert forall|ii: int, jj: int| 0 <= ii < jj < rooms.len() implies !spec_intersects(
            #[trigger] rooms[ii],
            #[trigger] rooms[jj],
        ) by {
            assert(rs[ii] == rooms[ii]);
            assert(rs[jj] == rooms[jj]);
        }
        assert(pairwise_disjoint(rooms));

        assert forall|k: int| 0 <= k < rs.len() implies !tile_at(
            m3,
            spec_center_x(#[trigger] rs[k]),
            spec_center_y(rs[k]),
        ).blocked by {
            if k < rooms.len() {
                assert(rs[k] == rooms[k]);
                lemma_center_in_interior(rooms[k]);
                assert(!tile_at(m0, spec_center_x(rooms[k]), spec_center_y(rooms[k])).blocked);
            } else {
                assert(rs[k] == new_room);
            }
        }

        assert(!tile_at(m0, cpx, cpy).blocked);
        lemma_carve_step_connectivity(m0, m1, m2, m3, new_room, cpx, cpy, px, py, horiz_first);
    }
}

} // verus!
