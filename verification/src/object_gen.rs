use vstd::prelude::*;
use crate::map_gen::{Rect, in_interior, wf_rect};
use crate::object::{AI, Color, Fighter, Item, Object, wf_object};
use crate::tile::{Grid, is_blocked, tile_at, wf_map};
use crate::rng::rng_range;

verus! {

/// Most monsters a single room roll may add.
pub const MAX_ROOM_MONSTERS: i32 = 3;

/// Most items a single room roll may add.
pub const MAX_ROOM_ITEMS: i32 = 2;

/// An orc as the spawner builds it.
pub open spec fn is_orc(o: Object) -> bool {
    &&& o.glyph == 'o' && o.color == Color::Green && o.name@ == "orc"@
    &&& o.blocks && o.alive
    &&& o.fighter == Some(Fighter { max_hp: 10, hp: 10, defence: 0, power: 3 })
    &&& o.ai == Some(AI::Basic) && o.item.is_none()
}

/// A troll as the spawner builds it.
pub open spec fn is_troll(o: Object) -> bool {
    &&& o.glyph == 'T' && o.color == Color::Yellow && o.name@ == "troll"@
    &&& o.blocks && o.alive
    &&& o.fighter == Some(Fighter { max_hp: 16, hp: 16, defence: 1, power: 4 })
    &&& o.ai == Some(AI::Basic) && o.item.is_none()
}

/// A healing potion as the spawner builds it.
pub open spec fn is_potion(o: Object) -> bool {
    &&& o.glyph == '!' && o.color == Color::Magenta && o.name@ == "healing potion"@
    &&& !o.blocks && !o.alive
    &&& o.fighter.is_none() && o.ai.is_none()
    &&& o.item == Some(Item::Heal)
}

/// The registry's tail from `lo` on is a run of monsters followed by a run
/// of healing potions, splitting at `m`: at most `MAX_ROOM_MONSTERS`
/// monsters, at most `MAX_ROOM_ITEMS` potions, and every potion stands on a
/// tile that terrain does not block.
pub open spec fn monsters_then_items(map: &Grid, objs: Seq<Object>, lo: int, m: int) -> bool {
    &&& lo <= m <= lo + MAX_ROOM_MONSTERS as int
    &&& m <= objs.len() <= m + MAX_ROOM_ITEMS as int
    &&& forall|j: int| lo <= j < m ==> is_orc(#[trigger] objs[j]) || is_troll(objs[j])
    &&& forall|j: int|
        m <= j < objs.len() ==> is_potion(#[trigger] objs[j]) && !tile_at(
            map,
            objs[j].x as int,
            objs[j].y as int,
        ).blocked
}

/// Roll monsters and items for one candidate room and append them to the
/// registry. This runs before the room is tested for overlap, so a later
/// rejection does not take the spawns back. Every spawn stands strictly
/// inside the candidate's interior; items only land on currently unblocked
/// positions.
pub fn spawn(room: Rect, objects: &mut Vec<Object>, map: &Grid, rng: &mut rand::rngs::StdRng)
    requires
        wf_map(map),
        wf_rect(room),
    ensures
        old(objects)@.len() <= final(objects)@.len() <= old(objects)@.len() + (
        MAX_ROOM_MONSTERS + MAX_ROOM_ITEMS) as int,
        forall|j: int| 0 <= j < old(objects)@.len() ==> final(objects)@[j] == old(objects)@[j],
        forall|j: int|
            old(objects)@.len() <= j < final(objects)@.len() ==> {
                let o = #[trigger] final(objects)@[j];
                &&& wf_object(o)
                &&& in_interior(room, o.x as int, o.y as int)
                &&& (is_orc(o) || is_troll(o) || is_potion(o))
            },
        exists|m: int|
            #[trigger] monsters_then_items(map, final(objects)@, old(objects)@.len() as int, m),
{
    let num_monsters = rng_range(rng, 0, MAX_ROOM_MONSTERS + 1);
    let mut k: i32 = 0;
    while k < num_monsters
        invariant
            wf_map(map),
            wf_rect(room),
            0 <= k <= num_monsters <= MAX_ROOM_MONSTERS,
            old(objects)@.len() <= objects@.len() == old(objects)@.len() + k as int,
            forall|j: int| 0 <= j < old(objects)@.len() ==> objects@[j] == old(objects)@[j],
            forall|j: int|
                old(objects)@.len() <= j < objects@.len() ==> {
                    let o = #[trigger] objects@[j];
                    &&& wf_object(o)
                    &&& in_interior(room, o.x as int, o.y as int)
                    &&& (is_orc(o) || is_troll(o))
                },
        decreases num_monsters - k,
    {
        let x = rng_range(rng, room.x1 + 1, room.x2);
        let y = rng_range(rng, room.y1 + 1, room.y2);
        let monster = if rng_range(rng, 0, 10) < 8 {
            let mut orc = Object::new(x, y, 'o', Color::Green, true, "orc", true);
            orc.fighter = Some(Fighter { max_hp: 10, hp: 10, defence: 0, power: 3 });
            orc.ai = Some(AI::Basic);
            orc
        } else {
            let mut troll = Object::new(x, y, 'T', Color::Yellow, true, "troll", true);
            troll.fighter = Some(Fighter { max_hp: 16, hp: 16, defence: 1, power: 4 });
            troll.ai = Some(AI::Basic);
            troll
        };
        objects.push(monster);
        k += 1;
    }

    let ghost mid = objects@;
    let num_items = rng_range(rng, 0, MAX_ROOM_ITEMS + 1);
    let mut k2: i32 = 0;
    while k2 < num_items
        invariant
            wf_map(map),
            wf_rect(room),
            0 <= k2 <= num_items <= MAX_ROOM_ITEMS,
            old(objects)@.len() <= mid.len() <= old(objects)@.len() + MAX_ROOM_MONSTERS as int,
            forall|j: int| 0 <= j < old(objects)@.len() ==> mid[j] == old(objects)@[j],
            forall|j: int|
                old(objects)@.len() <= j < mid.len() ==> {
                    let o = #[trigger] mid[j];
                    &&& wf_object(o)
                    &&& in_interior(room, o.x as int, o.y as int)
                    &&& (is_orc(o) || is_troll(o))
                },
            mid.len() <= objects@.len() <= mid.len() + k2 as int,
            forall|j: int| 0 <= j < mid.len() ==> objects@[j] == mid[j],
            forall|j: int|
                mid.len() <= j < objects@.len() ==> {
                    let o = #[trigger] objects@[j];
                    &&& wf_object(o)
                    &&& in_interior(room, o.x as int, o.y as int)
                    &&& is_potion(o)
                    &&& !tile_at(map, o.x as int, o.y as int).blocked
                },
        decreases num_items - k2,
    {
        let x = rng_range(rng, room.x1 + 1, room.x2);
        let y = rng_range(rng, room.y1 + 1, room.y2);
        if !is_blocked(x, y, map, objects) {
            let mut potion = Object::new(x, y, '!', Color::Magenta, false, "healing potion", false);
            potion.item = Some(Item::Heal);
            objects.push(potion);
        }
        k2 += 1;
    }
    proof {
        assert forall|j: int| old(objects)@.len() <= j < objects@.len() implies {
            let o = #[trigger] objects@[j];
            &&& wf_object(o)
            &&& in_interior(room, o.x as int, o.y as int)
            &&& (is_orc(o) || is_troll(o) || is_potion(o))
        } by {
            if j < mid.len() {
                assert(objects@[j] == mid[j]);
                assert(wf_object(mid[j]) && in_interior(room, mid[j].x as int, mid[j].y as int) && (
                is_orc(mid[j]) || is_troll(mid[j])));
            }
        }
        assert forall|j: int| old(objects)@.len() <= j < mid.len() as int implies is_orc(
            #[trigger] objects@[j],
        ) || is_troll(objects@[j]) by {
            assert(objects@[j] == mid[j]);
        }
        assert(monsters_then_items(map, objects@, old(objects)@.len() as int, mid.len() as int));
    }
}

} // verus!
