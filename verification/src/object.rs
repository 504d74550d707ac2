use vstd::prelude::*;
use vstd::string::StringExecFns;
use crate::tile::{Grid, blocked_at, in_bounds, wf_map};
use crate::game::Status;
use crate::num::int_to_string;

verus! {

/// The palette the renderer understands; the core only tags entities with one
/// of these.
#[derive(Clone, Copy, Debug, PartialEq, Eq, Structural)]
pub enum Color {
    White,
    Red,
    Green,
    Yellow,
    Magenta,
}

/// Combat-capable component. Well-formed values keep `hp` within
/// `[0, max_hp]` and never carry negative stats.
#[derive(Clone, Copy, Debug, PartialEq, Eq, Structural)]
pub struct Fighter {
    pub max_hp: i32,
    pub hp: i32,
    pub defence: i32,
    pub power: i32,
}

/// Behaviour granting an entity one decision per turn.
#[derive(Clone, Copy, Debug, PartialEq, Eq, Structural)]
pub enum AI {
    Basic,
}

/// Consumable kinds an entity may carry.
#[derive(Clone, Copy, Debug, PartialEq, Eq, Structural)]
pub enum Item {
    Heal,
}

/// Any actor or thing placed in the world: the player, monsters, items and
/// the exit marker. Identity is the slot index in the registry, never a
/// reference.
pub struct Object {
    pub x: i32,
    pub y: i32,
    pub glyph: char,
    pub color: Color,
    pub blocks: bool,
    pub name: String,
    pub alive: bool,
    pub fighter: Option<Fighter>,
    pub ai: Option<AI>,
    pub item: Option<Item>,
}

pub open spec fn wf_fighter(f: Fighter) -> bool {
    &&& 0 <= f.hp <= f.max_hp
    &&& 0 <= f.power
    &&& 0 <= f.defence
}

/// The per-entity invariant: it stands on the grid, a dead entity never
/// blocks, a living one can fight, and any stats are in range.
pub open spec fn wf_object(o: Object) -> bool {
    &&& in_bounds(o.x as int, o.y as int)
    &&& o.alive ==> o.fighter.is_some()
    &&& !o.alive ==> !o.blocks
    &&& o.fighter.is_some() ==> wf_fighter(o.fighter.unwrap())
}

impl Object {
    /// A bare entity with no fighter, AI or item component.
    pub fn new(x: i32, y: i32, glyph: char, color: Color, blocks: bool, name: &str, alive: bool) -> (o: Object)
        ensures
            o.x == x && o.y == y && o.glyph == glyph && o.color == color,
            o.blocks == blocks && o.alive == alive,
            o.name@ == name@,
            o.fighter.is_none() && o.ai.is_none() && o.item.is_none(),
    {
        Object {
            x,
            y,
            glyph,
            color,
            blocks,
            name: String::from_str(name),
            alive,
            fighter: None,
            ai: None,
            item: None,
        }
    }

    pub fn pos(&self) -> (p: (i32, i32))
        ensures
            p == (self.x, self.y),
    {
        (self.x, self.y)
    }

    pub fn set_pos(&mut self, x: i32, y: i32)
        ensures
            *final(self) == (Object { x, y, ..*old(self) }),
    {
        self.x = x;
        self.y = y;
    }
}

/// Damage dealt by a fighter of power `power` against defence `defence`:
/// the difference, floored at zero (never negative).
pub open spec fn spec_damage(power: int, defence: int) -> int {
    if power > defence {
        power - defence
    } else {
        0
    }
}

/// The defender after taking `dmg` points: hp drops, clamped at zero, and an
/// entity whose hp reaches zero dies — it stops blocking and its glyph and
/// color turn into the death marker. Entities without a fighter are untouched.
pub open spec fn spec_after_damage(o: Object, dmg: int) -> Object {
    match o.fighter {
        Some(f) => {
            let new_hp = if dmg >= f.hp {
                0
            } else {
                (f.hp - dmg) as i32
            };
            if new_hp == 0 {
                Object {
                    alive: false,
                    blocks: false,
                    glyph: '%',
                    color: Color::Red,
                    fighter: Some(Fighter { hp: 0, ..f }),
                    ..o
                }
            } else {
                Object { fighter: Some(Fighter { hp: new_hp, ..f }), ..o }
            }
        },
        None => o,
    }
}

/// The log line describing one exchange.
pub open spec fn attack_msg(a: Seq<char>, d: Seq<char>, dmg: int) -> Seq<char> {
    if dmg > 0 {
        a + " attacks "@ + d + " for "@ + crate::num::decimal_of(dmg) + " hit points."@
    } else {
        a + " attacks "@ + d + " but it has no effect!"@
    }
}

/// The log line announcing a death.
pub open spec fn death_msg(d: Seq<char>) -> Seq<char> {
    d + " is dead!"@
}

/// Damage at least the defender's remaining hit points kills it: it stops
/// blocking and turns into the death marker, while its slot, name, item and
/// AI tag stay in place.
pub proof fn lemma_death_transition(o: Object, dmg: int)
    requires
        o.fighter.is_some(),
        wf_fighter(o.fighter.unwrap()),
        dmg >= o.fighter.unwrap().hp,
    ensures
        !spec_after_damage(o, dmg).alive,
        !spec_after_damage(o, dmg).blocks,
        spec_after_damage(o, dmg).fighter.unwrap().hp == 0,
        spec_after_damage(o, dmg).name == o.name,
        spec_after_damage(o, dmg).ai == o.ai,
        spec_after_damage(o, dmg).item == o.item,
        spec_after_damage(o, dmg).x == o.x && spec_after_damage(o, dmg).y == o.y,
{
}

/// Combat resolution between two distinct registry slots: damage is
/// `power - defence` floored at zero, the defender's hp drops clamped at
/// zero, and a defender reaching zero hp dies in place (it stays in the
/// registry). One status line describes the exchange; a death adds another.
pub fn attack(objects: &mut Vec<Object>, attacker: usize, defender: usize, statuses: &mut Vec<Status>)
    requires
        attacker < old(objects)@.len(),
        defender < old(objects)@.len(),
        attacker != defender,
        old(objects)@[attacker as int].fighter.is_some(),
        old(objects)@[defender as int].fighter.is_some(),
        wf_fighter(old(objects)@[attacker as int].fighter.unwrap()),
        wf_fighter(old(objects)@[defender as int].fighter.unwrap()),
    ensures
        ({
            let af = old(objects)@[attacker as int].fighter.unwrap();
            let df = old(objects)@[defender as int].fighter.unwrap();
            let dmg = spec_damage(af.power as int, df.defence as int);
            let hit = spec_after_damage(old(objects)@[defender as int], dmg);
            let aname = old(objects)@[attacker as int].name@;
            let dname = old(objects)@[defender as int].name@;
            let died = (if dmg >= df.hp { 0int } else { df.hp - dmg }) == 0;
            &&& final(objects)@ == old(objects)@.update(defender as int, hit)
            &&& final(statuses)@.len() == old(statuses)@.len() + (if died { 2int } else { 1int })
            &&& forall|i: int| 0 <= i < old(statuses)@.len() ==> final(statuses)@[i] == old(statuses)@[i]
            &&& final(statuses)@[old(statuses)@.len() as int].msg@ == attack_msg(aname, dname, dmg)
            &&& final(statuses)@[old(statuses)@.len() as int].display_time == 1
            &&& died ==> final(statuses)@[old(statuses)@.len() as int + 1].msg@ == death_msg(dname)
            &&& died ==> final(statuses)@[old(statuses)@.len() as int + 1].display_time == 1
        }),
{
    let af = objects[attacker].fighter.unwrap();
    let aname = objects[attacker].name.clone();
    let df = objects[defender].fighter.unwrap();
    let dname = objects[defender].name.clone();

    let damage = if af.power > df.defence {
        af.power - df.defence
    } else {
        0
    };

    let mut msg = aname;
    msg.append(" attacks ");
    msg.append(dname.as_str());
    if damage > 0 {
        msg.append(" for ");
        let n = int_to_string(damage);
        msg.append(n.as_str());
        msg.append(" hit points.");
    } else {
        msg.append(" but it has no effect!");
    }
    statuses.push(Status { msg, display_time: 1 });

    let new_hp = if damage >= df.hp {
        0
    } else {
        df.hp - damage
    };
    let d = &mut objects[defender];
    d.fighter = Some(Fighter { hp: new_hp, ..df });
    if new_hp == 0 {
        d.alive = false;
        d.blocks = false;
        d.glyph = '%';
        d.color = Color::Red;
    }
    if new_hp == 0 {
        let mut dmsg = dname;
        dmsg.append(" is dead!");
        statuses.push(Status { msg: dmsg, display_time: 1 });
    }
}

/// Move the entity in slot `id` by one step, unless the destination is off
/// the grid, terrain-blocked, or occupied by a blocking entity; a blocked
/// move is absorbed silently.
pub fn move_by(id: usize, dx: i32, dy: i32, map: &Grid, objects: &mut Vec<Object>)
    requires
        wf_map(map),
        id < old(objects)@.len(),
        in_bounds(old(objects)@[id as int].x as int, old(objects)@[id as int].y as int),
        -1 <= dx <= 1,
        -1 <= dy <= 1,
    ensures
        ({
            let nx = old(objects)@[id as int].x as int + dx as int;
            let ny = old(objects)@[id as int].y as int + dy as int;
            if in_bounds(nx, ny) && !blocked_at(map, old(objects)@, nx, ny) {
                final(objects)@ == old(objects)@.update(
                    id as int,
                    Object { x: nx as i32, y: ny as i32, ..old(objects)@[id as int] },
                )
            } else {
                final(objects)@ == old(objects)@
            }
        }),
{
    let x = objects[id].x;
    let y = objects[id].y;
    let nx = x + dx;
    let ny = y + dy;
    if 0 <= nx && nx < crate::tile::MAP_WIDTH && 0 <= ny && ny < crate::tile::MAP_HEIGHT {
        if !crate::tile::is_blocked(nx, ny, map, objects) {
            let o = &mut objects[id];
            o.x = nx;
            o.y = ny;
        }
    }
}

} // verus!
