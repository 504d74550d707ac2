use vstd::prelude::*;
use vstd::string::StringExecFns;
use crate::fov::{cheb, sgn};
use crate::object::{Color, Fighter, Object, attack, attack_msg, death_msg, move_by, spec_after_damage, spec_damage, wf_object};
use crate::tile::{Grid, Tile, blocked_at, in_bounds, make_map, tile_at, wf_map};

verus! {

/// The player entity's fixed slot in the registry.
pub const PLAYER: usize = 0;

/// The player's starting (and regeneration ceiling) hit points.
pub const PLAYER_DEF_HP: i32 = 30;

/// How many items the inventory holds at most (one slot per letter a-z).
pub const INVENTORY_CAP: usize = 26;

/// One line of the append-only status log, with a display-duration hint for
/// the renderer.
pub struct Status {
    pub msg: String,
    pub display_time: u32,
}

/// The world state the turn scheduler drives: the level grid, the entity
/// registry (player in slot zero), the player's inventory, and the status
/// log.
pub struct Game {
    pub map: Grid,
    pub objects: Vec<Object>,
    pub inventory: Vec<Object>,
    pub statuses: Vec<Status>,
}

/// One discrete command from input handling.
#[derive(Clone, Copy, Debug, PartialEq, Eq, Structural)]
pub enum Command {
    Exit,
    MoveUp,
    MoveDown,
    MoveLeft,
    MoveRight,
    PickUp,
    Rest,
    Unrecognized,
}

/// What a turn resolved to.
#[derive(Clone, Copy, Debug, PartialEq, Eq, Structural)]
pub enum PlayerAction {
    TookTurn,
    DidntTakeTurn,
    Exit,
}

/// The world invariant: a well-formed grid, at least the player in the
/// registry, every entity well-formed, the player a fighter that never
/// carries an AI or item component, and a bounded inventory.
pub open spec fn wf_game(g: &Game) -> bool {
    &&& wf_map(&g.map)
    &&& g.objects@.len() >= 1
    &&& forall|j: int| 0 <= j < g.objects@.len() ==> wf_object(#[trigger] g.objects@[j])
    &&& g.objects@[0].fighter.is_some()
    &&& g.objects@[0].ai.is_none()
    &&& g.objects@[0].item.is_none()
    &&& g.inventory@.len() <= INVENTORY_CAP
}

/// The first living entity standing on `(x, y)`, scanning slots upward.
pub open spec fn spec_target_at(objs: Seq<Object>, x: int, y: int) -> Option<int>
    decreases objs.len(),
{
    if objs.len() == 0 {
        None
    } else {
        match spec_target_at(objs.drop_last(), x, y) {
            Some(j) => Some(j),
            None => {
                if objs.last().alive && objs.last().x as int == x && objs.last().y as int == y {
                    Some(objs.len() - 1)
                } else {
                    None
                }
            },
        }
    }
}

/// The first item-bearing entity standing on `(x, y)`, scanning slots upward.
pub open spec fn spec_item_at(objs: Seq<Object>, x: int, y: int) -> Option<int>
    decreases objs.len(),
{
    if objs.len() == 0 {
        None
    } else {
        match spec_item_at(objs.drop_last(), x, y) {
            Some(j) => Some(j),
            None => {
                if objs.last().item.is_some() && objs.last().x as int == x && objs.last().y as int
                    == y {
                    Some(objs.len() - 1)
                } else {
                    None
                }
            },
        }
    }
}

/// The status line for a successful pickup.
pub open spec fn pickup_msg(name: Seq<char>) -> Seq<char> {
    "You picked up a "@ + name + "!"@
}

/// The status line for a pickup refused by a full inventory.
pub open spec fn inventory_full_msg(name: Seq<char>) -> Seq<char> {
    "Your inventory is full, cannot pick up "@ + name + "."@
}

/// How one move-or-attack command changes the world: if a living entity
/// occupies the destination, the player attacks it; otherwise the player
/// steps there unless terrain or a blocking entity absorbs the move.
pub open spec fn moved_or_attacked(g0: Game, g1: Game, dx: int, dy: int) -> bool {
    let objs = g0.objects@;
    let nx = objs[0].x as int + dx;
    let ny = objs[0].y as int + dy;
    &&& g1.map == g0.map
    &&& g1.inventory == g0.inventory
    &&& match spec_target_at(objs, nx, ny) {
        Some(j) => {
            let df = objs[j].fighter.unwrap();
            let dmg = spec_damage(objs[0].fighter.unwrap().power as int, df.defence as int);
            let died = (if dmg >= df.hp { 0int } else { df.hp - dmg }) == 0;
            &&& g1.objects@ == objs.update(j, spec_after_damage(objs[j], dmg))
            &&& g1.statuses@.len() == g0.statuses@.len() + (if died { 2int } else { 1int })
            &&& forall|i: int| 0 <= i < g0.statuses@.len() ==> g1.statuses@[i] == g0.statuses@[i]
            &&& g1.statuses@[g0.statuses@.len() as int].msg@ == attack_msg(
                objs[0].name@,
                objs[j].name@,
                dmg,
            )
            &&& g1.statuses@[g0.statuses@.len() as int].display_time == 1
            &&& died ==> g1.statuses@[g0.statuses@.len() as int + 1].msg@ == death_msg(objs[j].name@)
            &&& died ==> g1.statuses@[g0.statuses@.len() as int + 1].display_time == 1
        },
        None => {
            &&& g1.statuses@ == g0.statuses@
            &&& if in_bounds(nx, ny) && !blocked_at(&g0.map, objs, nx, ny) {
                g1.objects@ == objs.update(0, Object { x: nx as i32, y: ny as i32, ..objs[0] })
            } else {
                g1.objects@ == objs
            }
        },
    }
}

/// How a pickup command changes the world: the first item-bearing entity on
/// the player's tile is swap-removed from the registry and appended to the
/// inventory, unless the inventory is full, in which case only a status line
/// is added; with nothing to pick up, nothing changes.
pub open spec fn picked_up(g0: Game, g1: Game) -> bool {
    let objs = g0.objects@;
    match spec_item_at(objs, objs[0].x as int, objs[0].y as int) {
        Some(j) => {
            let name = objs[j].name@;
            &&& g1.map == g0.map
            &&& if g0.inventory@.len() >= INVENTORY_CAP {
                &&& g1.objects@ == objs
                &&& g1.inventory@ == g0.inventory@
                &&& g1.statuses@.len() == g0.statuses@.len() + 1
                &&& g1.statuses@.last().msg@ == inventory_full_msg(name)
                &&& g1.statuses@.last().display_time == 1
                &&& forall|i: int|
                    0 <= i < g0.statuses@.len() ==> g1.statuses@[i] == g0.statuses@[i]
            } else {
                &&& g1.objects@ == objs.update(j, objs.last()).drop_last()
                &&& g1.inventory@ == g0.inventory@.push(objs[j])
                &&& g1.statuses@.len() == g0.statuses@.len() + 1
                &&& g1.statuses@.last().msg@ == pickup_msg(name)
                &&& g1.statuses@.last().display_time == 1
                &&& forall|i: int|
                    0 <= i < g0.statuses@.len() ==> g1.statuses@[i] == g0.statuses@[i]
            }
        },
        None => g1 == g0,
    }
}

/// What one slot's decision does to the registry: a slot with no AI tag, a
/// dead one, or one the player does not currently see leaves everything
/// unchanged; one adjacent to the player (Chebyshev distance at most one)
/// attacks the player; any other takes one signed unit step toward the
/// player unless terrain or a blocking entity absorbs the move.
pub open spec fn ai_step(map: &Grid, objs: Seq<Object>, id: int) -> Seq<Object> {
    let o = objs[id];
    let p = objs[0];
    if o.ai.is_none() {
        objs
    } else if !o.alive || !tile_at(map, o.x as int, o.y as int).currently_visible {
        objs
    } else if cheb(o.x as int, o.y as int, p.x as int, p.y as int) < 2 {
        objs.update(
            0,
            spec_after_damage(
                p,
                spec_damage(o.fighter.unwrap().power as int, p.fighter.unwrap().defence as int),
            ),
        )
    } else {
        let nx = o.x as int + sgn(p.x as int - o.x as int);
        let ny = o.y as int + sgn(p.y as int - o.y as int);
        if in_bounds(nx, ny) && !blocked_at(map, objs, nx, ny) {
            objs.update(id, Object { x: nx as i32, y: ny as i32, ..o })
        } else {
            objs
        }
    }
}

/// The registry after slots `0..n` each took the decision above, in
/// ascending slot order, each completing before the next is considered.
pub open spec fn ai_phase_fold(map: &Grid, objs: Seq<Object>, n: int) -> Seq<Object>
    decreases n,
{
    if n <= 0 {
        objs
    } else {
        ai_step(map, ai_phase_fold(map, objs, n - 1), n - 1)
    }
}

/// Scan for the first living entity at `(x, y)`.
fn find_target(objects: &Vec<Object>, x: i32, y: i32) -> (r: Option<usize>)
    ensures
        match r {
            Some(u) => spec_target_at(objects@, x as int, y as int) == Some(u as int),
            None => spec_target_at(objects@, x as int, y as int) is None,
        },
{
    let n = objects.len();
    let mut i: usize = 0;
    while i < n
        invariant
            n == objects@.len(),
            0 <= i <= n,
            spec_target_at(objects@.take(i as int), x as int, y as int) is None,
        decreases n - i,
    {
        let o = &objects[i];
        proof {
            assert(objects@.take(i as int + 1).drop_last() =~= objects@.take(i as int));
            assert(objects@.take(i as int + 1).last() == objects@[i as int]);
        }
        if o.alive && o.x == x && o.y == y {
            proof {
                assert(objects@.take(n as int) =~= objects@);
                lemma_target_locked(objects@, x as int, y as int, i as int);
            }
            return Some(i);
        }
        i += 1;
    }
    proof {
        assert(objects@.take(n as int) =~= objects@);
    }
    None
}

/// Once the prefix scan finds a match at `i`, the whole sequence's first
/// match is `i`.
proof fn lemma_target_locked(objs: Seq<Object>, x: int, y: int, i: int)
    requires
        0 <= i < objs.len(),
        spec_target_at(objs.take(i), x, y) is None,
        objs[i].alive && objs[i].x as int == x && objs[i].y as int == y,
    ensures
        spec_target_at(objs, x, y) == Some(i),
    decreases objs.len(),
{
    if objs.len() - 1 == i {
        assert(objs.drop_last() =~= objs.take(i));
    } else {
        assert(objs.drop_last().take(i) =~= objs.take(i));
        lemma_target_locked(objs.drop_last(), x, y, i);
    }
}

/// Scan for the first item-bearing entity at `(x, y)`.
fn find_item_at(objects: &Vec<Object>, x: i32, y: i32) -> (r: Option<usize>)
    ensures
        match r {
            Some(u) => spec_item_at(objects@, x as int, y as int) == Some(u as int) && (u as int)
                < objects@.len() && objects@[u as int].item.is_some(),
            None => spec_item_at(objects@, x as int, y as int) is None,
        },
{
    let n = objects.len();
    let mut i: usize = 0;
    while i < n
        invariant
            n == objects@.len(),
            0 <= i <= n,
            spec_item_at(objects@.take(i as int), x as int, y as int) is None,
        decreases n - i,
    {
        let o = &objects[i];
        proof {
            assert(objects@.take(i as int + 1).drop_last() =~= objects@.take(i as int));
            assert(objects@.take(i as int + 1).last() == objects@[i as int]);
        }
        if o.item.is_some() && o.x == x && o.y == y {
            proof {
                lemma_item_locked(objects@, x as int, y as int, i as int);
            }
            return Some(i);
        }
        i += 1;
    }
    proof {
        assert(objects@.take(n as int) =~= objects@);
    }
    None
}

/// Once the prefix scan finds an item match at `i`, the whole sequence's
/// first match is `i`.
proof fn lemma_item_locked(objs: Seq<Object>, x: int, y: int, i: int)
    requires
        0 <= i < objs.len(),
        spec_item_at(objs.take(i), x, y) is None,
        objs[i].item.is_some() && objs[i].x as int == x && objs[i].y as int == y,
    ensures
        spec_item_at(objs, x, y) == Some(i),
    decreases objs.len(),
{
    if objs.len() - 1 == i {
        assert(objs.drop_last() =~= objs.take(i));
    } else {
        assert(objs.drop_last().take(i) =~= objs.take(i));
        lemma_item_locked(objs.drop_last(), x, y, i);
    }
}

impl Game {
    /// A fresh world: the player fighter in slot zero, a generated level
    /// around it, an empty inventory and an empty log.
    pub fn new_game(rng: &mut rand::rngs::StdRng) -> (g: Game)
        ensures
            wf_game(&g),
            g.objects@[0].alive,
            g.objects@[0].name@ == "player"@,
            g.objects@[0].blocks,
            g.objects@[0].glyph == '@' && g.objects@[0].color == Color::White,
            g.objects@[0].fighter == Some(
                Fighter { max_hp: PLAYER_DEF_HP, hp: PLAYER_DEF_HP, defence: 2, power: 5 },
            ),
            in_bounds(g.objects@[0].x as int, g.objects@[0].y as int),
            !tile_at(&g.map, g.objects@[0].x as int, g.objects@[0].y as int).blocked,
            g.objects@.len() >= 2,
            !tile_at(&g.map, g.objects@.last().x as int, g.objects@.last().y as int).blocked,
            g.objects@.last().name@ == "stairs"@,
            g.inventory@.len() == 0,
            g.statuses@.len() == 0,
    {
        let mut player = Object::new(1, 1, '@', Color::White, true, "player", true);
        player.fighter = Some(
            Fighter { max_hp: PLAYER_DEF_HP, hp: PLAYER_DEF_HP, defence: 2, power: 5 },
        );
        let mut objects: Vec<Object> = Vec::new();
        objects.push(player);
        let map = make_map(&mut objects, rng);
        Game { map, objects, inventory: Vec::new(), statuses: Vec::new() }
    }

    /// Names of everything sharing the player's tile, other than the player
    /// itself, joined with commas.
    pub fn get_names_under_player(&self) -> (r: String)
        requires
            wf_game(self),
        ensures
            r@ == join_names(
                names_at(
                    self.objects@.subrange(1, self.objects@.len() as int),
                    self.objects@[0].x as int,
                    self.objects@[0].y as int,
                ),
            ),
    {
        let px = self.objects[PLAYER].x;
        let py = self.objects[PLAYER].y;
        let n = self.objects.len();
        let mut s = String::new();
        let mut first = true;
        let mut i: usize = 1;
        while i < n
            invariant
                wf_game(self),
                n == self.objects@.len(),
                1 <= i <= n,
                px == self.objects@[0].x && py == self.objects@[0].y,
                s@ == join_names(names_at(self.objects@.subrange(1, i as int), px as int, py as int)),
                first <==> names_at(self.objects@.subrange(1, i as int), px as int, py as int).len()
                    == 0,
            decreases n - i,
        {
            proof {
                assert(self.objects@.subrange(1, i as int + 1).drop_last() =~= self.objects@
                    .subrange(1, i as int));
                assert(self.objects@.subrange(1, i as int + 1).last() == self.objects@[i as int]);
            }
            let o = &self.objects[i];
            let ghost parts = names_at(self.objects@.subrange(1, i as int), px as int, py as int);
            let ghost parts2 = names_at(
                self.objects@.subrange(1, i as int + 1),
                px as int,
                py as int,
            );
            let ghost s0 = s@;
            if o.x == px && o.y == py {
                proof {
                    assert(parts2 == parts.push(o.name@));
                    assert(parts2.drop_last() =~= parts);
                    assert(parts2.last() == o.name@);
                }
                if !first {
                    s.append(", ");
                }
                s.append(o.name.as_str());
                proof {
                    if parts.len() == 0 {
                        assert(parts2.len() == 1 && parts2[0] == o.name@);
                        assert(s@ =~= o.name@);
                    } else {
                        assert(join_names(parts2) == join_names(parts) + ", "@ + o.name@);
                        assert(s@ =~= s0 + ", "@ + o.name@);
                    }
                }
                first = false;
            } else {
                proof {
                    assert(parts2 == parts);
                }
            }
            i += 1;
        }
        proof {
            assert(self.objects@.subrange(1, n as int) =~= self.objects@.subrange(
                1,
                self.objects@.len() as int,
            ));
        }
        s
    }

    /// Resolve one move-or-attack command for the player: attack the first
    /// living entity at the destination, else step there if nothing blocks;
    /// a blocked move is absorbed silently.
    pub fn player_move_or_attack(&mut self, dx: i32, dy: i32)
        requires
            wf_game(old(self)),
            -1 <= dx <= 1,
            -1 <= dy <= 1,
            !(dx == 0 && dy == 0),
            old(self).objects@[0].alive,
        ensures
            wf_game(final(self)),
            moved_or_attacked(*old(self), *final(self), dx as int, dy as int),
    {
        let x = self.objects[PLAYER].x + dx;
        let y = self.objects[PLAYER].y + dy;
        let target = find_target(&self.objects, x, y);
        match target {
            Some(tid) => {
                proof {
                    lemma_target_props(self.objects@, x as int, y as int);
                    assert(self.objects@[tid as int].alive);
                }
                attack(&mut self.objects, PLAYER, tid, &mut self.statuses);
            },
            None => {
                let g = &mut *self;
                move_by(PLAYER, dx, dy, &g.map, &mut g.objects);
            },
        }
    }

    /// Move the first item-bearing entity in slot `object_id` from the
    /// registry into the inventory, or report a full inventory and leave the
    /// world unchanged apart from that report.
    pub fn pick_item_up(&mut self, object_id: usize)
        requires
            wf_game(old(self)),
            object_id < old(self).objects@.len(),
            old(self).objects@[object_id as int].item.is_some(),
        ensures
            wf_game(final(self)),
            final(self).map == old(self).map,
            ({
                let objs = old(self).objects@;
                let name = objs[object_id as int].name@;
                if old(self).inventory@.len() >= INVENTORY_CAP {
                    &&& final(self).objects@ == objs
                    &&& final(self).inventory@ == old(self).inventory@
                    &&& final(self).statuses@.len() == old(self).statuses@.len() + 1
                    &&& final(self).statuses@.last().msg@ == inventory_full_msg(name)
                    &&& final(self).statuses@.last().display_time == 1
                    &&& forall|i: int|
                        0 <= i < old(self).statuses@.len() ==> final(self).statuses@[i] == old(
                            self,
                        ).statuses@[i]
                } else {
                    &&& final(self).objects@ == objs.update(
                        object_id as int,
                        objs.last(),
                    ).drop_last()
                    &&& final(self).inventory@ == old(self).inventory@.push(objs[object_id as int])
                    &&& final(self).statuses@.len() == old(self).statuses@.len() + 1
                    &&& final(self).statuses@.last().msg@ == pickup_msg(name)
                    &&& final(self).statuses@.last().display_time == 1
                    &&& forall|i: int|
                        0 <= i < old(self).statuses@.len() ==> final(self).statuses@[i] == old(
                            self,
                        ).statuses@[i]
                }
            }),
    {
        proof {
            assert(object_id != 0);
        }
        if self.inventory.len() >= INVENTORY_CAP {
            let mut msg = String::from_str("Your inventory is full, cannot pick up ");
            msg.append(self.objects[object_id].name.as_str());
            msg.append(".");
            self.statuses.push(Status { msg, display_time: 1 });
        } else {
            let item = self.objects.swap_remove(object_id);
            let mut msg = String::from_str("You picked up a ");
            msg.append(item.name.as_str());
            msg.append("!");
            self.statuses.push(Status { msg, display_time: 1 });
            self.inventory.push(item);
        }
    }

    /// Map one discrete command to a turn outcome and resolve it: exit always
    /// exits; a dead player takes no turn on anything else; movement commands
    /// move or attack; pickup collects the first item on the player's tile;
    /// rest consumes the turn doing nothing; anything unrecognized takes no
    /// turn and changes nothing.
    pub fn handle_command(&mut self, cmd: Command) -> (r: PlayerAction)
        requires
            wf_game(old(self)),
        ensures
            wf_game(final(self)),
            cmd == Command::Exit ==> r == PlayerAction::Exit && *final(self) == *old(self),
            cmd != Command::Exit && !old(self).objects@[0].alive ==> r
                == PlayerAction::DidntTakeTurn && *final(self) == *old(self),
            cmd != Command::Exit && old(self).objects@[0].alive ==> match cmd {
                Command::MoveUp => r == PlayerAction::TookTurn && moved_or_attacked(
                    *old(self),
                    *final(self),
                    0,
                    -1,
                ),
                Command::MoveDown => r == PlayerAction::TookTurn && moved_or_attacked(
                    *old(self),
                    *final(self),
                    0,
                    1,
                ),
                Command::MoveLeft => r == PlayerAction::TookTurn && moved_or_attacked(
                    *old(self),
                    *final(self),
                    -1,
                    0,
                ),
                Command::MoveRight => r == PlayerAction::TookTurn && moved_or_attacked(
                    *old(self),
                    *final(self),
                    1,
                    0,
                ),
                Command::PickUp => r == PlayerAction::TookTurn && picked_up(
                    *old(self),
                    *final(self),
                ),
                Command::Rest => r == PlayerAction::TookTurn && *final(self) == *old(self),
                Command::Unrecognized => r == PlayerAction::DidntTakeTurn && *final(self) == *old(
                    self,
                ),
                Command::Exit => false,
            },
    {
        if cmd == Command::Exit {
            return PlayerAction::Exit;
        }
        if !self.objects[PLAYER].alive {
            return PlayerAction::DidntTakeTurn;
        }
        match cmd {
            Command::Exit => PlayerAction::Exit,
            Command::PickUp => {
                let px = self.objects[PLAYER].x;
                let py = self.objects[PLAYER].y;
                let item_id = find_item_at(&self.objects, px, py);
                if let Some(id) = item_id {
                    self.pick_item_up(id);
                }
                PlayerAction::TookTurn
            },
            Command::Rest => PlayerAction::TookTurn,
            Command::MoveUp => {
                self.player_move_or_attack(0, -1);
                PlayerAction::TookTurn
            },
            Command::MoveDown => {
                self.player_move_or_attack(0, 1);
                PlayerAction::TookTurn
            },
            Command::MoveLeft => {
                self.player_move_or_attack(-1, 0);
                PlayerAction::TookTurn
            },
            Command::MoveRight => {
                self.player_move_or_attack(1, 0);
                PlayerAction::TookTurn
            },
            Command::Unrecognized => PlayerAction::DidntTakeTurn,
        }
    }

    /// One point of slow regeneration: while below the starting hit points,
    /// the player heals one point.
    pub fn regen_player(&mut self)
        requires
            wf_game(old(self)),
            old(self).objects@[0].fighter.unwrap().max_hp == PLAYER_DEF_HP,
        ensures
            wf_game(final(self)),
            ({
                let objs = old(self).objects@;
                let f = objs[0].fighter.unwrap();
                &&& final(self).map == old(self).map
                &&& final(self).inventory == old(self).inventory
                &&& final(self).statuses@ == old(self).statuses@
                &&& if f.hp < PLAYER_DEF_HP {
                    final(self).objects@ == objs.update(
                        0,
                        Object { fighter: Some(Fighter { hp: (f.hp + 1) as i32, ..f }), ..objs[0] },
                    )
                } else {
                    final(self).objects@ == objs
                }
            }),
    {
        let f = self.objects[PLAYER].fighter.unwrap();
        if f.hp < PLAYER_DEF_HP {
            let p = &mut self.objects[PLAYER];
            p.fighter = Some(Fighter { hp: f.hp + 1, ..f });
        }
    }

    /// The AI phase: every slot that holds an AI component when the phase
    /// starts gets exactly one decision, in ascending slot order, each one
    /// completing before the next is considered; the registry ends exactly
    /// as the fold of those decisions leaves it.
    pub fn ai_phase(&mut self)
        requires
            wf_game(old(self)),
        ensures
            wf_game(final(self)),
            final(self).map == old(self).map,
            final(self).inventory == old(self).inventory,
            final(self).objects@ == ai_phase_fold(
                &old(self).map,
                old(self).objects@,
                old(self).objects@.len() as int,
            ),
            final(self).objects@.len() == old(self).objects@.len(),
            old(self).statuses@.len() <= final(self).statuses@.len(),
            forall|i: int|
                0 <= i < old(self).statuses@.len() ==> final(self).statuses@[i] == old(
                    self,
                ).statuses@[i],
            forall|j: int|
                0 <= j < old(self).objects@.len() ==> (#[trigger] final(self).objects@[j]).name@
                    == old(self).objects@[j].name@ && final(self).objects@[j].ai == old(
                    self,
                ).objects@[j].ai && final(self).objects@[j].item == old(self).objects@[j].item,
    {
        let m = self.objects.len();
        let mut id: usize = 0;
        while id < m
            invariant
                wf_game(self),
                m == self.objects@.len(),
                0 <= id <= m,
                self.map == old(self).map,
                self.inventory == old(self).inventory,
                self.objects@.len() == old(self).objects@.len(),
                self.objects@ == ai_phase_fold(&old(self).map, old(self).objects@, id as int),
                old(self).statuses@.len() <= self.statuses@.len(),
                forall|i: int|
                    0 <= i < old(self).statuses@.len() ==> self.statuses@[i] == old(
                        self,
                    ).statuses@[i],
                forall|j: int|
                    0 <= j < old(self).objects@.len() ==> (#[trigger] self.objects@[j]).name@ == old(
                        self,
                    ).objects@[j].name@ && self.objects@[j].ai == old(self).objects@[j].ai
                        && self.objects@[j].item == old(self).objects@[j].item,
            decreases m - id,
        {
            let ghost before = self.objects@;
            if self.objects[id].ai.is_some() {
                proof {
                    assert(id != 0);
                }
                crate::ai::take_turn(id, self);
                proof {
                    assert(self.objects@ == ai_step(&old(self).map, before, id as int));
                }
            } else {
                proof {
                    assert(ai_step(&old(self).map, before, id as int) == before);
                }
            }
            proof {
                assert(self.objects@ == ai_phase_fold(
                    &old(self).map,
                    old(self).objects@,
                    id as int + 1,
                ));
            }
            id += 1;
        }
    }
}

/// An entity that is not alive is never chosen by the attack-target scan,
/// at any position, though it still occupies its registry slot.
pub proof fn lemma_dead_excluded(objs: Seq<Object>, j: int, x: int, y: int)
    requires
        0 <= j < objs.len(),
        !objs[j].alive,
    ensures
        spec_target_at(objs, x, y) != Some(j),
{
    lemma_target_props(objs, x, y);
}

/// A living entity found by the target scan really is alive and in range.
proof fn lemma_target_props(objs: Seq<Object>, x: int, y: int)
    ensures
        match spec_target_at(objs, x, y) {
            Some(j) => 0 <= j < objs.len() && objs[j].alive && objs[j].x as int == x && objs[j].y
                as int == y,
            None => true,
        },
    decreases objs.len(),
{
    if objs.len() > 0 {
        lemma_target_props(objs.drop_last(), x, y);
    }
}

/// Names of the entities standing on `(x, y)`, in slot order.
pub open spec fn names_at(objs: Seq<Object>, x: int, y: int) -> Seq<Seq<char>>
    decreases objs.len(),
{
    if objs.len() == 0 {
        Seq::empty()
    } else {
        let rest = names_at(objs.drop_last(), x, y);
        if objs.last().x as int == x && objs.last().y as int == y {
            rest.push(objs.last().name@)
        } else {
            rest
        }
    }
}

/// The parts joined with a comma and a space.
pub open spec fn join_names(parts: Seq<Seq<char>>) -> Seq<char>
    decreases parts.len(),
{
    if parts.len() == 0 {
        Seq::empty()
    } else if parts.len() == 1 {
        parts[0]
    } else {
        join_names(parts.drop_last()) + ", "@ + parts.last()
    }
}

impl Default for Game {
    /// An empty world: an all-open grid and no entities at all; `new_game`
    /// builds the real thing.
    fn default() -> (g: Game)
        ensures
            wf_map(&g.map),
            forall|x: int, y: int|
                in_bounds(x, y) ==> #[trigger] tile_at(&g.map, x, y) == (Tile {
                    blocked: false,
                    block_sight: false,
                    visible: false,
                    currently_visible: false,
                }),
            g.objects@.len() == 0,
            g.inventory@.len() == 0,
            g.statuses@.len() == 0,
    {
        Game {
            map: crate::tile::filled_grid(Tile::empty()),
            objects: Vec::new(),
            inventory: Vec::new(),
            statuses: Vec::new(),
        }
    }
}

} // verus!
