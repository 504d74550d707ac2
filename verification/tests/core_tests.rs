use rogue_core::game::{Command, Game, PlayerAction, INVENTORY_CAP, PLAYER};
use rogue_core::object::{attack, Color, Fighter, Item, Object, AI};

fn fighter(max_hp: i32, hp: i32, defence: i32, power: i32) -> Fighter {
    Fighter { max_hp, hp, defence, power }
}

fn player_at(x: i32, y: i32, hp: i32, defence: i32, power: i32) -> Object {
    let mut p = Object::new(x, y, '@', Color::White, true, "player", true);
    p.fighter = Some(fighter(30, hp, defence, power));
    p
}

fn orc_at(x: i32, y: i32, hp: i32, defence: i32, power: i32) -> Object {
    let mut o = Object::new(x, y, 'o', Color::Green, true, "orc", true);
    o.fighter = Some(fighter(hp, hp, defence, power));
    o.ai = Some(AI::Basic);
    o
}

fn potion_at(x: i32, y: i32) -> Object {
    let mut o = Object::new(x, y, '!', Color::Magenta, false, "healing potion", false);
    o.item = Some(Item::Heal);
    o
}

fn open_game() -> Game {
    let mut g = Game::default();
    g.objects.push(player_at(5, 5, 30, 2, 5));
    g
}

#[test]
fn combat_damage_is_power_minus_defence() {
    let mut objects = vec![player_at(1, 1, 30, 2, 5), orc_at(2, 1, 10, 2, 3)];
    let mut statuses = Vec::new();
    attack(&mut objects, 0, 1, &mut statuses);
    assert_eq!(objects[1].fighter.unwrap().hp, 7);
    assert!(objects[1].alive);
    assert_eq!(statuses.len(), 1);
    assert_eq!(statuses[0].msg, "player attacks orc for 3 hit points.");
    assert_eq!(statuses[0].display_time, 1);
}

#[test]
fn combat_damage_floors_at_zero() {
    let mut objects = vec![player_at(1, 1, 30, 2, 5), orc_at(2, 1, 10, 10, 3)];
    let mut statuses = Vec::new();
    attack(&mut objects, 0, 1, &mut statuses);
    assert_eq!(objects[1].fighter.unwrap().hp, 10);
    assert!(objects[1].alive);
    assert!(objects[1].blocks);
    assert_eq!(statuses[0].msg, "player attacks orc but it has no effect!");
}

#[test]
fn dead_entity_stays_in_registry_but_stops_blocking() {
    let mut objects = vec![player_at(1, 1, 30, 2, 5), orc_at(2, 1, 3, 2, 3)];
    let mut statuses = Vec::new();
    attack(&mut objects, 0, 1, &mut statuses);
    assert_eq!(objects.len(), 2);
    assert_eq!(objects[1].fighter.unwrap().hp, 0);
    assert!(!objects[1].alive);
    assert!(!objects[1].blocks);
    assert_eq!(objects[1].glyph, '%');
    assert_eq!(statuses.len(), 2);
    assert_eq!(statuses[1].msg, "orc is dead!");
}

#[test]
fn dead_entity_is_not_an_attack_target_and_ai_idles() {
    let mut g = open_game();
    let mut corpse = orc_at(6, 5, 3, 2, 3);
    corpse.alive = false;
    corpse.blocks = false;
    g.objects.push(corpse);
    // Moving onto the corpse's tile moves instead of attacking.
    let r = g.handle_command(Command::MoveRight);
    assert_eq!(r, PlayerAction::TookTurn);
    assert_eq!((g.objects[PLAYER].x, g.objects[PLAYER].y), (6, 5));
    assert!(g.statuses.is_empty());
    // The dead entity's AI decision does nothing.
    let before_pos = (g.objects[1].x, g.objects[1].y);
    rogue_core::ai::take_turn(1, &mut g);
    assert_eq!((g.objects[1].x, g.objects[1].y), before_pos);
    assert_eq!(g.objects[PLAYER].fighter.unwrap().hp, 30);
}

#[test]
fn pickup_moves_item_from_registry_to_inventory() {
    let mut g = open_game();
    g.objects.push(potion_at(5, 5));
    let r = g.handle_command(Command::PickUp);
    assert_eq!(r, PlayerAction::TookTurn);
    assert_eq!(g.inventory.len(), 1);
    assert_eq!(g.objects.len(), 1);
    assert_eq!(g.inventory[0].name, "healing potion");
    assert_eq!(g.statuses.len(), 1);
    assert_eq!(g.statuses[0].msg, "You picked up a healing potion!");
}

#[test]
fn pickup_with_full_inventory_changes_nothing_but_the_log() {
    let mut g = open_game();
    for _ in 0..INVENTORY_CAP {
        g.inventory.push(potion_at(1, 1));
    }
    g.objects.push(potion_at(5, 5));
    let r = g.handle_command(Command::PickUp);
    assert_eq!(r, PlayerAction::TookTurn);
    assert_eq!(g.inventory.len(), INVENTORY_CAP);
    assert_eq!(g.objects.len(), 2);
    assert_eq!(g.statuses.len(), 1);
    assert_eq!(
        g.statuses[0].msg,
        "Your inventory is full, cannot pick up healing potion."
    );
}

#[test]
fn pickup_with_nothing_underfoot_is_a_noop_turn() {
    let mut g = open_game();
    let r = g.handle_command(Command::PickUp);
    assert_eq!(r, PlayerAction::TookTurn);
    assert_eq!(g.inventory.len(), 0);
    assert!(g.statuses.is_empty());
}

#[test]
fn exit_command_always_exits() {
    let mut g = open_game();
    assert_eq!(g.handle_command(Command::Exit), PlayerAction::Exit);
    g.objects[PLAYER].alive = false;
    g.objects[PLAYER].blocks = false;
    assert_eq!(g.handle_command(Command::Exit), PlayerAction::Exit);
}

#[test]
fn dead_player_takes_no_turn() {
    let mut g = open_game();
    g.objects[PLAYER].alive = false;
    g.objects[PLAYER].blocks = false;
    assert_eq!(g.handle_command(Command::MoveUp), PlayerAction::DidntTakeTurn);
    assert_eq!((g.objects[PLAYER].x, g.objects[PLAYER].y), (5, 5));
}

#[test]
fn unrecognized_command_takes_no_turn() {
    let mut g = open_game();
    assert_eq!(g.handle_command(Command::Unrecognized), PlayerAction::DidntTakeTurn);
    assert_eq!(g.handle_command(Command::Rest), PlayerAction::TookTurn);
    assert_eq!((g.objects[PLAYER].x, g.objects[PLAYER].y), (5, 5));
}

#[test]
fn blocked_move_is_absorbed_silently() {
    let mut g = open_game();
    g.map[6][5].blocked = true;
    g.map[6][5].block_sight = true;
    let r = g.handle_command(Command::MoveRight);
    assert_eq!(r, PlayerAction::TookTurn);
    assert_eq!((g.objects[PLAYER].x, g.objects[PLAYER].y), (5, 5));
    assert!(g.statuses.is_empty());
}

#[test]
fn move_into_living_entity_attacks_it() {
    let mut g = open_game();
    g.objects.push(orc_at(6, 5, 10, 2, 3));
    let r = g.handle_command(Command::MoveRight);
    assert_eq!(r, PlayerAction::TookTurn);
    assert_eq!((g.objects[PLAYER].x, g.objects[PLAYER].y), (5, 5));
    assert_eq!(g.objects[1].fighter.unwrap().hp, 7);
}

#[test]
fn regen_heals_one_point_up_to_the_cap() {
    let mut g = open_game();
    let f = g.objects[PLAYER].fighter.unwrap();
    g.objects[PLAYER].fighter = Some(Fighter { hp: 29, ..f });
    g.regen_player();
    assert_eq!(g.objects[PLAYER].fighter.unwrap().hp, 30);
    g.regen_player();
    assert_eq!(g.objects[PLAYER].fighter.unwrap().hp, 30);
}

#[test]
fn visible_adjacent_monster_attacks_the_player() {
    let mut g = open_game();
    g.objects.push(orc_at(6, 5, 10, 0, 3));
    g.map[6][5].currently_visible = true;
    g.ai_phase();
    assert_eq!(g.objects[PLAYER].fighter.unwrap().hp, 29);
    assert_eq!(g.statuses.len(), 1);
    assert_eq!(g.statuses[0].msg, "orc attacks player for 1 hit points.");
}

#[test]
fn visible_distant_monster_steps_toward_the_player() {
    let mut g = open_game();
    g.objects.push(orc_at(10, 10, 10, 0, 3));
    g.map[10][10].currently_visible = true;
    g.ai_phase();
    assert_eq!((g.objects[1].x, g.objects[1].y), (9, 9));
    assert_eq!(g.objects[PLAYER].fighter.unwrap().hp, 30);
}

#[test]
fn unseen_monster_stays_idle() {
    let mut g = open_game();
    g.objects.push(orc_at(10, 10, 10, 0, 3));
    g.ai_phase();
    assert_eq!((g.objects[1].x, g.objects[1].y), (10, 10));
    assert_eq!(g.objects[PLAYER].fighter.unwrap().hp, 30);
    assert!(g.statuses.is_empty());
}

#[test]
fn ai_phase_gives_each_slot_one_decision_in_ascending_order() {
    let mut g = open_game();
    g.objects.push(orc_at(6, 5, 10, 0, 3));
    let mut troll = Object::new(4, 5, 'T', Color::Yellow, true, "troll", true);
    troll.fighter = Some(fighter(16, 16, 1, 4));
    troll.ai = Some(AI::Basic);
    g.objects.push(troll);
    g.map[6][5].currently_visible = true;
    g.map[4][5].currently_visible = true;
    g.ai_phase();
    // orc (slot 1) hits for 3-2=1, then troll (slot 2) for 4-2=2.
    assert_eq!(g.objects[PLAYER].fighter.unwrap().hp, 27);
    assert_eq!(g.statuses.len(), 2);
    assert_eq!(g.statuses[0].msg, "orc attacks player for 1 hit points.");
    assert_eq!(g.statuses[1].msg, "troll attacks player for 2 hit points.");
}

#[test]
fn names_under_player_joins_with_commas() {
    let mut g = open_game();
    assert_eq!(g.get_names_under_player(), "");
    g.objects.push(orc_at(5, 5, 10, 0, 3));
    let mut troll = Object::new(5, 5, 'T', Color::Yellow, true, "troll", true);
    troll.fighter = Some(fighter(16, 16, 1, 4));
    g.objects.push(troll);
    g.objects.push(orc_at(7, 7, 10, 0, 3));
    assert_eq!(g.get_names_under_player(), "orc, troll");
}
