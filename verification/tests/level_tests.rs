use rand::rngs::StdRng;
use rand::SeedableRng;
use rogue_core::fov::compute_fov;
use rogue_core::game::Game;
use rogue_core::map_gen::Rect;
use rogue_core::object::{Color, Fighter, Object};
use rogue_core::tile::{make_map_rooms, Grid, MAP_HEIGHT, MAP_WIDTH};

fn seeded(seed: u64) -> StdRng {
    StdRng::seed_from_u64(seed)
}

fn player() -> Object {
    let mut p = Object::new(1, 1, '@', Color::White, true, "player", true);
    p.fighter = Some(Fighter { max_hp: 30, hp: 30, defence: 2, power: 5 });
    p
}

fn rects_disjoint(a: &Rect, b: &Rect) -> bool {
    !(a.x1 <= b.x2 && a.x2 >= b.x1 && a.y1 <= b.y2 && a.y2 >= b.y1)
}

/// Breadth-first search over non-blocked tiles.
fn flood_reaches(map: &Grid, from: (i32, i32), to: (i32, i32)) -> bool {
    let w = MAP_WIDTH as usize;
    let h = MAP_HEIGHT as usize;
    let mut seen = vec![vec![false; h]; w];
    let mut queue = vec![from];
    seen[from.0 as usize][from.1 as usize] = true;
    while let Some((x, y)) = queue.pop() {
        if (x, y) == to {
            return true;
        }
        for (dx, dy) in [(1, 0), (-1, 0), (0, 1), (0, -1)] {
            let nx = x + dx;
            let ny = y + dy;
            if nx >= 0 && nx < MAP_WIDTH && ny >= 0 && ny < MAP_HEIGHT {
                let (ux, uy) = (nx as usize, ny as usize);
                if !seen[ux][uy] && !map[ux][uy].blocked {
                    seen[ux][uy] = true;
                    queue.push((nx, ny));
                }
            }
        }
    }
    false
}

#[test]
fn rooms_lie_strictly_inside_the_grid() {
    for seed in 0..10u64 {
        let mut rng = seeded(seed);
        let mut objects = vec![player()];
        let (_map, rooms) = make_map_rooms(&mut objects, 30, &mut rng);
        assert_eq!(rooms.len(), 30);
        for r in &rooms {
            assert!(1 <= r.x1 && r.x1 + 2 <= r.x2 && r.x2 <= MAP_WIDTH - 1);
            assert!(1 <= r.y1 && r.y1 + 2 <= r.y2 && r.y2 <= MAP_HEIGHT - 1);
        }
    }
}

#[test]
fn player_start_reaches_the_stairs_when_no_room_was_rejected() {
    let mut checked = 0;
    for seed in 0..40u64 {
        let mut rng = seeded(seed);
        let mut objects = vec![player()];
        let (map, rooms) = make_map_rooms(&mut objects, 3, &mut rng);
        let mut disjoint = true;
        for i in 0..rooms.len() {
            for j in (i + 1)..rooms.len() {
                if !rects_disjoint(&rooms[i], &rooms[j]) {
                    disjoint = false;
                }
            }
        }
        if disjoint {
            checked += 1;
            let p = (objects[0].x, objects[0].y);
            let s = objects.last().unwrap();
            assert_eq!(s.name, "stairs");
            assert!(flood_reaches(&map, p, (s.x, s.y)));
        }
    }
    assert!(checked > 0, "no fully accepted level among the seeds");
}

#[test]
fn stairs_sit_on_an_unblocked_tile_and_do_not_block() {
    for seed in 0..10u64 {
        let mut rng = seeded(seed);
        let mut objects = vec![player()];
        let (map, _rooms) = make_map_rooms(&mut objects, 30, &mut rng);
        let s = objects.last().unwrap();
        assert_eq!(s.name, "stairs");
        assert_eq!(s.glyph, '>');
        assert!(!s.blocks);
        assert!(!s.alive);
        assert!(1 <= s.x && s.x <= MAP_WIDTH - 2 && 1 <= s.y && s.y <= MAP_HEIGHT - 2);
        assert!(!map[s.x as usize][s.y as usize].blocked);
        assert!(!map[objects[0].x as usize][objects[0].y as usize].blocked);
        // When any interior tile is wholly free, the stairs tile carries no
        // blocking entity either.
        let blocked_by_entity = |x: i32, y: i32| {
            objects[..objects.len() - 1]
                .iter()
                .any(|o| o.blocks && o.x == x && o.y == y)
        };
        let mut any_free = false;
        for x in 1..MAP_WIDTH - 1 {
            for y in 1..MAP_HEIGHT - 1 {
                if !map[x as usize][y as usize].blocked && !blocked_by_entity(x, y) {
                    any_free = true;
                }
            }
        }
        if any_free {
            assert!(!blocked_by_entity(s.x, s.y));
        }
    }
}

#[test]
fn spawned_monsters_and_items_are_well_formed() {
    let mut rng = seeded(11);
    let mut objects = vec![player()];
    let (_map, _rooms) = make_map_rooms(&mut objects, 30, &mut rng);
    for o in &objects[1..objects.len() - 1] {
        assert!(o.name == "orc" || o.name == "troll" || o.name == "healing potion");
        if o.name == "healing potion" {
            assert!(o.item.is_some() && !o.blocks && !o.alive);
        } else {
            assert!(o.fighter.is_some() && o.ai.is_some() && o.blocks && o.alive);
            let f = o.fighter.unwrap();
            assert!(0 <= f.hp && f.hp <= f.max_hp);
        }
    }
}

#[test]
fn single_room_level_centers_the_player_in_its_only_room() {
    let mut rng = seeded(3);
    let mut objects = vec![player()];
    let (map, rooms) = make_map_rooms(&mut objects, 1, &mut rng);
    assert_eq!(rooms.len(), 1);
    let r = rooms[0];
    assert_eq!(objects[0].x, (r.x1 + r.x2) / 2);
    assert_eq!(objects[0].y, (r.y1 + r.y2) / 2);
    for x in 0..MAP_WIDTH {
        for y in 0..MAP_HEIGHT {
            let inside = r.x1 < x && x < r.x2 && r.y1 < y && y < r.y2;
            assert_eq!(!map[x as usize][y as usize].blocked, inside);
        }
    }
}

#[test]
fn visibility_is_deterministic() {
    let mut rng = seeded(21);
    let mut objects = vec![player()];
    let (map, _rooms) = make_map_rooms(&mut objects, 30, &mut rng);
    let mut m1 = map.clone();
    let mut m2 = map.clone();
    let (px, py) = (objects[0].x, objects[0].y);
    compute_fov(&mut m1, px, py, 10);
    compute_fov(&mut m2, px, py, 10);
    for x in 0..MAP_WIDTH as usize {
        for y in 0..MAP_HEIGHT as usize {
            assert_eq!(m1[x][y].currently_visible, m2[x][y].currently_visible);
        }
    }
    // Running it again on the already-marked grid gives the same visible set.
    compute_fov(&mut m1, px, py, 10);
    for x in 0..MAP_WIDTH as usize {
        for y in 0..MAP_HEIGHT as usize {
            assert_eq!(m1[x][y].currently_visible, m2[x][y].currently_visible);
        }
    }
}

#[test]
fn open_room_visibility_matches_the_radius_exactly() {
    let mut map = Game::default().map;
    compute_fov(&mut map, 50, 15, 5);
    assert!(map[50][15].currently_visible);
    assert!(map[55][15].currently_visible);
    assert!(map[54][18].currently_visible);
    assert!(!map[56][15].currently_visible);
    assert!(!map[54][19].currently_visible);
    assert!(map[55][15].visible);
}

#[test]
fn a_blocker_on_the_line_hides_the_tile_behind_it() {
    let mut open = Game::default().map;
    compute_fov(&mut open, 50, 15, 8);
    assert!(open[54][15].currently_visible);

    let mut walled = Game::default().map;
    walled[52][15].block_sight = true;
    compute_fov(&mut walled, 50, 15, 8);
    assert!(!walled[54][15].currently_visible);
    assert!(walled[51][15].currently_visible);
}

#[test]
fn ever_seen_persists_after_leaving_the_area() {
    let mut map = Game::default().map;
    compute_fov(&mut map, 50, 15, 5);
    assert!(map[52][15].currently_visible && map[52][15].visible);
    compute_fov(&mut map, 90, 15, 5);
    assert!(!map[52][15].currently_visible);
    assert!(map[52][15].visible);
}
