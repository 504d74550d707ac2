use vstd::prelude::*;
use crate::fov::{cheb, dist2, sgn};
use crate::game::{Game, PLAYER, wf_game};
use crate::object::{Object, attack, move_by, spec_after_damage, spec_damage};
use crate::tile::{Grid, blocked_at, in_bounds, tile_at, wf_map};

verus! {

/// One step of the acting entity toward the target: a unit step on each axis
/// whose sign points at the target, blocked by the same terrain and occupancy
/// rule as the player's movement.
pub fn move_towards(id: usize, target_x: i32, target_y: i32, map: &Grid, objects: &mut Vec<Object>)
    requires
        wf_map(map),
        id < old(objects)@.len(),
        in_bounds(old(objects)@[id as int].x as int, old(objects)@[id as int].y as int),
    ensures
        ({
            let o = old(objects)@[id as int];
            let nx = o.x as int + sgn(target_x as int - o.x as int);
            let ny = o.y as int + sgn(target_y as int - o.y as int);
            if in_bounds(nx, ny) && !blocked_at(map, old(objects)@, nx, ny) {
                final(objects)@ == old(objects)@.update(
                    id as int,
                    Object { x: nx as i32, y: ny as i32, ..o },
                )
            } else {
                final(objects)@ == old(objects)@
            }
        }),
{
    let ox = objects[id].x;
    let oy = objects[id].y;
    let dx: i32 = if target_x > ox {
        1
    } else if target_x < ox {
        -1
    } else {
        0
    };
    let dy: i32 = if target_y > oy {
        1
    } else if target_y < oy {
        -1
    } else {
        0
    };
    move_by(id, dx, dy, map, objects);
}

/// One signed unit step per axis strictly shrinks the squared Euclidean
/// distance to the target, as long as the walker is not already there: this
/// is why `move_towards` picks its step by the coordinate signs.
pub proof fn lemma_step_reduces_distance(mx: int, my: int, tx: int, ty: int)
    requires
        mx != tx || my != ty,
    ensures
        dist2(mx + sgn(tx - mx), my + sgn(ty - my), tx, ty) < dist2(mx, my, tx, ty),
{
    lemma_axis_step(tx - mx);
    lemma_axis_step(ty - my);
}

/// Stepping one unit toward zero shrinks a square, except at zero itself.
proof fn lemma_axis_step(a: int)
    ensures
        a != 0 ==> (a - sgn(a)) * (a - sgn(a)) < a * a,
        a == 0 ==> (a - sgn(a)) * (a - sgn(a)) == a * a,
{
    if a > 0 {
        assert((a - 1) * (a - 1) < a * a) by (nonlinear_arith)
            requires
                a > 0,
        ;
    } else if a < 0 {
        assert((a + 1) * (a + 1) < a * a) by (nonlinear_arith)
            requires
                a < 0,
        ;
    }
}

/// One decision for the AI-bearing entity in slot `id`. A dead entity does
/// nothing. A living one acts only when it stands on a tile the player
/// currently sees: adjacent to the player (Chebyshev distance at most one)
/// it attacks the player, otherwise it takes one step toward the player.
/// Out of sight it stays idle.
pub fn take_turn(id: usize, game: &mut Game)
    requires
        wf_game(old(game)),
        0 < id < old(game).objects@.len(),
    ensures
        wf_game(final(game)),
        final(game).map == old(game).map,
        final(game).inventory == old(game).inventory,
        final(game).objects@.len() == old(game).objects@.len(),
        old(game).statuses@.len() <= final(game).statuses@.len(),
        forall|i: int|
            0 <= i < old(game).statuses@.len() ==> final(game).statuses@[i] == old(
                game,
            ).statuses@[i],
        ({
            let objs = old(game).objects@;
            let o = objs[id as int];
            let p = objs[0];
            if !o.alive || !tile_at(&old(game).map, o.x as int, o.y as int).currently_visible {
                final(game).objects@ == objs && final(game).statuses@ == old(game).statuses@
            } else if cheb(o.x as int, o.y as int, p.x as int, p.y as int) < 2 {
                final(game).objects@ == objs.update(
                    0,
                    spec_after_damage(
                        p,
                        spec_damage(
                            o.fighter.unwrap().power as int,
                            p.fighter.unwrap().defence as int,
                        ),
                    ),
                ) && final(game).statuses@.len() > old(game).statuses@.len()
            } else {
                ({
                    let nx = o.x as int + sgn(p.x as int - o.x as int);
                    let ny = o.y as int + sgn(p.y as int - o.y as int);
                    &&& final(game).statuses@ == old(game).statuses@
                    &&& if in_bounds(nx, ny) && !blocked_at(&old(game).map, objs, nx, ny) {
                        final(game).objects@ == objs.update(
                            id as int,
                            Object { x: nx as i32, y: ny as i32, ..o },
                        )
                    } else {
                        final(game).objects@ == objs
                    }
                })
            }
        }),
{
    if !game.objects[id].alive {
        return ;
    }
    let mx = game.objects[id].x;
    let my = game.objects[id].y;
    if game.map[mx as usize][my as usize].currently_visible {
        let px = game.objects[PLAYER].x;
        let py = game.objects[PLAYER].y;
        let adx = if px >= mx {
            px - mx
        } else {
            mx - px
        };
        let ady = if py >= my {
            py - my
        } else {
            my - py
        };
        let c = if adx >= ady {
            adx
        } else {
            ady
        };
        if c >= 2 {
            let g = &mut *game;
            move_towards(id, px, py, &g.map, &mut g.objects);
        } else {
            attack(&mut game.objects, id, PLAYER, &mut game.statuses);
        }
    }
}

} // verus!
