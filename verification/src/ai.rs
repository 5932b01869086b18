//! The per-turn behaviour of non-player entities: a two-state machine
//! with suspend/resume semantics for confusion, and the shared
//! movement rules.

use vstd::prelude::*;
use vstd::string::StringExecFns;

use crate::consts::PLAYER;
use crate::mapgen::{is_blocked, spec_is_blocked};
use crate::rng::rand_range_i32;
use crate::types::{
    attack_fits, attack_rel, dist_sq, game_same_but_log, game_wf, in_map, in_map_interior,
    log_extended, map_wf, Game, Object, TileMap,
};
use crate::util::mut_two;

verus! {

/// Behaviour mode of a turn-driven entity. `Confused` wraps the state
/// it will resume once its counter runs out.
#[derive(Debug)]
pub enum Ai {
    Basic,
    Confused { previous_ai: Box<Ai>, num_turns: i32 },
}

/// The state the machine is in after one tick. `Basic` is a steady
/// state; a confusion with turns left counts down; one whose counter
/// is spent resumes the wrapped state.
pub open spec fn ai_step(a: Ai) -> Ai {
    match a {
        Ai::Basic => Ai::Basic,
        Ai::Confused { previous_ai, num_turns } => {
            if num_turns > 0 {
                Ai::Confused { previous_ai, num_turns: (num_turns - 1) as i32 }
            } else {
                *previous_ai
            }
        },
    }
}

/// The one tile step the movement rule takes along one axis toward a
/// target: the exact unit direction rounded to the nearest of the
/// eight compass steps (or the origin). `d` is this axis' coordinate
/// difference, `o` the other axis'.
pub open spec fn spec_step(d: int, o: int) -> int {
    if 3 * (d * d) >= o * o {
        if d > 0 {
            1
        } else if d < 0 {
            -1
        } else {
            0
        }
    } else {
        0
    }
}

/// How `move_by` relates the entity collection before and after: the
/// entity steps by `(dx, dy)` if the destination is free, and stays
/// put otherwise.
pub open spec fn moved_by(
    before: Seq<Object>,
    after: Seq<Object>,
    id: int,
    dx: int,
    dy: int,
    map: Seq<Vec<crate::types::Tile>>,
) -> bool {
    let o = before[id];
    if !spec_is_blocked(o.x + dx, o.y + dy, map, before) {
        after == before.update(id, Object { x: (o.x + dx) as i32, y: (o.y + dy) as i32, ..o })
    } else {
        after == before
    }
}

/// Step entity `id` by `(dx, dy)` unless the destination tile is a
/// wall or occupied by a blocking entity; a blocked move is silently
/// a no-op.
pub fn move_by(id: usize, dx: i32, dy: i32, map: &TileMap, objects: &mut Vec<Object>)
    requires
        map_wf(map@),
        id < old(objects)@.len(),
        in_map(old(objects)@[id as int].x + dx, old(objects)@[id as int].y + dy),
    ensures
        moved_by(old(objects)@, final(objects)@, id as int, dx as int, dy as int, map@),
{
    let (x, y) = {
        let o = &objects[id];
        (o.x, o.y)
    };
    let blocked = is_blocked(x + dx, y + dy, map, objects.as_slice());
    if !blocked {
        let o = &mut objects[id];
        o.x = o.x + dx;
        o.y = o.y + dy;
    }
}

/// Step entity `id` one tile toward `(target_x, target_y)`, rounding
/// the unit direction to the nearest compass step, subject to the
/// blocking rule.
pub fn move_towards(id: usize, target_x: i32, target_y: i32, map: &TileMap, objects: &mut Vec<Object>)
    requires
        map_wf(map@),
        id < old(objects)@.len(),
        in_map_interior(old(objects)@[id as int].x as int, old(objects)@[id as int].y as int),
        in_map(target_x as int, target_y as int),
    ensures
        ({
            let o = old(objects)@[id as int];
            let sx = spec_step(target_x - o.x, target_y - o.y);
            let sy = spec_step(target_y - o.y, target_x - o.x);
            moved_by(old(objects)@, final(objects)@, id as int, sx, sy, map@)
        }),
{
    let (x, y) = {
        let o = &objects[id];
        (o.x, o.y)
    };
    let dx: i64 = target_x as i64 - x as i64;
    let dy: i64 = target_y as i64 - y as i64;
    proof {
        crate::types::lemma_small_square_bound(dx as int);
        crate::types::lemma_small_square_bound(dy as int);
    }
    let dx2: i64 = dx * dx;
    let dy2: i64 = dy * dy;
    let sx: i32 = if 3 * dx2 >= dy2 {
        if dx > 0 {
            1
        } else if dx < 0 {
            -1
        } else {
            0
        }
    } else {
        0
    };
    let sy: i32 = if 3 * dy2 >= dx2 {
        if dy > 0 {
            1
        } else if dy < 0 {
            -1
        } else {
            0
        }
    } else {
        0
    };
    move_by(id, sx, sy, map, objects);
}

/// The player is alive for the AI's purposes: combat-capable with
/// positive hit points.
pub open spec fn player_has_hp(p: Object) -> bool {
    p.fighter matches Some(f) && f.hp > 0
}

/// One turn of the `Basic` behaviour: a monster that the player can
/// see walks toward the player while it is two or more tiles away,
/// and attacks once adjacent; out of view it does nothing. `Basic` is
/// a steady state.
pub fn ai_basic(monster_id: usize, game: &mut Game, objects: &mut Vec<Object>, in_fov: bool) -> (new_ai: Ai)
    requires
        game_wf(old(game)),
        old(objects)@.len() >= 1,
        monster_id < old(objects)@.len(),
        monster_id != PLAYER,
        in_map_interior(
            old(objects)@[monster_id as int].x as int,
            old(objects)@[monster_id as int].y as int,
        ),
        in_map(
            old(objects)@[PLAYER as int].x as int,
            old(objects)@[PLAYER as int].y as int,
        ),
        ({
            let m = old(objects)@[monster_id as int];
            let p = old(objects)@[PLAYER as int];
            (in_fov && dist_sq(m.x as int, m.y as int, p.x as int, p.y as int) < 4
                && player_has_hp(p)) ==> attack_fits(m, p, old(game).inventory@)
        }),
    ensures
        new_ai == Ai::Basic,
        final(objects)@.len() == old(objects)@.len(),
        forall|k: int|
            0 <= k < old(objects)@.len() && k != monster_id as int && k != PLAYER as int
                ==> final(objects)@[k] == old(objects)@[k],
        ({
            let m = old(objects)@[monster_id as int];
            let p = old(objects)@[PLAYER as int];
            let d = dist_sq(m.x as int, m.y as int, p.x as int, p.y as int);
            &&& !in_fov ==> final(objects)@ == old(objects)@ && *final(game) == *old(game)
            &&& (in_fov && d >= 4) ==> *final(game) == *old(game) && moved_by(
                old(objects)@,
                final(objects)@,
                monster_id as int,
                spec_step(p.x - m.x, p.y - m.y),
                spec_step(p.y - m.y, p.x - m.x),
                old(game).map@,
            )
            &&& (in_fov && d < 4 && !player_has_hp(p)) ==> final(objects)@ == old(objects)@
                && *final(game) == *old(game)
            &&& (in_fov && d < 4 && player_has_hp(p)) ==> game_same_but_log(
                old(game),
                final(game),
            ) && attack_rel(
                m,
                p,
                final(objects)@[monster_id as int],
                final(objects)@[PLAYER as int],
                old(game).inventory@,
                old(game).log@,
                final(game).log@,
            ) && final(objects)@ == old(objects)@.update(
                monster_id as int,
                final(objects)@[monster_id as int],
            ).update(PLAYER as int, final(objects)@[PLAYER as int])
        }),
{
    let (monster_x, monster_y) = {
        let m = &objects[monster_id];
        (m.x, m.y)
    };

    if in_fov {
        let distance = {
            let m = &objects[monster_id];
            let p = &objects[PLAYER];
            m.distance_to_sq(p)
        };
        if distance >= 4 {
            let (player_x, player_y) = {
                let p = &objects[PLAYER];
                (p.x, p.y)
            };
            move_towards(monster_id, player_x, player_y, &game.map, objects);
        } else {
            let player_alive = {
                let p = &objects[PLAYER];
                match p.fighter {
                    Some(f) => f.hp > 0,
                    None => false,
                }
            };
            if player_alive {
                let (monster, player) = mut_two(monster_id, PLAYER, objects.as_mut_slice());
                monster.attack(player, game);
                proof {
                    assert(final(objects)@ =~= old(objects)@.update(
                        monster_id as int,
                        final(objects)@[monster_id as int],
                    ).update(PLAYER as int, final(objects)@[PLAYER as int]));
                }
            }
        }
    }

    Ai::Basic
}

/// One confused turn: while turns remain, stumble by a uniformly
/// random one-tile delta (staying put included) and count down; when
/// the counter runs out, log it and resume the wrapped state.
pub fn ai_confused(
    monster_id: usize,
    game: &mut Game,
    objects: &mut Vec<Object>,
    previous_ai: Box<Ai>,
    num_turns: i32,
) -> (new_ai: Ai)
    requires
        monster_id < old(objects)@.len(),
        num_turns >= 0 ==> in_map_interior(
            old(objects)@[monster_id as int].x as int,
            old(objects)@[monster_id as int].y as int,
        ),
        num_turns >= 0 ==> map_wf(old(game).map@),
    ensures
        new_ai == (if num_turns > 0 {
            Ai::Confused { previous_ai, num_turns: (num_turns - 1) as i32 }
        } else {
            *previous_ai
        }),
        game_same_but_log(old(game), final(game)),
        num_turns > 0 ==> final(game).log@ == old(game).log@,
        num_turns <= 0 ==> log_extended(old(game).log@, final(game).log@, 1),
        final(objects)@.len() == old(objects)@.len(),
        forall|k: int|
            0 <= k < old(objects)@.len() && k != monster_id as int ==> final(objects)@[k]
                == old(objects)@[k],
        num_turns < 0 ==> final(objects)@ == old(objects)@,
        num_turns >= 0 ==> exists|dx: int, dy: int|
            -1 <= dx <= 1 && -1 <= dy <= 1 && #[trigger] moved_by(
                old(objects)@,
                final(objects)@,
                monster_id as int,
                dx,
                dy,
                old(game).map@,
            ),
{
    if num_turns >= 0 {
        let dx = rand_range_i32(-1, 2);
        let dy = rand_range_i32(-1, 2);
        move_by(monster_id, dx, dy, &game.map, objects);
        proof {
            assert(moved_by(
                old(objects)@,
                objects@,
                monster_id as int,
                dx as int,
                dy as int,
                old(game).map@,
            ));
        }
        if num_turns == 0 {
            let mut msg: String = "The ".to_owned();
            msg.append(objects[monster_id].name.as_str());
            msg.append(" is no longer confused.");
            game.log.push((msg, crate::colors::red()));
            proof {
                assert(final(game).log@.subrange(0, old(game).log@.len() as int)
                    =~= old(game).log@);
            }
            *previous_ai
        } else {
            Ai::Confused { previous_ai, num_turns: num_turns - 1 }
        }
    } else {
        let mut msg: String = "The ".to_owned();
        msg.append(objects[monster_id].name.as_str());
        msg.append(" is no longer confused.");
        game.log.push((msg, crate::colors::red()));
        proof {
            assert(final(game).log@.subrange(0, old(game).log@.len() as int) =~= old(game).log@);
        }
        *previous_ai
    }
}

/// Run one AI tick for entity `monster_id`: take its state, run the
/// matching behaviour, and store the successor state. An entity
/// without an AI takes no action. The stored state steps exactly as
/// `ai_step` says: a spent confusion resumes the state it wrapped.
pub fn ai_take_turn(monster_id: usize, game: &mut Game, objects: &mut Vec<Object>, in_fov: bool)
    requires
        game_wf(old(game)),
        old(objects)@.len() >= 1,
        monster_id < old(objects)@.len(),
        monster_id != PLAYER,
        in_map_interior(
            old(objects)@[monster_id as int].x as int,
            old(objects)@[monster_id as int].y as int,
        ),
        in_map(
            old(objects)@[PLAYER as int].x as int,
            old(objects)@[PLAYER as int].y as int,
        ),
        ({
            let m = old(objects)@[monster_id as int];
            let p = old(objects)@[PLAYER as int];
            (m.ai == Some(Ai::Basic) && in_fov && dist_sq(
                m.x as int,
                m.y as int,
                p.x as int,
                p.y as int,
            ) < 4 && player_has_hp(p)) ==> attack_fits(
                (Object { ai: None, ..m }),
                p,
                old(game).inventory@,
            )
        }),
    ensures
        old(objects)@[monster_id as int].ai is None ==> final(objects)@ == old(objects)@
            && *final(game) == *old(game),
        final(objects)@.len() == old(objects)@.len(),
        game_same_but_log(old(game), final(game)),
        crate::types::log_grew(old(game).log@, final(game).log@),
        forall|k: int|
            0 <= k < old(objects)@.len() && k != monster_id as int && k != PLAYER as int
                ==> final(objects)@[k] == old(objects)@[k],
        old(objects)@[monster_id as int].ai matches Some(a) ==> final(objects)@[monster_id as int].ai
            == Some(ai_step(a)),
{
    let ai_state: Option<Ai> = {
        let m = &mut objects[monster_id];
        m.ai.take()
    };

    match ai_state {
        Some(ai) => {
            let new_ai = match ai {
                Ai::Basic => ai_basic(monster_id, game, objects, in_fov),
                Ai::Confused { previous_ai, num_turns } => ai_confused(
                    monster_id,
                    game,
                    objects,
                    previous_ai,
                    num_turns,
                ),
            };
            let m = &mut objects[monster_id];
            m.ai = Some(new_ai);
        },
        None => {},
    }
    proof {
        assert(old(game).log@.subrange(0, old(game).log@.len() as int) =~= old(game).log@);
    }
}

} // verus!
