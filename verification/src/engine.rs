//! The turn-level glue the game loop drives: target selection,
//! the player's move-or-attack decision, experience-driven leveling,
//! starting a new game and descending to the next depth.

use vstd::prelude::*;
use vstd::string::StringExecFns;

use crate::ai::moved_by;
use crate::colors::{red, violet, white, yellow};
use crate::consts::{LEVEL_UP_BASE, LEVEL_UP_FACTOR, PLAYER};
use crate::items::{slot_exclusive, wearables_are_items, Equipment, Item, Slot};
use crate::mapgen::{make_map, MapGenError};
use crate::types::{
    attack_fits, attack_rel, dist_sq, game_same_but_log, game_wf, in_map, in_map_interior,
    log_extended, map_closed, map_wf, spec_healed_hp, spec_is_player, spec_max_hp, DeathCallback,
    Fighter, Game, Object,
};
use crate::util::mut_two;

verus! {

/// A target the lightning bolt may strike: a visible turn-driven
/// fighter that is not the player.
pub open spec fn bolt_candidate(objects: Seq<Object>, visible: Seq<bool>, i: int) -> bool {
    &&& i != PLAYER as int
    &&& objects[i].fighter is Some
    &&& objects[i].ai is Some
    &&& visible[i]
}

/// The first-found closest candidate among the first `n` entities,
/// with its squared distance to the player; `limit` is the exclusive
/// squared-distance bound. A later candidate replaces the running
/// best only when strictly closer.
pub open spec fn spec_closest(objects: Seq<Object>, visible: Seq<bool>, n: int, limit: int) -> (
    Option<int>,
    int,
)
    decreases n,
{
    if n <= 0 {
        (None, limit)
    } else {
        let (b, d) = spec_closest(objects, visible, n - 1, limit);
        let i = n - 1;
        let di = dist_sq(
            objects[PLAYER as int].x as int,
            objects[PLAYER as int].y as int,
            objects[i].x as int,
            objects[i].y as int,
        );
        if bolt_candidate(objects, visible, i) && di < d {
            (Some(i), di)
        } else {
            (b, d)
        }
    }
}

/// The closest visible monster within `max_range` tiles of the
/// player, by squared Euclidean distance; ties keep the earlier
/// entity.
pub fn closest_monster(max_range: i32, objects: &Vec<Object>, visible: &Vec<bool>) -> (r: Option<
    usize,
>)
    requires
        objects@.len() >= 1,
        visible@.len() == objects@.len(),
        0 <= max_range <= 10000,
        forall|i: int|
            0 <= i < objects@.len() ==> in_map(
                (#[trigger] objects@[i]).x as int,
                objects@[i].y as int,
            ),
    ensures
        ({
            let best = spec_closest(
                objects@,
                visible@,
                objects@.len() as int,
                (max_range + 1) * (max_range + 1),
            ).0;
            &&& r is None ==> best is None
            &&& r matches Some(u) ==> best == Some(u as int)
        }),
{
    let mut closest_enemy: Option<usize> = None;
    let mr: i64 = max_range as i64;
    proof {
        assert(0 <= (mr + 1) * (mr + 1) <= 0x10000000) by (nonlinear_arith)
            requires
                0 <= mr <= 10000,
        ;
    }
    let limit: i64 = (mr + 1) * (mr + 1);
    let mut closest_dist: i64 = limit;
    let n = objects.len();
    let mut id: usize = 0;

    while id < n
        invariant
            id <= n,
            n == objects@.len(),
            n >= 1,
            visible@.len() == objects@.len(),
            limit == (max_range + 1) * (max_range + 1),
            forall|i: int|
                0 <= i < objects@.len() ==> in_map(
                    (#[trigger] objects@[i]).x as int,
                    objects@[i].y as int,
                ),
            ({
                let (b, d) = spec_closest(objects@, visible@, id as int, limit as int);
                &&& closest_dist == d
                &&& closest_enemy is None ==> b is None
                &&& closest_enemy matches Some(u) ==> b == Some(u as int)
            }),
        decreases n - id,
    {
        let is_candidate = {
            let o = &objects[id];
            id != PLAYER && o.fighter.is_some() && o.ai.is_some() && visible[id]
        };
        if is_candidate {
            let dist = {
                let p = &objects[PLAYER];
                let o = &objects[id];
                p.distance_to_sq(o)
            };
            if dist < closest_dist {
                closest_dist = dist;
                closest_enemy = Some(id);
            }
        }
        id = id + 1;
    }

    closest_enemy
}

/// A found closest target is in range, in bounds and a candidate.
pub proof fn lemma_spec_closest_props(
    objects: Seq<Object>,
    visible: Seq<bool>,
    n: int,
    limit: int,
)
    ensures
        spec_closest(objects, visible, n, limit).0 matches Some(t) ==> 0 <= t < n
            && bolt_candidate(objects, visible, t),
    decreases n,
{
    if n > 0 {
        lemma_spec_closest_props(objects, visible, n - 1, limit);
    }
}

/// The first entity standing at `(x, y)` that has a fighter.
pub open spec fn first_fighter_at(objects: Seq<Object>, x: int, y: int) -> Option<int>
    decreases objects.len(),
{
    if objects.len() == 0 {
        None
    } else if objects.first().fighter is Some && objects.first().x == x && objects.first().y == y {
        Some(0)
    } else {
        match first_fighter_at(objects.drop_first(), x, y) {
            Some(i) => Some(i + 1),
            None => None,
        }
    }
}

/// If nothing before `i` matches and `i` matches, the first match is
/// `i`.
proof fn lemma_first_fighter_at_found(objects: Seq<Object>, x: int, y: int, i: int)
    requires
        0 <= i < objects.len(),
        objects[i].fighter is Some && objects[i].x == x && objects[i].y == y,
        forall|j: int|
            0 <= j < i ==> !((#[trigger] objects[j]).fighter is Some && objects[j].x == x
                && objects[j].y == y),
    ensures
        first_fighter_at(objects, x, y) == Some(i),
    decreases objects.len(),
{
    if i == 0 {
        assert(objects.first() == objects[0]);
    } else {
        assert(objects.first() == objects[0]);
        assert forall|j: int| 0 <= j < i - 1 implies !((#[trigger] objects.drop_first()[j]).fighter
            is Some && objects.drop_first()[j].x == x && objects.drop_first()[j].y == y) by {
            assert(objects.drop_first()[j] == objects[j + 1]);
        }
        assert(objects.drop_first()[i - 1] == objects[i]);
        lemma_first_fighter_at_found(objects.drop_first(), x, y, i - 1);
    }
}

/// If nothing matches, there is no first match.
proof fn lemma_first_fighter_at_none(objects: Seq<Object>, x: int, y: int)
    requires
        forall|j: int|
            0 <= j < objects.len() ==> !((#[trigger] objects[j]).fighter is Some && objects[j].x
                == x && objects[j].y == y),
    ensures
        first_fighter_at(objects, x, y) is None,
    decreases objects.len(),
{
    if objects.len() > 0 {
        assert(objects.first() == objects[0]);
        assert forall|j: int|
            0 <= j < objects.drop_first().len() implies !((#[trigger] objects.drop_first()[j]).fighter
            is Some && objects.drop_first()[j].x == x && objects.drop_first()[j].y == y) by {
            assert(objects.drop_first()[j] == objects[j + 1]);
        }
        lemma_first_fighter_at_none(objects.drop_first(), x, y);
    }
}

/// The first match, when there is one, is in bounds and matches.
proof fn lemma_first_fighter_at_props(objects: Seq<Object>, x: int, y: int)
    ensures
        first_fighter_at(objects, x, y) matches Some(t) ==> 0 <= t < objects.len()
            && objects[t].fighter is Some && objects[t].x == x && objects[t].y == y,
    decreases objects.len(),
{
    if objects.len() > 0 {
        assert(objects.first() == objects[0]);
        lemma_first_fighter_at_props(objects.drop_first(), x, y);
        match first_fighter_at(objects, x, y) {
            Some(t) => {
                if t > 0 {
                    assert(objects.drop_first()[t - 1] == objects[t]);
                }
            },
            None => {},
        }
    }
}

/// Find the first entity with a fighter standing at `(x, y)`.
fn find_fighter_at(objects: &Vec<Object>, x: i32, y: i32) -> (r: Option<usize>)
    ensures
        r matches Some(u) ==> u < objects@.len() && first_fighter_at(objects@, x as int, y as int)
            == Some(u as int),
        r is None ==> first_fighter_at(objects@, x as int, y as int) is None,
{
    let n = objects.len();
    let mut i: usize = 0;
    while i < n
        invariant
            i <= n,
            n == objects@.len(),
            forall|j: int|
                0 <= j < i ==> !((#[trigger] objects@[j]).fighter is Some && objects@[j].x == x
                    && objects@[j].y == y),
        decreases n - i,
    {
        let o = &objects[i];
        if o.fighter.is_some() && o.x == x && o.y == y {
            proof {
                lemma_first_fighter_at_found(objects@, x as int, y as int, i as int);
            }
            return Some(i);
        }
        i = i + 1;
    }
    proof {
        lemma_first_fighter_at_none(objects@, x as int, y as int);
    }
    None
}

/// One player command, a step by `(dx, dy)`: attack the first fighter
/// standing on the destination tile, or move there if it is free.
pub fn player_move_or_attack(dx: i32, dy: i32, game: &mut Game, objects: &mut Vec<Object>)
    requires
        game_wf(old(game)),
        old(objects)@.len() >= 1,
        !(dx == 0 && dy == 0),
        in_map(
            old(objects)@[PLAYER as int].x + dx,
            old(objects)@[PLAYER as int].y + dy,
        ),
        ({
            let p = old(objects)@[PLAYER as int];
            first_fighter_at(old(objects)@, p.x + dx, p.y + dy) matches Some(t) ==> attack_fits(
                p,
                old(objects)@[t],
                old(game).inventory@,
            )
        }),
    ensures
        final(objects)@.len() == old(objects)@.len(),
        game_same_but_log(old(game), final(game)),
        ({
            let p = old(objects)@[PLAYER as int];
            let target = first_fighter_at(old(objects)@, p.x + dx, p.y + dy);
            &&& target is None ==> *final(game) == *old(game) && moved_by(
                old(objects)@,
                final(objects)@,
                PLAYER as int,
                dx as int,
                dy as int,
                old(game).map@,
            )
            &&& target matches Some(t) ==> attack_rel(
                p,
                old(objects)@[t],
                final(objects)@[PLAYER as int],
                final(objects)@[t],
                old(game).inventory@,
                old(game).log@,
                final(game).log@,
            ) && final(objects)@ == old(objects)@.update(
                PLAYER as int,
                final(objects)@[PLAYER as int],
            ).update(t, final(objects)@[t])
        }),
{
    let (x, y) = {
        let p = &objects[PLAYER];
        (p.x + dx, p.y + dy)
    };

    let target_id = find_fighter_at(objects, x, y);

    match target_id {
        Some(t) => {
            proof {
                lemma_first_fighter_at_props(objects@, x as int, y as int);
                assert(objects@[t as int].x == x && objects@[t as int].y == y);
                assert(objects@[PLAYER as int].x != x || objects@[PLAYER as int].y != y);
                assert(t != PLAYER);
            }
            let (player, target) = mut_two(PLAYER, t, objects.as_mut_slice());
            player.attack(target, game);
            proof {
                assert(final(objects)@ =~= old(objects)@.update(
                    PLAYER as int,
                    final(objects)@[PLAYER as int],
                ).update(t as int, final(objects)@[t as int]));
            }
        },
        None => {
            crate::ai::move_by(PLAYER, dx, dy, &game.map, objects);
        },
    }
}

/// The names of the visible entities standing at `(x, y)`, in entity
/// order.
pub open spec fn spec_names_at(objects: Seq<Object>, visible: Seq<bool>, x: int, y: int) -> Seq<
    Seq<char>,
>
    decreases objects.len(),
{
    if objects.len() == 0 {
        Seq::empty()
    } else {
        let rest = spec_names_at(objects.drop_first(), visible.drop_first(), x, y);
        if objects.first().x == x && objects.first().y == y && visible.first() {
            seq![objects.first().name@] + rest
        } else {
            rest
        }
    }
}

/// The names joined by a comma-and-space separator.
pub open spec fn spec_joined(names: Seq<Seq<char>>) -> Seq<char>
    decreases names.len(),
{
    if names.len() == 0 {
        Seq::empty()
    } else if names.len() == 1 {
        names.first()
    } else {
        names.first() + ", "@ + spec_joined(names.drop_first())
    }
}

/// Appending one entity appends its name exactly when it stands at
/// the point and is visible.
proof fn lemma_names_at_push(
    objects: Seq<Object>,
    visible: Seq<bool>,
    o: Object,
    v: bool,
    x: int,
    y: int,
)
    requires
        objects.len() == visible.len(),
    ensures
        spec_names_at(objects.push(o), visible.push(v), x, y) == if o.x == x && o.y == y && v {
            spec_names_at(objects, visible, x, y).push(o.name@)
        } else {
            spec_names_at(objects, visible, x, y)
        },
    decreases objects.len(),
{
    if objects.len() == 0 {
        assert(objects.push(o).drop_first() =~= Seq::<Object>::empty());
        assert(visible.push(v).drop_first() =~= Seq::<bool>::empty());
        assert(objects.push(o).first() == o);
        assert(visible.push(v).first() == v);
        assert(objects =~= Seq::<Object>::empty());
        assert(visible =~= Seq::<bool>::empty());
        assert(spec_names_at(Seq::<Object>::empty(), Seq::<bool>::empty(), x, y)
            =~= Seq::<Seq<char>>::empty());
        if o.x == x && o.y == y && v {
            assert(seq![o.name@] + Seq::<Seq<char>>::empty() =~= spec_names_at(
                objects,
                visible,
                x,
                y,
            ).push(o.name@));
        }
    } else {
        assert(objects.push(o).drop_first() =~= objects.drop_first().push(o));
        assert(visible.push(v).drop_first() =~= visible.drop_first().push(v));
        assert(objects.push(o).first() == objects.first());
        assert(visible.push(v).first() == visible.first());
        lemma_names_at_push(objects.drop_first(), visible.drop_first(), o, v, x, y);
        if o.x == x && o.y == y && v {
            if objects.first().x == x && objects.first().y == y && visible.first() {
                assert(seq![objects.first().name@] + spec_names_at(
                    objects.drop_first(),
                    visible.drop_first(),
                    x,
                    y,
                ).push(o.name@) =~= (seq![objects.first().name@] + spec_names_at(
                    objects.drop_first(),
                    visible.drop_first(),
                    x,
                    y,
                )).push(o.name@));
            }
        }
    }
}

/// Joining after appending a name appends the separator and the name,
/// unless the list was empty.
proof fn lemma_joined_push(names: Seq<Seq<char>>, name: Seq<char>)
    ensures
        names.len() == 0 ==> spec_joined(names.push(name)) == name,
        names.len() > 0 ==> spec_joined(names.push(name)) == spec_joined(names) + ", "@ + name,
    decreases names.len(),
{
    if names.len() == 0 {
        assert(names.push(name).first() == name);
    } else {
        assert(names.push(name).drop_first() =~= names.drop_first().push(name));
        assert(names.push(name).first() == names.first());
        lemma_joined_push(names.drop_first(), name);
        if names.len() == 1 {
            assert(names.drop_first().len() == 0);
            assert(spec_joined(names) == names.first());
        } else {
            assert(names.first() + ", "@ + (spec_joined(names.drop_first()) + ", "@ + name)
                =~= (names.first() + ", "@ + spec_joined(names.drop_first())) + ", "@ + name);
        }
    }
}

/// The names of all visible entities under the pointed-at tile,
/// joined by commas, for the rendering collaborator's tooltip.
pub fn get_names_under_mouse(x: i32, y: i32, objects: &[Object], visible: &[bool]) -> (r: String)
    requires
        objects@.len() == visible@.len(),
    ensures
        r@ == spec_joined(spec_names_at(objects@, visible@, x as int, y as int)),
{
    let mut names: String = String::new();
    let mut found_any = false;
    let n = objects.len();
    let mut i: usize = 0;
    proof {
        assert(objects@.subrange(0, 0) =~= Seq::<Object>::empty());
        assert(visible@.subrange(0, 0) =~= Seq::<bool>::empty());
    }
    while i < n
        invariant
            i <= n,
            n == objects@.len(),
            visible@.len() == objects@.len(),
            names@ == spec_joined(
                spec_names_at(
                    objects@.subrange(0, i as int),
                    visible@.subrange(0, i as int),
                    x as int,
                    y as int,
                ),
            ),
            found_any == (spec_names_at(
                objects@.subrange(0, i as int),
                visible@.subrange(0, i as int),
                x as int,
                y as int,
            ).len() != 0),
        decreases n - i,
    {
        proof {
            assert(objects@.subrange(0, i + 1) =~= objects@.subrange(0, i as int).push(
                objects@[i as int],
            ));
            assert(visible@.subrange(0, i + 1) =~= visible@.subrange(0, i as int).push(
                visible@[i as int],
            ));
            lemma_names_at_push(
                objects@.subrange(0, i as int),
                visible@.subrange(0, i as int),
                objects@[i as int],
                visible@[i as int],
                x as int,
                y as int,
            );
            lemma_joined_push(
                spec_names_at(
                    objects@.subrange(0, i as int),
                    visible@.subrange(0, i as int),
                    x as int,
                    y as int,
                ),
                objects@[i as int].name@,
            );
        }
        let o = &objects[i];
        if o.x == x && o.y == y && visible[i] {
            if found_any {
                names.append(", ");
            }
            names.append(o.name.as_str());
            found_any = true;
        }
        i = i + 1;
    }
    proof {
        assert(objects@.subrange(0, n as int) =~= objects@);
        assert(visible@.subrange(0, n as int) =~= visible@);
    }
    names
}

/// The stat a level-up raises.
#[derive(Clone, Copy, Debug, PartialEq, Eq, Structural)]
pub enum LevelUpChoice {
    Constitution,
    Strength,
    Agility,
}

/// The experience required to leave the given level.
pub fn level_up_xp(level: i32) -> (xp: i32)
    requires
        i32::MIN as int <= LEVEL_UP_BASE as int + level * LEVEL_UP_FACTOR as int
            <= i32::MAX as int,
        i32::MIN as int <= level * LEVEL_UP_FACTOR as int <= i32::MAX as int,
    ensures
        xp == LEVEL_UP_BASE as int + level * LEVEL_UP_FACTOR as int,
{
    LEVEL_UP_BASE + level * LEVEL_UP_FACTOR
}

/// Whether the player has banked enough experience to level up.
pub fn needs_level_up(player: &Object) -> (b: bool)
    requires
        i32::MIN as int <= LEVEL_UP_BASE as int + player.level * LEVEL_UP_FACTOR as int
            <= i32::MAX as int,
        i32::MIN as int <= player.level * LEVEL_UP_FACTOR as int <= i32::MAX as int,
    ensures
        b == ({
            let banked: int = match player.fighter {
                Some(f) => f.xp as int,
                None => 0,
            };
            banked >= LEVEL_UP_BASE as int + player.level * LEVEL_UP_FACTOR as int
        }),
{
    let threshold = level_up_xp(player.level);
    let banked: i32 = match player.fighter {
        Some(f) => f.xp,
        None => 0,
    };
    banked >= threshold
}

/// Consume the required experience, raise the level by one, and apply
/// the chosen stat raise to the base stat (never to the equipment
/// total): +20 max and current hit points, +1 power, or +1 defense.
pub fn level_up(player: &mut Object, game: &mut Game, choice: LevelUpChoice)
    requires
        old(player).fighter is Some,
        i32::MIN as int <= LEVEL_UP_BASE as int + old(player).level * LEVEL_UP_FACTOR as int
            <= i32::MAX as int,
        i32::MIN as int <= old(player).level * LEVEL_UP_FACTOR as int <= i32::MAX as int,
        old(player).fighter->0.xp >= LEVEL_UP_BASE as int + old(player).level
            * LEVEL_UP_FACTOR as int,
        old(player).level + 1 <= i32::MAX as int,
        old(player).fighter->0.xp - (LEVEL_UP_BASE as int + old(player).level
            * LEVEL_UP_FACTOR as int) <= i32::MAX as int,
        choice is Constitution ==> old(player).fighter->0.base_max_hp + 20 <= i32::MAX as int
            && old(player).fighter->0.hp + 20 <= i32::MAX as int,
        choice is Strength ==> old(player).fighter->0.base_power + 1 <= i32::MAX as int,
        choice is Agility ==> old(player).fighter->0.base_defense + 1 <= i32::MAX as int,
    ensures
        game_same_but_log(old(game), final(game)),
        log_extended(old(game).log@, final(game).log@, 1),
        ({
            let f = old(player).fighter->0;
            let spent = Fighter {
                xp: (f.xp - (LEVEL_UP_BASE as int + old(player).level
                    * LEVEL_UP_FACTOR as int)) as i32,
                ..f
            };
            let raised = match choice {
                LevelUpChoice::Constitution => Fighter {
                    base_max_hp: (spent.base_max_hp + 20) as i32,
                    hp: (spent.hp + 20) as i32,
                    ..spent
                },
                LevelUpChoice::Strength => Fighter {
                    base_power: (spent.base_power + 1) as i32,
                    ..spent
                },
                LevelUpChoice::Agility => Fighter {
                    base_defense: (spent.base_defense + 1) as i32,
                    ..spent
                },
            };
            *final(player) == (Object {
                level: (old(player).level + 1) as i32,
                fighter: Some(raised),
                ..*old(player)
            })
        }),
{
    let threshold = level_up_xp(player.level);
    player.level = player.level + 1;

    let mut msg: String = "You battle skills grow stronger. You have reached level ".to_owned();
    let level_text = crate::text::decimal(player.level);
    msg.append(level_text.as_str());
    msg.append(".");
    game.log.push((msg, yellow()));
    proof {
        assert(final(game).log@.subrange(0, old(game).log@.len() as int) =~= old(game).log@);
    }

    match &mut player.fighter {
        Some(f) => {
            f.xp = f.xp - threshold;
            match choice {
                LevelUpChoice::Constitution => {
                    f.base_max_hp = f.base_max_hp + 20;
                    f.hp = f.hp + 20;
                },
                LevelUpChoice::Strength => {
                    f.base_power = f.base_power + 1;
                },
                LevelUpChoice::Agility => {
                    f.base_defense = f.base_defense + 1;
                },
            }
        },
        None => {},
    }
}

/// Start a fresh game: a living player entity, a generated first
/// dungeon depth, an inventory holding a worn dagger, and a welcome
/// message. Fails only when the generator accepts no room at all.
pub fn new_game() -> (r: Result<(Vec<Object>, Game), MapGenError>)
    ensures
        r is Ok,
        r matches Ok(p) ==> ({
            let objects = p.0@;
            let game = p.1;
            &&& objects.len() >= 2
            &&& forall|k: int|
                1 <= k < objects.len() - 1 ==> crate::mapgen::spawned_entity(#[trigger] objects[k])
            &&& crate::mapgen::stairs_entity(objects.last())
            &&& spec_is_player(objects[0])
            &&& objects[0].alive
            &&& objects[0].blocks
            &&& objects[0].fighter == Some(
                Fighter {
                    hp: 100,
                    base_movement: 4,
                    base_max_hp: 100,
                    base_defense: 1,
                    base_power: 2,
                    on_death: DeathCallback::Player,
                    xp: 0,
                },
            )
            &&& forall|k: int|
                0 <= k < objects.len() ==> in_map_interior(
                    (#[trigger] objects[k]).x as int,
                    objects[k].y as int,
                )
            &&& map_wf(game.map@)
            &&& map_closed(game.map@)
            &&& game.dungeon_level == 1
            &&& game.inventory@.len() == 1
            &&& game.inventory@[0].name@ == "dagger"@
            &&& game.inventory@[0].item == Some(Item::Sword)
            &&& game.inventory@[0].equipment == Some(
                Equipment {
                    slot: Slot::LeftHand,
                    equipped: true,
                    power_bonus: 2,
                    defense_bonus: 0,
                    max_hp_bonus: 0,
                },
            )
            &&& slot_exclusive(game.inventory@)
            &&& wearables_are_items(game.inventory@)
            &&& game.log@.len() == 1
        }),
{
    let mut player = Object::new(0, 0, '@', white(), "player", true);
    player.alive = true;
    player.fighter = Some(
        Fighter {
            hp: 100,
            base_movement: 4,
            base_max_hp: 100,
            base_defense: 1,
            base_power: 2,
            on_death: DeathCallback::Player,
            xp: 0,
        },
    );

    let mut objects: Vec<Object> = Vec::new();
    objects.push(player);

    match make_map(&mut objects, 1) {
        Ok((map, rooms)) => {
            proof {
                crate::mapgen::lemma_center_interior(rooms@[0]);
            }
            let mut game = Game { map: map, log: Vec::new(), inventory: Vec::new(), dungeon_level: 1 };

            let mut dagger = Object::new(0, 0, '-', crate::colors::sky(), "dagger", false);
            dagger.item = Some(Item::Sword);
            dagger.equipment = Some(
                Equipment {
                    slot: Slot::LeftHand,
                    equipped: true,
                    power_bonus: 2,
                    defense_bonus: 0,
                    max_hp_bonus: 0,
                },
            );
            game.inventory.push(dagger);

            let msg: String =
                "Welcome stranger! Prepare to perish in the Tombs of the Ancient Kings.".to_owned();
            game.log.push((msg, white()));

            Ok((objects, game))
        },
        Err(e) => Err(e),
    }
}

/// Descend one depth: rest (heal half the effective maximum), bump
/// the depth, and rebuild the map wholesale at the new depth.
pub fn next_level(objects: &mut Vec<Object>, game: &mut Game) -> (r: Result<(), MapGenError>)
    requires
        game_wf(old(game)),
        old(objects)@.len() >= 1,
        old(game).dungeon_level + 1 <= u32::MAX,
        0 <= spec_max_hp(old(objects)@[PLAYER as int], old(game).inventory@) <= i32::MAX as int,
    ensures
        r is Ok,
        final(game).dungeon_level == old(game).dungeon_level + 1,
        final(game).inventory@ == old(game).inventory@,
        log_extended(old(game).log@, final(game).log@, 2),
        ({
            let p = old(objects)@[PLAYER as int];
            let max_hp = spec_max_hp(p, old(game).inventory@);
            let healed = match p.fighter {
                Some(f) => Object {
                    fighter: Some(
                        Fighter {
                            hp: spec_healed_hp(f.hp as int, max_hp / 2, max_hp) as i32,
                            ..f
                        },
                    ),
                    ..p
                },
                None => p,
            };
            &&& r is Ok ==> map_wf(final(game).map@) && map_closed(final(game).map@)
                && final(objects)@.len() >= 2 && (forall|k: int|
                1 <= k < final(objects)@.len() - 1 ==> crate::mapgen::spawned_entity(
                    #[trigger] final(objects)@[k],
                )) && crate::mapgen::stairs_entity(final(objects)@.last()) && final(objects)@[0]
                == (Object {
                x: final(objects)@[0].x,
                y: final(objects)@[0].y,
                ..healed
            }) && in_map_interior(
                final(objects)@[0].x as int,
                final(objects)@[0].y as int,
            ) && (forall|k: int|
                1 <= k < final(objects)@.len() ==> in_map_interior(
                    (#[trigger] final(objects)@[k]).x as int,
                    final(objects)@[k].y as int,
                ))
            &&& r is Err ==> final(objects)@.len() == 1 && final(objects)@[0] == healed
        }),
{
    let msg1: String = "You take a moment to rest, and recover your strength.".to_owned();
    game.log.push((msg1, violet()));
    proof {
        assert(game.log@.subrange(0, old(game).log@.len() as int) =~= old(game).log@);
    }

    let heal_hp = {
        let p = &objects[PLAYER];
        p.max_hp(game) / 2
    };
    {
        let p = &mut objects[PLAYER];
        p.heal(heal_hp, game);
    }

    let msg2: String =
        "After a rare moment of peace, you descend deeper into the heart of the dungeon..".to_owned();
    game.log.push((msg2, red()));
    proof {
        assert(game.log@.subrange(0, old(game).log@.len() as int) =~= old(game).log@);
    }

    game.dungeon_level = game.dungeon_level + 1;

    match make_map(objects, game.dungeon_level) {
        Ok((map, rooms)) => {
            proof {
                crate::mapgen::lemma_center_interior(rooms@[0]);
            }
            game.map = map;
            Ok(())
        },
        Err(e) => Err(e),
    }
}

} // verus!
