//! Monster kinds, their factory, and the depth-scaled monster spawn
//! table.

use vstd::prelude::*;

use crate::ai::Ai;
use crate::colors::{darker_green, desaturated_green, Color};
use crate::spawn::Weighted;
use crate::types::{DeathCallback, Fighter, Object};
use crate::util::{from_dungeon_level, spec_from_dungeon_level, Transition};

verus! {

/// The monster kinds a spawn table can yield.
#[derive(Clone, Copy, Debug, PartialEq, Eq, Structural)]
pub enum Monster {
    Orc,
    Troll,
}

/// The stats an orc is created with.
pub open spec fn orc_fighter() -> Fighter {
    Fighter {
        hp: 10,
        base_movement: 4,
        base_max_hp: 10,
        base_defense: 0,
        base_power: 3,
        on_death: DeathCallback::Monster,
        xp: 35,
    }
}

/// The stats a troll is created with.
pub open spec fn troll_fighter() -> Fighter {
    Fighter {
        hp: 16,
        base_movement: 3,
        base_max_hp: 16,
        base_defense: 1,
        base_power: 4,
        on_death: DeathCallback::Monster,
        xp: 100,
    }
}

/// Create a living monster of the given kind at `(x, y)`.
pub fn make_monster(x: i32, y: i32, monster: Monster) -> (o: Object)
    ensures
        o.x == x,
        o.y == y,
        o.level == 1,
        o.blocks,
        o.alive,
        o.always_visible,
        o.ai == Some(Ai::Basic),
        o.item is None,
        o.equipment is None,
        monster is Orc ==> o.fighter == Some(orc_fighter()) && o.name@ == "Orc"@ && o.glyph == 'o'
            && o.color == (Color { r: 63, g: 127, b: 63 }),
        monster is Troll ==> o.fighter == Some(troll_fighter()) && o.name@ == "Troll"@ && o.glyph
            == 'T' && o.color == (Color { r: 0, g: 127, b: 0 }),
{
    let mut m = match monster {
        Monster::Orc => {
            let mut orc = Object::new(x, y, 'o', desaturated_green(), "Orc", true);
            orc.fighter = Some(
                Fighter {
                    hp: 10,
                    base_movement: 4,
                    base_max_hp: 10,
                    base_defense: 0,
                    base_power: 3,
                    on_death: DeathCallback::Monster,
                    xp: 35,
                },
            );
            orc.ai = Some(Ai::Basic);
            orc
        },
        Monster::Troll => {
            let mut troll = Object::new(x, y, 'T', darker_green(), "Troll", true);
            troll.fighter = Some(
                Fighter {
                    hp: 16,
                    base_movement: 3,
                    base_max_hp: 16,
                    base_defense: 1,
                    base_power: 4,
                    on_death: DeathCallback::Monster,
                    xp: 100,
                },
            );
            troll.ai = Some(Ai::Basic);
            troll
        },
    };

    m.alive = true;
    m.always_visible = true;
    m
}

/// The threshold table scaling the troll's spawn weight with depth.
pub open spec fn troll_chance_table() -> Seq<Transition> {
    seq![
        Transition { level: 3, value: 15 },
        Transition { level: 5, value: 30 },
        Transition { level: 7, value: 60 },
    ]
}

/// The weight the monster spawn table gives each kind at the given
/// depth.
pub open spec fn spec_monster_weight(level: u32, kind: Monster) -> int {
    match kind {
        Monster::Orc => 80,
        Monster::Troll => spec_from_dungeon_level(troll_chance_table(), level) as int,
    }
}

/// The monster spawn table at the given depth: orcs at a fixed
/// weight, trolls at a depth-scaled weight.
pub fn monster_table_for_level(level: u32) -> (table: Vec<Weighted<Monster>>)
    ensures
        table@ =~= seq![
            Weighted { weight: 80u32, item: Monster::Orc },
            Weighted {
                weight: spec_from_dungeon_level(troll_chance_table(), level),
                item: Monster::Troll,
            },
        ],
{
    let thresholds: Vec<Transition> = vec![
        Transition { level: 3, value: 15 },
        Transition { level: 5, value: 30 },
        Transition { level: 7, value: 60 },
    ];
    proof {
        assert(thresholds@ =~= troll_chance_table());
    }
    let troll_chance = from_dungeon_level(thresholds.as_slice(), level);

    let table: Vec<Weighted<Monster>> = vec![
        Weighted { weight: 80u32, item: Monster::Orc },
        Weighted { weight: troll_chance, item: Monster::Troll },
    ];
    table
}

} // verus!
