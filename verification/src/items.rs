//! Item kinds, equipment slots, the equipment component, and the
//! inventory rules: pickup with its fixed capacity, dropping,
//! slot-exclusive equipping, and item use.

use vstd::prelude::*;

use crate::colors::{green, light_blue, light_green, light_violet, light_yellow, orange, red, sky, violet, white, Color};
use crate::consts::{CONFUSE_NUM_TURNS, FIREBALL_DAMAGE, FIREBALL_RADIUS, HEAL_AMOUNT, LIGHTNING_DAMAGE, LIGHTNING_RANGE, MAX_INVENTORY, PLAYER};
use crate::spawn::Weighted;
use crate::ai::Ai;
use crate::engine::{lemma_spec_closest_props, spec_closest};
use crate::text::decimal;
use crate::types::{
    damage_rel, damaged_fighter, dist_sq, fighter_dies, game_same_but_log, game_wf, in_map,
    log_extended, log_grew, player_corpse, spec_healed_hp, spec_max_hp, Fighter, Game, Object,
};
use vstd::string::StringExecFns;
use crate::util::{from_dungeon_level, spec_from_dungeon_level, Transition};

verus! {

/// What a pickupable entity does when used.
#[derive(Clone, Copy, Debug, PartialEq, Eq, Structural)]
pub enum Item {
    Heal,
    Lightning,
    Confuse,
    Fireball,
    Sword,
    Shield,
}

/// An equipment attachment point; each holds at most one equipped item.
#[derive(Clone, Copy, Debug, PartialEq, Eq, Structural)]
pub enum Slot {
    LeftHand,
    RightHand,
    Head,
}

impl Slot {
    /// The slot's name, for player-facing messages.
    pub fn text(&self) -> (s: String)
        ensures
            *self is LeftHand ==> s@ == "left hand"@,
            *self is RightHand ==> s@ == "right hand"@,
            *self is Head ==> s@ == "head"@,
    {
        match *self {
            Slot::LeftHand => "left hand".to_owned(),
            Slot::RightHand => "right hand".to_owned(),
            Slot::Head => "head".to_owned(),
        }
    }
}

/// The wearable component: which slot it occupies, whether it is
/// currently worn, and the stat bonuses it grants while worn.
#[derive(Clone, Copy, Debug, PartialEq, Eq, Structural)]
pub struct Equipment {
    pub slot: Slot,
    pub equipped: bool,
    pub power_bonus: i32,
    pub defense_bonus: i32,
    pub max_hp_bonus: i32,
}

/// Outcome of using an inventory item.
#[derive(Clone, Copy, Debug, PartialEq, Eq, Structural)]
pub enum UseResult {
    UsedUp,
    Cancelled,
    UsedAndKept,
}

/// The equipment a sword is created with.
pub open spec fn sword_equipment() -> Equipment {
    Equipment {
        slot: Slot::RightHand,
        equipped: false,
        power_bonus: 3,
        defense_bonus: 0,
        max_hp_bonus: 0,
    }
}

/// The equipment a shield is created with.
pub open spec fn shield_equipment() -> Equipment {
    Equipment {
        slot: Slot::LeftHand,
        equipped: false,
        power_bonus: 0,
        defense_bonus: 1,
        max_hp_bonus: 0,
    }
}

/// Create a pickupable entity of the given kind at `(x, y)`.
pub fn make_item(x: i32, y: i32, item: Item) -> (o: Object)
    ensures
        o.x == x,
        o.y == y,
        o.level == 1,
        !o.blocks,
        !o.alive,
        !o.always_visible,
        o.fighter is None,
        o.ai is None,
        o.item == Some(item),
        item is Heal ==> o.glyph == '!' && o.color == (Color { r: 127, g: 0, b: 255 }) && o.name@
            == "healing potion"@ && o.equipment is None,
        item is Lightning ==> o.glyph == '#' && o.color == (Color { r: 255, g: 255, b: 114 })
            && o.name@ == "scroll of lightning bolt"@ && o.equipment is None,
        item is Fireball ==> o.glyph == '#' && o.color == (Color { r: 255, g: 255, b: 114 })
            && o.name@ == "scroll of fireball"@ && o.equipment is None,
        item is Confuse ==> o.glyph == '#' && o.color == (Color { r: 255, g: 255, b: 114 })
            && o.name@ == "scroll of confusion"@ && o.equipment is None,
        item is Sword ==> o.glyph == '/' && o.color == (Color { r: 0, g: 191, b: 255 }) && o.name@
            == "sword"@ && o.equipment == Some(sword_equipment()),
        item is Shield ==> o.glyph == '[' && o.color == (Color { r: 0, g: 191, b: 255 }) && o.name@
            == "shield"@ && o.equipment == Some(shield_equipment()),
{
    match item {
        Item::Heal => {
            let mut object = Object::new(x, y, '!', violet(), "healing potion", false);
            object.item = Some(Item::Heal);
            object
        },
        Item::Lightning => {
            let mut object = Object::new(x, y, '#', light_yellow(), "scroll of lightning bolt", false);
            object.item = Some(Item::Lightning);
            object
        },
        Item::Fireball => {
            let mut object = Object::new(x, y, '#', light_yellow(), "scroll of fireball", false);
            object.item = Some(Item::Fireball);
            object
        },
        Item::Confuse => {
            let mut object = Object::new(x, y, '#', light_yellow(), "scroll of confusion", false);
            object.item = Some(Item::Confuse);
            object
        },
        Item::Sword => {
            let mut object = Object::new(x, y, '/', sky(), "sword", false);
            object.item = Some(Item::Sword);
            object.equipment = Some(
                Equipment {
                    slot: Slot::RightHand,
                    equipped: false,
                    power_bonus: 3,
                    defense_bonus: 0,
                    max_hp_bonus: 0,
                },
            );
            object
        },
        Item::Shield => {
            let mut object = Object::new(x, y, '[', sky(), "shield", false);
            object.item = Some(Item::Shield);
            object.equipment = Some(
                Equipment {
                    slot: Slot::LeftHand,
                    equipped: false,
                    power_bonus: 0,
                    defense_bonus: 1,
                    max_hp_bonus: 0,
                },
            );
            object
        },
    }
}

/// The item spawn table at the given depth: healing potions at a
/// fixed weight, everything else scaled in by depth thresholds.
pub open spec fn item_spawn_table(level: u32) -> Seq<Weighted<Item>> {
    seq![
        Weighted { weight: 35u32, item: Item::Heal },
        Weighted {
            weight: spec_from_dungeon_level(seq![Transition { level: 4, value: 25 }], level),
            item: Item::Lightning,
        },
        Weighted {
            weight: spec_from_dungeon_level(seq![Transition { level: 6, value: 25 }], level),
            item: Item::Fireball,
        },
        Weighted {
            weight: spec_from_dungeon_level(seq![Transition { level: 2, value: 10 }], level),
            item: Item::Confuse,
        },
        Weighted {
            weight: spec_from_dungeon_level(seq![Transition { level: 4, value: 5 }], level),
            item: Item::Sword,
        },
        Weighted {
            weight: spec_from_dungeon_level(seq![Transition { level: 8, value: 15 }], level),
            item: Item::Shield,
        },
    ]
}

/// The weight the item spawn table gives each kind at the given
/// depth.
pub open spec fn spec_item_weight(level: u32, kind: Item) -> int {
    match kind {
        Item::Heal => 35,
        Item::Lightning => spec_from_dungeon_level(
            seq![Transition { level: 4, value: 25 }],
            level,
        ) as int,
        Item::Fireball => spec_from_dungeon_level(
            seq![Transition { level: 6, value: 25 }],
            level,
        ) as int,
        Item::Confuse => spec_from_dungeon_level(
            seq![Transition { level: 2, value: 10 }],
            level,
        ) as int,
        Item::Sword => spec_from_dungeon_level(seq![Transition { level: 4, value: 5 }], level) as int,
        Item::Shield => spec_from_dungeon_level(
            seq![Transition { level: 8, value: 15 }],
            level,
        ) as int,
    }
}

/// Each entry of the item spawn table carries exactly its kind's
/// weight.
pub proof fn lemma_item_table_weights(level: u32)
    ensures
        forall|k: int|
            0 <= k < item_spawn_table(level).len() ==> (#[trigger] item_spawn_table(level)[k]).weight
                == spec_item_weight(level, item_spawn_table(level)[k].item),
{
    assert forall|k: int|
        0 <= k < item_spawn_table(level).len() implies (#[trigger] item_spawn_table(level)[k]).weight
        == spec_item_weight(level, item_spawn_table(level)[k].item) by {
        if k == 0 {
            assert(item_spawn_table(level)[0].item == Item::Heal);
        } else if k == 1 {
            assert(item_spawn_table(level)[1].item == Item::Lightning);
        } else if k == 2 {
            assert(item_spawn_table(level)[2].item == Item::Fireball);
        } else if k == 3 {
            assert(item_spawn_table(level)[3].item == Item::Confuse);
        } else if k == 4 {
            assert(item_spawn_table(level)[4].item == Item::Sword);
        } else {
            assert(item_spawn_table(level)[5].item == Item::Shield);
        }
    }
}

/// Build the item spawn table for the given depth.
pub fn item_table_for_level(level: u32) -> (table: Vec<Weighted<Item>>)
    ensures
        table@ =~= item_spawn_table(level),
{
    let lightning_thresholds: Vec<Transition> = vec![Transition { level: 4, value: 25 }];
    let fireball_thresholds: Vec<Transition> = vec![Transition { level: 6, value: 25 }];
    let confuse_thresholds: Vec<Transition> = vec![Transition { level: 2, value: 10 }];
    let sword_thresholds: Vec<Transition> = vec![Transition { level: 4, value: 5 }];
    let shield_thresholds: Vec<Transition> = vec![Transition { level: 8, value: 15 }];
    proof {
        assert(lightning_thresholds@ =~= seq![Transition { level: 4, value: 25 }]);
        assert(fireball_thresholds@ =~= seq![Transition { level: 6, value: 25 }]);
        assert(confuse_thresholds@ =~= seq![Transition { level: 2, value: 10 }]);
        assert(sword_thresholds@ =~= seq![Transition { level: 4, value: 5 }]);
        assert(shield_thresholds@ =~= seq![Transition { level: 8, value: 15 }]);
    }

    let table: Vec<Weighted<Item>> = vec![
        Weighted { weight: 35u32, item: Item::Heal },
        Weighted {
            weight: from_dungeon_level(lightning_thresholds.as_slice(), level),
            item: Item::Lightning,
        },
        Weighted {
            weight: from_dungeon_level(fireball_thresholds.as_slice(), level),
            item: Item::Fireball,
        },
        Weighted {
            weight: from_dungeon_level(confuse_thresholds.as_slice(), level),
            item: Item::Confuse,
        },
        Weighted {
            weight: from_dungeon_level(sword_thresholds.as_slice(), level),
            item: Item::Sword,
        },
        Weighted {
            weight: from_dungeon_level(shield_thresholds.as_slice(), level),
            item: Item::Shield,
        },
    ];
    table
}

/// An entity that is worn and occupies the given slot.
pub open spec fn equipped_in_slot(o: Object, slot: Slot) -> bool {
    o.equipment matches Some(e) && e.equipped && e.slot == slot
}

/// At most one inventory entry is worn per slot.
pub open spec fn slot_exclusive(inv: Seq<Object>) -> bool {
    forall|i: int, j: int|
        0 <= i < j < inv.len() ==> !(crate::types::is_equipped(#[trigger] inv[i])
            && crate::types::is_equipped(#[trigger] inv[j]) && inv[i].equipment->0.slot
            == inv[j].equipment->0.slot)
}

/// The index of the first inventory entry worn in the given slot.
pub fn get_equipped_in_slot(slot: Slot, inventory: &[Object]) -> (r: Option<usize>)
    ensures
        r matches Some(i) ==> i < inventory@.len() && equipped_in_slot(inventory@[i as int], slot)
            && forall|j: int| 0 <= j < i ==> !equipped_in_slot(#[trigger] inventory@[j], slot),
        r is None ==> forall|j: int|
            0 <= j < inventory@.len() ==> !equipped_in_slot(#[trigger] inventory@[j], slot),
{
    let mut inventory_id: usize = 0;
    let n = inventory.len();
    while inventory_id < n
        invariant
            inventory_id <= n,
            n == inventory@.len(),
            forall|j: int|
                0 <= j < inventory_id ==> !equipped_in_slot(#[trigger] inventory@[j], slot),
        decreases n - inventory_id,
    {
        let item = &inventory[inventory_id];
        match &item.equipment {
            Some(e) => {
                if e.equipped && slot_eq(e.slot, slot) {
                    return Some(inventory_id);
                }
            },
            None => {},
        }
        inventory_id = inventory_id + 1;
    }
    None
}

/// Every wearable entity is also a pickupable item; a wearable that
/// is no item could be neither equipped nor dequipped.
pub open spec fn wearables_are_items(inv: Seq<Object>) -> bool {
    forall|j: int|
        0 <= j < inv.len() ==> ((#[trigger] inv[j]).equipment is Some ==> inv[j].item is Some)
}

/// How toggling the worn flag of inventory entry `id` relates the
/// inventory, the log and the outcome: a non-equipment entry is
/// rejected; otherwise the entry is toggled, any occupant of its slot
/// is dequipped first, and no two worn items ever share a slot.
pub open spec fn toggle_outcome(
    inv0: Seq<Object>,
    inv1: Seq<Object>,
    log0: Seq<(String, Color)>,
    log1: Seq<(String, Color)>,
    id: int,
    r: UseResult,
) -> bool {
    &&& inv0[id].equipment is None ==> r == UseResult::Cancelled && inv1 == inv0 && log1 == log0
    &&& inv0[id].equipment matches Some(eq) ==> ({
        &&& r == UseResult::UsedAndKept
        &&& eq.equipped ==> log_extended(log0, log1, 1)
        &&& !eq.equipped ==> ({
            let occupied = exists|j: int|
                0 <= j < inv0.len() && equipped_in_slot(#[trigger] inv0[j], eq.slot);
            &&& occupied ==> log_extended(log0, log1, 2)
            &&& !occupied ==> log_extended(log0, log1, 1)
        })
        &&& inv1.len() == inv0.len()
        &&& inv1[id] == (Object {
            equipment: Some(Equipment { equipped: !eq.equipped, ..eq }),
            ..inv0[id]
        })
        &&& forall|j: int|
            0 <= j < inv0.len() && j != id ==> if equipped_in_slot(#[trigger] inv0[j], eq.slot) {
                inv1[j] == (Object {
                    equipment: Some(Equipment { equipped: false, ..inv0[j].equipment->0 }),
                    ..inv0[j]
                })
            } else {
                inv1[j] == inv0[j]
            }
        &&& slot_exclusive(inv1)
    })
}

/// Toggle the worn flag of inventory entry `inventory_id`. Equipping
/// into an occupied slot dequips the occupant first, so no two worn
/// items ever share a slot; toggling a non-equipment entry is
/// rejected.
pub fn toggle_equipment(inventory_id: usize, game: &mut Game) -> (r: UseResult)
    requires
        inventory_id < old(game).inventory@.len(),
        slot_exclusive(old(game).inventory@),
        wearables_are_items(old(game).inventory@),
    ensures
        final(game).map@ == old(game).map@,
        final(game).dungeon_level == old(game).dungeon_level,
        toggle_outcome(
            old(game).inventory@,
            final(game).inventory@,
            old(game).log@,
            final(game).log@,
            inventory_id as int,
            r,
        ),
{
    let ghost inv0 = game.inventory@;
    let equipment: Equipment = match &game.inventory[inventory_id].equipment {
        Some(eq) => *eq,
        None => {
            return UseResult::Cancelled;
        },
    };

    let occupant = get_equipped_in_slot(equipment.slot, game.inventory.as_slice());

    proof {
        if equipment.equipped {
            assert(equipped_in_slot(inv0[inventory_id as int], equipment.slot));
            if occupant is None {
                assert(false);
            } else {
                let oid = occupant->0 as int;
                if oid < inventory_id as int {
                    assert(!(crate::types::is_equipped(inv0[oid]) && crate::types::is_equipped(
                        inv0[inventory_id as int],
                    ) && inv0[oid].equipment->0.slot
                        == inv0[inventory_id as int].equipment->0.slot));
                    assert(false);
                }
                if oid > inventory_id as int {
                    assert(!equipped_in_slot(inv0[inventory_id as int], equipment.slot));
                    assert(false);
                }
                assert(oid == inventory_id as int);
            }
        } else {
            if occupant is Some {
                let oid = occupant->0 as int;
                assert(equipped_in_slot(inv0[oid], equipment.slot));
                assert(oid != inventory_id as int);
            }
        }
    }

    match occupant {
        Some(old_id) => {
            let entry = &mut game.inventory[old_id];
            entry.dequip(&mut game.log);
        },
        None => {},
    }

    let ghost inv_mid = game.inventory@;
    let ghost log_mid = game.log@;

    if equipment.equipped {
        let entry = &mut game.inventory[inventory_id];
        entry.dequip(&mut game.log);
    } else {
        let entry = &mut game.inventory[inventory_id];
        entry.equip(&mut game.log);
    }

    proof {
        let inv1 = game.inventory@;
        let log0 = old(game).log@;
        assert(log_mid.subrange(0, log0.len() as int) =~= log0);
        assert(game.log@.subrange(0, log0.len() as int) =~= log0);
        let toggled = Object {
            equipment: Some(Equipment { equipped: !equipment.equipped, ..equipment }),
            ..inv0[inventory_id as int]
        };

        if equipment.equipped {
            let oid = occupant->0 as int;
            assert(oid == inventory_id as int);
            assert(inv_mid =~= inv0.update(inventory_id as int, toggled));
            assert(inv1 =~= inv_mid);
        }

        assert(inv1[inventory_id as int] == toggled);

        assert forall|j: int| 0 <= j < inv0.len() && j != inventory_id as int implies (
        if equipped_in_slot(#[trigger] inv0[j], equipment.slot) {
            inv1[j] == (Object {
                equipment: Some(Equipment { equipped: false, ..inv0[j].equipment->0 }),
                ..inv0[j]
            })
        } else {
            inv1[j] == inv0[j]
        }) by {
            if equipped_in_slot(inv0[j], equipment.slot) {
                if equipment.equipped {
                    // inventory_id already occupies the slot, so a second
                    // occupant would break exclusivity.
                    if j < inventory_id as int {
                        assert(!(crate::types::is_equipped(inv0[j]) && crate::types::is_equipped(
                            inv0[inventory_id as int],
                        ) && inv0[j].equipment->0.slot
                            == inv0[inventory_id as int].equipment->0.slot));
                    } else {
                        assert(!(crate::types::is_equipped(inv0[inventory_id as int])
                            && crate::types::is_equipped(inv0[j])
                            && inv0[inventory_id as int].equipment->0.slot
                            == inv0[j].equipment->0.slot));
                    }
                    assert(false);
                } else {
                    if occupant is None {
                        assert(!equipped_in_slot(inv0[j], equipment.slot));
                        assert(false);
                    } else {
                        let oid = occupant->0 as int;
                        if j != oid {
                            if j < oid {
                                assert(!(crate::types::is_equipped(inv0[j])
                                    && crate::types::is_equipped(inv0[oid])
                                    && inv0[j].equipment->0.slot == inv0[oid].equipment->0.slot));
                            } else {
                                assert(!(crate::types::is_equipped(inv0[oid])
                                    && crate::types::is_equipped(inv0[j])
                                    && inv0[oid].equipment->0.slot == inv0[j].equipment->0.slot));
                            }
                            assert(false);
                        }
                        assert(j == oid);
                        assert(inv1[j] == inv_mid[j]);
                    }
                }
            } else {
                if occupant is Some {
                    let oid = occupant->0 as int;
                    assert(equipped_in_slot(inv0[oid], equipment.slot));
                    assert(j != oid);
                }
            }
        }

        assert forall|i: int, j: int| 0 <= i < j < inv1.len() implies !(crate::types::is_equipped(
            #[trigger] inv1[i],
        ) && crate::types::is_equipped(#[trigger] inv1[j]) && inv1[i].equipment->0.slot
            == inv1[j].equipment->0.slot) by {
            if crate::types::is_equipped(inv1[i]) && crate::types::is_equipped(inv1[j])
                && inv1[i].equipment->0.slot == inv1[j].equipment->0.slot {
                let s = inv1[i].equipment->0.slot;
                // Whoever is worn in inv1 and is not the toggled entry was
                // already worn, with the same component, in inv0.
                if i != inventory_id as int && j != inventory_id as int {
                    assert(crate::types::is_equipped(inv0[i]) && inv0[i].equipment
                        == inv1[i].equipment);
                    assert(crate::types::is_equipped(inv0[j]) && inv0[j].equipment
                        == inv1[j].equipment);
                    assert(!(crate::types::is_equipped(inv0[i]) && crate::types::is_equipped(
                        inv0[j],
                    ) && inv0[i].equipment->0.slot == inv0[j].equipment->0.slot));
                    assert(false);
                } else {
                    // The toggled entry is worn, so this is the equip case,
                    // its slot is the target slot, and the other entry was
                    // already worn there in inv0: either it is the dequipped
                    // occupant (no longer worn) or exclusivity fails.
                    let k = if i == inventory_id as int {
                        j
                    } else {
                        i
                    };
                    assert(!equipment.equipped);
                    assert(s == equipment.slot);
                    assert(crate::types::is_equipped(inv0[k]) && inv0[k].equipment
                        == inv1[k].equipment);
                    assert(equipped_in_slot(inv0[k], equipment.slot));
                    if occupant is None {
                        assert(!equipped_in_slot(inv0[k], equipment.slot));
                        assert(false);
                    } else {
                        let oid = occupant->0 as int;
                        assert(k != oid);
                        if k < oid {
                            assert(!(crate::types::is_equipped(inv0[k])
                                && crate::types::is_equipped(inv0[oid])
                                && inv0[k].equipment->0.slot == inv0[oid].equipment->0.slot));
                        } else {
                            assert(!(crate::types::is_equipped(inv0[oid])
                                && crate::types::is_equipped(inv0[k])
                                && inv0[oid].equipment->0.slot == inv0[k].equipment->0.slot));
                        }
                        assert(false);
                    }
                }
            }
        }
    }

    UseResult::UsedAndKept
}

/// Move an entity from the ground into the player's inventory, unless
/// the inventory already holds its fixed capacity; an item picked
/// into a free slot is worn at once.
pub fn pick_item_up(object_id: usize, objects: &mut Vec<Object>, game: &mut Game)
    requires
        object_id < old(objects)@.len(),
        !crate::types::is_equipped(old(objects)@[object_id as int]),
        slot_exclusive(old(game).inventory@),
    ensures
        final(game).map@ == old(game).map@,
        final(game).dungeon_level == old(game).dungeon_level,
        old(game).inventory@.len() >= MAX_INVENTORY as int ==> final(objects)@ == old(objects)@
            && final(game).inventory@ == old(game).inventory@ && log_extended(
            old(game).log@,
            final(game).log@,
            1,
        ),
        old(game).inventory@.len() < MAX_INVENTORY as int ==> ({
            let it = old(objects)@[object_id as int];
            let inv0 = old(game).inventory@;
            let inv1 = final(game).inventory@;
            &&& final(objects)@ == old(objects)@.update(
                object_id as int,
                old(objects)@.last(),
            ).drop_last()
            &&& it.equipment is None ==> inv1 == inv0.push(it) && log_extended(
                old(game).log@,
                final(game).log@,
                1,
            )
            &&& it.equipment matches Some(e) ==> ({
                let occupied = exists|j: int|
                    0 <= j < inv0.len() && equipped_in_slot(#[trigger] inv0[j], e.slot);
                &&& occupied ==> inv1 == inv0.push(it) && log_extended(
                    old(game).log@,
                    final(game).log@,
                    1,
                )
                &&& (!occupied && it.item is None) ==> inv1 == inv0.push(it) && log_extended(
                    old(game).log@,
                    final(game).log@,
                    2,
                )
                &&& (!occupied && it.item is Some) ==> inv1 == inv0.push(
                    (Object { equipment: Some(Equipment { equipped: true, ..e }), ..it }),
                ) && log_extended(old(game).log@, final(game).log@, 2)
            })
        }),
{
    if game.inventory.len() >= MAX_INVENTORY {
        let mut msg: String = "Your inventory is full, cannot pick up ".to_owned();
        msg.append(objects[object_id].name.as_str());
        msg.append(".");
        game.log.push((msg, red()));
        proof {
            assert(final(game).log@.subrange(0, old(game).log@.len() as int) =~= old(game).log@);
        }
    } else {
        let item = objects.swap_remove(object_id);

        let mut msg: String = "You picked up a ".to_owned();
        msg.append(item.name.as_str());
        msg.append("!");
        game.log.push((msg, green()));
        let ghost mid_log = game.log@;
        proof {
            assert(mid_log.subrange(0, old(game).log@.len() as int) =~= old(game).log@);
        }

        let index = game.inventory.len();
        let slot: Option<Slot> = match &item.equipment {
            Some(e) => Some(e.slot),
            None => None,
        };
        game.inventory.push(item);

        match slot {
            Some(slot) => {
                let occupant = get_equipped_in_slot(slot, game.inventory.as_slice());
                proof {
                    let inv0 = old(game).inventory@;
                    let it = old(objects)@[object_id as int];
                    assert(game.inventory@ == inv0.push(it));
                    assert(game.inventory@[index as int] == it);
                }
                if occupant.is_none() {
                    proof {
                        let inv0 = old(game).inventory@;
                        let it = old(objects)@[object_id as int];
                        assert forall|j: int| 0 <= j < inv0.len() implies !equipped_in_slot(
                            #[trigger] inv0[j],
                            it.equipment->0.slot,
                        ) by {
                            assert(inv0.push(it)[j] == inv0[j]);
                            assert(!equipped_in_slot(game.inventory@[j], slot));
                        }
                    }
                    let entry = &mut game.inventory[index];
                    entry.equip(&mut game.log);
                    proof {
                        let inv0 = old(game).inventory@;
                        let it = old(objects)@[object_id as int];
                        assert(final(game).log@.subrange(0, old(game).log@.len() as int)
                            =~= old(game).log@);
                        assert(final(game).inventory@ =~= inv0.push(
                            final(game).inventory@[index as int],
                        ));
                    }
                } else {
                    proof {
                        let inv0 = old(game).inventory@;
                        let it = old(objects)@[object_id as int];
                        let k = occupant->0 as int;
                        assert(equipped_in_slot(game.inventory@[k], slot));
                        assert(k != index as int);
                        assert(0 <= k < inv0.len() && equipped_in_slot(
                            inv0[k],
                            it.equipment->0.slot,
                        ));
                    }
                }
            },
            None => {},
        }
    }
}

/// Take an entity out of the inventory and put it on the ground at
/// the player's feet.
pub fn drop_item(inventory_id: usize, game: &mut Game, objects: &mut Vec<Object>)
    requires
        inventory_id < old(game).inventory@.len(),
        old(objects)@.len() >= 1,
        crate::types::is_equipped(old(game).inventory@[inventory_id as int]) ==> old(
            game,
        ).inventory@[inventory_id as int].item is Some,
    ensures
        final(game).map@ == old(game).map@,
        final(game).dungeon_level == old(game).dungeon_level,
        final(game).inventory@ == old(game).inventory@.remove(inventory_id as int),
        ({
            let it = old(game).inventory@[inventory_id as int];
            let grounded = if crate::types::is_equipped(it) {
                Object { equipment: Some(Equipment { equipped: false, ..it.equipment->0 }), ..it }
            } else {
                it
            };
            &&& final(objects)@ == old(objects)@.push(
                (Object {
                    x: old(objects)@[crate::consts::PLAYER as int].x,
                    y: old(objects)@[crate::consts::PLAYER as int].y,
                    ..grounded
                }),
            )
            &&& !crate::types::is_equipped(final(objects)@.last())
            &&& log_extended(
                old(game).log@,
                final(game).log@,
                if crate::types::is_equipped(it) {
                    2int
                } else {
                    1int
                },
            )
        }),
{
    let mut item = game.inventory.remove(inventory_id);

    // A ground entity is never worn: dropping a worn item takes it
    // off first, with the message that entails.
    let worn = match &item.equipment {
        Some(e) => e.equipped,
        None => false,
    };
    if worn {
        item.dequip(&mut game.log);
    }
    let ghost log_mid = game.log@;
    proof {
        assert(log_mid.subrange(0, old(game).log@.len() as int) =~= old(game).log@);
    }

    let (px, py) = {
        let player = &objects[crate::consts::PLAYER];
        (player.x, player.y)
    };
    item.set_pos(px, py);

    let mut msg: String = "You dropped a ".to_owned();
    msg.append(item.name.as_str());
    msg.append(".");
    game.log.push((msg, crate::colors::yellow()));
    proof {
        assert(final(game).log@.subrange(0, old(game).log@.len() as int) =~= old(game).log@);
    }

    objects.push(item);
}

/// How casting a healing potion relates the entities, the log and the
/// outcome: a player at full health cancels; otherwise the player is
/// healed by the potion's fixed amount, capped at the effective
/// maximum.
pub open spec fn heal_outcome(
    objs0: Seq<Object>,
    objs1: Seq<Object>,
    inv: Seq<Object>,
    log0: Seq<(String, Color)>,
    log1: Seq<(String, Color)>,
    r: UseResult,
) -> bool {
    let p = objs0[PLAYER as int];
    &&& p.fighter is None ==> r == UseResult::Cancelled && objs1 == objs0 && log1 == log0
    &&& p.fighter matches Some(f) ==> ({
        let max = spec_max_hp(p, inv);
        &&& f.hp == max ==> r == UseResult::Cancelled && objs1 == objs0 && log_extended(
            log0,
            log1,
            1,
        )
        &&& f.hp != max ==> r == UseResult::UsedUp && log_extended(log0, log1, 1) && objs1
            == objs0.update(
            PLAYER as int,
            Object {
                fighter: Some(
                    Fighter { hp: spec_healed_hp(f.hp as int, HEAL_AMOUNT as int, max) as i32, ..f },
                ),
                ..p
            },
        )
    })
}

/// Heal the player by the potion's fixed amount, unless already at
/// full health.
pub fn cast_heal(objects: &mut Vec<Object>, game: &mut Game) -> (r: UseResult)
    requires
        old(objects)@.len() >= 1,
        game_wf(old(game)),
        i32::MIN as int <= spec_max_hp(old(objects)@[PLAYER as int], old(game).inventory@)
            <= i32::MAX as int,
    ensures
        game_same_but_log(old(game), final(game)),
        heal_outcome(
            old(objects)@,
            final(objects)@,
            old(game).inventory@,
            old(game).log@,
            final(game).log@,
            r,
        ),
{
    let has_fighter = {
        let p = &objects[PLAYER];
        p.fighter.is_some()
    };
    if has_fighter {
        let max_hp = {
            let p = &objects[PLAYER];
            p.max_hp(game)
        };
        let hp: i32 = {
            let p = &objects[PLAYER];
            match p.fighter {
                Some(f) => f.hp,
                None => 0,
            }
        };
        if hp == max_hp {
            let msg: String = "You are already at full health.".to_owned();
            game.log.push((msg, red()));
            proof {
                assert(final(game).log@.subrange(0, old(game).log@.len() as int)
                    =~= old(game).log@);
            }
            return UseResult::Cancelled;
        }
        let msg: String = "Your wounds start to feel better!".to_owned();
        game.log.push((msg, light_violet()));
        proof {
            assert(game.log@.subrange(0, old(game).log@.len() as int) =~= old(game).log@);
        }
        {
            let p = &mut objects[PLAYER];
            p.heal(HEAL_AMOUNT, game);
        }
        proof {
            assert(final(objects)@ =~= old(objects)@.update(
                PLAYER as int,
                final(objects)@[PLAYER as int],
            ));
        }
        return UseResult::UsedUp;
    }
    UseResult::Cancelled
}

/// How casting a lightning bolt relates the entities, the log and the
/// outcome: with no visible monster in range it cancels; otherwise
/// the closest one suffers the bolt's fixed damage, and its banked
/// experience goes to the player if it dies.
pub open spec fn lightning_outcome(
    objs0: Seq<Object>,
    objs1: Seq<Object>,
    visible: Seq<bool>,
    log0: Seq<(String, Color)>,
    log1: Seq<(String, Color)>,
    r: UseResult,
) -> bool {
    let target = spec_closest(
        objs0,
        visible,
        objs0.len() as int,
        (LIGHTNING_RANGE as int + 1) * (LIGHTNING_RANGE as int + 1),
    ).0;
    &&& target is None ==> r == UseResult::Cancelled && objs1 == objs0 && log_extended(
        log0,
        log1,
        1,
    )
    &&& target matches Some(t) ==> ({
        let tf = objs0[t].fighter->0;
        let dies = fighter_dies(tf, LIGHTNING_DAMAGE as int);
        &&& r == UseResult::UsedUp
        &&& objs1.len() == objs0.len()
        &&& damage_rel(objs0[t], objs1[t], LIGHTNING_DAMAGE as int)
        &&& !dies ==> objs1 == objs0.update(t, objs1[t])
        &&& dies ==> objs1 == objs0.update(t, objs1[t]).update(
            PLAYER as int,
            Object {
                fighter: Some(
                    Fighter {
                        xp: (objs0[PLAYER as int].fighter->0.xp + tf.xp) as i32,
                        ..objs0[PLAYER as int].fighter->0
                    },
                ),
                ..objs0[PLAYER as int]
            },
        )
    })
}

/// Strike the closest visible monster in range with a fixed-damage
/// lightning bolt.
pub fn cast_lightning(objects: &mut Vec<Object>, game: &mut Game, visible: &Vec<bool>) -> (r:
    UseResult)
    requires
        old(objects)@.len() >= 1,
        visible@.len() == old(objects)@.len(),
        forall|i: int|
            0 <= i < old(objects)@.len() ==> in_map(
                (#[trigger] old(objects)@[i]).x as int,
                old(objects)@[i].y as int,
            ),
        ({
            let target = spec_closest(
                old(objects)@,
                visible@,
                old(objects)@.len() as int,
                (LIGHTNING_RANGE as int + 1) * (LIGHTNING_RANGE as int + 1),
            ).0;
            target matches Some(t) ==> ({
                let tf = old(objects)@[t].fighter->0;
                &&& tf.hp - LIGHTNING_DAMAGE as int >= i32::MIN as int
                &&& (fighter_dies(tf, LIGHTNING_DAMAGE as int) ==> old(
                    objects,
                )@[PLAYER as int].fighter is Some && i32::MIN as int <= old(
                    objects,
                )@[PLAYER as int].fighter->0.xp + tf.xp <= i32::MAX as int)
            })
        }),
    ensures
        game_same_but_log(old(game), final(game)),
        log_grew(old(game).log@, final(game).log@),
        lightning_outcome(
            old(objects)@,
            final(objects)@,
            visible@,
            old(game).log@,
            final(game).log@,
            r,
        ),
{
    let monster_id = crate::engine::closest_monster(LIGHTNING_RANGE, objects, visible);
    proof {
        lemma_spec_closest_props(
            objects@,
            visible@,
            objects@.len() as int,
            (LIGHTNING_RANGE as int + 1) * (LIGHTNING_RANGE as int + 1),
        );
    }

    match monster_id {
        Some(monster_id) => {
            let mut msg: String = "The lightning bolt strikes the ".to_owned();
            msg.append(objects[monster_id].name.as_str());
            msg.append(" with a loud thunder! The damage is ");
            let amount = decimal(LIGHTNING_DAMAGE);
            msg.append(amount.as_str());
            msg.append(" hit points.");
            game.log.push((msg, light_blue()));
            proof {
                assert(game.log@.subrange(0, old(game).log@.len() as int) =~= old(game).log@);
            }

            let xp_gain = {
                let m = &mut objects[monster_id];
                m.take_damage(LIGHTNING_DAMAGE, game)
            };
            match xp_gain {
                Some(xp) => {
                    {
                        let p = &mut objects[PLAYER];
                        match &mut p.fighter {
                            Some(f) => {
                                f.xp = f.xp + xp;
                            },
                            None => {},
                        }
                    }
                    proof {
                        assert(final(game).log@.subrange(0, old(game).log@.len() as int)
                            =~= old(game).log@);
                        assert(final(objects)@ =~= old(objects)@.update(
                            monster_id as int,
                            final(objects)@[monster_id as int],
                        ).update(PLAYER as int, final(objects)@[PLAYER as int]));
                    }
                },
                None => {
                    proof {
                        assert(final(objects)@ =~= old(objects)@.update(
                            monster_id as int,
                            final(objects)@[monster_id as int],
                        ));
                    }
                },
            }

            UseResult::UsedUp
        },
        None => {
            let msg: String = "No enemy is close enough to strike,".to_owned();
            game.log.push((msg, red()));
            proof {
                assert(final(game).log@.subrange(0, old(game).log@.len() as int)
                    =~= old(game).log@);
            }
            UseResult::Cancelled
        },
    }
}

/// How casting a confusion scroll relates the entities, the log and
/// the outcome: without a target it cancels; with one, the target's
/// behaviour is wrapped in a confusion that will resume it when the
/// fixed number of turns has run out.
pub open spec fn confuse_outcome(
    objs0: Seq<Object>,
    objs1: Seq<Object>,
    monster_id: Option<usize>,
    log0: Seq<(String, Color)>,
    log1: Seq<(String, Color)>,
    r: UseResult,
) -> bool {
    &&& log_extended(log0, log1, 1)
    &&& monster_id is None ==> r == UseResult::Cancelled && objs1 == objs0
    &&& monster_id matches Some(id) ==> r == UseResult::UsedUp && objs1 == objs0.update(
        id as int,
        Object {
            ai: Some(
                Ai::Confused {
                    previous_ai: Box::new(
                        match objs0[id as int].ai {
                            Some(a) => a,
                            None => Ai::Basic,
                        },
                    ),
                    num_turns: CONFUSE_NUM_TURNS,
                },
            ),
            ..objs0[id as int]
        },
    )
}

/// Wrap the targeted monster's behaviour in a fixed-length confusion;
/// the targeting itself is the caller's concern.
pub fn cast_confuse(objects: &mut Vec<Object>, game: &mut Game, monster_id: Option<usize>) -> (r:
    UseResult)
    requires
        monster_id matches Some(id) ==> id < old(objects)@.len(),
    ensures
        game_same_but_log(old(game), final(game)),
        confuse_outcome(
            old(objects)@,
            final(objects)@,
            monster_id,
            old(game).log@,
            final(game).log@,
            r,
        ),
{
    match monster_id {
        Some(monster_id) => {
            let old_ai: Ai = {
                let m = &mut objects[monster_id];
                match m.ai.take() {
                    Some(a) => a,
                    None => Ai::Basic,
                }
            };
            {
                let m = &mut objects[monster_id];
                m.ai = Some(
                    Ai::Confused { previous_ai: Box::new(old_ai), num_turns: CONFUSE_NUM_TURNS },
                );
            }

            let mut msg: String = "The eyes of ".to_owned();
            msg.append(objects[monster_id].name.as_str());
            msg.append(" look vacant, as he starts to stumble around!");
            game.log.push((msg, light_green()));
            proof {
                assert(final(game).log@.subrange(0, old(game).log@.len() as int)
                    =~= old(game).log@);
                assert(final(objects)@ =~= old(objects)@.update(
                    monster_id as int,
                    final(objects)@[monster_id as int],
                ));
            }
            UseResult::UsedUp
        },
        None => {
            let msg: String = "No enemy is close enough to strike.".to_owned();
            game.log.push((msg, red()));
            proof {
                assert(final(game).log@.subrange(0, old(game).log@.len() as int)
                    =~= old(game).log@);
            }
            UseResult::Cancelled
        },
    }
}

/// Whether an entity stands within the fireball's blast radius of
/// `(x, y)`.
pub open spec fn in_blast(o: Object, x: int, y: int) -> bool {
    dist_sq(o.x as int, o.y as int, x, y) <= (FIREBALL_RADIUS as int) * (FIREBALL_RADIUS as int)
}

/// How the fireball relates one entity before and after: a fighter in
/// the blast suffers the fixed damage; everything else is untouched.
pub open spec fn burn_rel(o0: Object, o1: Object, x: int, y: int) -> bool {
    if in_blast(o0, x, y) {
        damage_rel(o0, o1, FIREBALL_DAMAGE as int)
    } else {
        o1 == o0
    }
}

/// The player after the blast, before any experience is credited.
/// Total because the player's death transition keeps its fighter.
pub open spec fn player_burned(p: Object, x: int, y: int) -> Object {
    if !(in_blast(p, x, y) && p.fighter is Some) {
        p
    } else {
        let f = p.fighter->0;
        if !fighter_dies(f, FIREBALL_DAMAGE as int) {
            Object { fighter: Some(damaged_fighter(f, FIREBALL_DAMAGE as int)), ..p }
        } else {
            player_corpse(
                Object {
                    alive: false,
                    fighter: Some(damaged_fighter(f, FIREBALL_DAMAGE as int)),
                    ..p
                },
            )
        }
    }
}

/// The experience the blast returns to the player: the banked
/// experience of every non-player fighter among the first `n`
/// entities that the blast kills.
pub open spec fn fireball_xp_gain(objs: Seq<Object>, x: int, y: int, n: int) -> int
    decreases n,
{
    if n <= 1 {
        0
    } else {
        fireball_xp_gain(objs, x, y, n - 1) + (match objs[n - 1].fighter {
            Some(f) => {
                if in_blast(objs[n - 1], x, y) && fighter_dies(f, FIREBALL_DAMAGE as int) {
                    f.xp as int
                } else {
                    0
                }
            },
            None => 0,
        })
    }
}

/// The blast's total experience is bounded by the entity count times
/// the largest banked value.
proof fn lemma_fireball_xp_gain_bound(objs: Seq<Object>, x: int, y: int, n: int)
    requires
        n >= 0,
    ensures
        -n * 0x8000_0000 <= fireball_xp_gain(objs, x, y, n) <= n * 0x8000_0000,
    decreases n,
{
    if n > 1 {
        lemma_fireball_xp_gain_bound(objs, x, y, n - 1);
    }
}

/// Burn everything within the blast radius of the target tile for the
/// fireball's fixed damage; the experience of every monster killed is
/// credited to the player, the player's own death excluded. Without a
/// target tile the cast cancels.
pub fn cast_fireball(objects: &mut Vec<Object>, game: &mut Game, tile: Option<(i32, i32)>) -> (r:
    UseResult)
    requires
        1 <= old(objects)@.len() <= u16::MAX as int,
        old(objects)@[PLAYER as int].fighter is Some,
        old(objects)@[PLAYER as int].fighter->0.on_death is Player,
        forall|i: int|
            0 <= i < old(objects)@.len() ==> in_map(
                (#[trigger] old(objects)@[i]).x as int,
                old(objects)@[i].y as int,
            ),
        tile matches Some(t) ==> in_map(t.0 as int, t.1 as int),
        tile matches Some(t) ==> ({
            &&& forall|i: int|
                0 <= i < old(objects)@.len() && (#[trigger] old(objects)@[i]).fighter is Some
                    ==> old(objects)@[i].fighter->0.hp - FIREBALL_DAMAGE as int
                    >= i32::MIN as int
            &&& i32::MIN as int <= fireball_xp_gain(
                old(objects)@,
                t.0 as int,
                t.1 as int,
                old(objects)@.len() as int,
            ) <= i32::MAX as int
            &&& i32::MIN as int <= old(objects)@[PLAYER as int].fighter->0.xp + fireball_xp_gain(
                old(objects)@,
                t.0 as int,
                t.1 as int,
                old(objects)@.len() as int,
            ) <= i32::MAX as int
        }),
    ensures
        game_same_but_log(old(game), final(game)),
        log_grew(old(game).log@, final(game).log@),
        final(objects)@.len() == old(objects)@.len(),
        tile is None ==> r == UseResult::Cancelled && final(objects)@ == old(objects)@
            && final(game).log@ == old(game).log@,
        tile matches Some(t) ==> ({
            let x = t.0 as int;
            let y = t.1 as int;
            let gain = fireball_xp_gain(old(objects)@, x, y, old(objects)@.len() as int);
            let pb = player_burned(old(objects)@[PLAYER as int], x, y);
            &&& r == UseResult::UsedUp
            &&& forall|k: int|
                1 <= k < old(objects)@.len() ==> burn_rel(
                    old(objects)@[k],
                    #[trigger] final(objects)@[k],
                    x,
                    y,
                )
            &&& final(objects)@[PLAYER as int] == (Object {
                fighter: Some(Fighter { xp: (pb.fighter->0.xp + gain) as i32, ..pb.fighter->0 }),
                ..pb
            })
        }),
{
    let (x, y) = match tile {
        Some(t) => t,
        None => {
            proof {
                assert(old(game).log@.subrange(0, old(game).log@.len() as int)
                    =~= old(game).log@);
            }
            return UseResult::Cancelled;
        },
    };
    let ghost objs0: Seq<Object> = objects@;

    let mut msg: String = "The fireball explodes, burning everything within ".to_owned();
    let radius_text = decimal(FIREBALL_RADIUS);
    msg.append(radius_text.as_str());
    msg.append(" tiles!");
    game.log.push((msg, orange()));
    proof {
        assert(game.log@.subrange(0, old(game).log@.len() as int) =~= old(game).log@);
    }

    let mut xp_to_gain: i64 = 0;
    let n = objects.len();
    let mut id: usize = 0;

    while id < n
        invariant
            id <= n,
            n == objects@.len(),
            objs0.len() == n,
            n <= u16::MAX as int,
            in_map(x as int, y as int),
            objs0[PLAYER as int].fighter is Some,
            objs0[PLAYER as int].fighter->0.on_death is Player,
            forall|i: int|
                0 <= i < objs0.len() ==> in_map((#[trigger] objs0[i]).x as int, objs0[i].y as int),
            forall|i: int|
                0 <= i < objs0.len() && (#[trigger] objs0[i]).fighter is Some
                    ==> objs0[i].fighter->0.hp - FIREBALL_DAMAGE as int >= i32::MIN as int,
            forall|k: int| id <= k < n ==> #[trigger] objects@[k] == objs0[k],
            forall|k: int|
                1 <= k < id ==> burn_rel(objs0[k], #[trigger] objects@[k], x as int, y as int),
            id > 0 ==> objects@[PLAYER as int] == player_burned(
                objs0[PLAYER as int],
                x as int,
                y as int,
            ),
            xp_to_gain == fireball_xp_gain(objs0, x as int, y as int, id as int),
            -(id as int) * 0x8000_0000 <= xp_to_gain <= (id as int) * 0x8000_0000,
            game_same_but_log(old(game), game),
            log_grew(old(game).log@, game.log@),
        decreases n - id,
    {
        let burn = {
            let o = &objects[id];
            o.fighter.is_some() && o.distance_sq(x, y) <= (FIREBALL_RADIUS as i64)
                * (FIREBALL_RADIUS as i64)
        };
        if burn {
            let mut burn_msg: String = "The ".to_owned();
            burn_msg.append(objects[id].name.as_str());
            burn_msg.append(" gets burned for ");
            let amount = decimal(FIREBALL_DAMAGE);
            burn_msg.append(amount.as_str());
            burn_msg.append(" hitpoints.");
            game.log.push((burn_msg, orange()));
            proof {
                assert(game.log@.subrange(0, old(game).log@.len() as int) =~= old(game).log@);
            }

            let xp_opt = {
                let o = &mut objects[id];
                o.take_damage(FIREBALL_DAMAGE, game)
            };
            match xp_opt {
                Some(xp) => {
                    if id != PLAYER {
                        xp_to_gain = xp_to_gain + xp as i64;
                    }
                },
                None => {},
            }
            proof {
                assert(game.log@.subrange(0, old(game).log@.len() as int) =~= old(game).log@);
            }
        }
        proof {
            if id == 0 {
                assert(fireball_xp_gain(objs0, x as int, y as int, 1) == 0);
                assert(fireball_xp_gain(objs0, x as int, y as int, 0) == 0);
            }
            assert(id >= 1 ==> fireball_xp_gain(objs0, x as int, y as int, id + 1) == fireball_xp_gain(
                objs0,
                x as int,
                y as int,
                id as int,
            ) + (match objs0[id as int].fighter {
                Some(f) => {
                    if in_blast(objs0[id as int], x as int, y as int) && fighter_dies(
                        f,
                        FIREBALL_DAMAGE as int,
                    ) {
                        f.xp as int
                    } else {
                        0
                    }
                },
                None => 0,
            }));
        }
        id = id + 1;
    }

    let p = &mut objects[PLAYER];
    match &mut p.fighter {
        Some(f) => {
            f.xp = f.xp + xp_to_gain as i32;
        },
        None => {},
    }

    UseResult::UsedUp
}

/// Use the inventory item at `inventory_id`: dispatch on its kind,
/// remove a used-up item from the inventory, and log a cancelled use.
/// Interactive targeting is the caller's concern: the chosen monster
/// or tile target is handed in, and `visible` answers the
/// field-of-view query per entity.
pub fn use_item(
    inventory_id: usize,
    objects: &mut Vec<Object>,
    game: &mut Game,
    visible: &Vec<bool>,
    monster_target: Option<usize>,
    tile_target: Option<(i32, i32)>,
)
    requires
        inventory_id < old(game).inventory@.len(),
        old(game).inventory@[inventory_id as int].item matches Some(kind) ==> ({
            &&& kind is Heal ==> old(objects)@.len() >= 1 && game_wf(old(game))
                && i32::MIN as int <= spec_max_hp(
                old(objects)@[PLAYER as int],
                old(game).inventory@,
            ) <= i32::MAX as int
            &&& kind is Lightning ==> old(objects)@.len() >= 1 && visible@.len() == old(
                objects,
            )@.len() && (forall|i: int|
                0 <= i < old(objects)@.len() ==> in_map(
                    (#[trigger] old(objects)@[i]).x as int,
                    old(objects)@[i].y as int,
                )) && ({
                let target = spec_closest(
                    old(objects)@,
                    visible@,
                    old(objects)@.len() as int,
                    (LIGHTNING_RANGE as int + 1) * (LIGHTNING_RANGE as int + 1),
                ).0;
                target matches Some(t) ==> ({
                    let tf = old(objects)@[t].fighter->0;
                    &&& tf.hp - LIGHTNING_DAMAGE as int >= i32::MIN as int
                    &&& (fighter_dies(tf, LIGHTNING_DAMAGE as int) ==> old(
                        objects,
                    )@[PLAYER as int].fighter is Some && i32::MIN as int <= old(
                        objects,
                    )@[PLAYER as int].fighter->0.xp + tf.xp <= i32::MAX as int)
                })
            })
            &&& kind is Confuse ==> (monster_target matches Some(id) ==> id < old(
                objects,
            )@.len())
            &&& kind is Fireball ==> 1 <= old(objects)@.len() <= u16::MAX as int && old(
                objects,
            )@[PLAYER as int].fighter is Some
                && old(objects)@[PLAYER as int].fighter->0.on_death is Player && (forall|i: int|
                0 <= i < old(objects)@.len() ==> in_map(
                    (#[trigger] old(objects)@[i]).x as int,
                    old(objects)@[i].y as int,
                )) && (tile_target matches Some(t) ==> in_map(t.0 as int, t.1 as int) && (
            forall|i: int|
                0 <= i < old(objects)@.len() && (#[trigger] old(objects)@[i]).fighter is Some
                    ==> old(objects)@[i].fighter->0.hp - FIREBALL_DAMAGE as int
                    >= i32::MIN as int) && i32::MIN as int <= fireball_xp_gain(
                old(objects)@,
                t.0 as int,
                t.1 as int,
                old(objects)@.len() as int,
            ) <= i32::MAX as int && i32::MIN as int <= old(
                objects,
            )@[PLAYER as int].fighter->0.xp + fireball_xp_gain(
                old(objects)@,
                t.0 as int,
                t.1 as int,
                old(objects)@.len() as int,
            ) <= i32::MAX as int)
            &&& (kind is Sword || kind is Shield) ==> slot_exclusive(old(game).inventory@)
                && wearables_are_items(old(game).inventory@)
        }),
    ensures
        final(game).map@ == old(game).map@,
        final(game).dungeon_level == old(game).dungeon_level,
        old(game).inventory@[inventory_id as int].item is None ==> final(objects)@ == old(
            objects,
        )@ && final(game).inventory@ == old(game).inventory@ && log_extended(
            old(game).log@,
            final(game).log@,
            1,
        ),
        old(game).inventory@[inventory_id as int].item matches Some(kind) ==> exists|
            mid: Seq<(String, Color)>,
            res: UseResult,
        |
            {
                &&& #[trigger] use_dispatch(
                    kind,
                    inventory_id as int,
                    old(objects)@,
                    final(objects)@,
                    old(game).inventory@,
                    final(game).inventory@,
                    visible@,
                    monster_target,
                    tile_target,
                    old(game).log@,
                    mid,
                    res,
                )
                &&& res is UsedUp ==> final(game).inventory@ == old(game).inventory@.remove(
                    inventory_id as int,
                ) && final(game).log@ == mid
                &&& res is Cancelled ==> final(game).inventory@ == old(game).inventory@
                    && log_extended(mid, final(game).log@, 1)
                &&& res is UsedAndKept ==> final(game).log@ == mid
            },
{
    let kind: Option<Item> = game.inventory[inventory_id].item;
    match kind {
        Some(item) => {
            let result: UseResult = match item {
                Item::Heal => cast_heal(objects, game),
                Item::Lightning => cast_lightning(objects, game, visible),
                Item::Confuse => cast_confuse(objects, game, monster_target),
                Item::Fireball => cast_fireball(objects, game, tile_target),
                Item::Sword => toggle_equipment(inventory_id, game),
                Item::Shield => toggle_equipment(inventory_id, game),
            };
            let ghost mid_log: Seq<(String, Color)> = game.log@;
            match result {
                UseResult::UsedUp => {
                    game.inventory.remove(inventory_id);
                },
                UseResult::Cancelled => {
                    let msg: String = "Cancelled".to_owned();
                    game.log.push((msg, white()));
                    proof {
                        assert(final(game).log@.subrange(0, mid_log.len() as int) =~= mid_log);
                    }
                },
                UseResult::UsedAndKept => {},
            }
            proof {
                assert(use_dispatch(
                    item,
                    inventory_id as int,
                    old(objects)@,
                    objects@,
                    old(game).inventory@,
                    game.inventory@,
                    visible@,
                    monster_target,
                    tile_target,
                    old(game).log@,
                    mid_log,
                    result,
                ));
            }
        },
        None => {
            let mut msg: String = "The ".to_owned();
            msg.append(game.inventory[inventory_id].name.as_str());
            msg.append(" cannot be used.");
            game.log.push((msg, white()));
            proof {
                assert(final(game).log@.subrange(0, old(game).log@.len() as int)
                    =~= old(game).log@);
            }
        },
    }
}

/// Which effect each item kind has when used: the clauses of the
/// matching cast, over the entities before and after, the inventory
/// before and after (only equipment toggles touch it), and the log up
/// to (not including) a possible trailing cancellation notice.
pub open spec fn use_dispatch(
    kind: Item,
    id: int,
    objs0: Seq<Object>,
    objs1: Seq<Object>,
    inv0: Seq<Object>,
    inv1: Seq<Object>,
    visible: Seq<bool>,
    monster_target: Option<usize>,
    tile_target: Option<(i32, i32)>,
    log0: Seq<(String, Color)>,
    mid: Seq<(String, Color)>,
    r: UseResult,
) -> bool {
    &&& kind is Heal ==> heal_outcome(objs0, objs1, inv0, log0, mid, r)
    &&& kind is Lightning ==> lightning_outcome(objs0, objs1, visible, log0, mid, r)
    &&& kind is Confuse ==> confuse_outcome(objs0, objs1, monster_target, log0, mid, r)
    &&& kind is Fireball ==> ({
        &&& tile_target is None ==> r == UseResult::Cancelled && objs1 == objs0 && mid == log0
        &&& tile_target matches Some(t) ==> ({
            let x = t.0 as int;
            let y = t.1 as int;
            let gain = fireball_xp_gain(objs0, x, y, objs0.len() as int);
            let pb = player_burned(objs0[PLAYER as int], x, y);
            &&& r == UseResult::UsedUp
            &&& objs1.len() == objs0.len()
            &&& forall|k: int|
                1 <= k < objs0.len() ==> burn_rel(objs0[k], #[trigger] objs1[k], x, y)
            &&& objs1[PLAYER as int] == (Object {
                fighter: Some(Fighter { xp: (pb.fighter->0.xp + gain) as i32, ..pb.fighter->0 }),
                ..pb
            })
        })
    })
    &&& (kind is Sword || kind is Shield) ==> objs1 == objs0 && toggle_outcome(
        inv0,
        inv1,
        log0,
        mid,
        id,
        r,
    )
}

/// Compare two slots.
fn slot_eq(a: Slot, b: Slot) -> (r: bool)
    ensures
        r == (a == b),
{
    match (a, b) {
        (Slot::LeftHand, Slot::LeftHand) => true,
        (Slot::RightHand, Slot::RightHand) => true,
        (Slot::Head, Slot::Head) => true,
        _ => false,
    }
}

} // verus!
