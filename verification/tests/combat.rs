use dungeon_core::colors::Color;
use dungeon_core::engine::{level_up, needs_level_up, LevelUpChoice};
use dungeon_core::items::{Equipment, Item, Slot, UseResult};
use dungeon_core::types::{DeathCallback, Fighter, Game, Object, Tile, TileMap};

fn empty_map() -> TileMap {
    vec![vec![Tile::empty(); 43]; 80]
}

fn bare_game() -> Game {
    Game { map: empty_map(), log: Vec::new(), inventory: Vec::new(), dungeon_level: 1 }
}

fn fighter(hp: i32, defense: i32, power: i32, xp: i32, on_death: DeathCallback) -> Fighter {
    Fighter {
        hp,
        base_movement: 4,
        base_max_hp: hp,
        base_defense: defense,
        base_power: power,
        on_death,
        xp,
    }
}

fn combatant(name: &str, hp: i32, defense: i32, power: i32, xp: i32) -> Object {
    let mut o = Object::new(5, 5, 'x', Color { r: 0, g: 0, b: 0 }, name, true);
    o.alive = true;
    o.fighter = Some(fighter(hp, defense, power, xp, DeathCallback::Monster));
    o
}

#[test]
fn attack_equal_power_and_defense_is_no_effect() {
    let mut game = bare_game();
    let mut attacker = combatant("bruiser", 30, 0, 5, 0);
    let mut defender = combatant("tank", 20, 5, 1, 7);

    attacker.attack(&mut defender, &mut game);

    assert_eq!(defender.fighter.unwrap().hp, 20);
    assert!(defender.alive);
    assert_eq!(attacker.fighter.unwrap().xp, 0);
    assert_eq!(game.log.len(), 1);
}

#[test]
fn attack_deals_power_minus_defense() {
    let mut game = bare_game();
    let mut attacker = combatant("bruiser", 30, 0, 7, 0);
    let mut defender = combatant("victim", 20, 2, 1, 7);

    attacker.attack(&mut defender, &mut game);

    assert_eq!(defender.fighter.unwrap().hp, 15);
    assert!(defender.alive);
}

#[test]
fn lethal_attack_kills_and_transfers_xp_once() {
    let mut game = bare_game();
    let mut attacker = combatant("bruiser", 30, 0, 7, 10);
    let mut defender = combatant("victim", 5, 2, 1, 35);

    attacker.attack(&mut defender, &mut game);

    assert!(!defender.alive);
    assert!(defender.fighter.is_none());
    assert!(defender.ai.is_none());
    assert!(!defender.blocks);
    assert_eq!(defender.name, "remains of victim");
    assert_eq!(defender.glyph, '%');
    assert_eq!(attacker.fighter.unwrap().xp, 45);
    assert_eq!(game.log.len(), 2);
}

#[test]
fn negative_damage_never_heals() {
    let mut game = bare_game();
    let mut attacker = combatant("weakling", 30, 0, 1, 0);
    let mut defender = combatant("tank", 20, 9, 1, 7);

    attacker.attack(&mut defender, &mut game);

    assert_eq!(defender.fighter.unwrap().hp, 20);
}

#[test]
fn take_damage_ignores_non_positive_damage() {
    let mut game = bare_game();
    let mut o = combatant("sturdy", 10, 0, 1, 0);
    let xp = o.take_damage(0, &mut game);
    assert!(xp.is_none());
    assert_eq!(o.fighter.unwrap().hp, 10);
}

#[test]
fn player_death_leaves_corpse_with_fighter() {
    let mut game = bare_game();
    let mut player = Object::new(5, 5, '@', Color { r: 255, g: 255, b: 255 }, "player", true);
    player.alive = true;
    player.fighter = Some(fighter(3, 0, 2, 0, DeathCallback::Player));

    let xp = player.take_damage(5, &mut game);

    assert_eq!(xp, Some(0));
    assert!(!player.alive);
    assert_eq!(player.glyph, '%');
    assert!(player.fighter.is_some());
    assert_eq!(player.name, "player");
}

#[test]
fn heal_caps_at_base_plus_equipped_bonus() {
    let mut game = bare_game();
    let mut helm = Object::new(0, 0, '^', Color { r: 0, g: 0, b: 0 }, "helm", false);
    helm.item = Some(Item::Shield);
    helm.equipment = Some(Equipment {
        slot: Slot::Head,
        equipped: true,
        power_bonus: 0,
        defense_bonus: 0,
        max_hp_bonus: 20,
    });
    game.inventory.push(helm);

    let mut player = Object::new(5, 5, '@', Color { r: 255, g: 255, b: 255 }, "player", true);
    player.alive = true;
    player.fighter = Some(Fighter {
        hp: 1,
        base_movement: 4,
        base_max_hp: 100,
        base_defense: 1,
        base_power: 2,
        on_death: DeathCallback::Player,
        xp: 0,
    });

    player.heal(1000, &game);

    assert_eq!(player.fighter.unwrap().hp, 120);
}

#[test]
fn heal_never_underheals() {
    let game = bare_game();
    let mut player = combatant("player", 10, 0, 2, 0);
    if let Some(f) = player.fighter.as_mut() {
        f.hp = 3;
    }
    player.heal(4, &game);
    assert_eq!(player.fighter.unwrap().hp, 7);
}

#[test]
fn stats_include_equipped_bonuses_only_for_player() {
    let mut game = bare_game();
    let mut sword = Object::new(0, 0, '/', Color { r: 0, g: 0, b: 0 }, "sword", false);
    sword.item = Some(Item::Sword);
    sword.equipment = Some(Equipment {
        slot: Slot::RightHand,
        equipped: true,
        power_bonus: 3,
        defense_bonus: 1,
        max_hp_bonus: 5,
    });
    game.inventory.push(sword);

    let mut player = combatant("player", 10, 1, 2, 0);
    player.fighter.as_mut().unwrap().base_max_hp = 100;
    let mut orc = combatant("Orc", 10, 0, 3, 35);
    orc.fighter.as_mut().unwrap().base_max_hp = 10;

    assert_eq!(player.power(&game), 5);
    assert_eq!(player.defense(&game), 2);
    assert_eq!(player.max_hp(&game), 105);

    assert_eq!(orc.power(&game), 3);
    assert_eq!(orc.defense(&game), 0);
    assert_eq!(orc.max_hp(&game), 10);
}

#[test]
fn unequipped_items_grant_no_bonus() {
    let mut game = bare_game();
    let mut sword = Object::new(0, 0, '/', Color { r: 0, g: 0, b: 0 }, "sword", false);
    sword.item = Some(Item::Sword);
    sword.equipment = Some(Equipment {
        slot: Slot::RightHand,
        equipped: false,
        power_bonus: 3,
        defense_bonus: 0,
        max_hp_bonus: 0,
    });
    game.inventory.push(sword);

    let player = combatant("player", 10, 1, 2, 0);
    assert_eq!(player.power(&game), 2);
}

#[test]
fn equip_and_dequip_toggle_the_flag_and_log() {
    let mut log: Vec<(String, Color)> = Vec::new();
    let mut sword = Object::new(0, 0, '/', Color { r: 0, g: 0, b: 0 }, "sword", false);
    sword.item = Some(Item::Sword);
    sword.equipment = Some(Equipment {
        slot: Slot::RightHand,
        equipped: false,
        power_bonus: 3,
        defense_bonus: 0,
        max_hp_bonus: 0,
    });

    sword.equip(&mut log);
    assert!(sword.equipment.unwrap().equipped);
    assert_eq!(log.len(), 1);

    sword.equip(&mut log);
    assert_eq!(log.len(), 1);

    sword.dequip(&mut log);
    assert!(!sword.equipment.unwrap().equipped);
    assert_eq!(log.len(), 2);
}

#[test]
fn equip_without_item_component_is_rejected() {
    let mut log: Vec<(String, Color)> = Vec::new();
    let mut rock = Object::new(0, 0, '*', Color { r: 0, g: 0, b: 0 }, "rock", false);
    rock.equipment = Some(Equipment {
        slot: Slot::Head,
        equipped: false,
        power_bonus: 0,
        defense_bonus: 0,
        max_hp_bonus: 0,
    });
    rock.equip(&mut log);
    assert!(!rock.equipment.unwrap().equipped);
    assert_eq!(log.len(), 1);
}

#[test]
fn level_up_applies_choice_to_base_stat() {
    let mut game = bare_game();
    let mut player = combatant("player", 50, 1, 2, 500);
    player.fighter.as_mut().unwrap().base_max_hp = 100;
    assert!(needs_level_up(&player));

    level_up(&mut player, &mut game, LevelUpChoice::Constitution);

    let f = player.fighter.unwrap();
    assert_eq!(player.level, 2);
    assert_eq!(f.xp, 150);
    assert_eq!(f.base_max_hp, 120);
    assert_eq!(f.hp, 70);
    assert_eq!(game.log.len(), 1);

    let mut fighter2 = combatant("player", 50, 1, 2, 500);
    fighter2.level = 1;
    level_up(&mut fighter2, &mut game, LevelUpChoice::Strength);
    assert_eq!(fighter2.fighter.unwrap().base_power, 3);

    let mut fighter3 = combatant("player", 50, 1, 2, 500);
    level_up(&mut fighter3, &mut game, LevelUpChoice::Agility);
    assert_eq!(fighter3.fighter.unwrap().base_defense, 2);
}

#[test]
fn needs_level_up_threshold_is_exact() {
    let mut player = combatant("player", 50, 1, 2, 349);
    assert!(!needs_level_up(&player));
    player.fighter.as_mut().unwrap().xp = 350;
    assert!(needs_level_up(&player));
}
