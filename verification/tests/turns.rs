use dungeon_core::ai::{ai_take_turn, move_by, move_towards, Ai};
use dungeon_core::colors::Color;
use dungeon_core::consts::{MAP_HEIGHT, MAP_WIDTH, PLAYER};
use dungeon_core::engine::{
    closest_monster, get_names_under_mouse, new_game, next_level, player_move_or_attack,
};
use dungeon_core::items::{
    cast_confuse, cast_fireball, cast_heal, cast_lightning, drop_item, get_equipped_in_slot,
    item_table_for_level, make_item, pick_item_up, toggle_equipment, use_item, Equipment, Item,
    Slot, UseResult,
};
use dungeon_core::monsters::{make_monster, Monster};
use dungeon_core::types::{DeathCallback, Fighter, Game, Object, Tile, TileMap};

fn empty_map() -> TileMap {
    vec![vec![Tile::empty(); MAP_HEIGHT as usize]; MAP_WIDTH as usize]
}

fn fresh_player_at(x: i32, y: i32) -> Object {
    let mut player = Object::new(x, y, '@', Color { r: 255, g: 255, b: 255 }, "player", true);
    player.alive = true;
    player.fighter = Some(Fighter {
        hp: 100,
        base_movement: 4,
        base_max_hp: 100,
        base_defense: 1,
        base_power: 2,
        on_death: DeathCallback::Player,
        xp: 0,
    });
    player
}

fn game_with_empty_map() -> Game {
    Game { map: empty_map(), log: Vec::new(), inventory: Vec::new(), dungeon_level: 1 }
}

#[test]
fn confusion_with_zero_turns_left_resumes_basic_after_one_tick() {
    let mut game = game_with_empty_map();
    let mut orc = make_monster(10, 10, Monster::Orc);
    orc.ai = Some(Ai::Confused { previous_ai: Box::new(Ai::Basic), num_turns: 0 });
    let mut objects = vec![fresh_player_at(40, 20), orc];

    ai_take_turn(1, &mut game, &mut objects, false);

    assert!(matches!(objects[1].ai, Some(Ai::Basic)));
}

#[test]
fn confusion_counts_down_by_one_each_tick() {
    let mut game = game_with_empty_map();
    let mut orc = make_monster(10, 10, Monster::Orc);
    orc.ai = Some(Ai::Confused { previous_ai: Box::new(Ai::Basic), num_turns: 2 });
    let mut objects = vec![fresh_player_at(40, 20), orc];

    ai_take_turn(1, &mut game, &mut objects, false);

    match &objects[1].ai {
        Some(Ai::Confused { previous_ai, num_turns }) => {
            assert!(matches!(**previous_ai, Ai::Basic));
            assert_eq!(*num_turns, 1);
        },
        other => panic!("expected a confusion with one turn left, got {:?}", other),
    }
}

#[test]
fn basic_ai_out_of_view_does_nothing() {
    let mut game = game_with_empty_map();
    let orc = make_monster(10, 10, Monster::Orc);
    let mut objects = vec![fresh_player_at(40, 20), orc];

    ai_take_turn(1, &mut game, &mut objects, false);

    assert_eq!((objects[1].x, objects[1].y), (10, 10));
    assert!(matches!(objects[1].ai, Some(Ai::Basic)));
}

#[test]
fn basic_ai_in_view_steps_toward_the_player() {
    let mut game = game_with_empty_map();
    let orc = make_monster(10, 20, Monster::Orc);
    let mut objects = vec![fresh_player_at(40, 20), orc];

    ai_take_turn(1, &mut game, &mut objects, true);

    assert_eq!((objects[1].x, objects[1].y), (11, 20));
}

#[test]
fn basic_ai_adjacent_attacks_the_player() {
    let mut game = game_with_empty_map();
    let orc = make_monster(41, 20, Monster::Orc);
    let mut objects = vec![fresh_player_at(40, 20), orc];

    ai_take_turn(1, &mut game, &mut objects, true);

    // Orc power 3 against player defense 1: two hit points lost.
    assert_eq!(objects[PLAYER].fighter.unwrap().hp, 98);
    assert_eq!(game.log.len(), 1);
}

#[test]
fn move_by_respects_walls_and_blockers() {
    let mut map = empty_map();
    map[11][10] = Tile::wall();
    let orc = make_monster(10, 10, Monster::Orc);
    let mut objects = vec![orc];

    move_by(0, 1, 0, &map, &mut objects);
    assert_eq!((objects[0].x, objects[0].y), (10, 10));

    move_by(0, 0, 1, &map, &mut objects);
    assert_eq!((objects[0].x, objects[0].y), (10, 11));
}

#[test]
fn move_towards_rounds_to_the_nearest_compass_step() {
    let map = empty_map();
    let orc = make_monster(10, 10, Monster::Orc);
    let mut objects = vec![orc];

    move_towards(0, 20, 10, &map, &mut objects);
    assert_eq!((objects[0].x, objects[0].y), (11, 10));

    move_towards(0, 20, 21, &map, &mut objects);
    assert_eq!((objects[0].x, objects[0].y), (12, 11));
}

#[test]
fn closest_monster_picks_the_nearest_visible_fighter() {
    let near = make_monster(42, 20, Monster::Orc);
    let far = make_monster(44, 20, Monster::Troll);
    let objects = vec![fresh_player_at(40, 20), far, near];
    let visible = vec![true, true, true];

    assert_eq!(closest_monster(5, &objects, &visible), Some(2));

    let hidden = vec![true, true, false];
    assert_eq!(closest_monster(5, &objects, &hidden), Some(1));

    let none_visible = vec![false, false, false];
    assert_eq!(closest_monster(5, &objects, &none_visible), None);
}

#[test]
fn closest_monster_ignores_targets_out_of_range() {
    let distant = make_monster(60, 20, Monster::Orc);
    let objects = vec![fresh_player_at(40, 20), distant];
    let visible = vec![true, true];
    assert_eq!(closest_monster(5, &objects, &visible), None);
}

#[test]
fn player_move_or_attack_attacks_an_occupied_tile() {
    let mut game = game_with_empty_map();
    let orc = make_monster(41, 20, Monster::Orc);
    let mut objects = vec![fresh_player_at(40, 20), orc];

    player_move_or_attack(1, 0, &mut game, &mut objects);

    assert_eq!((objects[PLAYER].x, objects[PLAYER].y), (40, 20));
    assert_eq!(objects[1].fighter.unwrap().hp, 8);
}

#[test]
fn player_move_or_attack_moves_into_free_tiles() {
    let mut game = game_with_empty_map();
    let mut objects = vec![fresh_player_at(40, 20)];

    player_move_or_attack(0, -1, &mut game, &mut objects);

    assert_eq!((objects[PLAYER].x, objects[PLAYER].y), (40, 19));
}

#[test]
fn inventory_at_capacity_rejects_a_twenty_seventh_pickup() {
    let mut game = game_with_empty_map();
    for _ in 0..26 {
        game.inventory.push(make_item(0, 0, Item::Heal));
    }
    let potion = make_item(12, 12, Item::Heal);
    let mut objects = vec![potion];

    pick_item_up(0, &mut objects, &mut game);

    assert_eq!(game.inventory.len(), 26);
    assert_eq!(objects.len(), 1);
    assert_eq!(objects[0].name, "healing potion");
    assert_eq!(game.log.len(), 1);
}

#[test]
fn pickup_moves_the_item_and_auto_equips_a_free_slot() {
    let mut game = game_with_empty_map();
    let sword = make_item(12, 12, Item::Sword);
    let mut objects = vec![sword];

    pick_item_up(0, &mut objects, &mut game);

    assert_eq!(objects.len(), 0);
    assert_eq!(game.inventory.len(), 1);
    assert!(game.inventory[0].equipment.unwrap().equipped);
    assert_eq!(game.log.len(), 2);
}

#[test]
fn pickup_into_an_occupied_slot_stays_unequipped() {
    let mut game = game_with_empty_map();
    let mut first = make_item(0, 0, Item::Sword);
    if let Some(e) = first.equipment.as_mut() {
        e.equipped = true;
    }
    game.inventory.push(first);

    let second = make_item(12, 12, Item::Sword);
    let mut objects = vec![second];
    pick_item_up(0, &mut objects, &mut game);

    assert_eq!(game.inventory.len(), 2);
    assert!(!game.inventory[1].equipment.unwrap().equipped);
    assert_eq!(game.log.len(), 1);
}

#[test]
fn equipping_into_an_occupied_slot_dequips_the_occupant_first() {
    let mut game = game_with_empty_map();
    let mut shield_a = make_item(0, 0, Item::Shield);
    if let Some(e) = shield_a.equipment.as_mut() {
        e.equipped = true;
    }
    game.inventory.push(shield_a);
    game.inventory.push(make_item(0, 0, Item::Shield));

    let result = toggle_equipment(1, &mut game);

    assert_eq!(result, UseResult::UsedAndKept);
    assert!(!game.inventory[0].equipment.unwrap().equipped);
    assert!(game.inventory[1].equipment.unwrap().equipped);
    let both = game.inventory.iter().filter(|o| o.equipment.unwrap().equipped).count();
    assert_eq!(both, 1);
    // One message for each half of the implicit swap.
    assert_eq!(game.log.len(), 2);
}

#[test]
fn toggling_a_worn_item_dequips_it() {
    let mut game = game_with_empty_map();
    let mut shield = make_item(0, 0, Item::Shield);
    if let Some(e) = shield.equipment.as_mut() {
        e.equipped = true;
    }
    game.inventory.push(shield);

    let result = toggle_equipment(0, &mut game);

    assert_eq!(result, UseResult::UsedAndKept);
    assert!(!game.inventory[0].equipment.unwrap().equipped);
    assert_eq!(game.log.len(), 1);
}

#[test]
fn toggling_into_an_empty_slot_logs_one_message() {
    let mut game = game_with_empty_map();
    game.inventory.push(make_item(0, 0, Item::Shield));

    let result = toggle_equipment(0, &mut game);

    assert_eq!(result, UseResult::UsedAndKept);
    assert!(game.inventory[0].equipment.unwrap().equipped);
    assert_eq!(game.log.len(), 1);
}

#[test]
fn dropping_a_worn_item_takes_it_off_first() {
    let mut game = game_with_empty_map();
    let mut shield = make_item(0, 0, Item::Shield);
    if let Some(e) = shield.equipment.as_mut() {
        e.equipped = true;
    }
    game.inventory.push(shield);
    let mut objects = vec![fresh_player_at(33, 17)];

    drop_item(0, &mut game, &mut objects);

    assert_eq!(game.inventory.len(), 0);
    assert_eq!(objects.len(), 2);
    assert!(!objects[1].equipment.unwrap().equipped);
    // One message for taking it off, one for the drop.
    assert_eq!(game.log.len(), 2);
}

#[test]
fn get_equipped_in_slot_finds_only_worn_items() {
    let mut worn = make_item(0, 0, Item::Shield);
    if let Some(e) = worn.equipment.as_mut() {
        e.equipped = true;
    }
    let inventory = vec![make_item(0, 0, Item::Shield), worn];
    assert_eq!(get_equipped_in_slot(Slot::LeftHand, &inventory), Some(1));
    assert_eq!(get_equipped_in_slot(Slot::Head, &inventory), None);
}

#[test]
fn drop_item_returns_the_entity_to_the_player_tile() {
    let mut game = game_with_empty_map();
    game.inventory.push(make_item(0, 0, Item::Heal));
    let mut objects = vec![fresh_player_at(33, 17)];

    drop_item(0, &mut game, &mut objects);

    assert_eq!(game.inventory.len(), 0);
    assert_eq!(objects.len(), 2);
    assert_eq!((objects[1].x, objects[1].y), (33, 17));
    assert_eq!(objects[1].name, "healing potion");
    assert_eq!(game.log.len(), 1);
}

#[test]
fn cast_heal_cancels_at_full_health() {
    let mut game = game_with_empty_map();
    let mut objects = vec![fresh_player_at(40, 20)];
    assert_eq!(cast_heal(&mut objects, &mut game), UseResult::Cancelled);
    assert_eq!(objects[0].fighter.unwrap().hp, 100);
}

#[test]
fn cast_heal_restores_the_fixed_amount() {
    let mut game = game_with_empty_map();
    let mut player = fresh_player_at(40, 20);
    player.fighter.as_mut().unwrap().hp = 30;
    let mut objects = vec![player];

    assert_eq!(cast_heal(&mut objects, &mut game), UseResult::UsedUp);
    assert_eq!(objects[0].fighter.unwrap().hp, 70);
}

#[test]
fn cast_lightning_strikes_the_closest_monster() {
    let mut game = game_with_empty_map();
    let orc = make_monster(42, 20, Monster::Orc);
    let mut objects = vec![fresh_player_at(40, 20), orc];
    let visible = vec![true, true];

    let result = cast_lightning(&mut objects, &mut game, &visible);

    assert_eq!(result, UseResult::UsedUp);
    // Lightning deals 40: the orc dies and its 35 experience transfers.
    assert!(objects[1].fighter.is_none());
    assert_eq!(objects[PLAYER].fighter.unwrap().xp, 35);
}

#[test]
fn cast_lightning_without_a_visible_target_cancels() {
    let mut game = game_with_empty_map();
    let mut objects = vec![fresh_player_at(40, 20)];
    let visible = vec![true];
    assert_eq!(cast_lightning(&mut objects, &mut game, &visible), UseResult::Cancelled);
}

#[test]
fn cast_confuse_wraps_the_previous_state() {
    let mut game = game_with_empty_map();
    let orc = make_monster(42, 20, Monster::Orc);
    let mut objects = vec![fresh_player_at(40, 20), orc];

    assert_eq!(cast_confuse(&mut objects, &mut game, Some(1)), UseResult::UsedUp);
    match &objects[1].ai {
        Some(Ai::Confused { previous_ai, num_turns }) => {
            assert!(matches!(**previous_ai, Ai::Basic));
            assert_eq!(*num_turns, 10);
        },
        other => panic!("expected a confusion, got {:?}", other),
    }

    assert_eq!(cast_confuse(&mut objects, &mut game, None), UseResult::Cancelled);
}

#[test]
fn cast_fireball_burns_everything_in_radius_including_the_player() {
    let mut game = game_with_empty_map();
    let near = make_monster(41, 20, Monster::Orc);
    let outside = make_monster(50, 20, Monster::Orc);
    let mut objects = vec![fresh_player_at(40, 20), near, outside];

    let result = cast_fireball(&mut objects, &mut game, Some((40, 20)));

    assert_eq!(result, UseResult::UsedUp);
    // The orc in the blast dies (25 damage against 10 hp); its
    // experience goes to the player, who is burned as well.
    assert!(objects[1].fighter.is_none());
    assert_eq!(objects[2].fighter.unwrap().hp, 10);
    assert_eq!(objects[PLAYER].fighter.unwrap().hp, 75);
    assert_eq!(objects[PLAYER].fighter.unwrap().xp, 35);
}

#[test]
fn cast_fireball_without_a_tile_cancels() {
    let mut game = game_with_empty_map();
    let mut objects = vec![fresh_player_at(40, 20)];
    assert_eq!(cast_fireball(&mut objects, &mut game, None), UseResult::Cancelled);
}

#[test]
fn use_item_removes_a_used_up_item() {
    let mut game = game_with_empty_map();
    game.inventory.push(make_item(0, 0, Item::Heal));
    let mut player = fresh_player_at(40, 20);
    player.fighter.as_mut().unwrap().hp = 30;
    let mut objects = vec![player];
    let visible = vec![true];

    use_item(0, &mut objects, &mut game, &visible, None, None);

    assert_eq!(game.inventory.len(), 0);
    assert_eq!(objects[0].fighter.unwrap().hp, 70);
}

#[test]
fn use_item_logs_a_cancelled_use_and_keeps_the_item() {
    let mut game = game_with_empty_map();
    game.inventory.push(make_item(0, 0, Item::Heal));
    let mut objects = vec![fresh_player_at(40, 20)];
    let visible = vec![true];

    use_item(0, &mut objects, &mut game, &visible, None, None);

    assert_eq!(game.inventory.len(), 1);
    assert_eq!(game.log.last().unwrap().0, "Cancelled");
}

#[test]
fn use_item_toggles_equipment_and_keeps_it() {
    let mut game = game_with_empty_map();
    game.inventory.push(make_item(0, 0, Item::Sword));
    let mut objects = vec![fresh_player_at(40, 20)];
    let visible = vec![true];

    use_item(0, &mut objects, &mut game, &visible, None, None);

    assert_eq!(game.inventory.len(), 1);
    assert!(game.inventory[0].equipment.unwrap().equipped);
}

#[test]
fn item_table_scales_with_depth() {
    let level1 = item_table_for_level(1);
    assert_eq!(level1[0].weight, 35);
    assert_eq!(level1[0].item, Item::Heal);
    assert_eq!(level1[1].weight, 0);
    assert_eq!(level1[3].weight, 0);

    let level4 = item_table_for_level(4);
    assert_eq!(level4[1].weight, 25);
    assert_eq!(level4[3].weight, 10);
    assert_eq!(level4[4].weight, 5);

    let level8 = item_table_for_level(8);
    assert_eq!(level8[2].weight, 25);
    assert_eq!(level8[5].weight, 15);
}

#[test]
fn make_item_builds_the_documented_entities() {
    let potion = make_item(3, 4, Item::Heal);
    assert_eq!((potion.x, potion.y), (3, 4));
    assert_eq!(potion.name, "healing potion");
    assert_eq!(potion.glyph, '!');
    assert_eq!(potion.item, Some(Item::Heal));
    assert!(potion.equipment.is_none());

    let sword = make_item(0, 0, Item::Sword);
    let e = sword.equipment.unwrap();
    assert_eq!(e.slot, Slot::RightHand);
    assert!(!e.equipped);
    assert_eq!(e.power_bonus, 3);

    let shield = make_item(0, 0, Item::Shield);
    let s = shield.equipment.unwrap();
    assert_eq!(s.slot, Slot::LeftHand);
    assert_eq!(s.defense_bonus, 1);
}

#[test]
fn slot_names_read_naturally() {
    assert_eq!(Slot::LeftHand.text(), "left hand");
    assert_eq!(Slot::RightHand.text(), "right hand");
    assert_eq!(Slot::Head.text(), "head");
}

#[test]
fn new_game_starts_with_a_worn_dagger_and_a_welcome() {
    let (objects, game) = new_game().expect("generation accepts a room");
    assert!(objects.len() >= 2);
    assert_eq!(objects[PLAYER].name, "player");
    assert!(objects[PLAYER].alive);
    assert_eq!(objects[PLAYER].fighter.unwrap().hp, 100);
    assert_eq!(game.dungeon_level, 1);
    assert_eq!(game.inventory.len(), 1);
    assert_eq!(game.inventory[0].name, "dagger");
    assert!(game.inventory[0].equipment.unwrap().equipped);
    assert_eq!(game.log.len(), 1);
}

#[test]
fn next_level_heals_and_descends() {
    let (mut objects, mut game) = new_game().expect("generation accepts a room");
    objects[PLAYER].fighter.as_mut().unwrap().hp = 10;

    next_level(&mut objects, &mut game).expect("generation accepts a room");

    assert_eq!(game.dungeon_level, 2);
    // Resting recovers half the effective maximum: 10 + 50.
    assert_eq!(objects[PLAYER].fighter.unwrap().hp, 60);
}

#[test]
fn names_under_mouse_join_visible_entities() {
    let orc = make_monster(12, 12, Monster::Orc);
    let troll = make_monster(12, 12, Monster::Troll);
    let elsewhere = make_monster(13, 12, Monster::Orc);
    let objects = vec![orc, troll, elsewhere];

    let all_visible = vec![true, true, true];
    assert_eq!(get_names_under_mouse(12, 12, &objects, &all_visible), "Orc, Troll");

    let one_hidden = vec![true, false, true];
    assert_eq!(get_names_under_mouse(12, 12, &objects, &one_hidden), "Orc");

    assert_eq!(get_names_under_mouse(0, 0, &objects, &all_visible), "");
}
