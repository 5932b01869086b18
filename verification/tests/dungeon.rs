use dungeon_core::colors::Color;
use dungeon_core::consts::{MAP_HEIGHT, MAP_WIDTH, PLAYER};
use dungeon_core::mapgen::{is_blocked, make_map, Rect};
use dungeon_core::monsters::{make_monster, monster_table_for_level, Monster};
use dungeon_core::spawn::{total_weight, weighted_draw, weighted_select, Weighted};
use dungeon_core::types::{DeathCallback, Fighter, Object, Tile};
use dungeon_core::util::{from_dungeon_level, mut_two, Transition};

fn fresh_player() -> Object {
    let mut player = Object::new(0, 0, '@', Color { r: 255, g: 255, b: 255 }, "player", true);
    player.alive = true;
    player.fighter = Some(Fighter {
        hp: 100,
        base_movement: 4,
        base_max_hp: 100,
        base_defense: 1,
        base_power: 2,
        on_death: DeathCallback::Player,
        xp: 0,
    });
    player
}

#[test]
fn generated_rooms_never_overlap() {
    let mut objects = vec![fresh_player()];
    let (map, rooms) = make_map(&mut objects, 1).expect("a room must be accepted");

    assert!(rooms.len() >= 1);
    for i in 0..rooms.len() {
        for j in 0..rooms.len() {
            if i != j {
                assert!(!rooms[i].intersects_with(&rooms[j]));
            }
        }
    }
    assert_eq!(map.len(), MAP_WIDTH as usize);
    for column in &map {
        assert_eq!(column.len(), MAP_HEIGHT as usize);
    }
}

#[test]
fn generated_rooms_fit_the_grid_with_configured_sizes() {
    let mut objects = vec![fresh_player()];
    let (_map, rooms) = make_map(&mut objects, 1).expect("a room must be accepted");
    for room in &rooms {
        assert!(0 <= room.x1 && room.x1 < room.x2 && room.x2 < MAP_WIDTH);
        assert!(0 <= room.y1 && room.y1 < room.y2 && room.y2 < MAP_HEIGHT);
        assert!(room.x2 - room.x1 >= 6 && room.x2 - room.x1 <= 10);
        assert!(room.y2 - room.y1 >= 6 && room.y2 - room.y1 <= 10);
    }
}

#[test]
fn player_starts_at_first_room_center_and_stairs_at_last() {
    let mut objects = vec![fresh_player()];
    let (_map, rooms) = make_map(&mut objects, 1).expect("a room must be accepted");

    let (cx, cy) = rooms[0].center();
    assert_eq!((objects[PLAYER].x, objects[PLAYER].y), (cx, cy));

    let stairs = objects.last().unwrap();
    let (lx, ly) = rooms[rooms.len() - 1].center();
    assert_eq!((stairs.x, stairs.y), (lx, ly));
    assert_eq!(stairs.name, "stairs");
    assert!(stairs.always_visible);
    assert!(!stairs.blocks);
}

#[test]
fn map_border_stays_walled() {
    let mut objects = vec![fresh_player()];
    let (map, _rooms) = make_map(&mut objects, 1).expect("a room must be accepted");
    for x in 0..MAP_WIDTH as usize {
        assert!(map[x][0].blocked);
        assert!(map[x][MAP_HEIGHT as usize - 1].blocked);
    }
    for y in 0..MAP_HEIGHT as usize {
        assert!(map[0][y].blocked);
        assert!(map[MAP_WIDTH as usize - 1][y].blocked);
    }
}

#[test]
fn rect_center_and_intersection() {
    let r = Rect::new(10, 20, 6, 8);
    assert_eq!(r.x2, 16);
    assert_eq!(r.y2, 28);
    assert_eq!(r.center(), (13, 24));

    let touching = Rect::new(16, 20, 6, 6);
    assert!(r.intersects_with(&touching));
    let separate = Rect::new(17, 20, 6, 6);
    assert!(!r.intersects_with(&separate));
}

#[test]
fn threshold_table_steps_with_depth() {
    let table = vec![
        Transition { level: 1, value: 2 },
        Transition { level: 4, value: 3 },
        Transition { level: 6, value: 5 },
    ];
    assert_eq!(from_dungeon_level(&table, 0), 0);
    assert_eq!(from_dungeon_level(&table, 1), 2);
    assert_eq!(from_dungeon_level(&table, 3), 2);
    assert_eq!(from_dungeon_level(&table, 4), 3);
    assert_eq!(from_dungeon_level(&table, 5), 3);
    assert_eq!(from_dungeon_level(&table, 6), 5);
    assert_eq!(from_dungeon_level(&table, 100), 5);
}

#[test]
fn threshold_table_empty_defaults_to_zero() {
    let table: Vec<Transition> = Vec::new();
    assert_eq!(from_dungeon_level(&table, 7), 0);
}

#[test]
fn threshold_values_never_decrease_with_depth() {
    let table = vec![
        Transition { level: 3, value: 15 },
        Transition { level: 5, value: 30 },
        Transition { level: 7, value: 60 },
    ];
    let mut previous = 0u32;
    for depth in 0..20u32 {
        let value = from_dungeon_level(&table, depth);
        assert!(value >= previous);
        previous = value;
    }
}

#[test]
fn weighted_selection_walks_cumulative_spans() {
    let table = vec![
        Weighted { weight: 2u32, item: 'a' },
        Weighted { weight: 3u32, item: 'b' },
        Weighted { weight: 1u32, item: 'c' },
    ];
    assert_eq!(total_weight(&table), 6);
    assert_eq!(weighted_select(&table, 0), 'a');
    assert_eq!(weighted_select(&table, 1), 'a');
    assert_eq!(weighted_select(&table, 2), 'b');
    assert_eq!(weighted_select(&table, 4), 'b');
    assert_eq!(weighted_select(&table, 5), 'c');
}

#[test]
fn single_nonzero_weight_is_always_selected() {
    let table = vec![
        Weighted { weight: 0u32, item: Monster::Orc },
        Weighted { weight: 7u32, item: Monster::Troll },
    ];
    for _ in 0..100 {
        assert_eq!(weighted_draw(&table), Monster::Troll);
    }
}

#[test]
fn monster_table_scales_trolls_with_depth() {
    let shallow = monster_table_for_level(1);
    assert_eq!(shallow[0].weight, 80);
    assert_eq!(shallow[0].item, Monster::Orc);
    assert_eq!(shallow[1].weight, 0);
    assert_eq!(shallow[1].item, Monster::Troll);

    assert_eq!(monster_table_for_level(3)[1].weight, 15);
    assert_eq!(monster_table_for_level(5)[1].weight, 30);
    assert_eq!(monster_table_for_level(7)[1].weight, 60);
}

#[test]
fn make_monster_sets_the_documented_stats() {
    let orc = make_monster(4, 5, Monster::Orc);
    assert_eq!((orc.x, orc.y), (4, 5));
    assert!(orc.alive && orc.blocks && orc.always_visible);
    let f = orc.fighter.unwrap();
    assert_eq!((f.hp, f.base_max_hp, f.base_defense, f.base_power, f.xp), (10, 10, 0, 3, 35));
    assert_eq!(orc.name, "Orc");

    let troll = make_monster(1, 2, Monster::Troll);
    let t = troll.fighter.unwrap();
    assert_eq!((t.hp, t.base_max_hp, t.base_defense, t.base_power, t.xp), (16, 16, 1, 4, 100));
    assert_eq!(troll.name, "Troll");
}

#[test]
fn is_blocked_sees_walls_and_blocking_entities() {
    let mut map = vec![vec![Tile::empty(); MAP_HEIGHT as usize]; MAP_WIDTH as usize];
    map[3][4] = Tile::wall();
    let orc = make_monster(10, 10, Monster::Orc);
    let objects = vec![orc];

    assert!(is_blocked(3, 4, &map, &objects));
    assert!(is_blocked(10, 10, &map, &objects));
    assert!(!is_blocked(5, 5, &map, &objects));
}

#[test]
fn mut_two_borrows_two_distinct_elements() {
    let mut values = vec![1, 2, 3, 4];
    {
        let (a, b) = mut_two(0, 2, &mut values);
        *a = 10;
        *b = 30;
    }
    assert_eq!(values, vec![10, 2, 30, 4]);
    {
        let (a, b) = mut_two(3, 1, &mut values);
        *a = 40;
        *b = 20;
    }
    assert_eq!(values, vec![10, 20, 30, 40]);
}

#[test]
fn tiles_have_the_documented_flags() {
    let empty = Tile::empty();
    assert!(!empty.blocked && !empty.block_sight && !empty.explored);
    let wall = Tile::wall();
    assert!(wall.blocked && wall.block_sight && !wall.explored);
}

#[test]
fn accepted_room_interiors_are_carved_to_floor() {
    let mut objects = vec![fresh_player()];
    let (map, rooms) = make_map(&mut objects, 1).expect("a room must be accepted");
    for room in &rooms {
        for x in (room.x1 + 1)..room.x2 {
            for y in (room.y1 + 1)..room.y2 {
                assert!(!map[x as usize][y as usize].blocked);
            }
        }
    }
}

#[test]
fn consecutive_room_centers_are_tunnel_connected() {
    let mut objects = vec![fresh_player()];
    let (map, rooms) = make_map(&mut objects, 1).expect("a room must be accepted");
    for j in 1..rooms.len() {
        let (ax, ay) = rooms[j - 1].center();
        let (bx, by) = rooms[j].center();
        let h_clear =
            |y: i32| (ax.min(bx)..=ax.max(bx)).all(|i| !map[i as usize][y as usize].blocked);
        let v_clear =
            |x: i32| (ay.min(by)..=ay.max(by)).all(|i| !map[x as usize][i as usize].blocked);
        assert!((h_clear(ay) && v_clear(bx)) || (v_clear(ax) && h_clear(by)));
    }
}

#[test]
fn shallow_depths_spawn_only_positive_weight_kinds() {
    // At the first depth only orcs and healing potions have positive
    // spawn weight, so nothing else may appear.
    let mut objects = vec![fresh_player()];
    make_map(&mut objects, 1).expect("a room must be accepted");
    for o in objects.iter().skip(1) {
        if o.fighter.is_some() {
            assert_eq!(o.name, "Orc");
        }
        if let Some(kind) = o.item {
            assert!(matches!(kind, dungeon_core::items::Item::Heal));
        }
    }
}

#[test]
fn generation_discards_previous_entities() {
    let mut objects = vec![fresh_player(), make_monster(10, 10, Monster::Troll)];
    if let Some(f) = objects[1].fighter.as_mut() {
        f.hp = 1;
    }
    make_map(&mut objects, 1).expect("a room must be accepted");
    // The damaged troll from before the rebuild is gone: every
    // non-player entity is freshly spawned or the stairs.
    for o in objects.iter().skip(1) {
        assert!(o.name != "Troll" || o.fighter.unwrap().hp == 16);
    }
}
