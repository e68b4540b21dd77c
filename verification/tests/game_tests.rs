use dungeon::Entity;
use dungeon::EntityType;
use dungeon::Game;
use dungeon::GameError;
use dungeon::GameSettings;
use dungeon::GameSettingsPlayer;
use dungeon::Inventory;
use dungeon::ItemProps;
use dungeon::MapBlockTypes;
use dungeon::MenuItem;
use dungeon::Movement;
use dungeon::ParseError;
use dungeon::Pos;
use dungeon::RpProperties;

fn player() -> GameSettingsPlayer {
    GameSettingsPlayer {
        name: "Hero".to_string(),
        character_type: "warrior".to_string(),
        total_health: 30,
        rp_properties: RpProperties { at: 10, aw: 8, rs: 2 },
    }
}

fn torch() -> ItemProps {
    ItemProps { id: 7, name: "Torch".to_string(), at: 0 }
}

fn wolf() -> Entity {
    Entity {
        name: "Wolf".to_string(),
        type_: EntityType::Enemy,
        hp: 8,
        meele_weapon: None,
        ranged_weapon: None,
        at: Some(6),
        aw: Some(4),
    }
}

fn settings(maps: Vec<&str>, start: [usize; 2]) -> GameSettings {
    GameSettings {
        maps: maps.iter().map(|m| m.to_string()).collect(),
        global_items: vec![torch()],
        player: player(),
        start_pos: start,
        enemies: vec![wolf()],
    }
}

#[test]
fn test_new_game_initial_state() {
    let game = Game::new(settings(vec!["|_|_|\n|_|_|"], [1, 0])).unwrap();
    assert_eq!(game.cur_map, 0);
    assert_eq!(game.pos, Pos { i: 1, j: 0 });
    assert_eq!(game.playername, "Hero".to_string());
    assert_eq!(game.active_menu_item, MenuItem::Game);
    assert_eq!(game.entities.len(), 2);
    assert_eq!(game.entities[0].name, "Hero".to_string());
    assert!(matches!(game.entities[0].type_, EntityType::Player));
    assert_eq!(game.entities[1].name, "Wolf".to_string());
    assert_eq!(game.inventory.inventory.len(), 0);
    assert!(game.info_queue.head().is_none());
}

#[test]
fn test_new_game_rejects_bad_map_source() {
    let e = Game::new(settings(vec!["|_|T(1,2)|"], [0, 0])).unwrap_err();
    assert_eq!(e, GameError::Parse(ParseError::MalformedTeleport));
}

#[test]
fn test_new_game_rejects_empty_map_list() {
    let e = Game::new(settings(vec![], [0, 0])).unwrap_err();
    assert_eq!(e, GameError::NoMaps);
}

#[test]
fn test_new_game_rejects_ragged_map() {
    let e = Game::new(settings(vec!["|_|_|\n|_|"], [0, 0])).unwrap_err();
    assert_eq!(e, GameError::RaggedMap);
}

#[test]
fn test_new_game_rejects_start_off_map() {
    let e = Game::new(settings(vec!["|_|_|\n|_|_|"], [0, 5])).unwrap_err();
    assert_eq!(e, GameError::StartOutOfBounds);
}

#[test]
fn test_new_game_rejects_dangling_trigger() {
    let e = Game::new(settings(vec!["|M3|_|\n|_|_|"], [1, 1])).unwrap_err();
    assert_eq!(e, GameError::BadTrigger);
    let e = Game::new(settings(vec!["|T(0,9,9)|_|\n|_|_|"], [1, 1])).unwrap_err();
    assert_eq!(e, GameError::BadTrigger);
}

#[test]
fn test_plain_move_east_and_back() {
    let mut game = Game::new(settings(vec!["|_|_|\n|_|_|"], [0, 0])).unwrap();
    game.east();
    assert_eq!(game.pos, Pos { i: 1, j: 0 });
    game.west();
    assert_eq!(game.pos, Pos { i: 0, j: 0 });
    game.south();
    assert_eq!(game.pos, Pos { i: 0, j: 1 });
    game.north();
    assert_eq!(game.pos, Pos { i: 0, j: 0 });
    assert_eq!(game.cur_map, 0);
}

#[test]
fn test_blocked_move_is_idempotent_noop() {
    let mut game = Game::new(settings(vec!["|x|x|\n|_|_|"], [0, 1])).unwrap();
    game.north();
    assert_eq!(game.pos, Pos { i: 0, j: 1 });
    assert_eq!(game.cur_map, 0);
    game.north();
    assert_eq!(game.pos, Pos { i: 0, j: 1 });
    assert_eq!(game.cur_map, 0);
    // blocked moves queue nothing
    assert!(game.info_queue.head().is_none());
}

#[test]
fn test_edge_without_trigger_is_noop() {
    let mut game = Game::new(settings(vec!["|_|_|\n|_|_|"], [0, 0])).unwrap();
    game.north();
    assert_eq!(game.pos, Pos { i: 0, j: 0 });
    assert_eq!(game.cur_map, 0);
    game.west();
    assert_eq!(game.pos, Pos { i: 0, j: 0 });
    assert_eq!(game.cur_map, 0);
}

#[test]
fn test_map_transition_lands_on_opposite_edge() {
    // map 0 has a new-map trigger in its top-left corner; map 1 is 5 rows
    // high, so leaving north lands at row 4, column unchanged.
    let map_a = "|M1|_|\n|_|_|";
    let map_b = "|_|_|\n|_|_|\n|_|_|\n|_|_|\n|_|_|";
    let mut game = Game::new(settings(vec![map_a, map_b], [0, 0])).unwrap();
    game.north();
    assert_eq!(game.cur_map, 1);
    assert_eq!(game.pos, Pos { i: 0, j: 4 });
}

#[test]
fn test_one_shot_pickup() {
    // an item trigger for catalog id 7 ("Torch") at column 2, row 3
    let map = "|_|_|_|_|
|_|_|_|_|
|_|_|_|_|
|_|_|I7|_|
|_|_|_|_|";
    let mut game = Game::new(settings(vec![map], [2, 2])).unwrap();
    game.south();
    assert_eq!(game.pos, Pos { i: 2, j: 3 });
    assert_eq!(game.inventory.inventory.len(), 1);
    assert_eq!(game.inventory.inventory[0].props.name, "Torch".to_string());
    assert_eq!(game.inventory.inventory[0].props.id, 7);
    assert_eq!(game.maps[0][3][2], MapBlockTypes::Path);
    let head = game.info_queue.head().unwrap();
    assert_eq!(head.title, "Item".to_string());
    assert_eq!(head.message, "You have collected a Torch".to_string());
    // a second visit picks up nothing
    game.north();
    game.south();
    assert_eq!(game.pos, Pos { i: 2, j: 3 });
    assert_eq!(game.inventory.inventory.len(), 1);
}

#[test]
fn test_pickup_of_unknown_item_still_moves() {
    // id 9 is not in the catalog: no pickup, no message, tile stays, but the
    // player still moves onto the cell
    let map = "|_|_|\n|I9|_|";
    let mut game = Game::new(settings(vec![map], [0, 0])).unwrap();
    game.south();
    assert_eq!(game.pos, Pos { i: 0, j: 1 });
    assert_eq!(game.inventory.inventory.len(), 0);
    assert!(game.info_queue.head().is_none());
    assert_eq!(game.maps[0][1][0], MapBlockTypes::ItemTrigger(9));
}

#[test]
fn test_enemy_encounter_switches_to_fight() {
    // enemy triggers are not part of the map text format; they are placed on
    // the map directly (index 0 names the wolf, entity 1 of the roster)
    let mut game = Game::new(settings(vec!["|_|_|\n|_|_|"], [0, 0])).unwrap();
    game.maps[0][1][0] = MapBlockTypes::EnemyTrigger(0);
    game.south();
    assert_eq!(game.pos, Pos { i: 0, j: 1 });
    assert_eq!(game.active_menu_item, MenuItem::Fight);
    let head = game.info_queue.head().unwrap();
    assert_eq!(head.title, "Enemy".to_string());
    assert_eq!(head.message, "You have encountered a Wolf".to_string());
}

#[test]
fn test_teleport_from_destination_tile() {
    let map_a = "|_|_|\n|T(1,0,1)|_|";
    let map_b = "|_|_|\n|_|_|";
    let mut game = Game::new(settings(vec![map_a, map_b], [0, 0])).unwrap();
    game.south();
    assert_eq!(game.cur_map, 1);
    assert_eq!(game.pos, Pos { i: 1, j: 0 });
}

#[test]
fn test_teleport_precedence_off_the_edge() {
    // standing on a new-map trigger away from the edge: the transition rule
    // cannot fire, and the teleport on the destination tile is taken
    let map_a = "|T(1,1,1)|_|\n|M1|_|";
    let map_b = "|_|_|\n|_|_|";
    let mut game = Game::new(settings(vec![map_a, map_b], [0, 1])).unwrap();
    game.north();
    assert_eq!(game.cur_map, 1);
    assert_eq!(game.pos, Pos { i: 1, j: 1 });
}

#[test]
fn test_remove_and_add_item_on_map() {
    let mut game = Game::new(settings(vec!["|_|x|\n|_|_|"], [0, 0])).unwrap();
    game.add_item_to_map(&Pos { i: 1, j: 1 }, 7);
    assert_eq!(game.maps[0][1][1], MapBlockTypes::ItemTrigger(7));
    game.remove_item_from_map(&Pos { i: 1, j: 1 });
    assert_eq!(game.maps[0][1][1], MapBlockTypes::Path);
}

#[test]
fn test_inventory_add_and_list() {
    let catalog = vec![torch(), ItemProps { id: 3, name: "Rope".to_string(), at: 1 }];
    let mut inv = Inventory::new();
    assert!(inv.add_item(7, &catalog).is_ok());
    assert!(inv.add_item(3, &catalog).is_ok());
    assert_eq!(inv.to_string(), "Torch\nRope\n".to_string());
    assert_eq!(inv.inventory.len(), 2);
}

#[test]
fn test_inventory_add_unknown_item_fails() {
    let catalog = vec![torch()];
    let mut inv = Inventory::new();
    let e = inv.add_item(4, &catalog).unwrap_err();
    assert_eq!(e, "Item not found".to_string());
    assert_eq!(inv.inventory.len(), 0);
}

#[test]
fn test_get_item_props_returns_first_match() {
    let catalog = vec![
        ItemProps { id: 7, name: "Torch".to_string(), at: 0 },
        ItemProps { id: 7, name: "Other".to_string(), at: 1 },
    ];
    let inv = Inventory::new();
    let p = inv.get_item_props(&7, &catalog).unwrap();
    assert_eq!(p.name, "Torch".to_string());
    assert!(inv.get_item_props(&1, &catalog).is_none());
}
