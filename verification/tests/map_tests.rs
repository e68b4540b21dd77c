use dungeon::MapBlockTypes;
use dungeon::ParseError;
use dungeon::Pos;
use dungeon::generate_map;
use dungeon::get_block_type;
use dungeon::visulize_map;

#[test]
fn test_get_block_types() {
    let b = get_block_type("M1");
    println!("get_block_type {:?}", b);
    assert_eq!(b.unwrap(), MapBlockTypes::NewMapTrigger(1));
    let b = get_block_type("I0");
    assert_eq!(b.unwrap(), MapBlockTypes::ItemTrigger(0));
}

#[test]
fn test_extract_first_match() {
    let b = get_block_type("T(1,2,3)");
    println!("tp_trigger_caps {:?}", b);
    assert_eq!(b.unwrap(), MapBlockTypes::TeleportTrigger(1, 2, 3));
}

#[test]
fn test_map_gen() {
    let map = generate_map(
        "|x|M1|M1|x|x|x|x|x|x|x|
|x|_|_|x|x|_|_|_|_|x|
|x|_|_|x|x|_|I0|_|_|x|
|x|_|_|x|x|_|_|_|_|x|
|x|_|_|x|x|x|_|_|x|x|
|x|_|_|x|x|x|_|_|x|x|
|x|_|_|_|_|_|_|_|x|x|
|x|x|x|_|_|_|x|x|x|x|
|x|x|x|x|_|_|x|x|x|x|
|x|x|x|x|_|_|x|x|x|x|"
            .to_string(),
    )
    .unwrap();
    println!("{:?}", map);
    visulize_map(&map, None)
        .lines()
        .collect::<Vec<&str>>()
        .iter()
        .for_each(|x| println!("{}", x));
    assert_eq!(
        visulize_map(&map, None),
        "XX    XXXXXXXXXXXXXX
XX    XXXX        XX
XX    XXXX        XX
XX    XXXX        XX
XX    XXXXXX    XXXX
XX    XXXXXX    XXXX
XX              XXXX
XXXXXX      XXXXXXXX
XXXXXXXX    XXXXXXXX
XXXXXXXX    XXXXXXXX\n"
            .to_string()
    )
}

#[test]
fn test_plain_tokens() {
    assert_eq!(get_block_type("x").unwrap(), MapBlockTypes::NotWalkable);
    assert_eq!(get_block_type("_").unwrap(), MapBlockTypes::Path);
}

#[test]
fn test_unrecognized_tokens_block() {
    assert_eq!(get_block_type("hello").unwrap(), MapBlockTypes::NotWalkable);
    assert_eq!(get_block_type("M").unwrap(), MapBlockTypes::NotWalkable);
    assert_eq!(get_block_type("M1x").unwrap(), MapBlockTypes::NotWalkable);
    assert_eq!(get_block_type("").unwrap(), MapBlockTypes::NotWalkable);
    assert_eq!(get_block_type("Tx").unwrap(), MapBlockTypes::NotWalkable);
}

#[test]
fn test_malformed_teleport_fails() {
    assert_eq!(get_block_type("T(1,2)").unwrap_err(), ParseError::MalformedTeleport);
    assert_eq!(get_block_type("T(1,2,x)").unwrap_err(), ParseError::MalformedTeleport);
    assert_eq!(get_block_type("T(").unwrap_err(), ParseError::MalformedTeleport);
    assert_eq!(get_block_type("T(1,2,3").unwrap_err(), ParseError::MalformedTeleport);
}

#[test]
fn test_payload_too_large_fails() {
    assert_eq!(
        get_block_type("M99999999999999999999999999").unwrap_err(),
        ParseError::PayloadOutOfRange
    );
    assert_eq!(
        get_block_type("I99999999999999999999999999").unwrap_err(),
        ParseError::PayloadOutOfRange
    );
    assert_eq!(
        get_block_type("T(1,99999999999999999999999999,3)").unwrap_err(),
        ParseError::PayloadOutOfRange
    );
}

#[test]
fn test_generate_map_propagates_error() {
    let r = generate_map("|x|_|\n|_|T(1,2)|".to_string());
    assert_eq!(r.unwrap_err(), ParseError::MalformedTeleport);
}

#[test]
fn test_generate_map_tolerates_pipes_and_blanks() {
    let map = generate_map("|x|_|\nx|_\n| |x|_|".to_string()).unwrap();
    assert_eq!(map.len(), 3);
    assert_eq!(map[0], vec![MapBlockTypes::NotWalkable, MapBlockTypes::Path]);
    assert_eq!(map[1], vec![MapBlockTypes::NotWalkable, MapBlockTypes::Path]);
    assert_eq!(map[2], vec![MapBlockTypes::NotWalkable, MapBlockTypes::Path]);
}

#[test]
fn test_trailing_newline_adds_no_row() {
    let with = generate_map("|x|_|\n".to_string()).unwrap();
    let without = generate_map("|x|_|".to_string()).unwrap();
    assert_eq!(with.len(), 1);
    assert_eq!(with, without);
}

#[test]
fn test_render_occupant_marker() {
    let map = generate_map("|x|_|M1|".to_string()).unwrap();
    let pos = Pos { i: 1, j: 0 };
    assert_eq!(visulize_map(&map, Some(&pos)), "XX<>  \n");
    // the occupant marker wins even on a blocked tile
    let pos = Pos { i: 0, j: 0 };
    assert_eq!(visulize_map(&map, Some(&pos)), "<>    \n");
}

#[test]
fn test_parse_render_round_trip_pattern() {
    let map = generate_map("|x|_|_|x|".to_string()).unwrap();
    assert_eq!(visulize_map(&map, None), "XX    XX\n");
    let map = generate_map("|_|x|\n|x|_|".to_string()).unwrap();
    assert_eq!(visulize_map(&map, None), "  XX\nXX  \n");
}
