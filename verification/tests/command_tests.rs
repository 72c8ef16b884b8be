use halite_client::error::ProtocolError;
use halite_client::game::{
    choose_ship_command, encode_turn_line, should_spawn, u32_to_string, Command, Direction, Khala,
    Ship,
};
use halite_client::input::{parse_u32, split_constants_line, tokenize};

#[test]
fn spawn_encoding() {
    let cmd: String = Khala::spawn_ship();
    assert_eq!(cmd, "g");
}

#[test]
fn move_encoding() {
    let cmd: String = Khala::move_ship_by_direction(7, Direction::North);
    assert_eq!(cmd, "m 7 n");
}

#[test]
fn hold_encoding() {
    let cmd: String = Khala::hold_ship(7);
    assert_eq!(cmd, "m 7 o");
}

#[test]
fn convert_encoding() {
    let cmd: String = Khala::transform_ship_into_dropoff_site(42);
    assert_eq!(cmd, "c 42");
}

#[test]
fn direction_symbols() {
    assert_eq!(Direction::East.symbol_str(), "e");
    assert_eq!(Direction::West.symbol_str(), "w");
    assert_eq!(Direction::South.symbol_str(), "s");
    assert_eq!(Direction::North.symbol_str(), "n");
}

#[test]
fn direction_from_index() {
    assert_eq!(Direction::from_index(0), Direction::East);
    assert_eq!(Direction::from_index(1), Direction::North);
    assert_eq!(Direction::from_index(2), Direction::West);
    assert_eq!(Direction::from_index(3), Direction::South);
}

#[test]
fn decimal_rendering() {
    assert_eq!(u32_to_string(0), "0");
    assert_eq!(u32_to_string(9), "9");
    assert_eq!(u32_to_string(10), "10");
    assert_eq!(u32_to_string(305), "305");
    assert_eq!(u32_to_string(4294967295), "4294967295");
}

#[test]
fn turn_line_joined_with_single_spaces() {
    let cmds = vec!["g".to_string(), "m 7 n".to_string(), "c 2".to_string()];
    assert_eq!(encode_turn_line(&cmds), "g m 7 n c 2\n");
}

#[test]
fn empty_turn_line_is_a_bare_newline() {
    let cmds: Vec<String> = Vec::new();
    assert_eq!(encode_turn_line(&cmds), "\n");
}

#[test]
fn tokenize_splits_on_whitespace() {
    let mut line = "  12 \t 5  7\r\n".to_string();
    let toks = tokenize(&mut line);
    assert_eq!(toks, vec!["12".to_string(), "5".to_string(), "7".to_string()]);
    assert_eq!(line, "  12 \t 5  7\r\n");
}

#[test]
fn tokenize_blank_line_is_empty() {
    let mut line = "   \n".to_string();
    assert!(tokenize(&mut line).is_empty());
}

#[test]
fn constants_line_splits_on_map_syntax() {
    let line = "{\"A\":\"10\",\"LONG_KEY\":\"20\"}\r\n".to_string();
    let toks = split_constants_line(&line);
    assert_eq!(
        toks,
        vec!["A".to_string(), "10".to_string(), "LONG_KEY".to_string(), "20".to_string()]
    );
}

#[test]
fn parse_u32_accepts_digits_in_range() {
    assert_eq!(parse_u32(&"123".to_string()), Ok(123));
    assert_eq!(parse_u32(&"0".to_string()), Ok(0));
    assert_eq!(parse_u32(&"4294967295".to_string()), Ok(u32::MAX));
}

#[test]
fn parse_u32_rejects_bad_tokens() {
    assert_eq!(parse_u32(&"4294967296".to_string()), Err(ProtocolError::ProtocolViolation));
    assert_eq!(parse_u32(&"".to_string()), Err(ProtocolError::ProtocolViolation));
    assert_eq!(parse_u32(&"-3".to_string()), Err(ProtocolError::ProtocolViolation));
    assert_eq!(parse_u32(&"12a".to_string()), Err(ProtocolError::ProtocolViolation));
}

#[test]
fn policy_moves_on_poor_cells_and_holds_on_rich_ones() {
    let ship = Ship { owner_id: 0, ship_id: 7, cargo: 0, position: (0, 0) };
    assert_eq!(choose_ship_command(&ship, 10, 255, Direction::North), "m 7 n");
    assert_eq!(choose_ship_command(&ship, 255, 255, Direction::North), "m 7 o");
}

#[test]
fn spawn_policy() {
    assert!(should_spawn(1, 1000, 500, false));
    assert!(!should_spawn(201, 1000, 500, false));
    assert!(!should_spawn(1, 499, 500, false));
    assert!(!should_spawn(1, 1000, 500, true));
}
