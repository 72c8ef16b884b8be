use halite_client::error::ProtocolError;
use halite_client::game::{Grid2D, Khala, StructureType};
use halite_client::position::SizedGrid2D;

fn init_lines() -> Vec<String> {
    vec![
        "INITIAL_ENERGY 1000 MAX_CELL_PRODUCTION 255 NEW_ENTITY_ENERGY_COST 500".to_string(),
        "2 0".to_string(),
        "0 0 0".to_string(),
        "1 1 1".to_string(),
        "2 2".to_string(),
        "0 0".to_string(),
        "0 0".to_string(),
    ]
}

fn init_world() -> Khala {
    let (khala, used) = Khala::read_from_lines(&init_lines()).unwrap();
    assert_eq!(used, 7);
    khala
}

#[test]
fn initialization_builds_the_world() {
    let khala = init_world();
    assert_eq!(khala.num_players, 2);
    assert_eq!(khala.my_id, 0);
    assert_eq!(khala.turn_number, 0);
    assert!(khala.ships.is_empty());
    assert_eq!(khala.get_size(), (2, 2));
    assert_eq!(khala.player_owned_halite, vec![1000, 1000]);
    assert_eq!(khala.get_at_position((0, 0)), 0);
    assert_eq!(khala.get_at_position((1, 1)), 0);
}

#[test]
fn initialization_creates_one_shipyard_per_player_with_distinct_ids() {
    let khala = init_world();
    assert_eq!(khala.structures.len(), 2);
    for s in &khala.structures {
        assert_eq!(s.structure_type, StructureType::Shipyard);
    }
    assert_ne!(khala.structures[0].structure_id, khala.structures[1].structure_id);
    assert_eq!(khala.structures[0].owner_id, 0);
    assert_eq!(khala.structures[0].position, (0, 0));
    assert_eq!(khala.structures[1].owner_id, 1);
    assert_eq!(khala.structures[1].position, (1, 1));
}

#[test]
fn initialization_reports_missing_lines_as_stream_closed() {
    let mut lines = init_lines();
    lines.truncate(3);
    assert_eq!(Khala::read_from_lines(&lines).unwrap_err(), ProtocolError::StreamClosed);
    assert_eq!(Khala::read_from_lines(&Vec::new()).unwrap_err(), ProtocolError::StreamClosed);
}

#[test]
fn odd_constants_token_count_is_a_protocol_violation() {
    let mut lines = init_lines();
    lines[0] = "INITIAL_ENERGY 1000 MAX_CELL_PRODUCTION".to_string();
    assert_eq!(Khala::read_from_lines(&lines).unwrap_err(), ProtocolError::ProtocolViolation);
}

#[test]
fn bad_integer_token_is_a_protocol_violation() {
    let mut lines = init_lines();
    lines[1] = "two 0".to_string();
    assert_eq!(Khala::read_from_lines(&lines).unwrap_err(), ProtocolError::ProtocolViolation);
}

#[test]
fn shipyard_outside_the_map_is_a_protocol_violation() {
    let mut lines = init_lines();
    lines[3] = "1 5 1".to_string();
    assert_eq!(Khala::read_from_lines(&lines).unwrap_err(), ProtocolError::ProtocolViolation);
}

#[test]
fn extra_tokens_on_a_line_are_ignored() {
    let mut lines = init_lines();
    lines[1] = "2 0 7".to_string();
    let (khala, _) = Khala::read_from_lines(&lines).unwrap();
    assert_eq!(khala.num_players, 2);
    assert_eq!(khala.my_id, 0);
}

#[test]
fn too_few_tokens_on_a_line_is_a_protocol_violation() {
    let mut lines = init_lines();
    lines[2] = "0 0".to_string();
    assert_eq!(Khala::read_from_lines(&lines).unwrap_err(), ProtocolError::ProtocolViolation);
}

#[test]
fn missing_initial_energy_is_configuration_missing() {
    let mut lines = init_lines();
    lines[0] = "MAX_CELL_PRODUCTION 255".to_string();
    assert_eq!(Khala::read_from_lines(&lines).unwrap_err(), ProtocolError::ConfigurationMissing);
}

#[test]
fn repeated_constant_keys_keep_the_last_value() {
    let mut lines = init_lines();
    lines[0] = "INITIAL_ENERGY 1000 INITIAL_ENERGY 700".to_string();
    let (khala, _) = Khala::read_from_lines(&lines).unwrap();
    assert_eq!(khala.player_owned_halite, vec![700, 700]);
    assert_eq!(khala.game_constants.get(&"INITIAL_ENERGY".to_string()), Some("700".to_string()));
}

#[test]
fn absent_constant_lookup() {
    let khala = init_world();
    assert_eq!(khala.game_constants.get(&"NO_SUCH_KEY".to_string()), None);
    assert_eq!(
        khala.game_constants.get_u32(&"NO_SUCH_KEY".to_string()),
        Err(ProtocolError::ConfigurationMissing)
    );
    assert_eq!(khala.game_constants.get_u32(&"MAX_CELL_PRODUCTION".to_string()), Ok(255));
}

#[test]
fn non_square_map_is_indexed_y_then_x() {
    let lines = vec![
        "INITIAL_ENERGY 1000".to_string(),
        "1 0".to_string(),
        "0 1 0".to_string(),
        "3 2".to_string(),
        "1 2 3".to_string(),
        "4 5 6".to_string(),
    ];
    let (khala, used) = Khala::read_from_lines(&lines).unwrap();
    assert_eq!(used, 6);
    assert_eq!(khala.get_size(), (3, 2));
    assert_eq!(khala.get_at_position((0, 0)), 1);
    assert_eq!(khala.get_at_position((1, 0)), 2);
    assert_eq!(khala.get_at_position((2, 0)), 3);
    assert_eq!(khala.get_at_position((0, 1)), 4);
    assert_eq!(khala.get_at_position((2, 1)), 6);
}

#[test]
fn resource_patch_updates_exactly_the_named_cell() {
    let mut khala = init_world();
    let turn = vec![
        "1".to_string(),
        "0 0 0 1000".to_string(),
        "1 0 0 1000".to_string(),
        "1".to_string(),
        "1 0 5".to_string(),
    ];
    assert_eq!(khala.update_from_lines(&turn, 0), Ok(5));
    assert_eq!(khala.get_at_position((1, 0)), 5);
    assert_eq!(khala.get_at_position((0, 0)), 0);
    assert_eq!(khala.get_at_position((0, 1)), 0);
    assert_eq!(khala.get_at_position((1, 1)), 0);
}

#[test]
fn turn_without_dropoffs_keeps_shipyards_unchanged() {
    let mut khala = init_world();
    let before = khala.structures.clone();
    let turn = vec![
        "3".to_string(),
        "1 0 0 900".to_string(),
        "0 0 0 800".to_string(),
        "0".to_string(),
    ];
    assert_eq!(khala.update_from_lines(&turn, 0), Ok(4));
    assert_eq!(khala.structures, before);
    assert_eq!(khala.turn_number, 3);
    assert_eq!(khala.player_owned_halite, vec![800, 900]);
}

#[test]
fn ships_are_replaced_wholesale_and_dropoffs_rebuilt() {
    let mut khala = init_world();
    let first = vec![
        "1".to_string(),
        "0 2 1 800".to_string(),
        "10 0 0 7".to_string(),
        "11 1 0 0".to_string(),
        "20 0 1".to_string(),
        "1 0 0 1000".to_string(),
        "0".to_string(),
    ];
    assert_eq!(khala.update_from_lines(&first, 0), Ok(7));
    assert_eq!(khala.ships.len(), 2);
    assert_eq!(khala.ships[0].ship_id, 10);
    assert_eq!(khala.ships[0].cargo, 7);
    assert_eq!(khala.structures.len(), 3);
    assert_eq!(khala.structures[2].structure_type, StructureType::Dropoff);
    assert_eq!(khala.structures[2].structure_id, 20);
    let second = vec![
        "2".to_string(),
        "0 1 0 800".to_string(),
        "11 1 0 0".to_string(),
        "1 0 0 1000".to_string(),
        "0".to_string(),
    ];
    assert_eq!(khala.update_from_lines(&second, 0), Ok(5));
    assert_eq!(khala.ships.len(), 1);
    assert_eq!(khala.ships[0].ship_id, 11);
    assert_eq!(khala.structures.len(), 2);
    for s in &khala.structures {
        assert_eq!(s.structure_type, StructureType::Shipyard);
    }
}

#[test]
fn truncated_turn_is_stream_closed_and_leaves_the_model_unchanged() {
    let mut khala = init_world();
    let turn = vec!["1".to_string(), "0 2 0 800".to_string(), "10 0 0 7".to_string()];
    assert_eq!(khala.update_from_lines(&turn, 0), Err(ProtocolError::StreamClosed));
    assert_eq!(khala.turn_number, 0);
    assert!(khala.ships.is_empty());
    assert_eq!(khala.player_owned_halite, vec![1000, 1000]);
}

#[test]
fn ship_outside_the_map_is_a_protocol_violation() {
    let mut khala = init_world();
    let turn = vec![
        "1".to_string(),
        "0 1 0 800".to_string(),
        "10 2 0 7".to_string(),
        "1 0 0 1000".to_string(),
        "0".to_string(),
    ];
    assert_eq!(khala.update_from_lines(&turn, 0), Err(ProtocolError::ProtocolViolation));
}

#[test]
fn unknown_player_id_in_header_is_a_protocol_violation() {
    let mut khala = init_world();
    let turn = vec![
        "1".to_string(),
        "5 0 0 800".to_string(),
        "1 0 0 1000".to_string(),
        "0".to_string(),
    ];
    assert_eq!(khala.update_from_lines(&turn, 0), Err(ProtocolError::ProtocolViolation));
}

#[test]
fn end_to_end_turn_with_one_ship() {
    let mut khala = init_world();
    let turn = vec![
        "1".to_string(),
        "0 1 0 1000".to_string(),
        "3 0 0 0".to_string(),
        "1 0 0 1000".to_string(),
        "1".to_string(),
        "0 0 10".to_string(),
    ];
    assert_eq!(khala.update_from_lines(&turn, 0), Ok(6));
    let mine = khala.my_ships();
    assert_eq!(mine.len(), 1);
    assert_eq!(khala.ships.len(), 1);
    assert_eq!(khala.structures.len(), 2);
    for s in &khala.structures {
        assert_eq!(s.structure_type, StructureType::Shipyard);
    }
    let yard = khala.find_own_shipyard().unwrap();
    assert_eq!(yard.owner_id, 0);
    let cell = khala.get_at_position(mine[0].position);
    assert_eq!(cell, 10);
    let max = khala.game_constants.get_u32(&"MAX_CELL_PRODUCTION".to_string()).unwrap();
    assert!(cell < max);
    assert!(Khala::any_ship_at(&mine, yard.position));
}
