use minesweeper::{
    BasicTable, FieldInfo, FieldState, FieldType, FlagResult, GameError, OpenInfo, OpenResult,
};

fn mine_locations_5x6() -> Vec<(i64, i64)> {
    vec![(0, 3), (3, 0), (3, 3), (2, 2), (4, 1)]
}

struct TestInfo {
    height: i64,
    width: i64,
    table: BasicTable,
    mine_locations: Vec<(i64, i64)>,
    fields: Vec<Vec<FieldType>>,
}

//     0 1 2 3 4 5
//     - - - - - -
// 0 | O O 1 M 1 0
// 1 | O 1 2 2 1 0
// 2 | 1 2 M 2 1 0
// 3 | M 3 3 M 1 0
// 4 | 2 M 2 1 1 0
fn create_test_info_5x6() -> TestInfo {
    let fields = vec![
        vec![
            FieldType::Empty,
            FieldType::Empty,
            FieldType::Numbered(1),
            FieldType::Mine,
            FieldType::Numbered(1),
            FieldType::Empty,
        ],
        vec![
            FieldType::Empty,
            FieldType::Numbered(1),
            FieldType::Numbered(2),
            FieldType::Numbered(2),
            FieldType::Numbered(1),
            FieldType::Empty,
        ],
        vec![
            FieldType::Numbered(1),
            FieldType::Numbered(2),
            FieldType::Mine,
            FieldType::Numbered(2),
            FieldType::Numbered(1),
            FieldType::Empty,
        ],
        vec![
            FieldType::Mine,
            FieldType::Numbered(3),
            FieldType::Numbered(3),
            FieldType::Mine,
            FieldType::Numbered(1),
            FieldType::Empty,
        ],
        vec![
            FieldType::Numbered(2),
            FieldType::Mine,
            FieldType::Numbered(2),
            FieldType::Numbered(1),
            FieldType::Numbered(1),
            FieldType::Empty,
        ],
    ];
    let width = 6;
    let height = 5;
    TestInfo {
        height,
        width,
        table: BasicTable::with_custom_mines(height, width, mine_locations_5x6()).unwrap(),
        mine_locations: mine_locations_5x6(),
        fields,
    }
}

fn check_too_much_fields_error(result: Result<BasicTable, GameError>) {
    assert!(result.is_err());
    assert_eq!(GameError::TooManyFields, result.err().unwrap());
}

fn check_open_info(
    open_info: &OpenInfo,
    expected_result: &OpenResult,
    expected_fields: &Vec<(i64, i64)>,
    test_fields: &Vec<Vec<FieldType>>,
) {
    assert_eq!(open_info.result, *expected_result);
    assert_eq!(open_info.newly_opened_fields.len(), expected_fields.len());
    for &(r, c) in expected_fields {
        assert_eq!(
            open_info.newly_opened_fields.get(r, c).unwrap(),
            test_fields[r as usize][c as usize]
        );
    }
}

fn check_boomed_open_info(open_info: &OpenInfo, test_info: &TestInfo) {
    assert_eq!(open_info.result, OpenResult::Boom);
    assert_eq!(
        open_info.newly_opened_fields.len() as i64,
        test_info.width * test_info.height
    );
    for r in 0..test_info.height {
        for c in 0..test_info.width {
            assert_eq!(
                open_info.newly_opened_fields.get(r, c),
                Some(test_info.fields[r as usize][c as usize])
            );
        }
    }
}

fn check_height_and_width(expected_height: i64, expected_width: i64) {
    const NUMBER_OF_MINES: i64 = 1;
    let table = BasicTable::new(expected_height, expected_width, NUMBER_OF_MINES).unwrap();
    assert_eq!(table.height(), expected_height);
    assert_eq!(table.width(), expected_width);
}

#[test]
fn create_game_with_invalid_sizes() {
    check_too_much_fields_error(BasicTable::with_custom_mines(i64::MAX, i64::MAX, Vec::new()));
    check_too_much_fields_error(BasicTable::with_custom_mines(i64::MAX / 2 + 1, 2, Vec::new()));
    check_too_much_fields_error(BasicTable::with_custom_mines(i64::MAX / 5 + 1, 5, Vec::new()));
}

#[test]
fn table_open_everything() {
    let test_info = create_test_info_5x6();
    let mut table = test_info.table;
    for row in 0..test_info.height {
        for col in 0..test_info.width {
            let open_result = table.open_field(row, col).unwrap();
            let is_mine = test_info.mine_locations.contains(&(row, col));
            assert_eq!(is_mine, (open_result.result == OpenResult::Boom));
        }
    }
    // Everything is opened, so no Boom and no plain success
    for row in 0..test_info.height {
        for col in 0..test_info.width {
            let open_result = table.open_field(row, col).unwrap();
            assert_eq!(OpenResult::WINNER, open_result.result);
        }
    }
}

#[test]
fn table_win() {
    let test_info = create_test_info_5x6();
    let mut table = test_info.table;
    for row in 0..test_info.height {
        for col in 0..test_info.width - 1 {
            if !test_info.mine_locations.contains(&(row, col)) {
                let open_result = table.open_field(row, col).unwrap();
                assert_eq!(OpenResult::Okay, open_result.result);
            }
        }
    }
    assert!(table.open_field(0, 5).unwrap().result == OpenResult::WINNER);
}

#[test]
fn table_open_bubble() {
    let test_info = create_test_info_5x6();
    let mut table = test_info.table;
    let open_result = table.open_field(1, 0).unwrap();
    assert_eq!(OpenResult::Okay, open_result.result);
    assert_eq!(8, open_result.newly_opened_fields.len());
    assert_eq!(None, open_result.newly_opened_fields.get(2, 2));
    for row in 0..3 {
        for col in 0..3 {
            if row == 2 && col == 2 {
                continue;
            }
            assert_eq!(
                Some(test_info.fields[row as usize][col as usize]),
                open_result.newly_opened_fields.get(row, col)
            );
        }
    }
}

#[test]
fn table_flag_and_unflag() {
    let test_info = create_test_info_5x6();
    let mut table = test_info.table;
    let flag_result = table.toggle_flag(0, 1).unwrap();
    assert_eq!(FlagResult::Flagged, flag_result);
    let unflag_result = table.toggle_flag(0, 1).unwrap();
    assert_eq!(FlagResult::FlagRemoved, unflag_result);
}

#[test]
fn table_open_flagged() {
    let test_info = create_test_info_5x6();
    let mut table = test_info.table;
    let toggle_result = table.toggle_flag(1, 1).unwrap();
    assert_eq!(FlagResult::Flagged, toggle_result);
    let open_result = table.open_field(1, 1).unwrap();
    assert_eq!(OpenResult::IsFlagged, open_result.result);
    assert_eq!(0, open_result.newly_opened_fields.len());
}

#[test]
fn table_flagged_bubble_is_not_opened() {
    let test_info = create_test_info_5x6();
    let mut table = test_info.table;
    let toggle_result = table.toggle_flag(0, 1).unwrap();
    assert_eq!(FlagResult::Flagged, toggle_result);
    let open_result = table.open_field(1, 0).unwrap();
    assert_eq!(OpenResult::Okay, open_result.result);
    let fields = &open_result.newly_opened_fields;
    assert_eq!(5, fields.len());

    assert_eq!(Some(FieldType::Empty), fields.get(0, 0));

    for row in 1..3 {
        for column in 0..2 {
            assert_eq!(
                Some(test_info.fields[row as usize][column as usize]),
                fields.get(row, column)
            );
        }
    }
}

#[test]
fn first_open_is_always_successful() {
    let width = 6;
    let height = 5;
    for &(row, col) in mine_locations_5x6().iter() {
        let mut table =
            BasicTable::with_custom_mines(height, width, mine_locations_5x6()).unwrap();
        let open_info = table.open_field(row, col).unwrap();
        assert_eq!(open_info.result, OpenResult::Okay);
        const MIN_NEWLY_OPENED_FIELDS: usize = 1;
        assert!(open_info.newly_opened_fields.len() >= MIN_NEWLY_OPENED_FIELDS);
    }
}

#[test]
fn boom_reveals_the_whole_board() {
    let test_info = create_test_info_5x6();
    let mut table =
        BasicTable::with_custom_mines(test_info.height, test_info.width, mine_locations_5x6())
            .unwrap();
    let first = table.open_field(0, 0).unwrap();
    assert_eq!(OpenResult::Okay, first.result);
    let boomed = table.open_field(2, 2).unwrap();
    check_boomed_open_info(&boomed, &test_info);
}

#[test]
fn width_and_height() {
    {
        let expected_width = 3;
        let expected_height = 2;
        check_height_and_width(expected_height, expected_width);
    }
    {
        let expected_width = 2;
        let expected_height = 3;
        check_height_and_width(expected_height, expected_width);
    }
    {
        let expected_width = 10;
        let expected_height = 10;
        check_height_and_width(expected_height, expected_width);
    }
}

#[test]
fn with_custom_mines_invalid_mine_locations() {
    const HEIGHT: i64 = 4;
    const WIDTH: i64 = 6;
    {
        let mine_locations = vec![(HEIGHT - 1, WIDTH - 1)];
        let result = BasicTable::with_custom_mines(HEIGHT, WIDTH, mine_locations);
        assert!(
            result.is_ok(),
            "Something wrong with the initial configuration"
        );
    }
    {
        let mine_locations = vec![(HEIGHT, WIDTH - 1)];
        let result = BasicTable::with_custom_mines(HEIGHT, WIDTH, mine_locations);
        assert_eq!(
            GameError::InvalidMineLocations,
            result.err().unwrap(),
            "Mine row is too high, but not detected"
        );
    }
    {
        let mine_locations = vec![(HEIGHT - 1, WIDTH)];
        let result = BasicTable::with_custom_mines(HEIGHT, WIDTH, mine_locations);
        assert_eq!(
            GameError::InvalidMineLocations,
            result.err().unwrap(),
            "Mine col is too high, but not detected"
        );
    }
    {
        let mine_locations = vec![(HEIGHT, WIDTH)];
        let result = BasicTable::with_custom_mines(HEIGHT, WIDTH, mine_locations);
        assert_eq!(
            GameError::InvalidMineLocations,
            result.err().unwrap(),
            "Mine row and col are too high, but not detected"
        );
    }
}

#[test]
fn duplicate_mine_locations_are_invalid() {
    let mine_locations = vec![(1, 1), (2, 2), (1, 1)];
    let result = BasicTable::with_custom_mines(4, 6, mine_locations);
    assert_eq!(GameError::InvalidMineLocations, result.err().unwrap());
}

#[test]
fn too_many_and_too_few_mines() {
    let too_many: Vec<(i64, i64)> = (0..2).flat_map(|r| (0..2).map(move |c| (r, c))).collect();
    assert_eq!(
        GameError::TooManyMines,
        BasicTable::with_custom_mines(2, 2, too_many).err().unwrap()
    );
    assert_eq!(
        GameError::TooFewMines,
        BasicTable::with_custom_mines(2, 2, Vec::new()).err().unwrap()
    );
    assert_eq!(
        GameError::TooManyMines,
        BasicTable::new(3, 3, 9).err().unwrap()
    );
    assert_eq!(
        GameError::TooFewMines,
        BasicTable::new(3, 3, 0).err().unwrap()
    );
}

#[test]
fn invalid_index_error() {
    const HEIGHT: i64 = 4;
    const WIDTH: i64 = 6;
    const NUMBER_OF_MINES: i64 = 10;
    let expected_open_error: Result<OpenInfo, GameError> = Err(GameError::InvalidIndex);
    let expected_flag_error: Result<FlagResult, GameError> = Err(GameError::InvalidIndex);
    let expected_get_field_info_error: Result<FieldInfo, GameError> = Err(GameError::InvalidIndex);
    let mut game = BasicTable::new(HEIGHT, WIDTH, NUMBER_OF_MINES).unwrap();
    let mut check_indices = |row, col, message: &str| {
        let open_result = game.open_field(row, col);
        assert_eq!(expected_open_error, open_result, "{} open_field", message);

        let open_neighbors_result = game.open_neighbors(row, col);
        assert_eq!(
            expected_open_error, open_neighbors_result,
            "{} open_neighbors",
            message
        );

        let flag_result = game.toggle_flag(row, col);
        assert_eq!(expected_flag_error, flag_result, "{} toggle_flag", message);

        let get_field_info_result = game.get_field_info(row, col);
        assert_eq!(
            expected_get_field_info_error, get_field_info_result,
            "{} get_field_info",
            message
        );
    };
    const GOOD_INDEX: i64 = 1;
    check_indices(HEIGHT, GOOD_INDEX, "Exact height");
    check_indices(GOOD_INDEX, WIDTH, "Exact width");
    check_indices(HEIGHT, WIDTH, "Exact both");
    check_indices(-1, GOOD_INDEX, "Negative height");
    check_indices(GOOD_INDEX, -1, "Negative width");
    check_indices(-1, -1, "Negative both");
}

#[test]
fn get_field_info_closed() {
    let test_info = create_test_info_5x6();
    let table = test_info.table;
    let expected_field_info = FieldInfo {
        state: FieldState::Closed,
        field_type: FieldType::Empty,
    };
    for row in 0..test_info.height {
        for col in 0..test_info.width {
            let field_info = table.get_field_info(row, col).unwrap();
            assert_eq!(expected_field_info, field_info);
        }
    }
}

#[test]
fn get_field_info_flagged() {
    let test_info = create_test_info_5x6();
    let mut table = test_info.table;
    let expected_field_info = FieldInfo {
        state: FieldState::Flagged,
        field_type: FieldType::Empty,
    };
    for row in 0..test_info.height {
        for col in 0..test_info.width {
            table.toggle_flag(row, col).unwrap();
            let field_info = table.get_field_info(row, col).unwrap();
            assert_eq!(expected_field_info, field_info);
        }
    }
}

#[test]
fn table_get_field_info_opened() {
    let test_info = create_test_info_5x6();
    let mut table = test_info.table;
    for row in 0..test_info.height {
        for col in 0..test_info.width {
            table.open_field(row, col).unwrap();
            let field_info = table.get_field_info(row, col).unwrap();
            let expected_field_info = FieldInfo {
                state: FieldState::Opened,
                field_type: test_info.fields[row as usize][col as usize],
            };
            assert_eq!(expected_field_info, field_info);
        }
    }
}

#[test]
fn get_field_info_mixed() {
    let test_info = create_test_info_5x6();
    let mut table = test_info.table;
    table.open_field(0, 0).unwrap();
    let closed_field_info = FieldInfo {
        state: FieldState::Closed,
        field_type: FieldType::Empty,
    };

    for row in 0..test_info.height {
        for col in 0..test_info.width {
            let field_info = table.get_field_info(row, col).unwrap();
            if row + col <= 3 && row < 3 && col < 3 {
                let expected_field_info = FieldInfo {
                    state: FieldState::Opened,
                    field_type: test_info.fields[row as usize][col as usize],
                };
                assert_eq!(expected_field_info, field_info);
            } else {
                assert_eq!(closed_field_info, field_info);
            }
        }
    }

    table.open_field(3, 0).unwrap();
    table.open_field(0, 3).unwrap();

    for row in 0..test_info.height {
        for col in 0..test_info.width {
            let field_info = table.get_field_info(row, col).unwrap();
            if row + col <= 3 {
                let expected_field_info = FieldInfo {
                    state: FieldState::Opened,
                    field_type: test_info.fields[row as usize][col as usize],
                };
                assert_eq!(expected_field_info, field_info);
            } else {
                assert_eq!(closed_field_info, field_info);
            }
        }
    }
}

#[test]
fn open_right_edge_bubble() {
    let test_info = create_test_info_5x6();
    let mut table = test_info.table;
    let open_info = table.open_field(0, 5).unwrap();
    let expected_field_locations = vec![
        (0, 4),
        (0, 5),
        (1, 4),
        (1, 5),
        (2, 4),
        (2, 5),
        (3, 4),
        (3, 5),
        (4, 4),
        (4, 5),
    ];
    check_open_info(
        &open_info,
        &OpenResult::Okay,
        &expected_field_locations,
        &test_info.fields,
    );
}
