use minesweeper::{BasicTable, FieldType, FlagResult, OpenResult};

fn mine_locations_5x5() -> Vec<(i64, i64)> {
    vec![(0, 3), (3, 0), (3, 3), (2, 2), (4, 1)]
}

// O O 1 M 1
// O 1 2 2 1
// 1 2 M 2 1
// M 3 3 M 1
// 2 M 2 1 1
fn test_fields_5x5() -> Vec<Vec<FieldType>> {
    vec![
        vec![
            FieldType::Empty,
            FieldType::Empty,
            FieldType::Numbered(1),
            FieldType::Mine,
            FieldType::Numbered(1),
        ],
        vec![
            FieldType::Empty,
            FieldType::Numbered(1),
            FieldType::Numbered(2),
            FieldType::Numbered(2),
            FieldType::Numbered(1),
        ],
        vec![
            FieldType::Numbered(1),
            FieldType::Numbered(2),
            FieldType::Mine,
            FieldType::Numbered(2),
            FieldType::Numbered(1),
        ],
        vec![
            FieldType::Mine,
            FieldType::Numbered(3),
            FieldType::Numbered(3),
            FieldType::Mine,
            FieldType::Numbered(1),
        ],
        vec![
            FieldType::Numbered(2),
            FieldType::Mine,
            FieldType::Numbered(2),
            FieldType::Numbered(1),
            FieldType::Numbered(1),
        ],
    ]
}

fn create_table_5x5() -> BasicTable {
    BasicTable::with_custom_mines(5, 5, mine_locations_5x5()).unwrap()
}

#[test]
fn table_open_everything_5x5() {
    let mut table = create_table_5x5();
    let mine_locations = mine_locations_5x5();
    for row in 0..5i64 {
        for col in 0..5i64 {
            let open_result = table.open_field(row, col).unwrap();
            let is_mine = mine_locations.contains(&(row, col));
            assert_eq!(is_mine, (open_result.result == OpenResult::Boom));
        }
    }
    // Everything is opened, so no Boom and no plain success
    for row in 0..5i64 {
        for col in 0..5i64 {
            let open_result = table.open_field(row, col).unwrap();
            assert_eq!(OpenResult::WINNER, open_result.result);
        }
    }
}

#[test]
fn table_win_5x5() {
    let mut table = create_table_5x5();
    let mine_locations = mine_locations_5x5();
    for row in 0..5i64 {
        for col in 0..5i64 {
            if !mine_locations.contains(&(row, col)) && !(row == 4 && col == 4) {
                let open_result = table.open_field(row, col).unwrap();
                assert_eq!(OpenResult::Okay, open_result.result);
            }
        }
    }
    assert!(table.open_field(4, 4).unwrap().result == OpenResult::WINNER);
}

#[test]
fn table_open_bubble_5x5() {
    let test_fields = test_fields_5x5();
    let mut table = create_table_5x5();
    let open_result = table.open_field(1, 0).unwrap();
    assert_eq!(OpenResult::Okay, open_result.result);
    assert_eq!(8, open_result.newly_opened_fields.len());
    for row in 0..3i64 {
        for col in 0..3i64 {
            if row == 2 && col == 2 {
                continue;
            }
            assert_eq!(
                Some(test_fields[row as usize][col as usize]),
                open_result.newly_opened_fields.get(row, col)
            );
        }
    }
}

#[test]
fn table_flag_and_unflag_5x5() {
    let mut table = create_table_5x5();
    let flag_result = table.toggle_flag(0, 1).unwrap();
    assert_eq!(FlagResult::Flagged, flag_result);
    let unflag_result = table.toggle_flag(0, 1).unwrap();
    assert_eq!(FlagResult::FlagRemoved, unflag_result);
}

#[test]
fn table_open_flagged_5x5() {
    let mut table = create_table_5x5();
    let toggle_result = table.toggle_flag(1, 1).unwrap();
    assert_eq!(FlagResult::Flagged, toggle_result);
    let open_result = table.open_field(1, 1).unwrap();
    assert_eq!(OpenResult::IsFlagged, open_result.result);
    assert_eq!(0, open_result.newly_opened_fields.len());
}

#[test]
fn table_flagged_bubble_is_not_opened_5x5() {
    let test_fields = test_fields_5x5();
    let mut table = create_table_5x5();
    let toggle_result = table.toggle_flag(0, 1).unwrap();
    assert_eq!(FlagResult::Flagged, toggle_result);
    let open_result = table.open_field(1, 0).unwrap();
    assert_eq!(OpenResult::Okay, open_result.result);
    let fields = &open_result.newly_opened_fields;
    assert_eq!(5, fields.len());

    assert_eq!(Some(FieldType::Empty), fields.get(0, 0));

    for row in 1..3i64 {
        for column in 0..2i64 {
            assert_eq!(
                Some(test_fields[row as usize][column as usize]),
                fields.get(row, column)
            );
        }
    }
}
