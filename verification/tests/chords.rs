use minesweeper::{BasicTable, FieldType, FlagResult, OpenInfo, OpenResult};

fn mine_locations_5x6() -> Vec<(i64, i64)> {
    vec![(0, 3), (3, 0), (3, 3), (2, 2), (4, 1)]
}

//     0 1 2 3 4 5
//     - - - - - -
// 0 | O O 1 M 1 0
// 1 | O 1 2 2 1 0
// 2 | 1 2 M 2 1 0
// 3 | M 3 3 M 1 0
// 4 | 2 M 2 1 1 0
fn test_fields_5x6() -> Vec<Vec<FieldType>> {
    vec![
        vec![
            FieldType::Empty,
            FieldType::Empty,
            FieldType::Numbered(1),
            FieldType::Mine,
            FieldType::Numbered(1),
            FieldType::Empty,
        ],
        vec![
            FieldType::Empty,
            FieldType::Numbered(1),
            FieldType::Numbered(2),
            FieldType::Numbered(2),
            FieldType::Numbered(1),
            FieldType::Empty,
        ],
        vec![
            FieldType::Numbered(1),
            FieldType::Numbered(2),
            FieldType::Mine,
            FieldType::Numbered(2),
            FieldType::Numbered(1),
            FieldType::Empty,
        ],
        vec![
            FieldType::Mine,
            FieldType::Numbered(3),
            FieldType::Numbered(3),
            FieldType::Mine,
            FieldType::Numbered(1),
            FieldType::Empty,
        ],
        vec![
            FieldType::Numbered(2),
            FieldType::Mine,
            FieldType::Numbered(2),
            FieldType::Numbered(1),
            FieldType::Numbered(1),
            FieldType::Empty,
        ],
    ]
}

fn create_table_5x6() -> BasicTable {
    BasicTable::with_custom_mines(5, 6, mine_locations_5x6()).unwrap()
}

fn check_open_info(
    open_info: &OpenInfo,
    expected_result: &OpenResult,
    expected_fields: &Vec<(i64, i64)>,
    test_fields: &Vec<Vec<FieldType>>,
) {
    assert_eq!(open_info.result, *expected_result);
    assert_eq!(open_info.newly_opened_fields.len(), expected_fields.len());
    for &(r, c) in expected_fields {
        assert_eq!(
            open_info.newly_opened_fields.get(r, c).unwrap(),
            test_fields[r as usize][c as usize]
        );
    }
}

fn check_boomed_open_info(open_info: &OpenInfo, test_fields: &Vec<Vec<FieldType>>) {
    assert_eq!(open_info.result, OpenResult::Boom);
    assert_eq!(open_info.newly_opened_fields.len(), 30);
    for r in 0..5i64 {
        for c in 0..6i64 {
            assert_eq!(
                open_info.newly_opened_fields.get(r, c),
                Some(test_fields[r as usize][c as usize])
            );
        }
    }
}

#[test]
fn open_neighbors_of_closed_numbered() {
    let test_fields = test_fields_5x6();
    let mut table = create_table_5x6();
    let row = 1;
    let col = 1;
    assert_eq!(
        test_fields[row as usize][col as usize],
        FieldType::Numbered(1)
    );
    let open_info = table.open_neighbors(row, col).unwrap();
    assert_eq!(open_info.result, OpenResult::Okay);
    assert_eq!(open_info.newly_opened_fields.len(), 0);
}

#[test]
fn open_neighbors_of_closed_empty() {
    let test_fields = test_fields_5x6();
    let mut table = create_table_5x6();
    let row = 0;
    let col = 0;
    assert_eq!(test_fields[row as usize][col as usize], FieldType::Empty);
    let open_info = table.open_neighbors(row, col).unwrap();
    assert_eq!(open_info.result, OpenResult::Okay);
    assert_eq!(open_info.newly_opened_fields.len(), 0);
}

#[test]
fn open_neighbors_with_wrong_flag() {
    let test_fields = test_fields_5x6();
    let mut table = create_table_5x6();
    let flag_row = 1;
    let flag_col = 3;
    assert_ne!(
        test_fields[flag_row as usize][flag_col as usize],
        FieldType::Mine
    );
    let flag_result = table.toggle_flag(flag_row, flag_col).unwrap();
    assert_eq!(flag_result, FlagResult::Flagged);

    let open_row = 1;
    let open_col = 4;

    let simple_open_info = table.open_field(open_row, open_col).unwrap();
    assert_eq!(simple_open_info.result, OpenResult::Okay);
    assert_eq!(simple_open_info.newly_opened_fields.len(), 1);
    assert_eq!(
        simple_open_info.newly_opened_fields.get(open_row, open_col),
        Some(FieldType::Numbered(1))
    );
    let neighbor_open_info = table.open_neighbors(open_row, open_col).unwrap();
    check_boomed_open_info(&neighbor_open_info, &test_fields);
}

#[test]
fn open_neighbors_with_correct_flag() {
    let test_fields = test_fields_5x6();
    let mut table = create_table_5x6();
    let flag_row = 0;
    let flag_col = 3;
    assert_eq!(
        test_fields[flag_row as usize][flag_col as usize],
        FieldType::Mine
    );
    let flag_result = table.toggle_flag(flag_row, flag_col).unwrap();
    assert_eq!(flag_result, FlagResult::Flagged);

    let open_row = 1;
    let open_col = 4;

    let simple_open_info = table.open_field(open_row, open_col).unwrap();
    assert_eq!(simple_open_info.result, OpenResult::Okay);
    assert_eq!(simple_open_info.newly_opened_fields.len(), 1);
    assert_eq!(
        simple_open_info.newly_opened_fields.get(open_row, open_col),
        Some(FieldType::Numbered(1))
    );
    let neighbor_open_info = table.open_neighbors(open_row, open_col).unwrap();
    let expected_field_locations = vec![
        (0, 4),
        (0, 5),
        (1, 3),
        (1, 5),
        (2, 3),
        (2, 4),
        (2, 5),
        (3, 4),
        (3, 5),
        (4, 4),
        (4, 5),
    ];
    check_open_info(
        &neighbor_open_info,
        &OpenResult::Okay,
        &expected_field_locations,
        &test_fields,
    );
}

#[test]
fn open_neighbors_with_correct_flags() {
    let test_fields = test_fields_5x6();
    let mut table = create_table_5x6();
    let flag_coords = vec![(2, 2), (3, 0), (4, 1)];
    for (r, c) in flag_coords {
        assert_eq!(test_fields[r as usize][c as usize], FieldType::Mine);
        let flag_result = table.toggle_flag(r, c).unwrap();
        assert_eq!(flag_result, FlagResult::Flagged);
    }

    let open_row = 3;
    let open_col = 1;

    let simple_open_info = table.open_field(open_row, open_col).unwrap();
    assert_eq!(simple_open_info.result, OpenResult::Okay);
    assert_eq!(simple_open_info.newly_opened_fields.len(), 1);
    assert_eq!(
        simple_open_info.newly_opened_fields.get(open_row, open_col),
        Some(FieldType::Numbered(3))
    );
    let neighbor_open_info = table.open_neighbors(open_row, open_col).unwrap();
    let expected_field_locations = vec![(2, 0), (2, 1), (3, 2), (4, 0), (4, 2)];

    check_open_info(
        &neighbor_open_info,
        &OpenResult::Okay,
        &expected_field_locations,
        &test_fields,
    );
}

#[test]
fn open_neighbors_with_wrong_flags() {
    let test_fields = test_fields_5x6();
    let mut table = create_table_5x6();
    let flag_coords = vec![(2, 1), (3, 2), (4, 2)];
    for (r, c) in flag_coords {
        assert_ne!(test_fields[r as usize][c as usize], FieldType::Mine);
        let flag_result = table.toggle_flag(r, c).unwrap();
        assert_eq!(flag_result, FlagResult::Flagged);
    }

    let open_row = 3;
    let open_col = 1;

    let simple_open_info = table.open_field(open_row, open_col).unwrap();
    assert_eq!(simple_open_info.result, OpenResult::Okay);
    assert_eq!(simple_open_info.newly_opened_fields.len(), 1);
    assert_eq!(
        simple_open_info.newly_opened_fields.get(open_row, open_col),
        Some(FieldType::Numbered(3))
    );
    let neighbor_open_info = table.open_neighbors(open_row, open_col).unwrap();
    check_boomed_open_info(&neighbor_open_info, &test_fields);
}

#[test]
fn open_neighbors_with_not_enough_flags() {
    let test_fields = test_fields_5x6();
    let mut table = create_table_5x6();
    let flag_coords = vec![(2, 2), (3, 0)];
    for (r, c) in flag_coords {
        let flag_result = table.toggle_flag(r, c).unwrap();
        assert_eq!(flag_result, FlagResult::Flagged);
    }

    let open_row = 3;
    let open_col = 1;

    let simple_open_info = table.open_field(open_row, open_col).unwrap();
    assert_eq!(simple_open_info.result, OpenResult::Okay);
    assert_eq!(simple_open_info.newly_opened_fields.len(), 1);
    assert_eq!(
        simple_open_info.newly_opened_fields.get(open_row, open_col),
        Some(FieldType::Numbered(3))
    );
    let neighbor_open_info = table.open_neighbors(open_row, open_col).unwrap();
    let expected_field_locations = vec![];

    check_open_info(
        &neighbor_open_info,
        &OpenResult::Okay,
        &expected_field_locations,
        &test_fields,
    );
}
