use minesweeper::{FieldInner, FieldOpenResult, FieldState, FieldType, GameError};

fn check_invalid_value_error(result: Result<FieldInner, GameError>) {
    assert!(result.is_err());
    assert_eq!(GameError::InvalidValue, result.err().unwrap());
}

fn check_opened_field_cannot_be_updated_error(result: Result<(), GameError>) {
    assert!(result.is_err());
    assert_eq!(GameError::OpenedFieldCannotBeUpdated, result.err().unwrap());
}

#[test]
fn new_field_with_invalid_number() {
    check_invalid_value_error(FieldInner::new_numbered(0));
    check_invalid_value_error(FieldInner::new_numbered(9));
}

#[test]
fn update_type_to_empty() {
    let mut field = FieldInner::new_numbered(1).unwrap();
    assert_eq!(FieldType::Numbered(1), field.get_field_type());
    assert_eq!(Ok(()), field.update_type_to_empty());
    assert_eq!(FieldType::Empty, field.get_field_type());
    assert_eq!(field.open(), FieldOpenResult::MultiOpen);
    check_opened_field_cannot_be_updated_error(field.update_type_to_empty());
}

#[test]
fn update_type_to_numbered() {
    let mut field = FieldInner::new_numbered(2).unwrap();
    assert_eq!(FieldType::Numbered(2), field.get_field_type());
    assert_eq!(Ok(()), field.update_type_with_value(3));
    assert_eq!(FieldType::Numbered(3), field.get_field_type());
    assert_eq!(field.open(), FieldOpenResult::SimpleOpen);
    check_opened_field_cannot_be_updated_error(field.update_type_with_value(4));
}

#[test]
fn update_type_to_mine() {
    let mut field = FieldInner::new_numbered(5).unwrap();
    assert_eq!(FieldType::Numbered(5), field.get_field_type());
    assert_eq!(Ok(()), field.update_type_to_mine());
    assert_eq!(FieldType::Mine, field.get_field_type());
    assert_eq!(field.open(), FieldOpenResult::Boom);
    check_opened_field_cannot_be_updated_error(field.update_type_with_value(8));
}

#[test]
fn update_type_from_mine() {
    let mut field = FieldInner::new_mine();
    assert_eq!(FieldType::Mine, field.get_field_type());
    assert_eq!(Ok(()), field.update_type_to_empty());
    assert_eq!(FieldType::Empty, field.get_field_type());
    field = FieldInner::new_mine();
    assert_eq!(FieldType::Mine, field.get_field_type());
    assert_eq!(Ok(()), field.update_type_with_value(3));
    assert_eq!(FieldType::Numbered(3), field.get_field_type());
}

#[test]
fn update_type_from_emtpy() {
    let mut field = FieldInner::new_empty();
    assert_eq!(FieldType::Empty, field.get_field_type());
    assert_eq!(Ok(()), field.update_type_to_mine());
    assert_eq!(FieldType::Mine, field.get_field_type());
    field = FieldInner::new_empty();
    assert_eq!(FieldType::Empty, field.get_field_type());
    assert_eq!(Ok(()), field.update_type_with_value(8));
    assert_eq!(FieldType::Numbered(8), field.get_field_type());
}

#[test]
fn state_and_type_predicates() {
    assert!(FieldState::Opened.is_opened());
    assert!(!FieldState::Closed.is_opened());
    assert!(FieldState::Flagged.is_flagged());
    assert!(!FieldState::Opened.is_flagged());
    assert!(FieldType::Empty.is_empty());
    assert!(!FieldType::Mine.is_empty());
    assert!(FieldType::Mine.is_mine());
    assert!(!FieldType::Numbered(2).is_mine());
    assert!(FieldType::Numbered(2).is_numbered());
    assert!(!FieldType::Empty.is_numbered());
}

#[test]
fn char_repr_of_each_type() {
    assert_eq!(' ', FieldType::Empty.get_char_repr());
    assert_eq!('X', FieldType::Mine.get_char_repr());
    assert_eq!('3', FieldType::Numbered(3).get_char_repr());
    assert_eq!('8', FieldType::Numbered(8).get_char_repr());
}

#[test]
fn get_value_of_mine() {
    let mine_locations = vec![(1, 1)];
    let result = minesweeper::get_field_value(10, 10, 1, 1, &mine_locations);
    assert!(result.is_err());
    assert_eq!(GameError::MineHasNoValue, result.err().unwrap());
}

//     0 1 2 3 4 5
//     - - - - - -
// 0 | 1 2 3 2 3 M
// 1 | 2 M M M 5 M
// 2 | 3 M 8 M 6 M
// 3 | 2 M M M 5 M
// 4 | 1 2 3 2 4 M
// 5 | 0 0 0 0 2 M
#[test]
fn get_value_general_test() {
    let width = 6;
    let height = 6;
    let mine_locations = vec![
        (0, 5),
        (1, 1),
        (1, 2),
        (1, 3),
        (1, 5),
        (2, 1),
        (2, 3),
        (2, 5),
        (3, 1),
        (3, 2),
        (3, 3),
        (3, 5),
        (4, 5),
        (5, 5),
    ];
    let expected_values = vec![
        (0, 0, 1),
        (0, 1, 2),
        (0, 2, 3),
        (0, 3, 2),
        (0, 4, 3),
        (1, 0, 2),
        (1, 4, 5),
        (2, 0, 3),
        (2, 2, 8),
        (2, 4, 6),
        (3, 0, 2),
        (3, 4, 5),
        (4, 0, 1),
        (4, 1, 2),
        (4, 2, 3),
        (4, 3, 2),
        (4, 4, 4),
        (5, 0, 0),
        (5, 1, 0),
        (5, 2, 0),
        (5, 3, 0),
        (5, 4, 2),
    ];
    for (row, col, expected_value) in &expected_values {
        assert_eq!(
            *expected_value,
            minesweeper::get_field_value(height, width, *row, *col, &mine_locations).unwrap()
        )
    }
}
