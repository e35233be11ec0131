use minesweeper::{FlagResult, Game, GameError, GameLevel, OpenResult};

fn check_game_is_already_stopped_error<T: std::fmt::Debug + PartialEq>(
    result: Result<T, GameError>,
) {
    assert!(result.is_err());
    assert_eq!(GameError::GameAlreadyStopped, result.err().unwrap());
}

#[test]
fn game_sizes() {
    let test_cases = vec![
        (Game::new(GameLevel::Beginner), 10, 10),
        (Game::new(GameLevel::Intermediate), 16, 16),
        (Game::new(GameLevel::Expert), 16, 30),
        (Game::new_custom(5, 10, 15).unwrap(), 5, 10),
    ];

    for (game, height, width) in test_cases.iter() {
        assert_eq!(game.height(), *height);
        assert_eq!(game.width(), *width);
    }
}

#[test]
fn winning_stops_game() {
    let mut game = Game::new_custom(10, 10, 99).unwrap();
    let open_info = game.open(0, 0).unwrap();
    assert_eq!(OpenResult::WINNER, open_info.result);
    check_game_is_already_stopped_error(game.open(9, 9));
    check_game_is_already_stopped_error(game.toggle_flag(9, 9));
}

#[test]
fn boom_stops_game() {
    let width = 60;
    let height = 10;
    let number_of_not_mine_fields = height;
    let mut game =
        Game::new_custom(height, width, height * width - number_of_not_mine_fields).unwrap();
    let mut is_boomed = false;
    while !is_boomed {
        for index in 0..height {
            match game.open(index, index) {
                Ok(open_info) => match open_info.result {
                    OpenResult::Boom => {
                        is_boomed = true;
                        break;
                    }
                    OpenResult::Okay => (),
                    _ => break,
                },
                _ => break,
            }
        }
        if !is_boomed {
            game = Game::new_custom(height, width, height * width - number_of_not_mine_fields)
                .unwrap();
        }
    }
    println!("is_boomed {}", is_boomed);
    check_game_is_already_stopped_error(game.open(1, 0));
    check_game_is_already_stopped_error(game.toggle_flag(1, 0));
}

#[test]
fn toggle() {
    let width = 10;
    let height = 10;
    let number_of_mines = 10 * 10 - 2;
    let mut game = Game::new_custom(height, width, number_of_mines).unwrap();
    assert_eq!(FlagResult::Flagged, game.toggle_flag(0, 0).unwrap());
    assert_eq!(FlagResult::FlagRemoved, game.toggle_flag(0, 0).unwrap());
    game.open(0, 0).unwrap();
    assert_eq!(FlagResult::AlreadyOpened, game.toggle_flag(0, 0).unwrap());
    assert_eq!(
        FlagResult::Flagged,
        game.toggle_flag(height - 1, width - 1).unwrap()
    );
    assert_eq!(
        FlagResult::FlagRemoved,
        game.toggle_flag(height - 1, width - 1).unwrap()
    );
}

#[test]
fn custom_game_size_errors() {
    assert_eq!(
        GameError::TooManyMines,
        Game::new_custom(2, 2, 4).err().unwrap()
    );
    assert_eq!(
        GameError::TooFewMines,
        Game::new_custom(2, 2, 0).err().unwrap()
    );
    assert_eq!(
        GameError::TooManyFields,
        Game::new_custom(i64::MAX, 2, 1).err().unwrap()
    );
}

#[test]
fn elapsed_is_zero_before_the_first_move() {
    let game = Game::new(GameLevel::Beginner);
    assert_eq!(0, game.get_elapsed());
}

#[test]
fn field_info_is_hidden_until_opened() {
    let mut game = Game::new_custom(4, 4, 2).unwrap();
    let before = game.get_field_info(2, 2).unwrap();
    assert_eq!(minesweeper::FieldState::Closed, before.state);
    assert_eq!(minesweeper::FieldType::Empty, before.field_type);
    game.open(2, 2).unwrap();
    let after = game.get_field_info(2, 2).unwrap();
    assert_eq!(minesweeper::FieldState::Opened, after.state);
    assert!(game.get_field_info(4, 4).is_err());
}
