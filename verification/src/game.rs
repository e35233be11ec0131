//! The game session around one board: a three-state guard (not started,
//! running, stopped) that forbids moves once the game has ended, and an
//! elapsed-time clock that runs from the first move to the win or the loss.
//!
//! The clock accumulates readings of the monotonic `std::time::Instant`,
//! taken on trust through the wrappers below; nothing is promised about time.

use vstd::prelude::*;

use crate::field::FieldInfo;
use crate::geometry::{dims_fit, in_bounds, is_neighbor, sizes_ok};
use crate::opening::{boomed, chord_ready, newly_opened, nbr_of_new_empty, states_monotone};
use crate::results::{FlagResult, GameError, OpenInfo, OpenResult};
use crate::table::BasicTable;

verus! {

/// Declaration of the monotonic clock's instant type so that it can stand in
/// a field. Values of it are read only through the wrappers below.
#[verifier::external_type_specification]
#[verifier::external_body]
pub struct ExInstant(std::time::Instant);

/// Relies on std::time::Instant::now: a reading of the monotonic clock.
/// Nothing about time is promised, and the call never panics.
#[verifier::external_body]
fn instant_now() -> std::time::Instant {
    std::time::Instant::now()
}

/// Relies on std::time::Instant::elapsed: the time since the reading, which
/// the standard library documents as monotonic and saturating to zero, so the
/// call never panics; Duration::as_nanos converts the result. Nothing about
/// the value is promised.
#[verifier::external_body]
fn instant_elapsed_nanos(t: &std::time::Instant) -> u128 {
    t.elapsed().as_nanos()
}

/// The elapsed-time clock of one session: intervals between `start` and
/// `stop` accumulate; `elapsed_nanos` adds the running interval, if any.
/// Built on the monotonic clock, so no reading can panic; nothing about the
/// values is promised, since nothing true can be said of time.
struct Stopwatch {
    start_time: Option<std::time::Instant>,
    accumulated_nanos: u128,
}

impl Stopwatch {
    /// A stopwatch that is not running, with nothing accumulated.
    fn new() -> Stopwatch {
        Stopwatch { start_time: None, accumulated_nanos: 0 }
    }

    /// Begin the measurement; a second start has no effect.
    fn start(&mut self) {
        if self.start_time.is_none() {
            self.start_time = Some(instant_now());
        }
    }

    /// End the measurement and accumulate the interval; a stop without a
    /// start has no effect. The sum saturates rather than overflow.
    fn stop(&mut self) {
        match &self.start_time {
            Some(t) => {
                let e = instant_elapsed_nanos(t);
                if e <= u128::MAX - self.accumulated_nanos {
                    self.accumulated_nanos = self.accumulated_nanos + e;
                } else {
                    self.accumulated_nanos = u128::MAX;
                }
                self.start_time = None;
            },
            None => {},
        }
    }

    /// The accumulated measurement plus the running interval, in nanoseconds.
    fn elapsed_nanos(&self) -> u128 {
        match &self.start_time {
            Some(t) => {
                let e = instant_elapsed_nanos(t);
                if e <= u128::MAX - self.accumulated_nanos {
                    self.accumulated_nanos + e
                } else {
                    u128::MAX
                }
            },
            None => self.accumulated_nanos,
        }
    }
}

/// The standard board sizes.
#[derive(Clone, Copy, Eq, PartialEq, Structural, Debug)]
pub enum GameLevel {
    Beginner,
    Intermediate,
    Expert,
}

/// The session guard: moves are accepted until the game stops.
#[derive(Clone, Copy, Eq, PartialEq, Structural, Debug)]
pub enum GameState {
    NotStarted,
    Started,
    Stopped { win: bool },
}

/// One game: a board, the clock around it, and the session guard.
pub struct Game {
    table: BasicTable,
    stopwatch: Stopwatch,
    state: GameState,
}

impl Game {
    pub closed spec fn spec_table(self) -> BasicTable {
        self.table
    }

    pub closed spec fn spec_state(self) -> GameState {
        self.state
    }

    pub open spec fn wf(self) -> bool {
        self.spec_table().wf()
    }

    /// A board of the standard size for the level, with the clock not yet
    /// running.
    pub fn new(level: GameLevel) -> (r: Game)
        ensures
            r.wf(),
            r.spec_state() is NotStarted,
            r.spec_table().opened_count() == 0,
            level is Beginner ==> r.spec_table().spec_height() == 10
                && r.spec_table().spec_width() == 10 && r.spec_table().mines().len() == 10,
            level is Intermediate ==> r.spec_table().spec_height() == 16
                && r.spec_table().spec_width() == 16 && r.spec_table().mines().len() == 25,
            level is Expert ==> r.spec_table().spec_height() == 16
                && r.spec_table().spec_width() == 30 && r.spec_table().mines().len() == 99,
    {
        let attempt = match level {
            GameLevel::Beginner => Game::new_custom(10, 10, 10),
            GameLevel::Intermediate => Game::new_custom(16, 16, 25),
            GameLevel::Expert => Game::new_custom(16, 30, 99),
        };
        match attempt {
            Ok(game) => game,
            Err(_) => {
                // unreachable: every standard size passes validation
                proof {
                    assert(false);
                }
                vstd::pervasive::unreached()
            },
        }
    }

    /// A board with chosen sizes; fails as board construction does.
    pub fn new_custom(height: i64, width: i64, number_of_mines: i64) -> (r: Result<
        Game,
        GameError,
    >)
        ensures
            r is Ok <==> (sizes_ok(height, width, number_of_mines as int) && height > 0 && width
                > 0),
            !dims_fit(height, width) ==> r == Err::<Game, GameError>(GameError::TooManyFields),
            dims_fit(height, width) && number_of_mines > height * width - 1 ==> r == Err::<
                Game,
                GameError,
            >(GameError::TooManyMines),
            dims_fit(height, width) && number_of_mines <= height * width - 1 && number_of_mines
                < 1 ==> r == Err::<Game, GameError>(GameError::TooFewMines),
            r is Ok ==> {
                &&& r->Ok_0.wf()
                &&& r->Ok_0.spec_state() is NotStarted
                &&& r->Ok_0.spec_table().spec_height() == height
                &&& r->Ok_0.spec_table().spec_width() == width
                &&& r->Ok_0.spec_table().mines().len() == number_of_mines
                &&& r->Ok_0.spec_table().opened_count() == 0
            },
    {
        let table = BasicTable::new(height, width, number_of_mines)?;
        Ok(Game { table, stopwatch: Stopwatch::new(), state: GameState::NotStarted })
    }

    /// The session guard: start the clock on the first move; refuse moves once
    /// the game has stopped.
    fn start_game_if_needed(&mut self) -> (r: Result<(), GameError>)
        ensures
            final(self).spec_table() == old(self).spec_table(),
            old(self).spec_state() is Stopped ==> r == Err::<(), GameError>(
                GameError::GameAlreadyStopped,
            ) && final(self).spec_state() == old(self).spec_state(),
            !(old(self).spec_state() is Stopped) ==> r == Ok::<(), GameError>(()) && final(self).spec_state() is Started,
    {
        match self.state {
            GameState::Started => Ok(()),
            GameState::NotStarted => {
                self.stopwatch.start();
                self.state = GameState::Started;
                Ok(())
            },
            GameState::Stopped { win: _ } => Err(GameError::GameAlreadyStopped),
        }
    }

    /// Stop the clock and record the outcome.
    fn stop_game(&mut self, win: bool)
        ensures
            final(self).spec_table() == old(self).spec_table(),
            final(self).spec_state() == (GameState::Stopped { win }),
    {
        self.stopwatch.stop();
        self.state = GameState::Stopped { win };
    }

    /// Record a win or a loss in the session guard; any other outcome keeps
    /// playing.
    fn handle_open_info(&mut self, info: &OpenInfo)
        ensures
            final(self).spec_table() == old(self).spec_table(),
            info.result is WINNER ==> final(self).spec_state() == (GameState::Stopped {
                win: true,
            }),
            info.result is Boom ==> final(self).spec_state() == (GameState::Stopped {
                win: false,
            }),
            !(info.result is WINNER) && !(info.result is Boom) ==> final(self).spec_state()
                == old(self).spec_state(),
    {
        match info.result {
            OpenResult::WINNER => self.stop_game(true),
            OpenResult::Boom => self.stop_game(false),
            _ => {},
        }
    }

    /// Open a cell, through the session guard: the first move starts the
    /// clock, a win
    /// or a loss stops it, and a stopped game refuses the move.
    pub fn open(&mut self, row: i64, col: i64) -> (r: Result<OpenInfo, GameError>)
        requires
            old(self).wf(),
        ensures
            final(self).wf(),
            final(self).spec_table().spec_height() == old(self).spec_table().spec_height(),
            final(self).spec_table().spec_width() == old(self).spec_table().spec_width(),
            final(self).spec_table().mines().len() == old(self).spec_table().mines().len(),
            old(self).spec_state() is Stopped ==> r == Err::<OpenInfo, GameError>(
                GameError::GameAlreadyStopped,
            ) && final(self).spec_table() == old(self).spec_table() && final(self).spec_state()
                == old(self).spec_state(),
            !(old(self).spec_state() is Stopped) ==> {
                &&& (!in_bounds(
                    old(self).spec_table().spec_height(),
                    old(self).spec_table().spec_width(),
                    row,
                    col,
                ) <==> r == Err::<OpenInfo, GameError>(GameError::InvalidIndex))
                &&& (r is Err ==> final(self).spec_table() == old(self).spec_table() && final(self).spec_state() is Started)
                &&& states_monotone(old(self).spec_table(), final(self).spec_table())
                &&& (r is Ok ==> {
                    let info = r->Ok_0;
                    &&& ((old(self).spec_table().cell(row, col).state is Flagged)
                        <==> info.result is IsFlagged)
                    &&& (info.result is IsFlagged ==> final(self).spec_table() == old(self).spec_table() && info.newly_opened_fields.spec_len() == 0)
                    &&& (old(self).spec_table().opened_count() == 0 ==> !(info.result is Boom))
                    &&& (info.result is Boom <==> boomed(
                        old(self).spec_table(),
                        final(self).spec_table(),
                    ))
                    &&& (info.result is Boom ==> info.newly_opened_fields.spec_len() == old(self).spec_table().spec_height() * old(self).spec_table().spec_width() && forall|rr: i64, cc: i64|
                        #[trigger] info.newly_opened_fields.spec_contains(rr, cc) <==> in_bounds(
                            old(self).spec_table().spec_height(),
                            old(self).spec_table().spec_width(),
                            rr,
                            cc,
                        ))
                    &&& (!(info.result is Boom) && !(info.result is IsFlagged) ==> forall|
                        rr: i64,
                        cc: i64,
                    |
                        #[trigger] info.newly_opened_fields.spec_contains(rr, cc) <==> (
                        newly_opened(old(self).spec_table(), final(self).spec_table(), rr, cc) || (
                        info.result is WINNER && final(self).spec_table().mines().contains(
                            (rr, cc),
                        ))))
                    &&& (forall|rr: i64, cc: i64|
                        in_bounds(
                            old(self).spec_table().spec_height(),
                            old(self).spec_table().spec_width(),
                            rr,
                            cc,
                        ) && #[trigger] info.newly_opened_fields.spec_contains(rr, cc)
                            ==> info.newly_opened_fields.spec_at(rr, cc) == final(self).spec_table().cell(rr, cc).field_type)
                    &&& (!(info.result is IsFlagged) ==> final(self).spec_table().cell(
                        row,
                        col,
                    ).state is Opened)
                    &&& (!(info.result is IsFlagged) ==> forall|rr: i64, cc: i64|
                        #[trigger] newly_opened(
                            old(self).spec_table(),
                            final(self).spec_table(),
                            rr,
                            cc,
                        ) ==> ((rr, cc) == (row, col) || nbr_of_new_empty(
                            old(self).spec_table(),
                            final(self).spec_table(),
                            rr,
                            cc,
                        )))
                    &&& forall|a: (i64, i64), b: (i64, i64)|
                        #[trigger] newly_opened(
                            old(self).spec_table(),
                            final(self).spec_table(),
                            a.0,
                            a.1,
                        ) && final(self).spec_table().cell(a.0, a.1).field_type is Empty
                            && in_bounds(
                            old(self).spec_table().spec_height(),
                            old(self).spec_table().spec_width(),
                            b.0,
                            b.1,
                        ) && #[trigger] is_neighbor(a.0, a.1, b.0, b.1) && old(self).spec_table().cell(b.0, b.1).state is Closed ==> final(self).spec_table().cell(
                            b.0,
                            b.1,
                        ).state is Opened
                    &&& (!(info.result is Boom) && !(info.result is IsFlagged) ==> (info.result
                        is WINNER <==> final(self).spec_table().mines().len() + final(self).spec_table().opened_count() == old(self).spec_table().spec_height() * old(self).spec_table().spec_width()))
                    &&& (info.result is WINNER ==> final(self).spec_state()
                        == (GameState::Stopped { win: true }))
                    &&& (info.result is Boom ==> final(self).spec_state() == (GameState::Stopped {
                        win: false,
                    }))
                    &&& (!(info.result is WINNER) && !(info.result is Boom) ==> final(self).spec_state() is Started)
                })
            },
    {
        self.start_game_if_needed()?;
        let info = match self.table.open_field(row, col) {
            Ok(info) => info,
            Err(e) => {
                return Err(e);
            },
        };
        self.handle_open_info(&info);
        Ok(info)
    }

    /// Chord-click, through the same session guard as `open`.
    pub fn open_neighbors(&mut self, row: i64, col: i64) -> (r: Result<OpenInfo, GameError>)
        requires
            old(self).wf(),
        ensures
            final(self).wf(),
            final(self).spec_table().spec_height() == old(self).spec_table().spec_height(),
            final(self).spec_table().spec_width() == old(self).spec_table().spec_width(),
            final(self).spec_table().mines() == old(self).spec_table().mines(),
            old(self).spec_state() is Stopped ==> r == Err::<OpenInfo, GameError>(
                GameError::GameAlreadyStopped,
            ) && final(self).spec_table() == old(self).spec_table() && final(self).spec_state()
                == old(self).spec_state(),
            !(old(self).spec_state() is Stopped) ==> {
                &&& (!in_bounds(
                    old(self).spec_table().spec_height(),
                    old(self).spec_table().spec_width(),
                    row,
                    col,
                ) <==> r == Err::<OpenInfo, GameError>(GameError::InvalidIndex))
                &&& (r is Err ==> final(self).spec_table() == old(self).spec_table() && final(self).spec_state() is Started)
                &&& (r is Ok ==> {
                    let info = r->Ok_0;
                    &&& (!chord_ready(old(self).spec_table(), row, col)
                        ==> final(self).spec_table() == old(self).spec_table() && info.result
                        is Okay && info.newly_opened_fields.spec_len() == 0)
                    &&& (info.result is Boom <==> boomed(
                        old(self).spec_table(),
                        final(self).spec_table(),
                    ))
                    &&& (info.result is Boom ==> info.newly_opened_fields.spec_len() == old(self).spec_table().spec_height() * old(self).spec_table().spec_width() && forall|rr: i64, cc: i64|
                        #[trigger] info.newly_opened_fields.spec_contains(rr, cc) <==> in_bounds(
                            old(self).spec_table().spec_height(),
                            old(self).spec_table().spec_width(),
                            rr,
                            cc,
                        ))
                    &&& (!(info.result is Boom) ==> forall|rr: i64, cc: i64|
                        #[trigger] info.newly_opened_fields.spec_contains(rr, cc) <==> (
                        newly_opened(old(self).spec_table(), final(self).spec_table(), rr, cc) || (
                        info.result is WINNER && final(self).spec_table().mines().contains(
                            (rr, cc),
                        ))))
                    &&& (forall|rr: i64, cc: i64|
                        in_bounds(
                            old(self).spec_table().spec_height(),
                            old(self).spec_table().spec_width(),
                            rr,
                            cc,
                        ) && #[trigger] info.newly_opened_fields.spec_contains(rr, cc)
                            ==> info.newly_opened_fields.spec_at(rr, cc) == final(self).spec_table().cell(rr, cc).field_type)
                    &&& (chord_ready(old(self).spec_table(), row, col) ==> forall|
                        rr: i64,
                        cc: i64,
                    |
                        in_bounds(
                            old(self).spec_table().spec_height(),
                            old(self).spec_table().spec_width(),
                            rr,
                            cc,
                        ) && #[trigger] is_neighbor(row, col, rr, cc) && old(self).spec_table().cell(rr, cc).state is Closed ==> final(self).spec_table().cell(
                            rr,
                            cc,
                        ).state is Opened)
                    &&& forall|a: (i64, i64), b: (i64, i64)|
                        #[trigger] newly_opened(
                            old(self).spec_table(),
                            final(self).spec_table(),
                            a.0,
                            a.1,
                        ) && final(self).spec_table().cell(a.0, a.1).field_type is Empty
                            && in_bounds(
                            old(self).spec_table().spec_height(),
                            old(self).spec_table().spec_width(),
                            b.0,
                            b.1,
                        ) && #[trigger] is_neighbor(a.0, a.1, b.0, b.1) && old(self).spec_table().cell(b.0, b.1).state is Closed ==> final(self).spec_table().cell(
                            b.0,
                            b.1,
                        ).state is Opened
                    &&& (info.result is WINNER ==> final(self).spec_state()
                        == (GameState::Stopped { win: true }))
                    &&& (info.result is Boom ==> final(self).spec_state() == (GameState::Stopped {
                        win: false,
                    }))
                    &&& (!(info.result is WINNER) && !(info.result is Boom) ==> final(self).spec_state() is Started)
                })
            },
    {
        self.start_game_if_needed()?;
        let info = match self.table.open_neighbors(row, col) {
            Ok(info) => info,
            Err(e) => {
                return Err(e);
            },
        };
        self.handle_open_info(&info);
        Ok(info)
    }

    /// Toggle a flag, through the session guard: allowed while the game runs,
    /// refused
    /// once it has stopped.
    pub fn toggle_flag(&mut self, row: i64, col: i64) -> (r: Result<FlagResult, GameError>)
        requires
            old(self).wf(),
        ensures
            final(self).wf(),
            final(self).spec_table().spec_height() == old(self).spec_table().spec_height(),
            final(self).spec_table().spec_width() == old(self).spec_table().spec_width(),
            final(self).spec_table().mines() == old(self).spec_table().mines(),
            final(self).spec_table().opened_count() == old(self).spec_table().opened_count(),
            old(self).spec_state() is Stopped ==> r == Err::<FlagResult, GameError>(
                GameError::GameAlreadyStopped,
            ) && final(self).spec_table() == old(self).spec_table() && final(self).spec_state()
                == old(self).spec_state(),
            !(old(self).spec_state() is Stopped) ==> {
                &&& final(self).spec_state() is Started
                &&& (!in_bounds(
                    old(self).spec_table().spec_height(),
                    old(self).spec_table().spec_width(),
                    row,
                    col,
                ) <==> r == Err::<FlagResult, GameError>(GameError::InvalidIndex))
                &&& (r is Err ==> final(self).spec_table() == old(self).spec_table())
                &&& (r is Ok ==> {
                    &&& (old(self).spec_table().cell(row, col).state is Flagged ==> r == Ok::<
                        FlagResult,
                        GameError,
                    >(FlagResult::FlagRemoved) && final(self).spec_table().cell(
                        row,
                        col,
                    ).state is Closed)
                    &&& (old(self).spec_table().cell(row, col).state is Closed ==> r == Ok::<
                        FlagResult,
                        GameError,
                    >(FlagResult::Flagged) && final(self).spec_table().cell(
                        row,
                        col,
                    ).state is Flagged)
                    &&& (old(self).spec_table().cell(row, col).state is Opened ==> r == Ok::<
                        FlagResult,
                        GameError,
                    >(FlagResult::AlreadyOpened) && final(self).spec_table() == old(self).spec_table())
                    &&& forall|rr: i64, cc: i64|
                        in_bounds(
                            old(self).spec_table().spec_height(),
                            old(self).spec_table().spec_width(),
                            rr,
                            cc,
                        ) && (rr, cc) != (row, col) ==> #[trigger] final(self).spec_table().cell(
                            rr,
                            cc,
                        ) == old(self).spec_table().cell(rr, cc)
                })
            },
    {
        self.start_game_if_needed()?;
        self.table.toggle_flag(row, col)
    }

    pub fn width(&self) -> (r: i64)
        ensures
            r == self.spec_table().spec_width(),
    {
        self.table.width()
    }

    pub fn height(&self) -> (r: i64)
        ensures
            r == self.spec_table().spec_height(),
    {
        self.table.height()
    }

    /// The elapsed play time in nanoseconds: zero before the first move, the
    /// running measurement during play, frozen after the win or the loss.
    /// Nothing about time is verified.
    pub fn get_elapsed(&self) -> u128 {
        self.stopwatch.elapsed_nanos()
    }

    /// The caller-facing view of a cell: the type is hidden unless opened.
    /// Allowed even after the game has stopped. Fails with `InvalidIndex`
    /// exactly when the coordinate is out of bounds.
    pub fn get_field_info(&self, row: i64, col: i64) -> (r: Result<FieldInfo, GameError>)
        requires
            self.wf(),
        ensures
            r is Ok <==> in_bounds(
                self.spec_table().spec_height(),
                self.spec_table().spec_width(),
                row,
                col,
            ),
            r is Err ==> r == Err::<FieldInfo, GameError>(GameError::InvalidIndex),
            r is Ok ==> {
                &&& r->Ok_0.state == self.spec_table().cell(row, col).state
                &&& (self.spec_table().cell(row, col).state is Opened ==> r->Ok_0.field_type
                    == self.spec_table().cell(row, col).field_type)
                &&& (!(self.spec_table().cell(row, col).state is Opened)
                    ==> r->Ok_0.field_type is Empty)
            },
    {
        self.table.get_field_info(row, col)
    }
}

} // verus!
