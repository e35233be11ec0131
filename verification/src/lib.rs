//! A verified Minesweeper board engine.
//!
//! The library owns the grid of cells, decides what happens when a player
//! opens or flags a cell, and exposes the minimum state a presentation layer
//! needs to render the board and report a win or a loss.

pub mod counting;
pub mod field;
pub mod game;
pub mod geometry;
pub mod laws;
pub mod opening;
pub mod results;
pub mod table;
pub mod visiter;

pub use field::{FieldInfo, FieldInner, FieldOpenResult, FieldState, FieldType};
pub use game::{Game, GameLevel, GameState};
pub use geometry::{check_number_of_fields, check_sizes, generate_fields, get_field_value, get_neighbor_fields};
pub use results::{FlagResult, GameError, OpenInfo, OpenResult, OpenedFields};
pub use table::BasicTable;
pub use visiter::FieldVisiter;
