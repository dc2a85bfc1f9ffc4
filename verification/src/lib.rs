mod board;
mod engine;
mod game;
mod move_source;
mod state;

pub use board::{BoardIndex, Direction, GameError, PlayerBoard, Row, X_SIZE};
pub use engine::{apply, apply_within};
pub use game::{direction_action, pit_action, Answer, Choice, Game, TurnEvent};
pub use move_source::{direction_from_answer, pit_from_answer, MoveSource, RandomInput};
pub use state::{Action, ApplyResult, GameState, TurnPhase};
