use vstd::prelude::*;

use crate::board::{BoardIndex, Direction, PlayerBoard};

verus! {

/// The whole game: both players' halves of the board, whose turn it is,
/// and what that player has to choose next.
#[derive(Clone, Copy, Debug)]
pub struct GameState {
    pub boards: [PlayerBoard; 2],
    pub current_player: usize,
    pub phase: TurnPhase,
}

#[derive(Clone, Copy, Debug)]
pub enum TurnPhase {
    SelectPit,
    SelectDirection { pit: BoardIndex },
}

/// A player's choice: a pit to sow from, or the direction to go on in.
#[derive(Clone, Copy, Debug)]
pub enum Action {
    Pit(usize),
    Direction(Direction),
}

#[derive(Debug)]
pub enum ApplyResult {
    Ongoing(GameState),
    GameOver { winner: usize },
}

impl GameState {
    /// The board of the player to move, then the other player's.
    pub fn sides(&self) -> (r: (PlayerBoard, PlayerBoard))
        requires
            self.current_player < 2,
        ensures
            r.0 == self.boards[self.current_player as int],
            r.1 == self.boards[1 - self.current_player],
    {
        (self.boards[self.current_player], self.boards[1 - self.current_player])
    }

    /// Both boards as a game starts, player 0 to choose a pit.
    pub fn new() -> (r: Self)
        ensures
            r.boards[0]@ == Seq::new(16, |i: int| if i < 8 { 4nat } else { 0nat }),
            r.boards[1]@ == Seq::new(16, |i: int| if i < 8 { 4nat } else { 0nat }),
            r.current_player == 0,
            r.phase is SelectPit,
    {
        GameState {
            boards: [PlayerBoard::new(), PlayerBoard::new()],
            current_player: 0,
            phase: TurnPhase::SelectPit,
        }
    }
}

} // verus!
