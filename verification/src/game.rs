use vstd::prelude::*;

use crate::board::{total, BoardIndex, Direction, GameError};
use crate::engine::{
    apply_within, continues, first_step, law_move_conserves_seeds, lemma_first_step_wf,
    lemma_relay_end_keeps, move_end, move_ends_within, mover_board,
    opponent_board, Step,
};
use crate::board::has_moves_spec;
use crate::move_source::MoveSource;
use crate::state::{Action, ApplyResult, GameState, TurnPhase};

verus! {

/// A game between two players whose choices come from `input1` (player 0)
/// and `input2` (player 1).
pub struct Game<A: MoveSource, B: MoveSource> {
    state: GameState,
    input1: A,
    input2: B,
    pub winner: Option<usize>,
}

/// What became of a move that a game was given.
#[derive(Debug)]
pub enum TurnEvent {
    /// The move was refused; nothing changed.
    Rejected,
    /// The move stopped for the same player to choose a direction.
    SamePlayer,
    /// The turn passed to the other player; the game now stands at this
    /// position.
    TurnOver(GameState),
    /// The other player cannot move: this player won.
    GameOver(usize),
}

/// What a game asks of the caller next.
#[derive(Debug)]
pub enum Choice {
    /// Play this action.
    Play(Action),
    /// The player gave no valid answer: ask again.
    AskAgain,
    /// The game is over; this player won.
    Over(usize),
}

/// The action of a chosen pit.
pub fn pit_action(pit: BoardIndex) -> (r: Action)
    ensures
        r == Action::Pit(pit.pos() as usize),
        0 <= pit.pos() < 16,
{
    Action::Pit(pit.value())
}

/// The action of a chosen direction; `None` when no valid direction was
/// given.
pub fn direction_action(dir: &Result<Direction, GameError>) -> (r: Option<Action>)
    ensures
        *dir matches Ok(d) ==> r == Some(Action::Direction(d)),
        *dir is Err ==> r is None,
{
    match dir {
        Ok(d) => Some(Action::Direction(*d)),
        Err(_) => None,
    }
}

/// What a game asks next after the player answered `dir`: play that
/// direction, or ask again when no valid direction was given.
pub open spec fn choice_for_direction(dir: Result<Direction, GameError>) -> Choice {
    match dir {
        Ok(d) => Choice::Play(Action::Direction(d)),
        Err(_) => Choice::AskAgain,
    }
}

/// What a player answered when asked.
#[derive(Debug)]
pub enum Answer {
    /// The pit chosen to sow from.
    Pit(BoardIndex),
    /// The direction chosen, or why none was.
    Direction(Result<Direction, GameError>),
}

impl<A: MoveSource, B: MoveSource> View for Game<A, B> {
    type V = GameState;

    /// The position of the game.
    closed spec fn view(&self) -> GameState {
        self.state
    }
}

impl<A: MoveSource, B: MoveSource> Game<A, B> {
    /// The sources of the two players' choices.
    pub closed spec fn players(&self) -> (A, B) {
        (self.input1, self.input2)
    }

    /// The player who won, once the game is over.
    pub closed spec fn won_by(&self) -> Option<usize> {
        self.winner
    }

    /// The game holds a valid position with all 64 seeds of its start.
    pub open spec fn wf(&self) -> bool {
        &&& self@.current_player < 2
        &&& self@.phase matches TurnPhase::SelectDirection { pit } ==> 0 <= pit.pos() < 16
        &&& total(self@.boards[0]@) + total(self@.boards[1]@) == 64
    }

    pub fn new(input1: A, input2: B) -> (g: Self)
        ensures
            g.wf(),
            g.won_by() is None,
            g.players() == (input1, input2),
            g@.current_player == 0,
            g@.phase is SelectPit,
            g@.boards[0]@ == Seq::new(16, |i: int| if i < 8 { 4nat } else { 0nat }),
            g@.boards[1]@ == Seq::new(16, |i: int| if i < 8 { 4nat } else { 0nat }),
    {
        let state = GameState::new();
        proof {
            crate::board::law_new_board_seeds();
        }
        Game { state, input1, input2, winner: None }
    }

    /// The position of the game.
    pub fn state(&self) -> (r: &GameState)
        ensures
            *r == self@,
    {
        &self.state
    }

    /// Asks the player to move for a choice: a pit when a move is to be
    /// started, a direction when one is to be chosen. The player sees their
    /// own board, then the opponent's. Returns what the game asks of the
    /// caller next, with the answer the player gave. Once the game is won
    /// nobody is asked.
    pub fn choose_action(&mut self) -> (r: (Choice, Option<Answer>))
        requires
            old(self).wf(),
        ensures
            final(self)@ == old(self)@,
            final(self).won_by() == old(self).won_by(),
            old(self).won_by() matches Some(w) ==> r == (Choice::Over(w), None::<Answer>)
                && final(self).players() == old(self).players(),
            old(self)@.current_player == 0 ==> final(self).players().1 == old(self).players().1,
            old(self)@.current_player == 1 ==> final(self).players().0 == old(self).players().0,
            old(self).won_by() is None && old(self)@.phase is SelectPit ==> (r.1 matches Some(
                Answer::Pit(p),
            ) && 0 <= p.pos() < 16 && r.0 == Choice::Play(Action::Pit(p.pos() as usize))),
            old(self).won_by() is None && old(self)@.phase is SelectDirection ==> (r.1 matches Some(
                Answer::Direction(d),
            ) && r.0 == choice_for_direction(d)),
    {
        if let Some(w) = self.winner {
            return (Choice::Over(w), None);
        }
        let me = self.state.current_player;
        let (mine, theirs) = self.state.sides();
        match self.state.phase {
            TurnPhase::SelectPit => {
                let pit = if me == 0 {
                    self.input1.pick_pit(&mine, &theirs)
                } else {
                    self.input2.pick_pit(&mine, &theirs)
                };
                (Choice::Play(pit_action(pit)), Some(Answer::Pit(pit)))
            },
            TurnPhase::SelectDirection { .. } => {
                let dir = if me == 0 {
                    self.input1.pick_direction(&mine, &theirs)
                } else {
                    self.input2.pick_direction(&mine, &theirs)
                };
                let choice = match direction_action(&dir) {
                    Some(action) => Choice::Play(action),
                    None => Choice::AskAgain,
                };
                (choice, Some(Answer::Direction(dir)))
            },
        }
    }

    /// Plays `action`, allowing the move at most `fuel` steps; `None`, with
    /// the game unchanged, when it needs more. A game that is won is not
    /// played on: it answers who won and stays as it is.
    pub fn play(&mut self, action: Action, fuel: u64) -> (r: Option<TurnEvent>)
        requires
            old(self).wf(),
        ensures
            final(self).wf(),
            final(self).players() == old(self).players(),
            old(self).won_by() matches Some(w) ==> r == Some(TurnEvent::GameOver(w))
                && final(self)@ == old(self)@ && final(self).won_by() == old(self).won_by(),
            old(self).won_by() is None ==> (r is None <==> !move_ends_within(old(self)@, action, fuel as nat)),
            r is None ==> final(self)@ == old(self)@ && final(self).won_by() == old(self).won_by(),
            old(self).won_by() is None ==> (r matches Some(e) ==> turn_event(
                old(self)@,
                move_end(old(self)@, action, fuel as nat),
                e,
                final(self)@,
            ) && (e matches TurnEvent::GameOver(w) ==> final(self).won_by() == Some(w)) && (!(
            e is GameOver) ==> final(self).won_by() == old(self).won_by())),
    {
        proof {
            broadcast use crate::board::lemma_board_view;
            law_move_conserves_seeds(self.state, action, fuel as nat);
            lemma_first_step_wf(self.state, action);
            lemma_relay_end_keeps(
                mover_board(self.state),
                opponent_board(self.state),
                first_step(self.state, action),
                fuel as nat,
            );
        }
        if let Some(w) = self.winner {
            return Some(TurnEvent::GameOver(w));
        }
        let before = self.state.current_player;
        match apply_within(self.state, action, fuel) {
            None => None,
            Some(Ok(ApplyResult::Ongoing(next))) => {
                self.state = next;
                if next.current_player != before {
                    Some(TurnEvent::TurnOver(next))
                } else {
                    Some(TurnEvent::SamePlayer)
                }
            },
            Some(Ok(ApplyResult::GameOver { winner })) => {
                self.winner = Some(winner);
                Some(TurnEvent::GameOver(winner))
            },
            Some(Err(_)) => Some(TurnEvent::Rejected),
        }
    }
}

/// `e` reports the move of `state` that stopped at `end`, and `after` is
/// the position the game is left at.
pub open spec fn turn_event(state: GameState, end: (Seq<nat>, Seq<nat>, Step), e: TurnEvent, after: GameState) -> bool {
    let (cp, opp, step) = end;
    let me = state.current_player as int;
    match step {
        Step::Failed { .. } => e is Rejected && after == state,
        Step::NeedDirection { pit } => {
            &&& e is SamePlayer
            &&& continues(after, state, cp, opp, me)
            &&& after.phase matches TurnPhase::SelectDirection { pit: p }
            &&& p.pos() == pit
        },
        Step::End => {
            if has_moves_spec(opp) {
                &&& e == TurnEvent::TurnOver(after)
                &&& continues(after, state, cp, opp, 1 - me)
                &&& after.phase is SelectPit
            } else {
                e == TurnEvent::GameOver(me as usize) && after == state
            }
        },
        _ => false,
    }
}

} // verus!
