use std::cell::RefCell;
use std::rc::Rc;

use igisoro::{
    direction_action, direction_from_answer, pit_action, pit_from_answer, Answer, Choice, Action, BoardIndex, Direction, Game, GameError, GameState, MoveSource, PlayerBoard,
    RandomInput, Row, TurnEvent, TurnPhase,
};

fn seeds(state: &GameState) -> u32 {
    let mut n = 0u32;
    for b in state.boards.iter() {
        for &s in b[Row::Inner].iter().chain(b[Row::Outer].iter()) {
            n += s as u32;
        }
    }
    n
}

/// A player who follows a script.
struct Script {
    pits: Vec<usize>,
    dirs: Vec<Result<Direction, GameError>>,
}

impl MoveSource for Script {
    fn pick_pit(&mut self, _player: &PlayerBoard, _opponent: &PlayerBoard) -> BoardIndex {
        BoardIndex::new(self.pits.remove(0)).unwrap()
    }

    fn pick_direction(&mut self, _player: &PlayerBoard, _opponent: &PlayerBoard) -> Result<Direction, GameError> {
        self.dirs.remove(0)
    }
}

#[test]
fn new_game_starts_at_the_opening() {
    let game = Game::new(RandomInput, RandomInput);
    assert!(game.winner.is_none());
    let state = game.state();
    assert_eq!(state.current_player, 0);
    assert!(matches!(state.phase, TurnPhase::SelectPit));
    assert_eq!(seeds(state), 64);
}

#[test]
fn first_player_is_asked_for_a_pit() {
    let mut game = Game::new(
        Script { pits: vec![3], dirs: vec![] },
        Script { pits: vec![], dirs: vec![] },
    );
    assert!(matches!(game.choose_action().0, Choice::Play(Action::Pit(3))));
}

#[test]
fn a_played_turn_passes_to_the_other_player() {
    let mut game = Game::new(
        Script { pits: vec![0], dirs: vec![] },
        Script { pits: vec![], dirs: vec![] },
    );
    let action = match game.choose_action().0 {
        Choice::Play(a) => a,
        other => panic!("expected an action, got {:?}", other),
    };
    match game.play(action, 10_000) {
        Some(TurnEvent::TurnOver(state)) => {
            assert_eq!(state.current_player, 1);
            assert_eq!(seeds(&state), 64);
            assert_eq!(game.state().current_player, 1);
        }
        other => panic!("expected the turn to pass, got {:?}", other),
    }
    assert!(game.winner.is_none());
}

#[test]
fn a_refused_move_changes_nothing() {
    let mut game = Game::new(RandomInput, RandomInput);
    assert!(matches!(game.play(Action::Pit(16), 10), Some(TurnEvent::Rejected)));
    assert!(matches!(game.play(Action::Direction(Direction::Reverse), 10), Some(TurnEvent::Rejected)));
    assert_eq!(game.state().current_player, 0);
    assert_eq!(game.state().boards[0][Row::Inner], [4; 8]);
    assert!(game.winner.is_none());
}

#[test]
fn a_move_that_needs_more_steps_waits() {
    let mut game = Game::new(RandomInput, RandomInput);
    assert!(game.play(Action::Pit(0), 0).is_none());
    assert_eq!(game.state().current_player, 0);
    assert_eq!(game.state().boards[0][Row::Inner], [4; 8]);
}

#[test]
fn random_games_keep_all_seeds() {
    for _ in 0..20 {
        let mut game = Game::new(RandomInput, RandomInput);
        for _ in 0..2_000 {
            let action = match game.choose_action().0 {
                Choice::Play(a) => a,
                Choice::AskAgain => continue,
                Choice::Over(w) => {
                    assert_eq!(game.winner, Some(w));
                    break;
                }
            };
            match game.play(action, 1_000_000) {
                Some(TurnEvent::GameOver(w)) => {
                    assert!(w < 2);
                    assert_eq!(game.winner, Some(w));
                    break;
                }
                Some(TurnEvent::TurnOver(state)) => {
                    assert_eq!(seeds(&state), 64);
                    assert!(state.current_player < 2);
                }
                Some(_) => assert_eq!(seeds(game.state()), 64),
                None => break,
            }
        }
    }
}

#[test]
fn random_pits_lie_on_the_board() {
    let board = PlayerBoard::from_arrays([4; 8], [0; 8]);
    let mut input = RandomInput;
    let mut seen = [false; 16];
    for _ in 0..2_000 {
        let pit = input.pick_pit(&board, &board).value();
        assert!(pit < 16);
        seen[pit] = true;
    }
    assert!(seen.iter().filter(|&&s| s).count() > 1);
}

#[test]
fn random_directions_take_both_ways() {
    let board = PlayerBoard::from_arrays([4; 8], [0; 8]);
    let mut input = RandomInput;
    let mut forward = false;
    let mut reverse = false;
    for _ in 0..2_000 {
        match input.pick_direction(&board, &board) {
            Ok(Direction::Forward) => forward = true,
            Ok(Direction::Reverse) => reverse = true,
            Err(e) => panic!("a random player always gives a direction, got {:?}", e),
        }
    }
    assert!(forward && reverse);
}

/// A player who remembers the inner rows of the boards shown to it: its
/// own, then the opponent's.
struct Watcher {
    shown: Rc<RefCell<Vec<([u8; 8], [u8; 8])>>>,
}

impl MoveSource for Watcher {
    fn pick_pit(&mut self, player: &PlayerBoard, opponent: &PlayerBoard) -> BoardIndex {
        self.shown.borrow_mut().push((player[Row::Inner], opponent[Row::Inner]));
        BoardIndex::new(1).unwrap()
    }

    fn pick_direction(&mut self, _player: &PlayerBoard, _opponent: &PlayerBoard) -> Result<Direction, GameError> {
        Err(GameError::InvalidMove)
    }
}

#[test]
fn the_mover_sees_own_board_first() {
    let shown = Rc::new(RefCell::new(Vec::new()));
    let mut game = Game::new(
        Script { pits: vec![0], dirs: vec![] },
        Watcher { shown: shown.clone() },
    );
    let action = match game.choose_action().0 {
        Choice::Play(a) => a,
        other => panic!("expected an action, got {:?}", other),
    };
    let after = match game.play(action, 10_000) {
        Some(TurnEvent::TurnOver(s)) => s,
        other => panic!("expected the turn to pass, got {:?}", other),
    };
    assert!(matches!(game.choose_action().0, Choice::Play(Action::Pit(1))));
    let seen = shown.borrow();
    assert_eq!(seen.len(), 1);
    assert_eq!(seen[0].0, after.boards[1][Row::Inner]);
    assert_eq!(seen[0].1, after.boards[0][Row::Inner]);
    assert_ne!(seen[0].0, seen[0].1);
}

#[test]
fn sides_give_the_mover_first() {
    let mut state = GameState::new();
    state.boards[0] = PlayerBoard::from_arrays([1; 8], [0; 8]);
    state.boards[1] = PlayerBoard::from_arrays([2; 8], [0; 8]);
    let (mine, theirs) = state.sides();
    assert_eq!(mine[Row::Inner], [1; 8]);
    assert_eq!(theirs[Row::Inner], [2; 8]);
    state.current_player = 1;
    let (mine, theirs) = state.sides();
    assert_eq!(mine[Row::Inner], [2; 8]);
    assert_eq!(theirs[Row::Inner], [1; 8]);
}

#[test]
fn answers_become_actions() {
    assert!(matches!(pit_action(BoardIndex::new(9).unwrap()), Action::Pit(9)));
    assert!(matches!(direction_action(&Ok(Direction::Reverse)), Some(Action::Direction(Direction::Reverse))));
    assert!(direction_action(&Err(GameError::InvalidMove)).is_none());
}

#[test]
fn coins_become_directions() {
    assert_eq!(RandomInput::direction_for(true), Direction::Forward);
    assert_eq!(RandomInput::direction_for(false), Direction::Reverse);
}

#[test]
fn typed_answers_become_directions() {
    assert!(matches!(direction_from_answer(&"y".to_string()), Ok(Direction::Reverse)));
    assert!(matches!(direction_from_answer(&"n".to_string()), Ok(Direction::Forward)));
    assert!(matches!(direction_from_answer(&"yes".to_string()), Err(GameError::InvalidMove)));
    assert!(matches!(direction_from_answer(&"".to_string()), Err(GameError::InvalidMove)));
}

#[test]
fn a_won_game_is_not_played_on() {
    let mut game = Game::new(RandomInput, RandomInput);
    let mut w = None;
    for _ in 0..100_000 {
        match game.choose_action().0 {
            Choice::Play(a) => {
                if let Some(TurnEvent::GameOver(x)) = game.play(a, 1_000_000) {
                    w = Some(x);
                    break;
                }
            }
            Choice::AskAgain => {}
            Choice::Over(_) => panic!("no winner yet"),
        }
    }
    if let Some(x) = w {
        let before = *game.state();
        assert!(matches!(game.choose_action().0, Choice::Over(y) if y == x));
        assert!(matches!(game.play(Action::Pit(0), 1_000), Some(TurnEvent::GameOver(y)) if y == x));
        assert_eq!(game.state().current_player, before.current_player);
        assert_eq!(game.state().boards[0][Row::Inner], before.boards[0][Row::Inner]);
    }
}

#[test]
fn the_answer_comes_back_with_the_choice() {
    let mut game = Game::new(
        Script { pits: vec![5], dirs: vec![] },
        Script { pits: vec![], dirs: vec![] },
    );
    match game.choose_action() {
        (Choice::Play(Action::Pit(5)), Some(Answer::Pit(p))) => assert_eq!(p.value(), 5),
        other => panic!("expected pit 5, got {:?}", other),
    }
}

#[test]
fn typed_numbers_become_pits() {
    assert_eq!(pit_from_answer(&"0".to_string()).unwrap().value(), 0);
    assert_eq!(pit_from_answer(&"15".to_string()).unwrap().value(), 15);
    assert_eq!(pit_from_answer(&"+7".to_string()).unwrap().value(), 7);
    assert_eq!(pit_from_answer(&"007".to_string()).unwrap().value(), 7);
    assert!(pit_from_answer(&"16".to_string()).is_none());
    assert!(pit_from_answer(&"99999999999999999999999".to_string()).is_none());
    assert!(pit_from_answer(&"".to_string()).is_none());
    assert!(pit_from_answer(&"+".to_string()).is_none());
    assert!(pit_from_answer(&"-1".to_string()).is_none());
    assert!(pit_from_answer(&"1a".to_string()).is_none());
    assert!(pit_from_answer(&"I3".to_string()).is_none());
}
