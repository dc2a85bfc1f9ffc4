use igisoro::{
    apply, apply_within, Action, ApplyResult, Direction, GameError, GameState, PlayerBoard, Row,
    TurnPhase,
};

fn position(cp_inner: [u8; 8], cp_outer: [u8; 8], opp_inner: [u8; 8], opp_outer: [u8; 8]) -> GameState {
    let mut state = GameState::new();
    state.boards[0] = PlayerBoard::from_arrays(cp_inner, cp_outer);
    state.boards[1] = PlayerBoard::from_arrays(opp_inner, opp_outer);
    state
}

fn seeds(state: &GameState) -> u32 {
    state
        .boards
        .iter()
        .flat_map(|b| b[Row::Inner].iter().chain(b[Row::Outer].iter()).copied().collect::<Vec<u8>>())
        .map(|s| s as u32)
        .sum()
}

fn ongoing(r: Result<ApplyResult, GameError>) -> GameState {
    match r {
        Ok(ApplyResult::Ongoing(s)) => s,
        other => panic!("expected the game to go on, got {:?}", other),
    }
}

#[test]
fn pit_off_the_board_is_refused() {
    assert!(matches!(apply(GameState::new(), Action::Pit(16)), Err(GameError::InvalidPitIdx)));
    assert!(matches!(apply(GameState::new(), Action::Pit(100)), Err(GameError::InvalidPitIdx)));
}

#[test]
fn pit_with_one_seed_is_refused() {
    let state = position([1, 4, 4, 4, 4, 4, 4, 4], [0; 8], [4; 8], [0; 8]);
    assert!(matches!(apply(state, Action::Pit(0)), Err(GameError::InvalidMove)));
}

#[test]
fn direction_when_a_pit_is_due_is_refused() {
    let r = apply(GameState::new(), Action::Direction(Direction::Forward));
    assert!(matches!(r, Err(GameError::InvalidMove)));
}

#[test]
fn pit_when_a_direction_is_due_is_refused() {
    let mut state = GameState::new();
    state.phase = TurnPhase::SelectDirection { pit: igisoro::BoardIndex::new(6).unwrap() };
    assert!(matches!(apply(state, Action::Pit(3)), Err(GameError::InvalidMove)));
}

#[test]
fn opening_move_relays_and_passes_the_turn() {
    // Pit 0 holds 4 seeds: they reach pits 1..4; pit 4 then holds 5 and the
    // sowing relays on until it ends in an empty pit.
    let state = GameState::new();
    let next = ongoing(apply(state, Action::Pit(0)));
    assert_eq!(next.current_player, 1);
    assert!(matches!(next.phase, TurnPhase::SelectPit));
    assert_eq!(seeds(&next), 64);
    assert_eq!(next.boards[1][Row::Inner], [4; 8]);
}

#[test]
fn relay_continues_from_a_full_pit() {
    // 2 seeds from pit 0 land in pits 1 and 2; pit 2 held 1 so holds 2 now,
    // and the relay sows it into pits 3 and 4, ending in the empty pit 4.
    let state = position([2, 0, 1, 0, 0, 0, 0, 0], [0; 8], [4; 8], [0; 8]);
    let next = ongoing(apply(state, Action::Pit(0)));
    assert_eq!(next.boards[0][Row::Inner], [0, 1, 0, 1, 1, 0, 0, 0]);
    assert_eq!(next.current_player, 1);
}

#[test]
fn sowing_wraps_from_outer_row_to_inner_row() {
    let state = position([0; 8], [0, 0, 0, 0, 0, 0, 0, 3], [4; 8], [0; 8]);
    // Pit 15 with 3 seeds: pits 0, 1, 2 get one each.
    let next = ongoing(apply(state, Action::Pit(15)));
    assert_eq!(next.boards[0][Row::Inner], [1, 1, 1, 0, 0, 0, 0, 0]);
    assert_eq!(next.boards[0][Row::Outer], [0; 8]);
}

fn reversing_position() -> GameState {
    // Pit 6 holds 2 seeds; walking 2 pits back reaches pit 4, which holds a
    // seed while the opponent's column 4 is full: the player may reverse.
    position([0, 0, 0, 0, 1, 0, 2, 0], [0; 8], [4, 0, 0, 0, 1, 0, 0, 0], [0, 0, 0, 0, 1, 0, 0, 0])
}

#[test]
fn reversible_pit_asks_for_a_direction() {
    let next = ongoing(apply(reversing_position(), Action::Pit(6)));
    assert_eq!(next.current_player, 0);
    match next.phase {
        TurnPhase::SelectDirection { pit } => assert_eq!(pit.value(), 6),
        TurnPhase::SelectPit => panic!("a direction should be due"),
    }
    assert_eq!(next.boards[0][Row::Inner], [0, 0, 0, 0, 1, 0, 2, 0]);
}

#[test]
fn sowing_in_reverse() {
    let asked = ongoing(apply(reversing_position(), Action::Pit(6)));
    // Reverse: pits 5 and 4 get a seed; pit 4 now holds 2 and relays into
    // pits 3 and 2, ending in the empty pit 2.
    let next = ongoing(apply(asked, Action::Direction(Direction::Reverse)));
    assert_eq!(next.boards[0][Row::Inner], [0, 0, 1, 1, 0, 1, 0, 0]);
    assert_eq!(next.current_player, 1);
    assert_eq!(seeds(&next), seeds(&asked));
}

#[test]
fn sowing_forward_after_the_choice() {
    let asked = ongoing(apply(reversing_position(), Action::Pit(6)));
    // Forward: pits 7 and 8 get a seed; pit 8 was empty.
    let next = ongoing(apply(asked, Action::Direction(Direction::Forward)));
    assert_eq!(next.boards[0][Row::Inner], [0, 0, 0, 0, 1, 0, 0, 1]);
    assert_eq!(next.boards[0][Row::Outer], [1, 0, 0, 0, 0, 0, 0, 0]);
    assert_eq!(next.current_player, 1);
}

#[test]
fn capture_keeps_all_seeds_on_the_board() {
    let state = position([3, 0, 0, 2, 0, 0, 0, 0], [0; 8], [0, 0, 0, 0, 2, 4, 4, 4], [0, 0, 0, 0, 2, 0, 0, 0]);
    let before = seeds(&state);
    let next = ongoing(apply(state, Action::Pit(0)));
    // Pit 3 held 3 seeds after the sowing; the 4 captured seeds go from
    // pit 3 into pits 4..7.
    assert_eq!(next.boards[0][Row::Inner], [0, 1, 1, 3, 1, 1, 1, 1]);
    assert_eq!(next.boards[1][Row::Inner], [0, 0, 0, 0, 0, 4, 4, 4]);
    assert_eq!(next.boards[1][Row::Outer], [0; 8]);
    assert_eq!(seeds(&next), before);
}

#[test]
fn game_over_names_the_mover() {
    let state = position([2, 0, 0, 0, 0, 0, 0, 0], [0; 8], [1; 8], [1; 8]);
    assert!(matches!(apply(state, Action::Pit(0)), Ok(ApplyResult::GameOver { winner: 0 })));
}

#[test]
fn second_player_moves_on_own_board() {
    let mut state = GameState::new();
    state.current_player = 1;
    state.boards[0] = PlayerBoard::from_arrays([1; 8], [1; 8]);
    state.boards[1] = PlayerBoard::from_arrays([2, 0, 0, 0, 0, 0, 0, 0], [0; 8]);
    assert!(matches!(apply(state, Action::Pit(0)), Ok(ApplyResult::GameOver { winner: 1 })));
}

#[test]
fn apply_within_agrees_with_apply() {
    let state = GameState::new();
    let a = ongoing(apply(state, Action::Pit(5)));
    let b = ongoing(apply_within(state, Action::Pit(5), 1_000).unwrap());
    assert_eq!(a.boards[0][Row::Inner], b.boards[0][Row::Inner]);
    assert_eq!(a.boards[0][Row::Outer], b.boards[0][Row::Outer]);
    assert_eq!(a.boards[1][Row::Inner], b.boards[1][Row::Inner]);
    assert_eq!(a.current_player, b.current_player);
}

#[test]
fn apply_within_without_fuel() {
    // No step is allowed: a move that needs one is not finished ...
    assert!(apply_within(GameState::new(), Action::Pit(0), 0).is_none());
    // ... but a refusal comes before any step.
    assert!(matches!(
        apply_within(GameState::new(), Action::Pit(16), 0),
        Some(Err(GameError::InvalidPitIdx))
    ));
    // One step is enough for a sowing that ends in an empty pit.
    let state = position([2, 0, 0, 0, 0, 0, 0, 0], [0; 8], [4; 8], [0; 8]);
    assert!(apply_within(state, Action::Pit(0), 1).is_some());
}

#[test]
fn endless_relay_never_ends() {
    // These 20 seeds relay from pit 8 round the board forever.
    let state = position([2, 1, 0, 2, 1, 0, 2, 1], [2, 2, 3, 1, 0, 2, 1, 0], [0; 8], [0; 8]);
    assert!(apply_within(state, Action::Pit(8), 100_000).is_none());
}
