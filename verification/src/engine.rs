use vstd::prelude::*;

use crate::board::{
    drop_seeds, fits, has_moves_spec, lemma_board_view, lemma_drop_seeds_grows,
    lemma_fits_by_total, lemma_pit_at_most_total, lemma_total_drop_seeds, lemma_total_sown,
    lemma_total_update, lemma_walk, law_drop_seeds_spread, distance, spread, sown, total, BoardIndex, Direction, GameError, PlayerBoard, Row, SowResult, X_SIZE,
};
use crate::state::{Action, ApplyResult, GameState, TurnPhase};

verus! {

/// Inner-row columns from which a player may choose to sow in reverse.
pub(crate) const REV_POSSIBLE_INNER_PITS: [usize; 2] = [1, 6];

/// Outer-row columns from which a player may choose to sow in reverse.
pub(crate) const REV_POSSIBLE_OUTER_PITS: [usize; 2] = [0, 7];

/// Where a move stands: the pits are numbered as in `BoardIndex`.
pub enum Step {
    /// Seeds are to be sown from `pit`.
    Sowing { pit: usize, dir: Direction },
    /// The opposite column of `pit` is to be captured and sown from `pit`.
    Capture { pit: usize, dir: Direction },
    /// The player has to choose the direction to go on from `pit`.
    NeedDirection { pit: usize },
    /// The player's turn is over.
    End,
    /// The move is refused.
    Failed { err: GameError },
}

/// A move stops at this step.
pub open spec fn is_final(step: Step) -> bool {
    step is NeedDirection || step is End || step is Failed
}

/// The column of the opponent's half that faces inner column `col`.
pub open spec fn mirror(col: int) -> int {
    7 - col
}

/// A sowing that ended in pit `pit` captures: `pit` is in the inner row,
/// holds seeds, and both pits of the opponent's facing column hold seeds.
pub open spec fn capture_possible(pit: int, cp: Seq<nat>, opp: Seq<nat>) -> bool {
    &&& pit < 8
    &&& cp[pit] != 0
    &&& opp[mirror(pit)] > 0
    &&& opp[mirror(pit) + 8] > 0
}

/// The pit reached from `pit` by walking `k` pits in reverse.
pub open spec fn back_pos(pit: int, k: int) -> int {
    (pit - k) % 16
}

/// The player may choose to sow in reverse from `pit`: `pit` is one of the
/// four reversing pits, and walking back from it as many pits as it holds
/// seeds reaches a non-empty inner pit whose column is full on the
/// opponent's side.
pub open spec fn reverse_possible(pit: int, cp: Seq<nat>, opp: Seq<nat>) -> bool {
    let target = back_pos(pit, cp[pit] as int);
    &&& (pit == 1 || pit == 6 || pit == 8 || pit == 15)
    &&& target < 8
    &&& cp[target] != 0
    &&& opp[target] != 0
    &&& opp[target + 8] != 0
}

/// The seeds a capture at `pit` takes from the opponent.
pub open spec fn captured(pit: int, opp: Seq<nat>) -> nat {
    opp[mirror(pit % 8)] + opp[mirror(pit % 8) + 8]
}

/// One step of a move, on the mover's board `cp` and the opponent's `opp`.
/// A capture from an empty pit, which no move reaches, is a `Logic` failure.
pub open spec fn relay_step(cp: Seq<nat>, opp: Seq<nat>, step: Step) -> (Seq<nat>, Seq<nat>, Step) {
    match step {
        Step::Sowing { pit, dir } => {
            if cp[pit as int] <= 1 {
                (cp, opp, Step::Failed { err: GameError::InvalidMove })
            } else {
                let (b, last) = sown(cp, pit as int, dir);
                if b[last] == 0 {
                    (b, opp, Step::Failed { err: GameError::Logic })
                } else if b[last] == 1 {
                    (b, opp, Step::End)
                } else if capture_possible(last, b, opp) {
                    (b, opp, Step::Capture { pit: last as usize, dir })
                } else if reverse_possible(last, b, opp) {
                    (b, opp, Step::NeedDirection { pit: last as usize })
                } else {
                    (b, opp, Step::Sowing { pit: last as usize, dir })
                }
            }
        },
        Step::Capture { pit, dir } => {
            let m = mirror(pit as int % 8);
            let o = opp.update(m, 0).update(m + 8, 0);
            if cp[pit as int] == 0 {
                (cp, o, Step::Failed { err: GameError::Logic })
            } else {
                let (b, last) = drop_seeds(cp, pit as int, dir, captured(pit as int, opp));
                if b[last] >= 2 {
                    (b, o, Step::Sowing { pit: last as usize, dir })
                } else {
                    (b, o, Step::End)
                }
            }
        },
        _ => (cp, opp, step),
    }
}

/// The step can be carried out with every pit holding at most 255 seeds.
pub open spec fn step_fits(cp: Seq<nat>, opp: Seq<nat>, step: Step) -> bool {
    match step {
        Step::Sowing { pit, dir } => cp[pit as int] > 1 ==> fits(sown(cp, pit as int, dir).0),
        Step::Capture { pit, dir } => {
            &&& captured(pit as int, opp) <= 255
            &&& cp[pit as int] != 0 ==> fits(drop_seeds(cp, pit as int, dir, captured(pit as int, opp)).0)
        },
        _ => true,
    }
}

/// The move stops within `n` steps, every pit holding at most 255 seeds
/// on the way.
pub open spec fn ends_within(cp: Seq<nat>, opp: Seq<nat>, step: Step, n: nat) -> bool
    decreases n,
{
    if is_final(step) {
        true
    } else if n == 0 {
        false
    } else {
        let (b, o, s) = relay_step(cp, opp, step);
        step_fits(cp, opp, step) && ends_within(b, o, s, (n - 1) as nat)
    }
}

/// Where the move stands after at most `n` steps.
pub open spec fn relay_end(cp: Seq<nat>, opp: Seq<nat>, step: Step, n: nat) -> (Seq<nat>, Seq<nat>, Step)
    decreases n,
{
    if is_final(step) || n == 0 {
        (cp, opp, step)
    } else {
        let (b, o, s) = relay_step(cp, opp, step);
        relay_end(b, o, s, (n - 1) as nat)
    }
}

/// The board of the player to move.
pub open spec fn mover_board(state: GameState) -> Seq<nat> {
    state.boards[state.current_player as int]@
}

/// The board of the other player.
pub open spec fn opponent_board(state: GameState) -> Seq<nat> {
    state.boards[1 - state.current_player]@
}

/// The first step of the move that `action` starts in `state`.
pub open spec fn first_step(state: GameState, action: Action) -> Step {
    match (action, state.phase) {
        (Action::Pit(idx), TurnPhase::SelectPit) => {
            if idx >= 16 {
                Step::Failed { err: GameError::InvalidPitIdx }
            } else if reverse_possible(idx as int, mover_board(state), opponent_board(state)) {
                Step::NeedDirection { pit: idx }
            } else {
                Step::Sowing { pit: idx, dir: Direction::Forward }
            }
        },
        (Action::Direction(dir), TurnPhase::SelectDirection { pit }) => {
            Step::Sowing { pit: pit.pos() as usize, dir }
        },
        _ => Step::Failed { err: GameError::InvalidMove },
    }
}

/// The move of `action` in `state` stops within `n` steps.
pub open spec fn move_ends_within(state: GameState, action: Action, n: nat) -> bool {
    ends_within(mover_board(state), opponent_board(state), first_step(state, action), n)
}

/// Where the move of `action` in `state` stands after at most `n` steps.
pub open spec fn move_end(state: GameState, action: Action, n: nat) -> (Seq<nat>, Seq<nat>, Step) {
    relay_end(mover_board(state), opponent_board(state), first_step(state, action), n)
}

/// `s` continues the game of `state` with the mover's board `cp`, the
/// opponent's board `opp`, and `player` to act.
pub open spec fn continues(s: GameState, state: GameState, cp: Seq<nat>, opp: Seq<nat>, player: int) -> bool {
    let me = state.current_player as int;
    &&& s.boards[me]@ == cp
    &&& s.boards[1 - me]@ == opp
    &&& s.current_player == player
}

/// `r` is what `apply` reports for a move of `state` that stopped at `end`.
pub open spec fn move_result(state: GameState, end: (Seq<nat>, Seq<nat>, Step), r: Result<ApplyResult, GameError>) -> bool {
    let (cp, opp, step) = end;
    let me = state.current_player as int;
    match step {
        Step::Failed { err } => r == Err::<ApplyResult, GameError>(err),
        Step::NeedDirection { pit } => {
            &&& r matches Ok(ApplyResult::Ongoing(s))
            &&& continues(s, state, cp, opp, me)
            &&& s.phase matches TurnPhase::SelectDirection { pit: p }
            &&& p.pos() == pit
        },
        Step::End => {
            if has_moves_spec(opp) {
                &&& r matches Ok(ApplyResult::Ongoing(s))
                &&& continues(s, state, cp, opp, 1 - me)
                &&& s.phase is SelectPit
            } else {
                r == Ok::<ApplyResult, GameError>(ApplyResult::GameOver { winner: me as usize })
            }
        },
        _ => false,
    }
}

/// The pits that a step names lie on the board, and a capture starts from
/// a non-empty inner pit.
pub open spec fn step_wf(cp: Seq<nat>, step: Step) -> bool {
    match step {
        Step::Sowing { pit, .. } => pit < 16,
        Step::Capture { pit, .. } => pit < 8 && cp[pit as int] != 0,
        Step::NeedDirection { pit } => pit < 16,
        _ => true,
    }
}

/// Can the sowing that ended in `pit` capture the opponent's facing column?
fn is_capture_possible(pit: BoardIndex, cp: &PlayerBoard, opp: &PlayerBoard) -> (r: bool)
    ensures
        r == capture_possible(pit.pos(), cp@, opp@),
{
    let (row, col) = pit.split();
    if row != Row::Inner {
        return false;
    }
    if cp[row][col] == 0 {
        return false;
    }
    let col_mirror = X_SIZE - col - 1;
    opp[Row::Inner][col_mirror] > 0 && opp[Row::Outer][col_mirror] > 0
}

/// May the player choose to sow in reverse from `pit`?
fn is_reverse_possible(pit: BoardIndex, cp: &PlayerBoard, opp: &PlayerBoard) -> (r: bool)
    ensures
        r == reverse_possible(pit.pos(), cp@, opp@),
{
    let (row, col) = pit.split();
    match row {
        Row::Inner => {
            if !(col == REV_POSSIBLE_INNER_PITS[0] || col == REV_POSSIBLE_INNER_PITS[1]) {
                return false;
            }
        },
        Row::Outer => {
            if !(col == REV_POSSIBLE_OUTER_PITS[0] || col == REV_POSSIBLE_OUTER_PITS[1]) {
                return false;
            }
        },
    }
    let seeds = cp[row][col];
    let mut capture_pit = pit;
    let mut i: u8 = 0;
    while i < seeds
        invariant
            i <= seeds,
            capture_pit.pos() == back_pos(pit.pos(), i as int),
        decreases seeds - i,
    {
        capture_pit = capture_pit.step(Direction::Reverse);
        i += 1;
    }
    let (row, col) = capture_pit.split();
    if row != Row::Inner {
        return false;
    }
    if cp[row][col] == 0 {
        return false;
    }
    if opp[Row::Inner][col] == 0 || opp[Row::Outer][col] == 0 {
        return false;
    }
    true
}

/// Carries out one step of a move.
fn advance(cp: &mut PlayerBoard, opp: &mut PlayerBoard, step: Step) -> (next: Step)
    requires
        !is_final(step),
        step_wf(old(cp)@, step),
        step_fits(old(cp)@, old(opp)@, step),
    ensures
        (final(cp)@, final(opp)@, next) == relay_step(old(cp)@, old(opp)@, step),
        step_wf(final(cp)@, next),
{
    proof {
        broadcast use lemma_board_view;
    }
    match step {
        Step::Sowing { pit, dir } => {
            let idx = BoardIndex::new(pit).unwrap();
            match cp.sow(idx, dir) {
                Ok(SowResult::Continue { pit }) => {
                    if is_capture_possible(pit, cp, opp) {
                        Step::Capture { pit: pit.value(), dir }
                    } else if is_reverse_possible(pit, cp, opp) {
                        Step::NeedDirection { pit: pit.value() }
                    } else {
                        Step::Sowing { pit: pit.value(), dir }
                    }
                },
                Ok(SowResult::End) => Step::End,
                Err(e) => Step::Failed { err: e },
            }
        },
        Step::Capture { pit, dir } => {
            let idx = BoardIndex::new(pit).unwrap();
            let (_, col) = idx.split();
            let mirror = BoardIndex::new(X_SIZE - col - 1).unwrap();
            let seeds = opp.take_seeds(mirror);
            match cp.capture(idx, dir, seeds) {
                Ok(SowResult::Continue { pit }) => Step::Sowing { pit: pit.value(), dir },
                Ok(SowResult::End) => Step::End,
                Err(_) => {
                    proof {
                        assert(false);
                    }
                    Step::End
                },
            }
        },
        _ => {
            proof {
                assert(false);
            }
            step
        },
    }
}

/// The first step of the move that `action` starts.
fn first(state: &GameState, action: Action, cp: &PlayerBoard, opp: &PlayerBoard) -> (s: Step)
    requires
        cp@ == mover_board(*state),
        opp@ == opponent_board(*state),
    ensures
        s == first_step(*state, action),
        step_wf(cp@, s),
{
    match (action, state.phase) {
        (Action::Pit(idx), TurnPhase::SelectPit) => match BoardIndex::new(idx) {
            Err(e) => Step::Failed { err: e },
            Ok(pit) => {
                if is_reverse_possible(pit, cp, opp) {
                    Step::NeedDirection { pit: idx }
                } else {
                    Step::Sowing { pit: idx, dir: Direction::Forward }
                }
            },
        },
        (Action::Direction(dir), TurnPhase::SelectDirection { pit }) => {
            Step::Sowing { pit: pit.value(), dir }
        },
        _ => Step::Failed { err: GameError::InvalidMove },
    }
}

/// What a move that stopped at `step`, with the boards `cp` and `opp`,
/// reports.
fn finish(state: GameState, cp: PlayerBoard, opp: PlayerBoard, step: Step) -> (r: Result<ApplyResult, GameError>)
    requires
        state.current_player < 2,
        is_final(step),
        step_wf(cp@, step),
    ensures
        move_result(state, (cp@, opp@, step), r),
{
    let me = state.current_player;
    let other = 1 - me;
    let mut state = state;
    state.boards[me] = cp;
    state.boards[other] = opp;
    match step {
        Step::Failed { err } => Err(err),
        Step::NeedDirection { pit } => {
            state.phase = TurnPhase::SelectDirection { pit: BoardIndex::new(pit).unwrap() };
            Ok(ApplyResult::Ongoing(state))
        },
        _ => {
            let next = 1 - me;
            if !state.boards[next].has_moves() {
                return Ok(ApplyResult::GameOver { winner: me });
            }
            state.current_player = next;
            state.phase = TurnPhase::SelectPit;
            Ok(ApplyResult::Ongoing(state))
        },
    }
}

/// Plays `action` for the player to move: a pit to sow from, or the
/// direction to go on in. The move relays from pit to pit until it stops:
/// the player has to choose a direction, or the turn passes to the
/// opponent, or the opponent can no longer move and the mover wins.
///
/// Some positions relay round the board forever, and a pit holds at most
/// 255 seeds: the move asked for must stop within some number of steps
/// without overflowing a pit. `apply_within` plays any move with a bound
/// on its steps.
pub fn apply(state: GameState, action: Action) -> (r: Result<ApplyResult, GameError>)
    requires
        state.current_player < 2,
        exists|n: nat| move_ends_within(state, action, n),
    ensures
        forall|n: nat| #[trigger]
            move_ends_within(state, action, n) ==> move_result(state, move_end(state, action, n), r),
{
    let me = state.current_player;
    let other = 1 - me;
    let mut cp = state.boards[me];
    let mut opp = state.boards[other];
    let mut step = first(&state, action, &cp, &opp);
    let ghost start = (cp@, opp@, step);
    let ghost mut left: nat = choose|n: nat| move_ends_within(state, action, n);
    let ghost mut done: nat = 0;
    while !is_final_exec(&step)
        invariant
            ends_within(cp@, opp@, step, left),
            step_wf(cp@, step),
            forall|m: nat| #[trigger]
                ends_within(start.0, start.1, start.2, m) ==> m >= done
                    && ends_within(cp@, opp@, step, (m - done) as nat)
                    && relay_end(start.0, start.1, start.2, m)
                    == relay_end(cp@, opp@, step, (m - done) as nat),
        decreases left,
    {
        let ghost before = (cp@, opp@, step);
        step = advance(&mut cp, &mut opp, step);
        proof {
            assert forall|m: nat| #[trigger]
                ends_within(start.0, start.1, start.2, m) implies m >= done + 1
                    && ends_within(cp@, opp@, step, (m - (done + 1)) as nat)
                    && relay_end(start.0, start.1, start.2, m)
                    == relay_end(cp@, opp@, step, (m - (done + 1)) as nat) by {
                assert(ends_within(before.0, before.1, before.2, (m - done) as nat));
            }
            left = (left - 1) as nat;
            done = done + 1;
        }
    }
    let r = finish(state, cp, opp, step);
    assert forall|n: nat| #[trigger] move_ends_within(state, action, n) implies move_result(
        state,
        move_end(state, action, n),
        r,
    ) by {
        assert(ends_within(start.0, start.1, start.2, n));
        assert(relay_end(cp@, opp@, step, (n - done) as nat) == (cp@, opp@, step));
    }
    r
}

/// `step` is one at which a move stops.
fn is_final_exec(step: &Step) -> (r: bool)
    ensures
        r == is_final(*step),
{
    match step {
        Step::Sowing { .. } | Step::Capture { .. } => false,
        _ => true,
    }
}

/// Every step of a move keeps the seeds of both boards together: sowing
/// moves them around the mover's board, and a capture moves the
/// opponent's facing column onto it.
pub proof fn lemma_relay_step_conserves(cp: Seq<nat>, opp: Seq<nat>, step: Step)
    requires
        cp.len() == 16,
        opp.len() == 16,
        step_wf(cp, step),
    ensures
        ({
            let (b, o, s) = relay_step(cp, opp, step);
            &&& b.len() == 16
            &&& o.len() == 16
            &&& total(b) + total(o) == total(cp) + total(opp)
        }),
{
    match step {
        Step::Sowing { pit, dir } => {
            if cp[pit as int] > 1 {
                lemma_total_sown(cp, pit as int, dir);
                lemma_drop_seeds_grows(cp.update(pit as int, 0), pit as int, dir, cp[pit as int]);
            }
        },
        Step::Capture { pit, dir } => {
            let m = mirror(pit as int % 8);
            let o1 = opp.update(m, 0);
            lemma_total_update(opp, m, 0);
            lemma_total_update(o1, m + 8, 0);
            lemma_total_drop_seeds(cp, pit as int, dir, captured(pit as int, opp));
            lemma_drop_seeds_grows(cp, pit as int, dir, captured(pit as int, opp));
        },
        _ => {},
    }
}

/// A step never makes a pit overflow while both boards hold at most 255
/// seeds together.
pub proof fn lemma_step_fits_by_total(cp: Seq<nat>, opp: Seq<nat>, step: Step)
    requires
        cp.len() == 16,
        opp.len() == 16,
        step_wf(cp, step),
        total(cp) + total(opp) <= 255,
    ensures
        step_fits(cp, opp, step),
{
    match step {
        Step::Sowing { pit, dir } => {
            if cp[pit as int] > 1 {
                lemma_total_sown(cp, pit as int, dir);
                lemma_fits_by_total(sown(cp, pit as int, dir).0);
            }
        },
        Step::Capture { pit, dir } => {
            let m = mirror(pit as int % 8);
            lemma_total_update(opp, m, 0);
            lemma_pit_at_most_total(opp.update(m, 0), m + 8);
            lemma_pit_at_most_total(opp, m);
            lemma_total_drop_seeds(cp, pit as int, dir, captured(pit as int, opp));
            lemma_fits_by_total(drop_seeds(cp, pit as int, dir, captured(pit as int, opp)).0);
        },
        _ => {},
    }
}

/// Plays `action` as `apply` does, but gives up, answering `None`, when
/// the move has not stopped after `fuel` steps. With at most 255 seeds on
/// both boards together no pit can overflow, so the answer is `None`
/// exactly when the move takes more than `fuel` steps.
pub fn apply_within(state: GameState, action: Action, fuel: u64) -> (r: Option<Result<ApplyResult, GameError>>)
    requires
        state.current_player < 2,
        total(mover_board(state)) + total(opponent_board(state)) <= 255,
    ensures
        r is Some <==> move_ends_within(state, action, fuel as nat),
        r matches Some(x) ==> move_result(state, move_end(state, action, fuel as nat), x),
{
    proof {
        broadcast use lemma_board_view;
    }
    let me = state.current_player;
    let other = 1 - me;
    let mut cp = state.boards[me];
    let mut opp = state.boards[other];
    let mut step = first(&state, action, &cp, &opp);
    let ghost start = (cp@, opp@, step);
    let mut used: u64 = 0;
    while used < fuel && !is_final_exec(&step)
        invariant
            used <= fuel,
            step_wf(cp@, step),
            total(cp@) + total(opp@) == total(start.0) + total(start.1),
            total(start.0) + total(start.1) <= 255,
            ends_within(start.0, start.1, start.2, fuel as nat) == ends_within(
                cp@,
                opp@,
                step,
                (fuel - used) as nat,
            ),
            relay_end(start.0, start.1, start.2, fuel as nat) == relay_end(
                cp@,
                opp@,
                step,
                (fuel - used) as nat,
            ),
        decreases fuel - used,
    {
        proof {
            broadcast use lemma_board_view;
            lemma_step_fits_by_total(cp@, opp@, step);
            lemma_relay_step_conserves(cp@, opp@, step);
        }
        step = advance(&mut cp, &mut opp, step);
        used += 1;
    }
    if is_final_exec(&step) {
        let r = finish(state, cp, opp, step);
        assert(relay_end(cp@, opp@, step, (fuel - used) as nat) == (cp@, opp@, step));
        Some(r)
    } else {
        None
    }
}

/// A position that the exec types can hold: a player to move, and a
/// remembered pit on the board.
pub open spec fn position_valid(state: GameState) -> bool {
    &&& state.current_player < 2
    &&& state.phase matches TurnPhase::SelectDirection { pit } ==> 0 <= pit.pos() < 16
}

/// Every step of a move names pits on the board, and a capture starts from
/// a non-empty pit.
pub proof fn lemma_relay_step_wf(cp: Seq<nat>, opp: Seq<nat>, step: Step)
    requires
        cp.len() == 16,
        step_wf(cp, step),
    ensures
        step_wf(relay_step(cp, opp, step).0, relay_step(cp, opp, step).2),
{
    match step {
        Step::Sowing { pit, dir } => {
            if cp[pit as int] > 1 {
                lemma_drop_seeds_grows(cp.update(pit as int, 0), pit as int, dir, cp[pit as int]);
            }
        },
        Step::Capture { pit, dir } => {
            let k = captured(pit as int, opp);
            lemma_drop_seeds_grows(cp, pit as int, dir, k);
            if k == 0 {
                assert(drop_seeds(cp, pit as int, dir, 0) == (cp, pit as int));
            }
        },
        _ => {},
    }
}

/// The first step of a move from a valid position names pits on the board.
pub proof fn lemma_first_step_wf(state: GameState, action: Action)
    requires
        position_valid(state),
    ensures
        step_wf(mover_board(state), first_step(state, action)),
{
}

/// A step of a move never fails for an empty capturing pit or a sowing
/// that lands nowhere: of the failures only `InvalidMove` is possible.
pub proof fn lemma_relay_step_failure(cp: Seq<nat>, opp: Seq<nat>, step: Step)
    requires
        cp.len() == 16,
        step_wf(cp, step),
        !is_final(step),
    ensures
        relay_step(cp, opp, step).2 matches Step::Failed { err } ==> err == GameError::InvalidMove,
{
    match step {
        Step::Sowing { pit, dir } => {
            if cp[pit as int] > 1 {
                lemma_drop_seeds_grows(cp.update(pit as int, 0), pit as int, dir, cp[pit as int]);
            }
        },
        _ => {},
    }
}

/// What the relay keeps from step to step: the boards' size, the seeds of
/// both boards together, well-formed steps, and failures other than
/// `Logic` only.
pub proof fn lemma_relay_end_keeps(cp: Seq<nat>, opp: Seq<nat>, step: Step, n: nat)
    requires
        cp.len() == 16,
        opp.len() == 16,
        step_wf(cp, step),
        step matches Step::Failed { err } ==> err != GameError::Logic,
    ensures
        ({
            let (b, o, s) = relay_end(cp, opp, step, n);
            &&& b.len() == 16
            &&& o.len() == 16
            &&& total(b) + total(o) == total(cp) + total(opp)
            &&& step_wf(b, s)
            &&& s matches Step::Failed { err } ==> err != GameError::Logic
        }),
    decreases n,
{
    if !is_final(step) && n > 0 {
        let (b, o, s) = relay_step(cp, opp, step);
        lemma_relay_step_conserves(cp, opp, step);
        lemma_relay_step_wf(cp, opp, step);
        lemma_relay_step_failure(cp, opp, step);
        lemma_relay_end_keeps(b, o, s, (n - 1) as nat);
    }
}

/// Once both boards hold at most 255 seeds together, nothing can
/// overflow: the move ends within `n` steps exactly when it has stopped
/// after `n` steps.
pub proof fn lemma_relay_ends_by_total(cp: Seq<nat>, opp: Seq<nat>, step: Step, n: nat)
    requires
        cp.len() == 16,
        opp.len() == 16,
        step_wf(cp, step),
        total(cp) + total(opp) <= 255,
    ensures
        ends_within(cp, opp, step, n) == is_final(relay_end(cp, opp, step, n).2),
    decreases n,
{
    if !is_final(step) && n > 0 {
        let (b, o, s) = relay_step(cp, opp, step);
        lemma_step_fits_by_total(cp, opp, step);
        lemma_relay_step_conserves(cp, opp, step);
        lemma_relay_step_wf(cp, opp, step);
        lemma_relay_ends_by_total(b, o, s, (n - 1) as nat);
    }
}

/// A move that ends within `n` steps ends within any larger number of
/// steps, where it stands the same.
pub proof fn lemma_relay_more_steps(cp: Seq<nat>, opp: Seq<nat>, step: Step, n: nat, m: nat)
    requires
        n <= m,
        ends_within(cp, opp, step, n),
    ensures
        ends_within(cp, opp, step, m),
        relay_end(cp, opp, step, n) == relay_end(cp, opp, step, m),
    decreases n,
{
    if !is_final(step) {
        let (b, o, s) = relay_step(cp, opp, step);
        lemma_relay_more_steps(b, o, s, (n - 1) as nat, (m - 1) as nat);
    }
}

/// A move keeps all the seeds on the board: whatever the move reaches
/// after any number of steps, both boards hold as many seeds together as
/// before it.
pub proof fn law_move_conserves_seeds(state: GameState, action: Action, n: nat)
    requires
        position_valid(state),
    ensures
        total(move_end(state, action, n).0) + total(move_end(state, action, n).1) == total(
            mover_board(state),
        ) + total(opponent_board(state)),
{
    broadcast use lemma_board_view;

    lemma_relay_end_keeps(mover_board(state), opponent_board(state), first_step(state, action), n);
}

/// After a move that goes on, the game holds as many seeds as before it.
pub proof fn law_apply_conserves_seeds(state: GameState, action: Action, n: nat, r: Result<ApplyResult, GameError>)
    requires
        position_valid(state),
        move_result(state, move_end(state, action, n), r),
    ensures
        r matches Ok(ApplyResult::Ongoing(s)) ==> total(s.boards[0]@) + total(s.boards[1]@) == total(
            state.boards[0]@,
        ) + total(state.boards[1]@),
{
    law_move_conserves_seeds(state, action, n);
}

/// With at most 255 seeds on both boards together no pit can overflow, so
/// the only way for a move not to end is to relay forever.
pub proof fn law_ends_unless_endless(state: GameState, action: Action, n: nat)
    requires
        position_valid(state),
        total(mover_board(state)) + total(opponent_board(state)) <= 255,
    ensures
        move_ends_within(state, action, n) == is_final(move_end(state, action, n).2),
{
    broadcast use lemma_board_view;

    lemma_relay_ends_by_total(mover_board(state), opponent_board(state), first_step(state, action), n);
}

/// Allowing a move more steps changes nothing once it has ended: `apply`
/// and `apply_within` with any sufficient fuel report the same.
pub proof fn law_more_fuel(state: GameState, action: Action, n: nat, m: nat)
    requires
        n <= m,
        move_ends_within(state, action, n),
    ensures
        move_ends_within(state, action, m),
        move_end(state, action, n) == move_end(state, action, m),
{
    lemma_relay_more_steps(mover_board(state), opponent_board(state), first_step(state, action), n, m);
}

/// A move is refused only for a pit off the board or a move that is not
/// allowed: the `Logic` error never comes.
pub proof fn law_refusals(state: GameState, action: Action, n: nat)
    requires
        position_valid(state),
    ensures
        move_end(state, action, n).2 matches Step::Failed { err } ==> err == GameError::InvalidPitIdx
            || err == GameError::InvalidMove,
{
    broadcast use lemma_board_view;

    lemma_relay_end_keeps(mover_board(state), opponent_board(state), first_step(state, action), n);
    let (b, o, s) = move_end(state, action, n);
    if s matches Step::Failed { err } {
        if first_step(state, action) is Failed {
            assert(move_end(state, action, n) == (mover_board(state), opponent_board(state), first_step(state, action)));
        } else {
            lemma_relay_end_failure(mover_board(state), opponent_board(state), first_step(state, action), n);
        }
    }
}

/// A move that did not fail at its first step fails, if at all, with
/// `InvalidMove`.
proof fn lemma_relay_end_failure(cp: Seq<nat>, opp: Seq<nat>, step: Step, n: nat)
    requires
        cp.len() == 16,
        opp.len() == 16,
        step_wf(cp, step),
        !(step is Failed),
    ensures
        relay_end(cp, opp, step, n).2 matches Step::Failed { err } ==> err == GameError::InvalidMove,
    decreases n,
{
    if !is_final(step) && n > 0 {
        let (b, o, s) = relay_step(cp, opp, step);
        lemma_relay_step_conserves(cp, opp, step);
        lemma_relay_step_wf(cp, opp, step);
        lemma_relay_step_failure(cp, opp, step);
        if !(s is Failed) {
            lemma_relay_end_failure(b, o, s, (n - 1) as nat);
        } else {
            assert(relay_end(b, o, s, (n - 1) as nat) == (b, o, s));
        }
    }
}

/// Turns alternate: after a move that goes on, either the same player has
/// to choose a direction or the other player has to choose a pit; a move
/// ends the game only when the opponent has no pit with two seeds, and the
/// mover wins.
pub proof fn law_turn_structure(state: GameState, action: Action, n: nat, r: Result<ApplyResult, GameError>)
    requires
        position_valid(state),
        move_result(state, move_end(state, action, n), r),
    ensures
        r matches Ok(ApplyResult::Ongoing(s)) ==> s.current_player < 2 && ((s.current_player
            == state.current_player) == (s.phase is SelectDirection)),
        r matches Ok(ApplyResult::Ongoing(s)) ==> (s.current_player == 1 - state.current_player
            ==> s.phase is SelectPit && has_moves_spec(s.boards[s.current_player as int]@)),
        r matches Ok(ApplyResult::GameOver { winner }) ==> winner == state.current_player
            && !has_moves_spec(move_end(state, action, n).1),
{
}

/// Each column of the opponent's half is either as it was or emptied.
pub open spec fn columns_kept_or_emptied(before: Seq<nat>, after: Seq<nat>) -> bool {
    forall|c: int|
        0 <= c < 8 ==> (#[trigger] after[c] == before[c] && after[c + 8] == before[c + 8]) || (after[c]
            == 0 && after[c + 8] == 0)
}

/// One step of a move never takes seeds from the mover, never gives seeds
/// to the opponent, and either leaves an opponent's column alone or
/// empties it.
pub proof fn lemma_relay_step_sides(cp: Seq<nat>, opp: Seq<nat>, step: Step)
    requires
        cp.len() == 16,
        opp.len() == 16,
        step_wf(cp, step),
    ensures
        ({
            let (b, o, s) = relay_step(cp, opp, step);
            &&& total(b) >= total(cp)
            &&& total(o) <= total(opp)
            &&& columns_kept_or_emptied(opp, o)
        }),
{
    lemma_relay_step_conserves(cp, opp, step);
    match step {
        Step::Sowing { pit, dir } => {
            if cp[pit as int] > 1 {
                lemma_total_sown(cp, pit as int, dir);
            }
        },
        Step::Capture { pit, dir } => {
            let m = mirror(pit as int % 8);
            let o1 = opp.update(m, 0);
            lemma_total_update(opp, m, 0);
            lemma_total_update(o1, m + 8, 0);
            lemma_total_drop_seeds(cp, pit as int, dir, captured(pit as int, opp));
        },
        _ => {},
    }
}

/// What a whole move does to the two sides: the mover's seeds never
/// fall, the opponent's never rise, and each of the opponent's columns is
/// either as it was or emptied.
pub proof fn lemma_relay_end_sides(cp: Seq<nat>, opp: Seq<nat>, step: Step, n: nat)
    requires
        cp.len() == 16,
        opp.len() == 16,
        step_wf(cp, step),
    ensures
        total(relay_end(cp, opp, step, n).0) >= total(cp),
        total(relay_end(cp, opp, step, n).1) <= total(opp),
        columns_kept_or_emptied(opp, relay_end(cp, opp, step, n).1),
    decreases n,
{
    if !is_final(step) && n > 0 {
        let (b, o, s) = relay_step(cp, opp, step);
        lemma_relay_step_sides(cp, opp, step);
        lemma_relay_step_conserves(cp, opp, step);
        lemma_relay_step_wf(cp, opp, step);
        lemma_relay_end_sides(b, o, s, (n - 1) as nat);
        let e = relay_end(b, o, s, (n - 1) as nat).1;
        assert forall|c: int| 0 <= c < 8 implies (#[trigger] e[c] == opp[c] && e[c + 8] == opp[c
            + 8]) || (e[c] == 0 && e[c + 8] == 0) by {
            assert(o[c] == o[c]);
            assert(e[c] == e[c]);
        }
    } else {
        assert(columns_kept_or_emptied(opp, opp));
    }
}

/// A move that goes on leaves the mover with at least as many seeds as
/// before and the opponent with at most as many, and each of the
/// opponent's columns either as it was or emptied by a capture.
pub proof fn law_apply_sides(state: GameState, action: Action, n: nat, r: Result<ApplyResult, GameError>)
    requires
        position_valid(state),
        move_result(state, move_end(state, action, n), r),
    ensures
        r matches Ok(ApplyResult::Ongoing(s)) ==> {
            &&& total(s.boards[state.current_player as int]@) >= total(mover_board(state))
            &&& total(s.boards[1 - state.current_player]@) <= total(opponent_board(state))
            &&& columns_kept_or_emptied(opponent_board(state), s.boards[1 - state.current_player]@)
        },
{
    broadcast use lemma_board_view;

    lemma_first_step_wf(state, action);
    lemma_relay_end_sides(mover_board(state), opponent_board(state), first_step(state, action), n);
}

/// The pit `k` pits on from `p` in direction `dir`.
pub open spec fn pits_on(p: int, dir: Direction, k: int) -> int {
    match dir {
        Direction::Forward => (p + k) % 16,
        Direction::Reverse => (p - k) % 16,
    }
}

/// How a sowing step of a move goes on. All the seeds of `pit` are sown;
/// the last falls `k` pits on, `k` being the seeds the pit held. If that
/// pit was empty the turn is over. Otherwise, when it is an inner pit
/// facing an opponent column with seeds in both pits, that column is
/// captured next; failing that, when the player may reverse there (a
/// reversing pit whose seeds, walked back, reach a loaded inner pit facing
/// a full opponent column), a direction is asked for; otherwise the relay
/// sows on from it in the same direction. The opponent is untouched and no
/// seed is lost.
pub proof fn law_sowing_step(cp: Seq<nat>, opp: Seq<nat>, pit: usize, dir: Direction)
    requires
        cp.len() == 16,
        opp.len() == 16,
        pit < 16,
        cp[pit as int] > 1,
    ensures
        ({
            let (b, o, s) = relay_step(cp, opp, Step::Sowing { pit, dir });
            let last = pits_on(pit as int, dir, cp[pit as int] as int);
            let m = 7 - last;
            let captures = last < 8 && opp[m] > 0 && opp[m + 8] > 0;
            let t = (last - b[last] as int) % 16;
            let reverses = (last == 1 || last == 6 || last == 8 || last == 15) && t < 8 && b[t]
                > 0 && opp[t] > 0 && opp[t + 8] > 0;
            &&& o == opp
            &&& b.len() == 16
            &&& total(b) == total(cp)
            &&& forall|q: int|
                0 <= q < 16 ==> #[trigger] b[q] == (if q == pit { 0 } else { cp[q] as int }) + spread(
                    distance(pit as int, q, dir),
                    cp[pit as int] as int,
                )
            &&& b[last] >= 1
            &&& b[last] == 1 ==> s == Step::End
            &&& b[last] >= 2 && captures ==> s == Step::Capture { pit: last as usize, dir }
            &&& b[last] >= 2 && !captures && reverses ==> s == Step::NeedDirection {
                pit: last as usize,
            }
            &&& b[last] >= 2 && !captures && !reverses ==> s == Step::Sowing {
                pit: last as usize,
                dir,
            }
        }),
{
    let k = cp[pit as int];
    law_drop_seeds_spread(cp.update(pit as int, 0), pit as int, dir, k);
    lemma_walk(cp.update(pit as int, 0), pit as int, dir, k);
    lemma_drop_seeds_grows(cp.update(pit as int, 0), pit as int, dir, k);
    lemma_total_sown(cp, pit as int, dir);
}

/// How a capture goes on: both pits of the opponent's column facing `pit`
/// are emptied and nothing else of theirs is touched; their seeds are sown
/// one by one from `pit` onward, the last falling as many pits on as there
/// were seeds. If that pit was empty the turn is over; otherwise the relay
/// sows on from it in the same direction.
pub proof fn law_capture_step(cp: Seq<nat>, opp: Seq<nat>, pit: usize, dir: Direction)
    requires
        cp.len() == 16,
        opp.len() == 16,
        pit < 8,
        cp[pit as int] > 0,
    ensures
        ({
            let (b, o, s) = relay_step(cp, opp, Step::Capture { pit, dir });
            let m = 7 - pit as int;
            let k = opp[m] + opp[m + 8];
            let last = pits_on(pit as int, dir, k as int);
            &&& o.len() == 16
            &&& o[m] == 0 && o[m + 8] == 0
            &&& forall|i: int| 0 <= i < 16 && i != m && i != m + 8 ==> #[trigger] o[i] == opp[i]
            &&& b.len() == 16
            &&& total(b) == total(cp) + k
            &&& forall|q: int|
                0 <= q < 16 ==> #[trigger] b[q] == cp[q] + spread(distance(pit as int, q, dir), k as int)
            &&& b[last] >= 1
            &&& b[last] == 1 ==> s == Step::End
            &&& b[last] >= 2 ==> s == Step::Sowing { pit: last as usize, dir }
        }),
{
    let k = captured(pit as int, opp);
    law_drop_seeds_spread(cp, pit as int, dir, k);
    lemma_walk(cp, pit as int, dir, k);
    lemma_drop_seeds_grows(cp, pit as int, dir, k);
    lemma_total_drop_seeds(cp, pit as int, dir, k);
    if k == 0 {
        assert(drop_seeds(cp, pit as int, dir, 0) == (cp, pit as int));
    }
}

/// How a move starts from a chosen pit: a pit off the board is refused;
/// the player is asked for a direction exactly when the pit is a reversing
/// pit (inner 1 or 6, outer 0 or 7) and walking back from it as many pits
/// as it holds seeds reaches a loaded inner pit facing an opponent column
/// with seeds in both pits, where a reverse sowing would end; otherwise
/// the pit is sown forward.
pub proof fn law_first_step(state: GameState, idx: usize)
    requires
        position_valid(state),
        state.phase is SelectPit,
    ensures
        ({
            let cp = mover_board(state);
            let opp = opponent_board(state);
            let t = (idx - cp[idx as int] as int) % 16;
            let reverses = (idx == 1 || idx == 6 || idx == 8 || idx == 15) && t < 8 && cp[t] > 0
                && opp[t] > 0 && opp[t + 8] > 0;
            &&& idx >= 16 ==> first_step(state, Action::Pit(idx)) == Step::Failed {
                err: GameError::InvalidPitIdx,
            }
            &&& idx < 16 && reverses ==> first_step(state, Action::Pit(idx)) == Step::NeedDirection {
                pit: idx,
            }
            &&& idx < 16 && !reverses ==> first_step(state, Action::Pit(idx)) == Step::Sowing {
                pit: idx,
                dir: Direction::Forward,
            }
        }),
{
}

/// A finished turn ends the game exactly when none of the opponent's 16
/// pits, inner or outer, holds two or more seeds; the mover then wins.
/// Otherwise the turn passes to the opponent, who has such a pit.
pub proof fn law_game_over(state: GameState, end: (Seq<nat>, Seq<nat>, Step), r: Result<ApplyResult, GameError>)
    requires
        position_valid(state),
        end.1.len() == 16,
        end.2 == Step::End,
        move_result(state, end, r),
    ensures
        (r matches Ok(ApplyResult::GameOver { .. })) <==> (forall|i: int| 0 <= i < 16 ==> #[trigger] end.1[i] <= 1),
        r matches Ok(ApplyResult::GameOver { winner }) ==> winner == state.current_player,
        r matches Ok(ApplyResult::Ongoing(s)) ==> s.current_player == 1 - state.current_player && exists|i: int|
            0 <= i < 16 && #[trigger] s.boards[s.current_player as int]@[i] >= 2,
{
    broadcast use lemma_board_view;

    match r {
        Ok(ApplyResult::Ongoing(s)) => {
            let i = choose|i: int| 0 <= i < end.1.len() && #[trigger] end.1[i] > 1;
            assert(s.boards[s.current_player as int]@[i] >= 2);
        },
        _ => {},
    }
}

/// How the other actions start a move: a direction, when one is due, sows
/// the remembered pit that way; a direction when a pit is due, or a pit
/// when a direction is due, is refused as an invalid move.
pub proof fn law_first_step_other(state: GameState, idx: usize, d: Direction)
    requires
        position_valid(state),
    ensures
        state.phase matches TurnPhase::SelectDirection { pit } ==> (first_step(
            state,
            Action::Direction(d),
        ) == (Step::Sowing { pit: pit.pos() as usize, dir: d }) && first_step(state, Action::Pit(idx))
            == (Step::Failed { err: GameError::InvalidMove })),
        state.phase is SelectPit ==> (first_step(state, Action::Direction(d)) == (Step::Failed {
            err: GameError::InvalidMove,
        })),
{
}

} // verus!
