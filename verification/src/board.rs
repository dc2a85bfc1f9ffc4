use vstd::prelude::*;

verus! {

/// Number of pits in one row of a player's half of the board.
pub const X_SIZE: usize = 8;

/// Number of rows in one player's half of the board.
pub(crate) const Y_SIZE: usize = 2;

/// Number of pits on one player's half of the board.
pub(crate) const PITS_CNT: usize = X_SIZE * Y_SIZE;

/// Why a move was refused.
#[derive(Debug, PartialEq, Eq, Structural)]
pub enum GameError {
    InvalidPitIdx,
    InvalidMove,
    EmptyPit,
    Logic,
}

#[derive(Clone, Copy, PartialEq, Eq, Debug, Structural)]
pub enum Row {
    Inner,
    Outer,
}

#[derive(Clone, Copy, PartialEq, Eq, Debug, Structural)]
pub enum Direction {
    Forward,
    Reverse,
}

/// The position of the pit following `p` (a position in `0..16`) when
/// walking in direction `dir` around one player's half of the board.
pub open spec fn step_pos(p: int, dir: Direction) -> int {
    match dir {
        Direction::Forward => (p + 1) % 16,
        Direction::Reverse => (p + 15) % 16,
    }
}

/// A pit on one player's half of the board, numbered `0..16`: pits `0..8`
/// form the inner row, pits `8..16` the outer row, and sowing forward walks
/// through them in increasing order, wrapping from 15 back to 0.
#[derive(Clone, Copy, Debug)]
pub struct BoardIndex(usize);

impl BoardIndex {
    #[verifier::type_invariant]
    closed spec fn in_range(self) -> bool {
        self.0 < 16
    }

    /// The number of the pit.
    pub closed spec fn pos(self) -> int {
        self.0 as int
    }

    pub fn new(idx: usize) -> (r: Result<Self, GameError>)
        ensures
            idx < 16 <==> r is Ok,
            r matches Ok(i) ==> i.pos() == idx,
            idx >= 16 ==> r == Err::<Self, GameError>(GameError::InvalidPitIdx),
    {
        if idx >= PITS_CNT {
            return Err(GameError::InvalidPitIdx);
        }
        Ok(BoardIndex(idx))
    }

    /// The number of the pit, as `new` was given it.
    pub fn value(&self) -> (r: usize)
        ensures
            r == self.pos(),
            r < 16,
    {
        proof {
            use_type_invariant(self);
        }
        self.0
    }
}


impl BoardIndex {
    /// The pit's row, and its column within the row.
    pub fn split(&self) -> (r: (Row, usize))
        ensures
            self.pos() < 8 ==> r.0 == Row::Inner && r.1 == self.pos(),
            self.pos() >= 8 ==> r.0 == Row::Outer && r.1 == self.pos() - 8,
            r.1 < 8,
    {
        proof {
            use_type_invariant(self);
        }
        if self.0 < X_SIZE {
            (Row::Inner, self.0)
        } else {
            (Row::Outer, self.0 % X_SIZE)
        }
    }

    /// The next pit in direction `dir`.
    pub fn step(self, dir: Direction) -> (r: Self)
        ensures
            r.pos() == step_pos(self.pos(), dir),
    {
        match dir {
            Direction::Forward => self.next(),
            Direction::Reverse => self.prev(),
        }
    }

    fn next(self) -> (r: Self)
        ensures
            r.pos() == step_pos(self.pos(), Direction::Forward),
    {
        proof {
            use_type_invariant(self);
        }
        BoardIndex((self.0 + 1) % PITS_CNT)
    }

    fn prev(self) -> (r: Self)
        ensures
            r.pos() == step_pos(self.pos(), Direction::Reverse),
    {
        proof {
            use_type_invariant(self);
        }
        BoardIndex((self.0 + PITS_CNT - 1) % PITS_CNT)
    }
}

/// The character of digit `d` (in `0..10`).
pub open spec fn digit_char(d: int) -> char {
    (48 + d) as char
}

/// The text of column `col` (in `0..8`).
fn column_text(col: usize) -> (r: &'static str)
    requires
        col < 8,
    ensures
        r@ == seq![digit_char(col as int)],
{
    proof {
        reveal_strlit("0");
        reveal_strlit("1");
        reveal_strlit("2");
        reveal_strlit("3");
        reveal_strlit("4");
        reveal_strlit("5");
        reveal_strlit("6");
        reveal_strlit("7");
    }
    match col {
        0 => "0",
        1 => "1",
        2 => "2",
        3 => "3",
        4 => "4",
        5 => "5",
        6 => "6",
        _ => "7",
    }
}

impl BoardIndex {
    /// The pit's name: its row (`I`nner or `O`uter) and its column.
    pub fn to_string(&self) -> (r: String)
        ensures
            r@ == seq![if self.pos() < 8 { 'I' } else { 'O' }, digit_char(self.pos() % 8)],
    {
        proof {
            use_type_invariant(self);
            reveal_strlit("I");
            reveal_strlit("O");
        }
        let (row, col) = self.split();
        let mut name = String::from_str(
            match row {
                Row::Inner => "I",
                Row::Outer => "O",
            },
        );
        name.append(column_text(col));
        name
    }
}

/// The seeds of one player's half of the board, inner row and outer row.
#[derive(Clone, Copy, Debug)]
pub struct PlayerBoard {
    inner: [u8; X_SIZE],
    outer: [u8; X_SIZE],
}

impl View for PlayerBoard {
    type V = Seq<nat>;

    /// The seeds in the pits, by pit number (see `BoardIndex`).
    closed spec fn view(&self) -> Seq<nat> {
        Seq::new(16, |i: int| if i < 8 { self.inner[i] as nat } else { self.outer[i - 8] as nat })
    }
}

/// Every pit holds at most 255 seeds.
pub open spec fn fits(b: Seq<nat>) -> bool {
    forall|i: int| 0 <= i < b.len() ==> #[trigger] b[i] <= 255
}

/// The total number of seeds in the pits.
pub open spec fn total(b: Seq<nat>) -> nat
    decreases b.len(),
{
    if b.len() == 0 {
        0
    } else {
        total(b.drop_last()) + b.last()
    }
}

/// A pit has more than one seed: a move can start there.
pub open spec fn has_moves_spec(b: Seq<nat>) -> bool {
    exists|i: int| 0 <= i < b.len() && #[trigger] b[i] > 1
}

/// Drops `k` seeds one by one into the pits after `p`, walking in
/// direction `dir`; gives the board and the pit where the last seed fell
/// (`p` itself when `k` is zero).
pub open spec fn drop_seeds(b: Seq<nat>, p: int, dir: Direction, k: nat) -> (Seq<nat>, int)
    decreases k,
{
    if k == 0 {
        (b, p)
    } else {
        let q = step_pos(p, dir);
        drop_seeds(b.update(q, (b[q] + 1) as nat), q, dir, (k - 1) as nat)
    }
}

/// Sowing from pit `p`: all its seeds are lifted and dropped one by one
/// into the following pits.
pub open spec fn sown(b: Seq<nat>, p: int, dir: Direction) -> (Seq<nat>, int) {
    drop_seeds(b.update(p, 0), p, dir, b[p])
}

pub broadcast proof fn lemma_board_view(b: PlayerBoard)
    ensures
        #[trigger] b@.len() == 16,
        fits(b@),
{
}

/// Dropping seeds never takes a seed away from a pit.
pub proof fn lemma_drop_seeds_grows(b: Seq<nat>, p: int, dir: Direction, k: nat)
    requires
        b.len() == 16,
    ensures
        drop_seeds(b, p, dir, k).0.len() == 16,
        forall|i: int| 0 <= i < 16 ==> #[trigger] drop_seeds(b, p, dir, k).0[i] >= b[i],
        0 <= step_pos(p, dir) < 16,
        k > 0 ==> 0 <= drop_seeds(b, p, dir, k).1 < 16,
        k > 0 ==> drop_seeds(b, p, dir, k).0[drop_seeds(b, p, dir, k).1] >= 1,
    decreases k,
{
    if k > 0 {
        let q = step_pos(p, dir);
        let b2 = b.update(q, (b[q] + 1) as nat);
        lemma_drop_seeds_grows(b2, q, dir, (k - 1) as nat);
        if k == 1 {
            assert(drop_seeds(b2, q, dir, 0) == (b2, q));
        }
    }
}

pub(crate) enum SowResult {
    End,
    Continue { pit: BoardIndex },
}

enum MoveType {
    Sow,
    Capture,
}

/// What a sowing that ended in pit `last` of board `b` reports.
pub(crate) open spec fn landing(r: Result<SowResult, GameError>, b: Seq<nat>, last: int) -> bool {
    match r {
        Ok(SowResult::End) => b[last] == 1,
        Ok(SowResult::Continue { pit }) => b[last] >= 2 && pit.pos() == last,
        Err(e) => b[last] == 0 && e == GameError::Logic,
    }
}

impl PlayerBoard {
    /// The seeds of pit `i`.
    fn get(&self, i: usize) -> (r: u8)
        requires
            i < 16,
        ensures
            r == self@[i as int],
    {
        if i < X_SIZE {
            self.inner[i]
        } else {
            self.outer[i - X_SIZE]
        }
    }

    /// Puts `v` seeds into pit `i`.
    fn set(&mut self, i: usize, v: u8)
        requires
            i < 16,
        ensures
            final(self)@ == old(self)@.update(i as int, v as nat),
    {
        if i < X_SIZE {
            self.inner[i] = v;
        } else {
            self.outer[i - X_SIZE] = v;
        }
        assert(final(self)@ =~= old(self)@.update(i as int, v as nat));
    }
}

impl PlayerBoard {
    /// The board a game starts with: four seeds in every inner pit, the
    /// outer row empty.
    pub(crate) fn new() -> (r: Self)
        ensures
            r@ == Seq::new(16, |i: int| if i < 8 { 4nat } else { 0nat }),
    {
        let r = PlayerBoard { inner: [4, 4, 4, 4, 4, 4, 4, 4], outer: [0, 0, 0, 0, 0, 0, 0, 0] };
        assert(r@ =~= Seq::new(16, |i: int| if i < 8 { 4nat } else { 0nat }));
        r
    }

    /// A board with the given rows: `inner[c]` is pit `c`, `outer[c]` is
    /// pit `c + 8`.
    pub fn from_arrays(inner: [u8; X_SIZE], outer: [u8; X_SIZE]) -> (r: Self)
        ensures
            forall|c: int| 0 <= c < 8 ==> #[trigger] r@[c] == inner[c] as nat,
            forall|c: int| 0 <= c < 8 ==> #[trigger] r@[c + 8] == outer[c] as nat,
    {
        PlayerBoard { inner, outer }
    }

    fn validate_move(&self, idx: BoardIndex, move_type: MoveType) -> (r: Result<(), GameError>)
        ensures
            move_type is Sow ==> (self@[idx.pos()] <= 1 <==> r is Err),
            move_type is Sow && r is Err ==> r == Err::<(), GameError>(GameError::InvalidMove),
            move_type is Capture ==> (self@[idx.pos()] == 0 <==> r is Err),
            move_type is Capture && r is Err ==> r == Err::<(), GameError>(GameError::EmptyPit),
    {
        let seeds = self.get(idx.value());
        match move_type {
            MoveType::Sow => {
                if seeds <= 1 {
                    return Err(GameError::InvalidMove);
                }
            },
            MoveType::Capture => {
                if seeds == 0 {
                    return Err(GameError::EmptyPit);
                }
            },
        }
        Ok(())
    }

    /// Drops `seeds` seeds one by one into the pits after `pos`, walking in
    /// direction `dir`; returns the pit where the last one fell.
    fn drop_seeds(&mut self, pos: BoardIndex, dir: Direction, seeds: u8) -> (last: BoardIndex)
        requires
            fits(drop_seeds(old(self)@, pos.pos(), dir, seeds as nat).0),
        ensures
            final(self)@ == drop_seeds(old(self)@, pos.pos(), dir, seeds as nat).0,
            last.pos() == drop_seeds(old(self)@, pos.pos(), dir, seeds as nat).1,
    {
        let ghost goal = drop_seeds(old(self)@, pos.pos(), dir, seeds as nat);
        let mut pos = pos;
        let mut seeds = seeds;
        while seeds != 0
            invariant
                drop_seeds(self@, pos.pos(), dir, seeds as nat) == goal,
                fits(goal.0),
            decreases seeds,
        {
            proof {
                broadcast use lemma_board_view;
                let q = step_pos(pos.pos(), dir);
                let b2 = self@.update(q, (self@[q] + 1) as nat);
                lemma_drop_seeds_grows(self@, pos.pos(), dir, 0);
                lemma_drop_seeds_grows(b2, q, dir, (seeds - 1) as nat);
                assert(goal.0[q] >= b2[q]);
            }
            pos = pos.step(dir);
            let i = pos.value();
            let v = self.get(i);
            self.set(i, v + 1);
            seeds -= 1;
        }
        pos
    }

    /// Sows from pit `idx`: lifts all its seeds and drops them one by one
    /// into the following pits in direction `dir`. A pit with fewer than
    /// two seeds cannot be sown.
    pub(crate) fn sow(&mut self, idx: BoardIndex, dir: Direction) -> (r: Result<SowResult, GameError>)
        requires
            old(self)@[idx.pos()] > 1 ==> fits(sown(old(self)@, idx.pos(), dir).0),
        ensures
            old(self)@[idx.pos()] <= 1 ==> r == Err::<SowResult, GameError>(GameError::InvalidMove)
                && final(self)@ == old(self)@,
            old(self)@[idx.pos()] > 1 ==> final(self)@ == sown(old(self)@, idx.pos(), dir).0
                && landing(r, final(self)@, sown(old(self)@, idx.pos(), dir).1) && r is Ok,
    {
        self.validate_move(idx, MoveType::Sow)?;
        proof {
            use_type_invariant(idx);
            broadcast use lemma_board_view;
            lemma_drop_seeds_grows(old(self)@.update(idx.pos(), 0), idx.pos(), dir, old(self)@[idx.pos()]);
        }
        let i = idx.value();
        let cnt = self.get(i);
        self.set(i, 0);
        let pos = self.drop_seeds(idx, dir, cnt);
        let last = self.get(pos.value());
        if last == 0 {
            Err(GameError::Logic)
        } else if last == 1 {
            Ok(SowResult::End)
        } else {
            Ok(SowResult::Continue { pit: pos })
        }
    }

    /// Drops `seeds` captured seeds one by one into the pits after `idx`,
    /// in direction `dir`. The capturing pit must not be empty.
    pub(crate) fn capture(&mut self, idx: BoardIndex, dir: Direction, seeds: u8) -> (r: Result<SowResult, GameError>)
        requires
            old(self)@[idx.pos()] != 0 ==> fits(drop_seeds(old(self)@, idx.pos(), dir, seeds as nat).0),
        ensures
            old(self)@[idx.pos()] == 0 ==> r == Err::<SowResult, GameError>(GameError::EmptyPit)
                && final(self)@ == old(self)@,
            old(self)@[idx.pos()] != 0 ==> final(self)@ == drop_seeds(old(self)@, idx.pos(), dir, seeds as nat).0
                && landing(r, final(self)@, drop_seeds(old(self)@, idx.pos(), dir, seeds as nat).1) && r is Ok,
    {
        self.validate_move(idx, MoveType::Capture)?;
        proof {
            use_type_invariant(idx);
            broadcast use lemma_board_view;
            lemma_drop_seeds_grows(old(self)@, idx.pos(), dir, seeds as nat);
            if seeds == 0 {
                assert(drop_seeds(old(self)@, idx.pos(), dir, 0) == (old(self)@, idx.pos()));
            }
        }
        let pos = self.drop_seeds(idx, dir, seeds);
        let last = self.get(pos.value());
        if last == 0 {
            Err(GameError::Logic)
        } else if last == 1 {
            Ok(SowResult::End)
        } else {
            Ok(SowResult::Continue { pit: pos })
        }
    }

    /// Empties both pits of the column of `idx` and returns how many seeds
    /// they held.
    pub(crate) fn take_seeds(&mut self, idx: BoardIndex) -> (r: u8)
        requires
            old(self)@[idx.pos() % 8] + old(self)@[idx.pos() % 8 + 8] <= 255,
        ensures
            r == old(self)@[idx.pos() % 8] + old(self)@[idx.pos() % 8 + 8],
            final(self)@ == old(self)@.update(idx.pos() % 8, 0).update(idx.pos() % 8 + 8, 0),
    {
        let (_, col) = idx.split();
        let captured = self.get(col) + self.get(col + X_SIZE);
        self.set(col, 0);
        self.set(col + X_SIZE, 0);
        captured
    }

    /// Some pit holds more than one seed, so a move can be made.
    pub(crate) fn has_moves(&self) -> (r: bool)
        ensures
            r == has_moves_spec(self@),
            r <==> exists|i: int| 0 <= i < 16 && #[trigger] self@[i] >= 2,
    {
        proof {
            broadcast use lemma_board_view;
        }
        let mut i: usize = 0;
        while i < PITS_CNT
            invariant
                i <= 16,
                forall|j: int| 0 <= j < i ==> self@[j] <= 1,
            decreases 16 - i,
        {
            if self.get(i) > 1 {
                return true;
            }
            i += 1;
        }
        false
    }
}

impl core::ops::Index<Row> for PlayerBoard {
    type Output = [u8; X_SIZE];

    fn index(&self, row: Row) -> (r: &[u8; X_SIZE])
        ensures
            row == Row::Inner ==> forall|c: int| 0 <= c < 8 ==> #[trigger] r[c] as nat == self@[c],
            row == Row::Outer ==> forall|c: int| 0 <= c < 8 ==> #[trigger] r[c] as nat == self@[c + 8],
    {
        match row {
            Row::Inner => &self.inner,
            Row::Outer => &self.outer,
        }
    }
}

impl core::ops::IndexMut<Row> for PlayerBoard {
    fn index_mut(&mut self, row: Row) -> (r: &mut [u8; X_SIZE])
        ensures
            row == Row::Inner ==> forall|c: int|
                0 <= c < 8 ==> #[trigger] r[c] as nat == old(self)@[c] && final(self)@[c] == final(r)[c] as nat
                    && final(self)@[c + 8] == old(self)@[c + 8],
            row == Row::Outer ==> forall|c: int|
                0 <= c < 8 ==> #[trigger] r[c] as nat == old(self)@[c + 8] && final(self)@[c + 8] == final(r)[c] as nat
                    && final(self)@[c] == old(self)@[c],
    {
        match row {
            Row::Inner => &mut self.inner,
            Row::Outer => &mut self.outer,
        }
    }
}

impl vstd::std_specs::core::IndexSpecImpl<Row> for PlayerBoard {
    open spec fn index_req(&self, index: &Row) -> bool {
        true
    }
}

/// Putting `v` seeds into pit `i` in place of what it held changes the
/// total by the difference.
pub proof fn lemma_total_update(s: Seq<nat>, i: int, v: nat)
    requires
        0 <= i < s.len(),
    ensures
        total(s.update(i, v)) + s[i] == total(s) + v,
    decreases s.len(),
{
    let t = s.update(i, v);
    if i == s.len() - 1 {
        assert(t.drop_last() =~= s.drop_last());
    } else {
        lemma_total_update(s.drop_last(), i, v);
        assert(t.drop_last() =~= s.drop_last().update(i, v));
    }
}

/// No pit holds more seeds than the whole board.
pub proof fn lemma_pit_at_most_total(s: Seq<nat>, i: int)
    requires
        0 <= i < s.len(),
    ensures
        s[i] <= total(s),
    decreases s.len(),
{
    if i < s.len() - 1 {
        lemma_pit_at_most_total(s.drop_last(), i);
    }
}

/// A board with at most 255 seeds in all has at most 255 in each pit.
pub proof fn lemma_fits_by_total(s: Seq<nat>)
    requires
        total(s) <= 255,
    ensures
        fits(s),
{
    assert forall|i: int| 0 <= i < s.len() implies #[trigger] s[i] <= 255 by {
        lemma_pit_at_most_total(s, i);
    }
}

/// Dropping `k` seeds adds exactly `k` seeds to the board.
pub proof fn lemma_total_drop_seeds(b: Seq<nat>, p: int, dir: Direction, k: nat)
    requires
        b.len() == 16,
    ensures
        total(drop_seeds(b, p, dir, k).0) == total(b) + k,
    decreases k,
{
    if k > 0 {
        let q = step_pos(p, dir);
        let b2 = b.update(q, (b[q] + 1) as nat);
        lemma_total_update(b, q, (b[q] + 1) as nat);
        lemma_total_drop_seeds(b2, q, dir, (k - 1) as nat);
    }
}

/// Sowing moves seeds around the board without adding or losing any.
pub proof fn lemma_total_sown(b: Seq<nat>, p: int, dir: Direction)
    requires
        b.len() == 16,
        0 <= p < 16,
    ensures
        total(sown(b, p, dir).0) == total(b),
{
    lemma_total_update(b, p, 0);
    lemma_total_drop_seeds(b.update(p, 0), p, dir, b[p]);
}

/// The seeds of the first `n` pits of a starting board.
proof fn lemma_start_prefix_total(n: int)
    requires
        0 <= n <= 16,
    ensures
        total(Seq::new(16, |i: int| if i < 8 { 4nat } else { 0nat }).take(n)) == if n <= 8 {
            4 * n
        } else {
            32
        },
    decreases n,
{
    let s = Seq::new(16, |i: int| if i < 8 { 4nat } else { 0nat });
    if n > 0 {
        lemma_start_prefix_total(n - 1);
        assert(s.take(n).drop_last() =~= s.take(n - 1));
    } else {
        assert(s.take(0).len() == 0);
    }
}

/// A game starts with 32 seeds on each player's half of the board.
pub proof fn law_new_board_seeds()
    ensures
        total(Seq::new(16, |i: int| if i < 8 { 4nat } else { 0nat })) == 32,
{
    let s = Seq::new(16, |i: int| if i < 8 { 4nat } else { 0nat });
    lemma_start_prefix_total(16);
    assert(s.take(16) =~= s);
}

/// Stepping one pit forward and one pit back, in either order, returns
/// to the same pit; sixteen steps in one direction go round the board.
pub proof fn law_step_round_trip(p: int)
    requires
        0 <= p < 16,
    ensures
        step_pos(step_pos(p, Direction::Forward), Direction::Reverse) == p,
        step_pos(step_pos(p, Direction::Reverse), Direction::Forward) == p,
        drop_seeds(Seq::new(16, |i: int| 0nat), p, Direction::Forward, 16).1 == p,
        drop_seeds(Seq::new(16, |i: int| 0nat), p, Direction::Reverse, 16).1 == p,
{
    lemma_walk(Seq::new(16, |i: int| 0nat), p, Direction::Forward, 16);
    lemma_walk(Seq::new(16, |i: int| 0nat), p, Direction::Reverse, 16);
}

/// Dropping `k` seeds ends `k` pits further on.
pub proof fn lemma_walk(b: Seq<nat>, p: int, dir: Direction, k: nat)
    requires
        0 <= p < 16,
    ensures
        drop_seeds(b, p, dir, k).1 == (match dir {
            Direction::Forward => (p + k) % 16,
            Direction::Reverse => (p - k) % 16,
        }),
    decreases k,
{
    if k > 0 {
        let q = step_pos(p, dir);
        lemma_walk(b.update(q, (b[q] + 1) as nat), q, dir, (k - 1) as nat);
    }
}

/// The pit reached from `p` by `k` steps in direction `dir`.
pub open spec fn steps(p: int, dir: Direction, k: nat) -> int
    decreases k,
{
    if k == 0 {
        p
    } else {
        steps(step_pos(p, dir), dir, (k - 1) as nat)
    }
}

/// `k` steps from pit `p` go `k` pits on, round the board.
pub proof fn lemma_steps(p: int, dir: Direction, k: nat)
    requires
        0 <= p < 16,
    ensures
        steps(p, dir, k) == (match dir {
            Direction::Forward => (p + k) % 16,
            Direction::Reverse => (p - k) % 16,
        }),
    decreases k,
{
    if k > 0 {
        lemma_steps(step_pos(p, dir), dir, (k - 1) as nat);
    }
}

/// Sixteen steps in either direction come back to the same pit.
pub proof fn law_sixteen_steps(p: int)
    requires
        0 <= p < 16,
    ensures
        steps(p, Direction::Forward, 16) == p,
        steps(p, Direction::Reverse, 16) == p,
{
    lemma_steps(p, Direction::Forward, 16);
    lemma_steps(p, Direction::Reverse, 16);
}

/// A pit is its number: two indexes of the same pit are equal, so what
/// `step` and `new` state of `pos` fixes the index they return.
pub proof fn lemma_same_pos(a: BoardIndex, b: BoardIndex)
    ensures
        a.pos() == b.pos() ==> a == b,
        0 <= a.pos(),
{
}

/// A step forward and a step back, in either order, give the same pit
/// back: whatever `step` returns for `b` and then for that result is `b`
/// itself.
pub proof fn law_index_round_trip(b: BoardIndex, there: BoardIndex, back: BoardIndex, dir: Direction)
    requires
        0 <= b.pos() < 16,
        there.pos() == step_pos(b.pos(), dir),
        back.pos() == step_pos(
            there.pos(),
            match dir {
                Direction::Forward => Direction::Reverse,
                Direction::Reverse => Direction::Forward,
            },
        ),
    ensures
        back == b,
{
    law_step_round_trip(b.pos());
    lemma_same_pos(back, b);
}

/// How far pit `q` lies from pit `p`, walking in direction `dir`
/// (0 for `p` itself, up to 15).
pub open spec fn distance(p: int, q: int, dir: Direction) -> int {
    let d = match dir {
        Direction::Forward => q - p,
        Direction::Reverse => p - q,
    };
    if d >= 0 {
        d
    } else {
        d + 16
    }
}

/// The seeds a pit at distance `d` gets from `k` seeds dropped one by one.
pub open spec fn spread(d: int, k: int) -> int {
    k / 16 + if 1 <= d <= k % 16 {
        1int
    } else {
        0int
    }
}

proof fn lemma_distance_step(p: int, q: int, dir: Direction)
    requires
        0 <= p < 16,
        0 <= q < 16,
    ensures
        0 <= distance(step_pos(p, dir), q, dir) < 16,
        distance(p, q, dir) == (distance(step_pos(p, dir), q, dir) + 1) % 16,
        (q == step_pos(p, dir)) == (distance(step_pos(p, dir), q, dir) == 0),
{
    match dir {
        Direction::Forward => {
            if p == 15 {
                assert(step_pos(p, dir) == 0);
            } else {
                assert(step_pos(p, dir) == p + 1);
            }
        },
        Direction::Reverse => {
            if p == 0 {
                assert(step_pos(p, dir) == 15);
            } else {
                assert(step_pos(p, dir) == p - 1);
            }
        },
    }
}

proof fn lemma_spread_step(d1: int, k: int)
    requires
        0 <= d1 < 16,
        k >= 1,
    ensures
        (if d1 == 0 {
            1int
        } else {
            0int
        }) + spread(d1, k - 1) == spread((d1 + 1) % 16, k),
{
}

/// Dropping `k` seeds one by one from pit `p` onward puts one seed in each
/// pit per round of the board: every pit gets `k / 16` seeds, and the
/// `k % 16` pits right after `p` one more each.
pub proof fn law_drop_seeds_spread(b: Seq<nat>, p: int, dir: Direction, k: nat)
    requires
        b.len() == 16,
        0 <= p < 16,
    ensures
        forall|q: int|
            0 <= q < 16 ==> #[trigger] drop_seeds(b, p, dir, k).0[q] == b[q] + spread(distance(p, q, dir), k as int),
    decreases k,
{
    if k > 0 {
        let p1 = step_pos(p, dir);
        let b1 = b.update(p1, (b[p1] + 1) as nat);
        law_drop_seeds_spread(b1, p1, dir, (k - 1) as nat);
        lemma_drop_seeds_grows(b, p, dir, k);
        assert forall|q: int| 0 <= q < 16 implies #[trigger] drop_seeds(b, p, dir, k).0[q] == b[q]
            + spread(distance(p, q, dir), k as int) by {
            let d1 = distance(p1, q, dir);
            lemma_distance_step(p, q, dir);
            lemma_spread_step(d1, k as int);
            assert(drop_seeds(b, p, dir, k) == drop_seeds(b1, p1, dir, (k - 1) as nat));
            assert(drop_seeds(b1, p1, dir, (k - 1) as nat).0[q] == b1[q] + spread(d1, k - 1));
            assert(b1[q] == b[q] + if q == p1 {
                1int
            } else {
                0int
            });
        }
    }
}

} // verus!
