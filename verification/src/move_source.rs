use vstd::prelude::*;

use crate::board::{BoardIndex, Direction, GameError, PlayerBoard, PITS_CNT};

verus! {

/// Where a player's choices come from.
pub trait MoveSource {
    /// The pit to sow from, seeing the player's and the opponent's boards.
    fn pick_pit(&mut self, player: &PlayerBoard, opponent: &PlayerBoard) -> BoardIndex;

    /// The direction to go on in, when the player may reverse.
    fn pick_direction(&mut self, player: &PlayerBoard, opponent: &PlayerBoard) -> Result<
        Direction,
        GameError,
    >;
}

/// A player who chooses at random.
pub struct RandomInput;

impl MoveSource for RandomInput {
    fn pick_pit(&mut self, _player: &PlayerBoard, _opponent: &PlayerBoard) -> (r: BoardIndex)
        ensures
            0 <= r.pos() < 16,
    {
        BoardIndex::new(random_below(PITS_CNT)).unwrap()
    }

    fn pick_direction(&mut self, _player: &PlayerBoard, _opponent: &PlayerBoard) -> (r: Result<
        Direction,
        GameError,
    >)
        ensures
            r is Ok,
    {
        Ok(RandomInput::direction_for(random_chance(1, 2)))
    }
}

impl RandomInput {
    /// The direction a drawn coin stands for: heads forward, tails reverse.
    pub fn direction_for(coin: bool) -> (d: Direction)
        ensures
            d == (if coin { Direction::Forward } else { Direction::Reverse }),
    {
        if coin {
            Direction::Forward
        } else {
            Direction::Reverse
        }
    }
}

/// The direction a player's typed answer stands for: `y` asks to reverse,
/// `n` to go on forward; any other answer is no valid direction.
pub fn direction_from_answer(answer: &String) -> (r: Result<Direction, GameError>)
    ensures
        answer@ == "y"@ ==> r == Ok::<Direction, GameError>(Direction::Reverse),
        answer@ == "n"@ ==> r == Ok::<Direction, GameError>(Direction::Forward),
        answer@ != "y"@ && answer@ != "n"@ ==> r == Err::<Direction, GameError>(GameError::InvalidMove),
{
    proof {
        reveal_strlit("y");
        reveal_strlit("n");
        assert("y"@[0] != "n"@[0]);
    }
    let yes = String::from_str("y");
    let no = String::from_str("n");
    if answer.eq(&yes) {
        return Ok(Direction::Reverse);
    } else if answer.eq(&no) {
        return Ok(Direction::Forward);
    }
    Err(GameError::InvalidMove)
}

/// `c` is one of the decimal digits `0`..`9`.
pub open spec fn is_digit(c: char) -> bool {
    48 <= (c as int) <= 57
}

/// The number that the decimal digits `s` write.
pub open spec fn digits_value(s: Seq<char>) -> int
    decreases s.len(),
{
    if s.len() == 0 {
        0
    } else {
        digits_value(s.drop_last()) * 10 + ((s.last() as int) - 48)
    }
}

/// The digits of a typed number: the text after a leading `+`, if any.
pub open spec fn number_part(s: Seq<char>) -> Seq<char> {
    if s.len() > 0 && s[0] == '+' {
        s.drop_first()
    } else {
        s
    }
}

/// `s` types an unsigned number: at least one digit, and nothing else but
/// a leading `+`.
pub open spec fn is_number(s: Seq<char>) -> bool {
    let t = number_part(s);
    &&& t.len() > 0
    &&& forall|i: int| 0 <= i < t.len() ==> is_digit(#[trigger] t[i])
}

proof fn lemma_digits_value_nonneg(s: Seq<char>)
    requires
        forall|i: int| 0 <= i < s.len() ==> is_digit(#[trigger] s[i]),
    ensures
        digits_value(s) >= 0,
    decreases s.len(),
{
    if s.len() > 0 {
        lemma_digits_value_nonneg(s.drop_last());
    }
}

/// The pit a player's typed answer names: a number below 16, written in
/// decimal digits with an optional leading `+`. Any other answer names no
/// pit.
pub fn pit_from_answer(answer: &String) -> (r: Option<BoardIndex>)
    ensures
        r is Some <==> is_number(answer@) && digits_value(number_part(answer@)) < 16,
        r matches Some(p) ==> p.pos() == digits_value(number_part(answer@)),
{
    let text = answer.as_str();
    let n = text.unicode_len();
    let mut i: usize = 0;
    if n > 0 && text.get_char(0) == '+' {
        i = 1;
    }
    let start = i;
    if start == n {
        return None;
    }
    let ghost s = answer@;
    let ghost t = s.subrange(start as int, n as int);
    assert(t == number_part(s));
    let mut val: usize = 0;
    while i < n
        invariant
            start <= i <= n,
            n == s.len(),
            s == answer@,
            text@ == s,
            t == s.subrange(start as int, n as int),
            t == number_part(s),
            forall|j: int| 0 <= j < i - start ==> is_digit(#[trigger] t[j]),
            digits_value(t.subrange(0, i - start)) < 16 ==> val == digits_value(t.subrange(0, i - start)),
            digits_value(t.subrange(0, i - start)) >= 16 ==> val == 16,
        decreases n - i,
    {
        let c = text.get_char(i);
        if !('0' <= c && c <= '9') {
            assert(t[i - start] == c);
            assert(!is_digit(t[i - start]));
            return None;
        }
        let d = (c as u32 - 48) as usize;
        proof {
            let pre = t.subrange(0, i - start);
            let post = t.subrange(0, i - start + 1);
            assert(post.drop_last() =~= pre);
            assert(post.last() == c);
            lemma_digits_value_nonneg(pre);
        }
        if val < 16 {
            val = val * 10 + d;
            if val > 16 {
                val = 16;
            }
        }
        i += 1;
    }
    assert(t.subrange(0, n - start) =~= t);
    if val < 16 {
        Some(BoardIndex::new(val).unwrap())
    } else {
        None
    }
}

/// Every character `0` through `9` is a decimal digit, and a text of such
/// digits (with no sign) types a number, written by those digits in base
/// ten: a digit `c` alone is the number `c - '0'`, and appending a digit
/// multiplies by ten and adds it. So `pit_from_answer` names pit `n` for the
/// digits of any `n` below 16, e.g. "9" names pit 9 and "15" pit 15.
pub proof fn law_decimal_digits(s: Seq<char>, c: char)
    requires
        forall|i: int| 0 <= i < s.len() ==> '0' <= #[trigger] s[i] && s[i] <= '9',
        '0' <= c && c <= '9',
    ensures
        is_digit(c),
        s.len() > 0 ==> is_number(s) && number_part(s) == s,
        is_number(seq![c]) && number_part(seq![c]) == seq![c],
        digits_value(seq![c]) == (c as int) - ('0' as int),
        digits_value(s.push(c)) == digits_value(s) * 10 + (c as int) - ('0' as int),
{
    assert(seq![c].drop_last() =~= Seq::<char>::empty());
    assert(digits_value(Seq::<char>::empty()) == 0);
    assert(seq![c].last() == c);
    assert(('0' as int) == 48);
    assert(s.push(c).drop_last() =~= s);
    if s.len() > 0 {
        assert(s[0] != '+');
        assert(forall|i: int| 0 <= i < s.len() ==> is_digit(#[trigger] s[i]));
    }
}

/// `rand::random_range(..end)`: a number drawn from `0..end` by the
/// thread-local generator. Claimed: it is below `end`; which one comes is
/// chance and is not stated. The range must not be empty (`rand` panics on
/// an empty range).
#[verifier::external_body]
fn random_below(end: usize) -> (r: usize)
    requires
        end > 0,
    ensures
        r < end,
{
    rand::random_range(..end)
}

/// `rand::random_ratio(numerator, denominator)`: `true` with probability
/// `numerator / denominator`. Claimed: it is `false` when the numerator is
/// zero and `true` when it equals the denominator; otherwise the outcome is
/// chance and is not stated. `rand` panics on a zero denominator or a
/// numerator above it.
#[verifier::external_body]
fn random_chance(numerator: u32, denominator: u32) -> (r: bool)
    requires
        0 < denominator,
        numerator <= denominator,
    ensures
        numerator == 0 ==> !r,
        numerator == denominator ==> r,
{
    rand::random_ratio(numerator, denominator)
}

} // verus!
