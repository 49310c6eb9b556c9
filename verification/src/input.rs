//! What the person at the table types: one line per answer.

use vstd::prelude::*;

verus! {

/// A yes or no answer.
#[derive(Clone, Copy, Debug, PartialEq, Eq, Structural)]
pub enum Agreement {
    Yes,
    No,
}

/// The person's choice of move once a bid stands.
#[derive(Clone, Copy, Debug, PartialEq, Eq, Structural)]
pub enum MoveChoice {
    /// Make a higher bid.
    Guess,
    /// Call the bid exact.
    Exact,
    /// Call the bid too high.
    No,
}

/// The digit `c` stands for, where `c` is a decimal digit.
pub open spec fn digit_value(c: char) -> int {
    c as int - '0' as int
}

/// `c` is a decimal digit.
pub open spec fn is_digit(c: char) -> bool {
    '0' <= c <= '9'
}

/// The number of players or of starting dice in an answer line: a line of
/// three characters (a digit and the line break) whose first character is a
/// digit from 2 to 6.
pub open spec fn number_answer(line: Seq<char>) -> Option<usize> {
    if line.len() == 3 && '2' <= line[0] <= '6' {
        Some(digit_value(line[0]) as usize)
    } else {
        None
    }
}

/// Reads a number from 2 to 6 from an answer line, if it holds one.
pub fn parse_number_answer(line: &str) -> (r: Option<usize>)
    ensures
        r == number_answer(line@),
        line@.len() == 3 && '2' <= line@[0] <= '6' ==> r == Some((line@[0] as int - '0' as int) as usize),
        r matches Some(v) ==> 2 <= v <= 6 && line@.len() == 3 && line@[0] as int == v + '0' as int,
{
    if line.unicode_len() == 3 {
        let c = line.get_char(0);
        if '2' <= c && c <= '6' {
            return Some((c as u32 - '0' as u32) as usize);
        }
    }
    None
}

/// A yes or no in an answer line of more than one character: its first
/// character, `y`, `Y`, `n` or `N`.
pub open spec fn agreement_answer(line: Seq<char>) -> Option<Agreement> {
    if line.len() > 1 && (line[0] == 'y' || line[0] == 'Y') {
        Some(Agreement::Yes)
    } else if line.len() > 1 && (line[0] == 'n' || line[0] == 'N') {
        Some(Agreement::No)
    } else {
        None
    }
}

/// Reads a yes or no from an answer line, if it holds one.
pub fn parse_agreement(line: &str) -> (r: Option<Agreement>)
    ensures
        r == agreement_answer(line@),
        line@.len() > 1 && (line@[0] == 'y' || line@[0] == 'Y') ==> r == Some(Agreement::Yes),
        line@.len() > 1 && (line@[0] == 'n' || line@[0] == 'N') ==> r == Some(Agreement::No),
        r is Some ==> line@.len() > 1,
        !(line@[0] == 'y' || line@[0] == 'Y' || line@[0] == 'n' || line@[0] == 'N') ==> r is None,
{
    if line.unicode_len() > 1 {
        let c = line.get_char(0);
        if c == 'y' || c == 'Y' {
            return Some(Agreement::Yes);
        }
        if c == 'n' || c == 'N' {
            return Some(Agreement::No);
        }
    }
    None
}

/// The move chosen in an answer line: its first character, `g`, `e` or `n`,
/// in either case.
pub open spec fn move_answer(line: Seq<char>) -> Option<MoveChoice> {
    if line[0] == 'g' || line[0] == 'G' {
        Some(MoveChoice::Guess)
    } else if line[0] == 'e' || line[0] == 'E' {
        Some(MoveChoice::Exact)
    } else if line[0] == 'n' || line[0] == 'N' {
        Some(MoveChoice::No)
    } else {
        None
    }
}

/// Reads the chosen move from a non-empty answer line, if it holds one.
pub fn parse_move_choice(line: &str) -> (r: Option<MoveChoice>)
    requires
        line@.len() > 0,
    ensures
        r == move_answer(line@),
        (line@[0] == 'g' || line@[0] == 'G') <==> r == Some(MoveChoice::Guess),
        (line@[0] == 'e' || line@[0] == 'E') <==> r == Some(MoveChoice::Exact),
        (line@[0] == 'n' || line@[0] == 'N') <==> r == Some(MoveChoice::No),
{
    let c = line.get_char(0);
    if c == 'g' || c == 'G' {
        return Some(MoveChoice::Guess);
    }
    if c == 'e' || c == 'E' {
        return Some(MoveChoice::Exact);
    }
    if c == 'n' || c == 'N' {
        return Some(MoveChoice::No);
    }
    None
}

/// The face named in an answer line: a line of three characters whose first
/// is a digit from 1 to 6.
pub open spec fn face_answer(line: Seq<char>) -> Option<u8> {
    if line.len() == 3 && '1' <= line[0] <= '6' {
        Some(digit_value(line[0]) as u8)
    } else {
        None
    }
}

/// Reads a face from 1 to 6 from an answer line, if it holds one.
pub fn parse_face(line: &str) -> (r: Option<u8>)
    ensures
        r == face_answer(line@),
        line@.len() == 3 && '1' <= line@[0] <= '6' ==> r == Some((line@[0] as int - '0' as int) as u8),
        r matches Some(v) ==> 1 <= v <= 6 && line@.len() == 3 && line@[0] as int == v + '0' as int,
{
    if line.unicode_len() == 3 {
        let c = line.get_char(0);
        if '1' <= c && c <= '6' {
            return Some((c as u32 - '0' as u32) as u8);
        }
    }
    None
}

/// The number written by the digits among the first `k` characters, the
/// other characters skipped.
pub open spec fn digits_value(line: Seq<char>, k: int) -> int
    decreases k,
{
    if k <= 0 {
        0
    } else if is_digit(line[k - 1]) {
        digits_value(line, k - 1) * 10 + digit_value(line[k - 1])
    } else {
        digits_value(line, k - 1)
    }
}

/// The count in an answer line: the digits of the line but its last two
/// characters (the line break).
pub open spec fn count_answer(line: Seq<char>) -> int {
    if line.len() > 2 {
        digits_value(line, line.len() - 2)
    } else {
        0
    }
}

proof fn lemma_digits_value_mono(line: Seq<char>, j: int, k: int)
    requires
        0 <= j <= k,
    ensures
        0 <= digits_value(line, j) <= digits_value(line, k),
    decreases k,
{
    if k > 0 {
        if j < k {
            lemma_digits_value_mono(line, j, k - 1);
        } else {
            lemma_digits_value_mono(line, k - 1, k - 1);
        }
    }
}

/// Reads the count of a bid from an answer line; `None` when the number does
/// not fit in a `u8`.
pub fn parse_count(line: &str) -> (r: Option<u8>)
    ensures
        r == (if count_answer(line@) <= u8::MAX {
            Some(count_answer(line@) as u8)
        } else {
            None
        }),
{
    let mut guess_cnt: u8 = 0;
    let l = line.unicode_len();
    if l > 2 {
        let mut cp: usize = 0;
        while cp < l - 2
            invariant
                l == line@.len(),
                l > 2,
                cp <= l - 2,
                guess_cnt == digits_value(line@, cp as int),
            decreases l - 2 - cp,
        {
            let c = line.get_char(cp);
            if '0' <= c && c <= '9' {
                let d = (c as u32 - '0' as u32) as u8;
                if guess_cnt > 25 || (guess_cnt == 25 && d > 5) {
                    proof {
                        lemma_digits_value_mono(line@, cp + 1, l - 2);
                    }
                    return None;
                }
                guess_cnt = guess_cnt * 10 + d;
            }
            cp += 1;
        }
    }
    Some(guess_cnt)
}

/// Every face from 1 to 6 can be entered: the line of its digit and a line
/// break reads as that face.
pub proof fn lemma_every_face_can_be_entered(v: u8)
    requires
        1 <= v <= 6,
    ensures
        exists|line: Seq<char>| face_answer(line) == Some(v),
{
    let c: char = if v == 1 {
        '1'
    } else if v == 2 {
        '2'
    } else if v == 3 {
        '3'
    } else if v == 4 {
        '4'
    } else if v == 5 {
        '5'
    } else {
        '6'
    };
    let line = seq![c, '\r', '\n'];
    assert(line[0] == c);
    assert(face_answer(line) == Some(v));
}

/// A line of one digit and a line break reads as the count of that digit,
/// and characters that are not digits are skipped.
pub proof fn lemma_count_digits(c: char, x: char)
    requires
        '0' <= c <= '9',
        !('0' <= x <= '9'),
    ensures
        count_answer(seq![c, '\r', '\n']) == c as int - '0' as int,
        count_answer(seq![x, c, '\r', '\n']) == c as int - '0' as int,
        count_answer(seq![c, x, '\r', '\n']) == c as int - '0' as int,
{
    reveal_with_fuel(digits_value, 3);
    let a = seq![c, '\r', '\n'];
    let b = seq![x, c, '\r', '\n'];
    let d = seq![c, x, '\r', '\n'];
    assert(a[0] == c);
    assert(b[0] == x && b[1] == c);
    assert(d[0] == c && d[1] == x);
}

/// Two digits read as a two-digit number, the first the tens.
pub proof fn lemma_count_two_digits(c: char, e: char)
    requires
        '0' <= c <= '9',
        '0' <= e <= '9',
    ensures
        count_answer(seq![c, e, '\r', '\n']) == (c as int - '0' as int) * 10 + (e as int - '0' as int),
{
    reveal_with_fuel(digits_value, 3);
    let a = seq![c, e, '\r', '\n'];
    assert(a[0] == c && a[1] == e);
}

} // verus!
