//! Dice expressions as text: `NdS`, `NdS+M` or `NdS-M`, with `N` dice of `S`
//! sides and a modifier `M`, each written in decimal digits.

use crate::component::DiceExpr;
use vstd::prelude::*;
use vstd::string::*;

verus! {

/// The largest number that an `i32` holds.
pub const SCAN_LIMIT: i64 = 0x7fff_ffff;

/// Why a text is no dice expression.
#[derive(Clone, Copy, Debug, PartialEq, Eq, Structural)]
pub enum DiceError {
    /// The text is not of the form `NdS`, `NdS+M` or `NdS-M`.
    Syntax,
    /// A number cannot be written as an `i32`, or the expression cannot be
    /// rolled (see `DiceExpr::wf`).
    OutOfRange,
}

pub open spec fn spec_is_digit(b: u8) -> bool {
    48 <= b <= 57
}

/// Where the run of digits that starts at `from` ends.
pub open spec fn spec_digits_end(s: Seq<u8>, from: int) -> int
    decreases s.len() - from,
{
    if 0 <= from < s.len() && spec_is_digit(s[from]) {
        spec_digits_end(s, from + 1)
    } else {
        from
    }
}

/// The number that the digits from `from` up to `to` write in decimal.
pub open spec fn spec_number(s: Seq<u8>, from: int, to: int) -> int
    decreases to - from,
{
    if to <= from {
        0
    } else {
        spec_number(s, from, to - 1) * 10 + (s[to - 1] - 48)
    }
}

/// The expression with the given numbers, if each can be written as an
/// `i32` and the expression can be rolled.
pub open spec fn spec_in_range(count: int, sides: int, modifier: int) -> Result<DiceExpr, DiceError> {
    if count <= i32::MAX && sides <= i32::MAX && -i32::MAX <= modifier <= i32::MAX && (DiceExpr {
        dice_count: count as i32,
        dice_sides: sides as i32,
        modifier: modifier as i32,
    }).wf() {
        Ok(DiceExpr { dice_count: count as i32, dice_sides: sides as i32, modifier: modifier as i32 })
    } else {
        Err(DiceError::OutOfRange)
    }
}

/// What the text says: digits, a `d`, digits, and then nothing more or a
/// sign and digits up to the end of the text.
pub open spec fn spec_parse_dice(s: Seq<u8>) -> Result<DiceExpr, DiceError> {
    let a = spec_digits_end(s, 0);
    let b = spec_digits_end(s, a + 1);
    let c = spec_digits_end(s, b + 1);
    if a == 0 || a >= s.len() || s[a] != 100 || b == a + 1 {
        Err(DiceError::Syntax)
    } else if b == s.len() {
        spec_in_range(spec_number(s, 0, a), spec_number(s, a + 1, b), 0)
    } else if (s[b] != 43 && s[b] != 45) || c == b + 1 || c != s.len() {
        Err(DiceError::Syntax)
    } else if s[b] == 43 {
        spec_in_range(spec_number(s, 0, a), spec_number(s, a + 1, b), spec_number(s, b + 1, c))
    } else {
        spec_in_range(spec_number(s, 0, a), spec_number(s, a + 1, b), -spec_number(s, b + 1, c))
    }
}

/// The digits of a run write a number that is not negative.
pub proof fn lemma_number_not_negative(s: Seq<u8>, from: int, to: int)
    requires
        0 <= from <= to <= s.len(),
        forall|k: int| from <= k < to ==> spec_is_digit(s[k]),
    ensures
        0 <= spec_number(s, from, to),
    decreases to - from,
{
    if from < to {
        lemma_number_not_negative(s, from, to - 1);
    }
}

/// Reads the run of digits that starts at `from`: where it ends, and the
/// number it writes, or `SCAN_LIMIT + 1` where the number is above that.
fn scan_number(s: &[u8], from: usize) -> (run: (usize, i64))
    requires
        from <= s.len(),
    ensures
        run.0 == spec_digits_end(s@, from as int),
        from <= run.0 <= s.len(),
        run.1 == (if spec_number(s@, from as int, run.0 as int) > SCAN_LIMIT {
            SCAN_LIMIT + 1
        } else {
            spec_number(s@, from as int, run.0 as int)
        }),
        0 <= run.1,
{
    let mut at: usize = from;
    let mut value: i64 = 0;
    while at < s.len() && 48 <= s[at] && s[at] <= 57
        invariant
            from <= at <= s.len(),
            forall|k: int| from <= k < at ==> spec_is_digit(s@[k]),
            spec_digits_end(s@, from as int) == spec_digits_end(s@, at as int),
            0 <= value <= SCAN_LIMIT + 1,
            value == (if spec_number(s@, from as int, at as int) > SCAN_LIMIT {
                SCAN_LIMIT + 1
            } else {
                spec_number(s@, from as int, at as int)
            }),
        decreases s.len() - at,
    {
        proof {
            lemma_number_not_negative(s@, from as int, at as int);
        }
        let digit: i64 = (s[at] - 48) as i64;
        let next: i64 = value * 10 + digit;
        value = if next > SCAN_LIMIT { SCAN_LIMIT + 1 } else { next };
        at += 1;
    }
    (at, value)
}

/// The expression with the given numbers, each of them zero or more and no
/// more than `SCAN_LIMIT + 1`.
fn in_range(count: i64, sides: i64, magnitude: i64, minus: bool) -> (parsed: Result<DiceExpr, DiceError>)
    requires
        0 <= count <= SCAN_LIMIT + 1,
        0 <= sides <= SCAN_LIMIT + 1,
        0 <= magnitude <= SCAN_LIMIT + 1,
    ensures
        parsed == spec_in_range(count as int, sides as int, if minus { -magnitude as int } else { magnitude as int }),
        parsed matches Ok(d) ==> d.wf(),
{
    if count <= SCAN_LIMIT && sides <= SCAN_LIMIT && magnitude <= SCAN_LIMIT {
        let signed: i64 = if minus { -magnitude } else { magnitude };
        let d = DiceExpr { dice_count: count as i32, dice_sides: sides as i32, modifier: signed as i32 };
        if d.is_wf() {
            return Ok(d);
        }
    }
    Err(DiceError::OutOfRange)
}

/// Reads a dice expression from its bytes.
pub fn parse_dice_bytes(s: &[u8]) -> (parsed: Result<DiceExpr, DiceError>)
    ensures
        parsed == spec_parse_dice(s@),
        parsed matches Ok(d) ==> d.wf(),
{
    let (a, count) = scan_number(s, 0);
    if a == 0 || a >= s.len() || s[a] != 100 {
        return Err(DiceError::Syntax);
    }
    let (b, sides) = scan_number(s, a + 1);
    if b == a + 1 {
        return Err(DiceError::Syntax);
    }
    if b == s.len() {
        proof {
            assert(spec_digits_end(s@, b + 1) == b + 1);
        }
        return in_range(count, sides, 0, false);
    }
    if s[b] != 43 && s[b] != 45 {
        return Err(DiceError::Syntax);
    }
    let (c, magnitude) = scan_number(s, b + 1);
    if c == b + 1 || c != s.len() {
        return Err(DiceError::Syntax);
    }
    in_range(count, sides, magnitude, s[b] == 45)
}

/// Reads a dice expression such as `2d6+1` from text.
pub fn parse_dice(text: &str) -> (parsed: Result<DiceExpr, DiceError>)
    ensures
        parsed == spec_parse_dice(text.spec_bytes()),
        parsed matches Ok(d) ==> d.wf(),
{
    parse_dice_bytes(text.as_bytes())
}

} // verus!
