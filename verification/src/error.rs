//! The ways user input can be rejected, and the message shown for each.

use vstd::prelude::*;
use vstd::string::StringExecFns;

verus! {

/// Everything that can go wrong while interpreting a line of user input.
/// Every variant is recoverable: the engine stores it for one render cycle
/// and waits for corrected input.
#[derive(Clone, Debug, PartialEq, Eq, Structural)]
pub enum GameError {
    /// Tried to reveal a card that was already revealed or matched.
    AlreadyRevealed { x: i32, y: i32 },
    /// Supplied empty input where a value was required.
    EmptyInput,
    /// Supplied a coordinate beyond the maximum bound of the board.
    CoordinateOverflow { axis: char, max: i32 },
    /// Supplied a coordinate below the minimum bound of the board.
    CoordinateUnderflow { axis: char },
    /// Requested more board cells than the symbol alphabet can pair.
    NotEnoughCardTypes { max: i32 },
    /// Requested an odd number of board cells.
    OddBoardCells,
    /// Supplied input that does not match the expected grammar.
    UnparsableInput,
}

/// The decimal digit character for a value in `0 ..= 9`.
pub open spec fn digit_char(d: int) -> char {
    if d == 0 {
        '0'
    } else if d == 1 {
        '1'
    } else if d == 2 {
        '2'
    } else if d == 3 {
        '3'
    } else if d == 4 {
        '4'
    } else if d == 5 {
        '5'
    } else if d == 6 {
        '6'
    } else if d == 7 {
        '7'
    } else if d == 8 {
        '8'
    } else {
        '9'
    }
}

/// The decimal digits of a non-negative value, most significant first,
/// with no leading zeros (`0` itself is the single digit `0`).
pub open spec fn dec_digits(n: int) -> Seq<char>
    recommends
        0 <= n,
    decreases n,
{
    if n < 10 {
        seq![digit_char(n)]
    } else {
        dec_digits(n / 10).push(digit_char(n % 10))
    }
}

/// The decimal rendering of an integer, with a leading minus sign when
/// negative.
pub open spec fn dec_int(n: int) -> Seq<char> {
    if n < 0 {
        seq!['-'] + dec_digits(-n)
    } else {
        dec_digits(n)
    }
}

/// The exact user-facing message for each error.
pub open spec fn spec_message(e: GameError) -> Seq<char> {
    match e {
        GameError::AlreadyRevealed { x, y } => "Card at position ("@ + dec_int(x as int) + ","@
            + dec_int(y as int) + ") is already revealed."@,
        GameError::EmptyInput => "User input is required"@,
        GameError::CoordinateOverflow { axis, max } => seq![axis]
            + " coordinate too large. Maximum possible value is "@ + dec_int(max as int) + "."@,
        GameError::CoordinateUnderflow { axis } => seq![axis]
            + " coordinate too small. Minimum possible value is 0."@,
        GameError::NotEnoughCardTypes { max } => "Cannot create board with more than "@ + dec_int(
            max as int,
        ) + " cells"@,
        GameError::OddBoardCells => "Number of board cells (horizontal size * vertical size) must be even"@,
        GameError::UnparsableInput => "User input could not be parsed"@,
    }
}

/// Relies on `String::push` from std: it appends the given character to the
/// end of the string.
pub assume_specification[ String::push ](s: &mut String, ch: char)
    ensures
        final(s)@ == old(s)@.push(ch),
;

/// The one-character string for a decimal digit.
fn digit_str(d: u8) -> (r: &'static str)
    requires
        d < 10,
    ensures
        r@ == seq![digit_char(d as int)],
{
    proof {
        reveal_strlit("0");
        reveal_strlit("1");
        reveal_strlit("2");
        reveal_strlit("3");
        reveal_strlit("4");
        reveal_strlit("5");
        reveal_strlit("6");
        reveal_strlit("7");
        reveal_strlit("8");
        reveal_strlit("9");
    }
    if d == 0 {
        "0"
    } else if d == 1 {
        "1"
    } else if d == 2 {
        "2"
    } else if d == 3 {
        "3"
    } else if d == 4 {
        "4"
    } else if d == 5 {
        "5"
    } else if d == 6 {
        "6"
    } else if d == 7 {
        "7"
    } else if d == 8 {
        "8"
    } else {
        "9"
    }
}

/// Append the decimal digits of `n` to `s`.
fn append_u32(s: &mut String, n: u32)
    ensures
        final(s)@ == old(s)@ + dec_digits(n as int),
    decreases n,
{
    if n >= 10 {
        append_u32(s, n / 10);
        s.append(digit_str((n % 10) as u8));
        proof {
            assert(s@ =~= old(s)@ + dec_digits(n as int));
        }
    } else {
        s.append(digit_str(n as u8));
        proof {
            assert(s@ =~= old(s)@ + dec_digits(n as int));
        }
    }
}

/// Append the decimal rendering of `n` to `s`, sign included.
fn append_i32(s: &mut String, n: i32)
    ensures
        final(s)@ == old(s)@ + dec_int(n as int),
{
    if n < 0 {
        proof {
            reveal_strlit("-");
        }
        s.append("-");
        let mag: u32 = (-(n as i64)) as u32;
        append_u32(s, mag);
        proof {
            assert(s@ =~= old(s)@ + dec_int(n as int));
        }
    } else {
        append_u32(s, n as u32);
    }
}

impl GameError {
    /// The human-readable message for this error, exactly as given by
    /// [`spec_message`].
    pub fn as_string(&self) -> (r: String)
        ensures
            r@ == spec_message(*self),
    {
        let mut m = String::new();
        match self {
            GameError::AlreadyRevealed { x, y } => {
                m.append("Card at position (");
                append_i32(&mut m, *x);
                m.append(",");
                append_i32(&mut m, *y);
                m.append(") is already revealed.");
            },
            GameError::EmptyInput => {
                m.append("User input is required");
            },
            GameError::CoordinateOverflow { axis, max } => {
                m.push(*axis);
                m.append(" coordinate too large. Maximum possible value is ");
                append_i32(&mut m, *max);
                m.append(".");
            },
            GameError::CoordinateUnderflow { axis } => {
                m.push(*axis);
                m.append(" coordinate too small. Minimum possible value is 0.");
            },
            GameError::NotEnoughCardTypes { max } => {
                m.append("Cannot create board with more than ");
                append_i32(&mut m, *max);
                m.append(" cells");
            },
            GameError::OddBoardCells => {
                m.append("Number of board cells (horizontal size * vertical size) must be even");
            },
            GameError::UnparsableInput => {
                m.append("User input could not be parsed");
            },
        }
        proof {
            assert(m@ =~= spec_message(*self));
        }
        m
    }
}

} // verus!
