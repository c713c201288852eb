//! Decimal rendering, padding and the other small pieces of text that the
//! table is assembled from.

use vstd::prelude::*;
use vstd::string::{StrSliceExecFns, StringExecFns};

verus! {

/// The character that stands for the decimal digit `d`.
pub open spec fn digit_char(d: nat) -> char {
    if d == 0 {
        '0'
    } else if d == 1 {
        '1'
    } else if d == 2 {
        '2'
    } else if d == 3 {
        '3'
    } else if d == 4 {
        '4'
    } else if d == 5 {
        '5'
    } else if d == 6 {
        '6'
    } else if d == 7 {
        '7'
    } else if d == 8 {
        '8'
    } else {
        '9'
    }
}

/// The decimal numeral of `n`: no sign, no leading zeros, `"0"` for zero.
pub open spec fn decimal(n: nat) -> Seq<char>
    decreases n,
{
    if n < 10 {
        seq![digit_char(n)]
    } else {
        decimal(n / 10).push(digit_char(n % 10))
    }
}

/// The one-character string of a decimal digit.
pub fn digit_str(d: u8) -> (s: &'static str)
    requires
        d < 10,
    ensures
        s@ == seq![digit_char(d as nat)],
{
    proof {
        reveal_strlit("0");
        reveal_strlit("1");
        reveal_strlit("2");
        reveal_strlit("3");
        reveal_strlit("4");
        reveal_strlit("5");
        reveal_strlit("6");
        reveal_strlit("7");
        reveal_strlit("8");
        reveal_strlit("9");
    }
    let s = match d {
        0 => "0",
        1 => "1",
        2 => "2",
        3 => "3",
        4 => "4",
        5 => "5",
        6 => "6",
        7 => "7",
        8 => "8",
        _ => "9",
    };
    assert(s@ =~= seq![digit_char(d as nat)]);
    s
}

/// Renders an unsigned integer in decimal.
pub fn decimal_string(n: u128) -> (s: String)
    ensures
        s@ == decimal(n as nat),
    decreases n,
{
    if n < 10 {
        String::from_str(digit_str(n as u8))
    } else {
        let mut s = decimal_string(n / 10);
        s.append(digit_str((n % 10) as u8));
        s
    }
}

/// The decimal numeral of a signed integer: a minus sign before the digits of
/// a negative number, no sign otherwise.
pub open spec fn signed_decimal(n: int) -> Seq<char> {
    if n < 0 {
        seq!['-'] + decimal((-n) as nat)
    } else {
        decimal(n as nat)
    }
}

/// Renders a signed integer in decimal.
pub fn signed_decimal_string(n: i128) -> (s: String)
    ensures
        s@ == signed_decimal(n as int),
{
    if n < 0 {
        let magnitude: u128 = ((-(n + 1)) as u128) + 1;
        proof {
            reveal_strlit("-");
        }
        let digits = decimal_string(magnitude);
        let s = String::from_str("-").concat(digits.as_str());
        assert(s@ =~= signed_decimal(n as int));
        s
    } else {
        decimal_string(n as u128)
    }
}

/// `fill` written `count` times in a row.
pub open spec fn repeated(fill: Seq<char>, count: nat) -> Seq<char>
    decreases count,
{
    if count == 0 {
        Seq::empty()
    } else {
        repeated(fill, (count - 1) as nat) + fill
    }
}

/// A repetition is as long as its parts together.
pub proof fn lemma_repeated_len(fill: Seq<char>, count: nat)
    ensures
        repeated(fill, count).len() == count * fill.len(),
    decreases count,
{
    let unit = fill.len();
    if count > 0 {
        let fewer = (count - 1) as nat;
        lemma_repeated_len(fill, fewer);
        assert(fewer * unit + unit == count * unit) by (nonlinear_arith)
            requires
                fewer + 1 == count,
        ;
    } else {
        assert(count * unit == 0) by (nonlinear_arith)
            requires
                count == 0,
        ;
    }
}

/// Writes `fill` out `count` times in a row.
pub fn repeat(fill: &str, count: usize) -> (s: String)
    ensures
        s@ == repeated(fill@, count as nat),
{
    let mut s = String::new();
    let mut done: usize = 0;
    while done < count
        invariant
            done <= count,
            s@ == repeated(fill@, done as nat),
        decreases count - done,
    {
        s.append(fill);
        done = done + 1;
    }
    s
}

/// Whether `c` is one of the ten ASCII digits.
pub open spec fn is_digit(c: char) -> bool {
    '0' as u32 <= c as u32 <= '9' as u32
}

/// Whether every character of `text` is an ASCII digit. The empty text is
/// numeric.
pub open spec fn is_numeric(text: Seq<char>) -> bool {
    forall|i: int| 0 <= i < text.len() ==> is_digit(#[trigger] text[i])
}

/// Tells whether a text consists of ASCII digits alone.
pub fn all_digits(text: &str) -> (numeric: bool)
    ensures
        numeric == is_numeric(text@),
{
    let length: usize = text.unicode_len();
    let mut at: usize = 0;
    while at < length
        invariant
            at <= length,
            length == text@.len(),
            forall|i: int| 0 <= i < at ==> is_digit(#[trigger] text@[i]),
        decreases length - at,
    {
        let c = text.get_char(at);
        if !('0' <= c && c <= '9') {
            return false;
        }
        at = at + 1;
    }
    true
}

/// `digits` with zeros in front until it is at least `width` characters long.
pub open spec fn zero_padded(digits: Seq<char>, width: nat) -> Seq<char> {
    if digits.len() >= width {
        digits
    } else {
        repeated(seq!['0'], (width - digits.len()) as nat) + digits
    }
}

/// A duration of `micros` microseconds written in milliseconds: the decimal
/// numeral of `micros`, zero-padded to four digits, with a point set before
/// its last three digits.
pub open spec fn duration_text(micros: nat) -> Seq<char> {
    let digits = zero_padded(decimal(micros), 4);
    digits.subrange(0, digits.len() - 3) + seq!['.'] + digits.subrange(
        digits.len() - 3,
        digits.len() as int,
    )
}

/// Writes a number of microseconds as milliseconds with three decimals.
pub fn format_duration(micros: u128) -> (time: String)
    ensures
        time@ == duration_text(micros as nat),
{
    let digits = decimal_string(micros);
    let length: usize = digits.as_str().unicode_len();
    let padded = if length >= 4 {
        digits
    } else {
        proof {
            reveal_strlit("0");
            assert("0"@ =~= seq!['0']);
            lemma_repeated_len(seq!['0'], (4 - length) as nat);
        }
        repeat("0", 4 - length).concat(digits.as_str())
    };
    assert(padded@ == zero_padded(decimal(micros as nat), 4));
    assert(padded@.len() >= 4);
    let padded_length: usize = padded.as_str().unicode_len();
    let mut time = String::from_str(padded.as_str().substring_char(0, padded_length - 3));
    proof {
        reveal_strlit(".");
    }
    time.append(".");
    time.append(padded.as_str().substring_char(padded_length - 3, padded_length));
    time
}

} // verus!
