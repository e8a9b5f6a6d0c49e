//! Whole numbers as text: an optional sign and decimal digits, in ASCII.
//!
//! This is the form in which a counter is stored and in which its
//! increments are written.
use vstd::prelude::*;

verus! {

/// ASCII `+`.
pub const PLUS: u8 = 0x2b;

/// ASCII `-`.
pub const MINUS: u8 = 0x2d;

/// ASCII `0`; the nine other digits follow it.
pub const ZERO: u8 = 0x30;

/// The largest magnitude that a stored number can have: that of `i64::MIN`.
pub const MAGNITUDE_LIMIT: u64 = 0x8000_0000_0000_0000;

pub open spec fn is_digit(byte: u8) -> bool {
    ZERO <= byte <= ZERO + 9
}

pub open spec fn all_digits(text: Seq<u8>) -> bool {
    forall|i: int| 0 <= i < text.len() ==> is_digit(#[trigger] text[i])
}

/// The number that a run of digits spells, the most significant digit first.
pub open spec fn digits_value(digits: Seq<u8>) -> nat
    decreases digits.len(),
{
    if digits.len() == 0 {
        0
    } else {
        digits_value(digits.drop_last()) * 10 + (digits.last() - ZERO) as nat
    }
}

/// The digits of a number, without leading zeros; `0` is one digit.
pub open spec fn digits_of(n: nat) -> Seq<u8>
    decreases n,
{
    if n < 10 {
        seq![(ZERO + n) as u8]
    } else {
        digits_of(n / 10).push((ZERO + n % 10) as u8)
    }
}

/// Whether a text begins with a sign.
pub open spec fn has_sign(text: Seq<u8>) -> bool {
    text.len() > 0 && (text[0] == PLUS || text[0] == MINUS)
}

/// A text without its sign, if it has one.
pub open spec fn unsigned_part(text: Seq<u8>) -> Seq<u8> {
    if has_sign(text) {
        text.skip(1)
    } else {
        text
    }
}

/// The number that a text stands for: an optional `+` or `-`, then at least
/// one digit and nothing but digits, with a value that an `i64` holds.
/// Leading zeros are read over. Any other text stands for no number.
pub open spec fn parsed(text: Seq<u8>) -> Option<int> {
    let digits = unsigned_part(text);
    let value = if has_sign(text) && text[0] == MINUS {
        -(digits_value(digits) as int)
    } else {
        digits_value(digits) as int
    };
    if digits.len() > 0 && all_digits(digits) && i64::MIN <= value <= i64::MAX {
        Some(value)
    } else {
        None
    }
}

/// A number as text: `-` before a negative number, `+` before any other
/// where `signed` asks for it, then the digits without leading zeros.
pub open spec fn rendered(value: int, signed: bool) -> Seq<u8> {
    if value < 0 {
        seq![MINUS] + digits_of((-value) as nat)
    } else if signed {
        seq![PLUS] + digits_of(value as nat)
    } else {
        digits_of(value as nat)
    }
}

/// A run of digits spells no less than any of its beginnings.
pub proof fn lemma_value_grows(digits: Seq<u8>, upto: int)
    requires
        0 <= upto <= digits.len(),
    ensures
        digits_value(digits.take(upto)) <= digits_value(digits),
    decreases digits.len(),
{
    if upto == digits.len() {
        assert(digits.take(upto) =~= digits);
    } else {
        assert(digits.drop_last().take(upto) =~= digits.take(upto));
        lemma_value_grows(digits.drop_last(), upto);
    }
}

/// The digits of a number spell that number.
pub proof fn lemma_digits_spell(n: nat)
    ensures
        digits_of(n).len() > 0,
        all_digits(digits_of(n)),
        digits_value(digits_of(n)) == n,
    decreases n,
{
    let digits = digits_of(n);
    if n < 10 {
        assert(digits_value(digits.drop_last()) == 0);
    } else {
        lemma_digits_spell(n / 10);
        assert(digits.drop_last() =~= digits_of(n / 10));
        assert forall|i: int| 0 <= i < digits.len() implies is_digit(#[trigger] digits[i]) by {
            if i < digits.len() - 1 {
                assert(digits[i] == digits_of(n / 10)[i]);
            }
        }
    }
}

/// A number written as text is read back as itself, with or without the
/// `+`.
pub proof fn lemma_rendered_is_parsed(value: int, signed: bool)
    requires
        i64::MIN <= value <= i64::MAX,
    ensures
        parsed(rendered(value, signed)) == Some(value),
{
    let text = rendered(value, signed);
    if value < 0 {
        lemma_digits_spell((-value) as nat);
        assert(text.skip(1) =~= digits_of((-value) as nat));
    } else {
        lemma_digits_spell(value as nat);
        if signed {
            assert(text.skip(1) =~= digits_of(value as nat));
        } else {
            assert(is_digit(text[0]));
        }
    }
}

/// Reads a number from text.
///
/// Returns the number where the text stands for one, and `None` for every
/// other text: one that is empty or a bare sign, one that holds anything
/// but digits behind the sign, and one whose value no `i64` holds.
pub fn parse_integer(text: &[u8]) -> (number: Option<i64>)
    ensures
        match number {
            Some(value) => parsed(text@) == Some(value as int),
            None => parsed(text@) is None,
        },
{
    let length: usize = text.len();
    if length == 0 {
        return None;
    }
    let negative: bool = text[0] == MINUS;
    let start: usize = if text[0] == PLUS || text[0] == MINUS {
        1
    } else {
        0
    };
    let ghost digits = unsigned_part(text@);
    assert(digits =~= text@.skip(start as int));
    if start == length {
        return None;
    }
    let mut magnitude: u64 = 0;
    let mut next: usize = start;
    while next < length
        invariant
            start <= next <= length,
            length == text@.len(),
            digits == text@.skip(start as int),
            digits == unsigned_part(text@),
            all_digits(digits.take(next - start)),
            magnitude == digits_value(digits.take(next - start)),
            magnitude <= MAGNITUDE_LIMIT,
        decreases length - next,
    {
        let byte: u8 = text[next];
        let ghost taken = digits.take(next - start);
        let ghost more = digits.take(next - start + 1);
        assert(more.drop_last() =~= taken);
        assert(more.last() == byte);
        if byte < ZERO || byte > ZERO + 9 {
            assert(!is_digit(digits[next - start]));
            return None;
        }
        let wide: u128 = magnitude as u128 * 10 + (byte - ZERO) as u128;
        if wide > MAGNITUDE_LIMIT as u128 {
            proof {
                lemma_value_grows(digits, next - start + 1);
            }
            return None;
        }
        magnitude = wide as u64;
        next = next + 1;
    }
    assert(digits.take(next - start) =~= digits);
    if negative {
        if magnitude == MAGNITUDE_LIMIT {
            Some(i64::MIN)
        } else {
            Some(-(magnitude as i64))
        }
    } else if magnitude == MAGNITUDE_LIMIT {
        None
    } else {
        Some(magnitude as i64)
    }
}

/// Lays the digits of `n` behind what `text` holds.
fn push_digits(text: &mut Vec<u8>, n: u64)
    ensures
        final(text)@ == old(text)@ + digits_of(n as nat),
    decreases n,
{
    if n >= 10 {
        push_digits(text, n / 10);
    }
    let digit: u8 = (n % 10) as u8;
    text.push(ZERO + digit);
    assert(final(text)@ =~= old(text)@ + digits_of(n as nat));
}

/// Writes a number as text.
///
/// With `signed` a number that is not negative gets a `+` in front, as an
/// increment is written; without it the text is the plain number.
pub fn render_integer(value: i64, signed: bool) -> (text: Vec<u8>)
    ensures
        text@ == rendered(value as int, signed),
{
    let mut text: Vec<u8> = Vec::new();
    let magnitude: u64 = if value < 0 {
        text.push(MINUS);
        (-(value as i128)) as u64
    } else {
        if signed {
            text.push(PLUS);
        }
        value as u64
    };
    push_digits(&mut text, magnitude);
    assert(text@ =~= rendered(value as int, signed));
    text
}

} // verus!
