//! The port of an authority: a run of decimal digits that names a number of
//! sixteen bits.

use crate::error::UrlError;
use vstd::prelude::*;

verus! {

/// The greatest number a port can be.
pub const MAX_PORT: u32 = 65535;

/// Whether `c` is one of `0` to `9`.
pub open spec fn is_digit(c: char) -> bool {
    '0' <= c <= '9'
}

/// The number that the digit `c` stands for.
pub open spec fn digit_value(c: char) -> nat {
    (c as u32 - '0' as u32) as nat
}

/// Whether every code point of `s` is a decimal digit.
pub open spec fn all_digits(s: Seq<char>) -> bool {
    forall|i: int| 0 <= i < s.len() ==> is_digit(#[trigger] s[i])
}

/// The number that the digits `s` name in base ten; leading zeros do not
/// count, and no digits name zero.
pub open spec fn decimal_value(s: Seq<char>) -> nat
    decreases s.len(),
{
    if s.len() == 0 {
        0
    } else {
        decimal_value(s.drop_last()) * 10 + digit_value(s.last())
    }
}

/// What `digits`, the text between the colon and the end of the authority,
/// says of the port: its number, `None` for an empty text, or the reason why
/// it is no port.
pub open spec fn port_spec(digits: Seq<char>) -> Result<Option<u16>, UrlError> {
    if !all_digits(digits) {
        Err(UrlError::PortNotDecimal)
    } else if decimal_value(digits) > MAX_PORT {
        Err(UrlError::PortTooLarge)
    } else if digits.len() == 0 {
        Ok(None)
    } else {
        Ok(Some(decimal_value(digits) as u16))
    }
}

/// Reads `text[from..to]` as a port.
pub fn read_port(text: &[char], from: usize, to: usize) -> (r: Result<Option<u16>, UrlError>)
    requires
        from <= to <= text@.len(),
    ensures
        r == port_spec(text@.subrange(from as int, to as int)),
{
    let ghost digits = text@.subrange(from as int, to as int);
    let mut value: u32 = 0;
    let mut large: bool = false;
    let mut i: usize = from;
    while i < to
        invariant
            from <= i <= to <= text@.len(),
            digits == text@.subrange(from as int, to as int),
            all_digits(digits.take(i - from)),
            large ==> decimal_value(digits.take(i - from)) > MAX_PORT,
            !large ==> value == decimal_value(digits.take(i - from)) && value <= MAX_PORT,
        decreases to - i,
    {
        let c: char = text[i];
        if !('0' <= c && c <= '9') {
            proof {
                assert(digits[i - from] == c);
                assert(!is_digit(digits[i - from]));
            }
            return Err(UrlError::PortNotDecimal);
        }
        proof {
            let next = digits.take(i - from + 1);
            assert(next.drop_last() =~= digits.take(i - from));
            assert(next.last() == c);
            assert forall|j: int| 0 <= j < next.len() implies is_digit(#[trigger] next[j]) by {
                if j < i - from {
                    assert(next[j] == digits.take(i - from)[j]);
                }
            }
        }
        if !large {
            let d: u32 = c as u32 - '0' as u32;
            value = value * 10 + d;
            if value > MAX_PORT {
                large = true;
            }
        }
        i = i + 1;
    }
    proof {
        assert(digits.take(to - from) =~= digits);
    }
    if large {
        Err(UrlError::PortTooLarge)
    } else if from == to {
        Ok(None)
    } else {
        Ok(Some(value as u16))
    }
}

} // verus!
