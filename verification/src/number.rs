//! Unsigned integers written in base 10 or 16, the way `from_str_radix` reads
//! them: an optional `+`, then at least one digit, no overflow.
use crate::text::{chars_of, digit_value, is_digit_in};
use vstd::prelude::*;

verus! {

/// Why a string is not an unsigned integer (`std::num::IntErrorKind`).
#[derive(Debug, Clone, Copy, PartialEq, Eq, Structural)]
pub enum IntErrorKind {
    /// Nothing to parse.
    Empty,
    /// A character that is not a digit of the base, or a lone sign.
    InvalidDigit,
    /// The value is larger than the type holds.
    PosOverflow,
}

/// Accumulate the digits of `s` from position `i`, starting from `acc`.
pub open spec fn digits_from(s: Seq<char>, radix: u32, max: nat, i: int, acc: nat) -> Result<
    nat,
    IntErrorKind,
>
    decreases s.len() - i,
{
    if i < 0 || i >= s.len() {
        Ok(acc)
    } else if !is_digit_in(s[i], radix) {
        Err(IntErrorKind::InvalidDigit)
    } else if acc * radix + digit_value(s[i]) > max {
        Err(IntErrorKind::PosOverflow)
    } else {
        digits_from(s, radix, max, i + 1, (acc * radix + digit_value(s[i])) as nat)
    }
}

/// `from_str_radix` for an unsigned type whose largest value is `max`.
pub open spec fn parse_unsigned_spec(s: Seq<char>, radix: u32, max: nat) -> Result<
    nat,
    IntErrorKind,
> {
    if s.len() == 0 {
        Err(IntErrorKind::Empty)
    } else if (s[0] == '+' || s[0] == '-') && s.len() == 1 {
        Err(IntErrorKind::InvalidDigit)
    } else if s[0] == '+' {
        digits_from(s, radix, max, 1, 0)
    } else {
        digits_from(s, radix, max, 0, 0)
    }
}

/// Read `v` as an unsigned integer in base `radix` (10 or 16) no larger than
/// `max`.
pub fn parse_unsigned_chars(v: &Vec<char>, radix: u32, max: u64) -> (r: Result<u64, IntErrorKind>)
    requires
        radix == 10 || radix == 16,
    ensures
        match r {
            Ok(n) => parse_unsigned_spec(v@, radix, max as nat) == Ok::<nat, IntErrorKind>(
                n as nat,
            ),
            Err(e) => parse_unsigned_spec(v@, radix, max as nat) == Err::<nat, IntErrorKind>(e),
        },
        r matches Ok(n) ==> n <= max,
{
    if v.len() == 0 {
        return Err(IntErrorKind::Empty);
    }
    if (v[0] == '+' || v[0] == '-') && v.len() == 1 {
        return Err(IntErrorKind::InvalidDigit);
    }
    let mut i: usize = if v[0] == '+' {
        1
    } else {
        0
    };
    let ghost first = i as int;
    let mut acc: u64 = 0;
    assert(parse_unsigned_spec(v@, radix, max as nat) == digits_from(v@, radix, max as nat, first, 0));
    while i < v.len()
        invariant
            i <= v.len(),
            radix == 10 || radix == 16,
            acc <= max,
            parse_unsigned_spec(v@, radix, max as nat) == digits_from(
                v@,
                radix,
                max as nat,
                i as int,
                acc as nat,
            ),
        decreases v.len() - i,
    {
        let c = v[i];
        let is_digit = if radix == 16 {
            ('0' <= c && c <= '9') || ('a' <= c && c <= 'f') || ('A' <= c && c <= 'F')
        } else {
            '0' <= c && c <= '9'
        };
        if !is_digit {
            return Err(IntErrorKind::InvalidDigit);
        }
        let d: u64 = if '0' <= c && c <= '9' {
            (c as u64) - 48
        } else if 'a' <= c && c <= 'f' {
            (c as u64) - 87
        } else {
            (c as u64) - 55
        };
        assert(d == digit_value(c));
        let next: u128 = (acc as u128) * (radix as u128) + (d as u128);
        if next > max as u128 {
            return Err(IntErrorKind::PosOverflow);
        }
        acc = next as u64;
        i = i + 1;
    }
    Ok(acc)
}

/// `u8::from_str`: decimal, optional `+`, at most 255.
pub fn parse_u8(s: &str) -> (r: Result<u8, IntErrorKind>)
    ensures
        match r {
            Ok(n) => parse_unsigned_spec(s@, 10, 255) == Ok::<nat, IntErrorKind>(n as nat),
            Err(e) => parse_unsigned_spec(s@, 10, 255) == Err::<nat, IntErrorKind>(e),
        },
{
    let v = chars_of(s);
    match parse_unsigned_chars(&v, 10, 255) {
        Ok(n) => Ok(n as u8),
        Err(e) => Err(e),
    }
}

/// `usize::from_str`: decimal, optional `+`, at most `usize::MAX`.
pub fn parse_usize(s: &str) -> (r: Result<usize, IntErrorKind>)
    ensures
        match r {
            Ok(n) => parse_unsigned_spec(s@, 10, usize::MAX as nat) == Ok::<nat, IntErrorKind>(
                n as nat,
            ),
            Err(e) => parse_unsigned_spec(s@, 10, usize::MAX as nat) == Err::<nat, IntErrorKind>(
                e,
            ),
        },
{
    let v = chars_of(s);
    match parse_unsigned_chars(&v, 10, usize::MAX as u64) {
        Ok(n) => Ok(n as usize),
        Err(e) => Err(e),
    }
}

} // verus!
