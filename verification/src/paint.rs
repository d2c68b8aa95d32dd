//! Showing a colour instead of only naming it.
//!
//! Escape codes go only to a terminal, and never when `NO_COLOR` is set; the
//! caller decides that and passes it in as `enabled`. With colour off the
//! swatch is empty, so output stays exactly what it was without it.
use crate::color::Rgb;
use crate::text::{dec, push_dec, push_str, zero_pad};
use vstd::prelude::*;

verus! {

/// The escape sequence for a two-space block with `c` as its background,
/// followed by a reset and a space.
pub open spec fn swatch_spec(c: Rgb) -> Seq<char> {
    "\x1b[48;2;"@ + dec(c.r as nat) + ";"@ + dec(c.g as nat) + ";"@ + dec(c.b as nat)
        + "m  \x1b[0m "@
}

fn push_byte(s: &mut String, b: u8)
    ensures
        final(s)@ == old(s)@ + dec(b as nat),
{
    push_dec(s, b as u128, 0);
    assert(zero_pad(dec(b as nat), 0) == dec(b as nat));
}

/// A block of the colour itself, to sit before the name or hex that follows it.
/// Empty when colour is off, so callers can prefix it unconditionally.
///
/// The colour goes in the *background* rather than the text: white text on a
/// white background is unreadable, and a palette has to show the pale ones as
/// clearly as the bright ones.
pub fn swatch(c: Rgb, enabled: bool) -> (s: String)
    ensures
        s@ == if enabled {
            swatch_spec(c)
        } else {
            Seq::empty()
        },
{
    let mut s = String::new();
    if !enabled {
        return s;
    }
    push_str(&mut s, "\x1b[48;2;");
    push_byte(&mut s, c.r);
    push_str(&mut s, ";");
    push_byte(&mut s, c.g);
    push_str(&mut s, ";");
    push_byte(&mut s, c.b);
    push_str(&mut s, "m  \x1b[0m ");
    s
}

} // verus!
