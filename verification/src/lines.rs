//! The lines `lumen list` and `lumen set` print about devices and what was
//! done to them.
use crate::cli::Planned;
use crate::color::Rgb;
use crate::driver::{hex_spaced, Packet};
use crate::paint::{swatch, swatch_spec};
use crate::text::{
    chars_of, dec, hex2, pad_int, push_char, push_dec, push_hex2, push_int, push_str, zero_pad,
};
use vstd::prelude::*;

verus! {

/// `s` padded on the right with spaces to `w` characters, as `{:<w}` does.
pub open spec fn pad_right(s: Seq<char>, w: nat) -> Seq<char> {
    if s.len() >= w {
        s
    } else {
        s + Seq::new((w - s.len()) as nat, |i: int| ' ')
    }
}

fn push_padded(s: &mut String, t: &str, w: usize)
    ensures
        final(s)@ == old(s)@ + pad_right(t@, w as nat),
{
    let n = chars_of(t).len();
    push_str(s, t);
    let ghost mid = s@;
    let mut k: usize = n;
    while k < w
        invariant
            n == t@.len(),
            n <= k <= if w > n { w } else { n },
            s@ == mid + Seq::new((k - n) as nat, |i: int| ' '),
        decreases w - k,
    {
        push_char(s, ' ');
        k = k + 1;
        assert(s@ =~= mid + Seq::new((k - n) as nat, |i: int| ' '));
    }
    assert(s@ =~= old(s)@ + pad_right(t@, w as nat));
}

/// One row of the device table: id, name and kind in columns, then status.
pub open spec fn list_row_spec(id: Seq<char>, name: Seq<char>, kind: Seq<char>, status: Seq<char>) -> Seq<
    char,
> {
    pad_right(id, 24) + " "@ + pad_right(name, 24) + " "@ + pad_right(kind, 9) + " "@ + status
}

/// A row of the table `lumen list` prints; its heading is the row
/// `ID`, `DEVICE`, `KIND`, `STATUS`.
pub fn list_row(id: &str, name: &str, kind: &str, status: &str) -> (s: String)
    ensures
        s@ == list_row_spec(id@, name@, kind@, status@),
{
    let mut s = String::new();
    push_padded(&mut s, id, 24);
    push_str(&mut s, " ");
    push_padded(&mut s, name, 24);
    push_str(&mut s, " ");
    push_padded(&mut s, kind, 9);
    push_str(&mut s, " ");
    push_str(&mut s, status);
    assert(s@ =~= list_row_spec(id@, name@, kind@, status@));
    s
}

/// What a plan is said to have done: the colour it is about shown as a
/// swatch (when colour output is on), then its description.
pub open spec fn described_spec(shown: Option<Rgb>, what: Seq<char>, colour: bool) -> Seq<char> {
    match shown {
        Some(c) => if colour {
            swatch_spec(c) + what
        } else {
            what
        },
        None => what,
    }
}

pub fn described(p: &Planned, colour: bool) -> (s: String)
    ensures
        s@ == described_spec(p.shown, p.what@, colour),
{
    let mut s = match p.shown {
        Some(c) => swatch(c, colour),
        None => String::new(),
    };
    push_str(&mut s, p.what.as_str());
    assert(s@ =~= described_spec(p.shown, p.what@, colour));
    s
}

/// The heading of a device's entry in a dry run, and of a device that was
/// set.
pub open spec fn device_line_spec(name: Seq<char>, described: Seq<char>) -> Seq<char> {
    name + " -> "@ + described
}

pub fn device_line(name: &str, described: &str) -> (s: String)
    ensures
        s@ == device_line_spec(name@, described@),
{
    let mut s = String::new();
    push_str(&mut s, name);
    push_str(&mut s, " -> ");
    push_str(&mut s, described);
    s
}

/// The two lines a dry run prints for a packet: its report id and size, and
/// its bytes.
pub open spec fn packet_lines_spec(bytes: Seq<u8>) -> (Seq<char>, Seq<char>) {
    (
        "  report 0x"@ + hex2(bytes[0]) + ", "@ + dec(bytes.len()) + " bytes"@,
        "  "@ + hex_spaced(bytes),
    )
}

pub fn packet_lines(p: &Packet) -> (r: (String, String))
    requires
        p@.len() > 0,
    ensures
        (r.0@, r.1@) == packet_lines_spec(p@),
{
    let mut a = String::new();
    push_str(&mut a, "  report 0x");
    push_hex2(&mut a, p.report_id());
    push_str(&mut a, ", ");
    push_dec(&mut a, p.bytes.len() as u128, 0);
    push_str(&mut a, " bytes");
    assert(zero_pad(dec(p@.len()), 0) == dec(p@.len()));
    assert(a@ =~= packet_lines_spec(p@).0);
    let mut b = String::new();
    push_str(&mut b, "  ");
    push_str(&mut b, p.hex().as_str());
    (a, b)
}

/// The line for a device that was set: what was done, then the interface and
/// report it went through.
pub open spec fn sent_line_spec(name: Seq<char>, described: Seq<char>, interface: i32, report_id: u8) -> Seq<
    char,
> {
    device_line_spec(name, described) + " (interface "@ + pad_int(interface as int, 0) + ", report 0x"@
        + hex2(report_id) + ")"@
}

pub fn sent_line(name: &str, described: &str, interface: i32, report_id: u8) -> (s: String)
    ensures
        s@ == sent_line_spec(name@, described@, interface, report_id),
{
    let mut s = device_line(name, described);
    push_str(&mut s, " (interface ");
    push_int(&mut s, interface as i64, 0);
    push_str(&mut s, ", report 0x");
    push_hex2(&mut s, report_id);
    push_str(&mut s, ")");
    assert(s@ =~= sent_line_spec(name@, described@, interface, report_id));
    s
}

/// Names joined by `, `.
pub open spec fn comma_list(names: Seq<Seq<char>>) -> Seq<char>
    decreases names.len(),
{
    if names.len() == 0 {
        Seq::empty()
    } else if names.len() == 1 {
        names[0]
    } else {
        comma_list(names.drop_last()) + ", "@ + names.last()
    }
}

pub open spec fn volatile_note_spec(names: Seq<Seq<char>>) -> Option<Seq<char>> {
    if names.len() == 0 {
        None
    } else {
        Some(
            "note: "@ + comma_list(names)
                + " does not latch a colour, so it has already reverted. Re-run with --hold to make it stick."@,
        )
    }
}

/// After a `set` without `--hold`: a note naming the devices that do not keep
/// a colour, when any were set.
pub fn volatile_note(names: &[&str]) -> (r: Option<String>)
    ensures
        match r {
            Some(s) => volatile_note_spec(names@.map_values(|n: &str| n@)) == Some(s@),
            None => volatile_note_spec(names@.map_values(|n: &str| n@)) is None,
        },
{
    let ghost all = names@.map_values(|n: &str| n@);
    if names.len() == 0 {
        return None;
    }
    let mut s = String::new();
    push_str(&mut s, "note: ");
    let ghost head = s@;
    let mut i: usize = 0;
    while i < names.len()
        invariant
            0 < names@.len(),
            i <= names@.len(),
            all == names@.map_values(|n: &str| n@),
            s@ == head + comma_list(all.take(i as int)),
        decreases names@.len() - i,
    {
        let ghost before = s@;
        if i > 0 {
            push_str(&mut s, ", ");
        }
        push_str(&mut s, names[i]);
        proof {
            let t = all.take(i + 1);
            assert(t.drop_last() =~= all.take(i as int));
            assert(t.last() == names@[i as int]@);
            if i == 0 {
                assert(comma_list(all.take(0)) =~= Seq::<char>::empty());
                assert(s@ =~= head + comma_list(t));
            } else {
                assert(s@ =~= head + comma_list(t));
            }
        }
        i = i + 1;
    }
    assert(all.take(names@.len() as int) =~= all);
    push_str(
        &mut s,
        " does not latch a colour, so it has already reverted. Re-run with --hold to make it stick.",
    );
    Some(s)
}

} // verus!
