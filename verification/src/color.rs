//! Colours: the 24-bit `Rgb` value, the names and hex forms the command line
//! accepts, and brightness applied by scaling.
use crate::text::{
    is_ascii_upper, trim_end, trim_start, chars_eq, chars_of, digit_value, hex2,
    hex_digit_value, is_hex_digit, is_hex_digit_char, lemma_digit_roundtrip,
    lemma_trim_idempotent, lemma_trim_lower, lower_all, push_char, push_hex2, string_from,
    to_ascii_lower, trim, trim_bounds,
};
use vstd::prelude::*;

verus! {

/// A 24-bit RGB colour.
#[derive(Debug, Clone, Copy, PartialEq, Eq, Structural)]
pub struct Rgb {
    pub r: u8,
    pub g: u8,
    pub b: u8,
}

/// Why a string is not a colour.
#[derive(Debug, PartialEq, Eq)]
pub enum ColorParseError {
    /// Neither a colour name nor hex digits. Holds the trimmed input.
    Unrecognised(String),
    /// Hex digits, but not three or six of them. Holds the trimmed input.
    BadHex(String),
}

/// What a `ColorParseError` says, as plain values.
pub enum ColorFault {
    Unrecognised(Seq<char>),
    BadHex(Seq<char>),
}

impl View for ColorParseError {
    type V = ColorFault;

    open spec fn view(&self) -> ColorFault {
        match self {
            ColorParseError::Unrecognised(s) => ColorFault::Unrecognised(s@),
            ColorParseError::BadHex(s) => ColorFault::BadHex(s@),
        }
    }
}

pub open spec fn rgb(r: u8, g: u8, b: u8) -> Rgb {
    Rgb { r, g, b }
}

/// The names accepted alongside hex, in the order they are offered.
pub open spec fn named_table() -> Seq<(Seq<char>, Rgb)> {
    seq![
        ("black"@, rgb(0, 0, 0)),
        ("off"@, rgb(0, 0, 0)),
        ("white"@, rgb(255, 255, 255)),
        ("red"@, rgb(255, 0, 0)),
        ("green"@, rgb(0, 255, 0)),
        ("blue"@, rgb(0, 0, 255)),
        ("yellow"@, rgb(255, 255, 0)),
        ("cyan"@, rgb(0, 255, 255)),
        ("magenta"@, rgb(255, 0, 255)),
        ("orange"@, rgb(255, 96, 0)),
        ("purple"@, rgb(128, 0, 255)),
    ]
}

/// The colour of the first entry of `table` named `name`.
pub open spec fn lookup(table: Seq<(Seq<char>, Rgb)>, name: Seq<char>) -> Option<Rgb>
    decreases table.len(),
{
    if table.len() == 0 {
        None
    } else if table[0].0 == name {
        Some(table[0].1)
    } else {
        lookup(table.drop_first(), name)
    }
}

/// `#rrggbb`, lower case.
pub open spec fn rgb_hex(c: Rgb) -> Seq<char> {
    seq!['#'] + hex2(c.r) + hex2(c.g) + hex2(c.b)
}

pub open spec fn all_hex(s: Seq<char>) -> bool {
    forall|i: int| 0 <= i < s.len() ==> is_hex_digit(#[trigger] s[i])
}

/// The hex part of an already lower-cased colour: one leading `#` dropped.
pub open spec fn hex_part(lower: Seq<char>) -> Seq<char> {
    if lower.len() > 0 && lower[0] == '#' {
        lower.drop_first()
    } else {
        lower
    }
}

/// What a string means as a colour: a name (any case, surrounding whitespace
/// ignored), or three or six hex digits with an optional leading `#`.
pub open spec fn parse_color(s: Seq<char>) -> Result<Rgb, ColorFault> {
    let t = trim(s);
    let lower = lower_all(t);
    match lookup(named_table(), lower) {
        Some(c) => Ok(c),
        None => {
            let hex = hex_part(lower);
            if hex.len() == 0 || !all_hex(hex) {
                Err(ColorFault::Unrecognised(t))
            } else if hex.len() == 3 {
                Ok(
                    rgb(
                        (digit_value(hex[0]) * 17) as u8,
                        (digit_value(hex[1]) * 17) as u8,
                        (digit_value(hex[2]) * 17) as u8,
                    ),
                )
            } else if hex.len() == 6 {
                Ok(
                    rgb(
                        (digit_value(hex[0]) * 16 + digit_value(hex[1])) as u8,
                        (digit_value(hex[2]) * 16 + digit_value(hex[3])) as u8,
                        (digit_value(hex[4]) * 16 + digit_value(hex[5])) as u8,
                    ),
                )
            } else {
                Err(ColorFault::BadHex(t))
            }
        },
    }
}

pub open spec fn parse_result_view(r: Result<Rgb, ColorParseError>) -> Result<Rgb, ColorFault> {
    match r {
        Ok(c) => Ok(c),
        Err(e) => Err(e@),
    }
}

/// One channel at `level` percent, rounded to nearest; above 100 counts as 100.
pub open spec fn scale_channel(c: u8, level: u8) -> u8 {
    let l = if level > 100 { 100int } else { level as int };
    ((c as int * l + 50) / 100) as u8
}

pub open spec fn scaled_spec(c: Rgb, level: u8) -> Rgb {
    rgb(scale_channel(c.r, level), scale_channel(c.g, level), scale_channel(c.b, level))
}

impl Rgb {
    pub fn new(r: u8, g: u8, b: u8) -> (c: Rgb)
        ensures
            c == rgb(r, g, b),
    {
        Rgb { r, g, b }
    }

    /// `#000000`.
    pub fn black() -> (c: Rgb)
        ensures
            c == rgb(0, 0, 0),
    {
        Rgb { r: 0, g: 0, b: 0 }
    }

    /// `#ffffff`.
    pub fn white() -> (c: Rgb)
        ensures
            c == rgb(255, 255, 255),
    {
        Rgb { r: 255, g: 255, b: 255 }
    }

    /// This colour at `level` percent, each channel scaled and rounded to
    /// nearest. Levels above 100 are treated as 100.
    ///
    /// This is how brightness is applied to a device whose protocol has no
    /// brightness command of its own.
    pub fn scaled(self, level: u8) -> (c: Rgb)
        ensures
            c == scaled_spec(self, level),
    {
        let l: u16 = if level > 100 { 100 } else { level as u16 };
        Rgb::new(scale_u8(self.r, l), scale_u8(self.g, l), scale_u8(self.b, l))
    }

    /// `#rrggbb`, the form colours are shown in.
    pub fn to_string(&self) -> (s: String)
        ensures
            s@ == rgb_hex(*self),
    {
        let mut s = String::new();
        push_char(&mut s, '#');
        push_hex2(&mut s, self.r);
        push_hex2(&mut s, self.g);
        push_hex2(&mut s, self.b);
        assert(s@ =~= rgb_hex(*self));
        s
    }

    /// Accepts `red`, `#ff0080`, `ff0080` and the three-digit form `#f08`.
    pub fn parse(s: &str) -> (r: Result<Rgb, ColorParseError>)
        ensures
            parse_result_view(r) == parse_color(s@),
    {
        let v = chars_of(s);
        let (a, b) = trim_bounds(&v);
        let ghost t = trim(s@);
        let mut lower: Vec<char> = Vec::new();
        let mut i: usize = a;
        while i < b
            invariant
                a <= i <= b <= v.len(),
                v@.subrange(a as int, b as int) == t,
                lower@ == lower_all(v@.subrange(a as int, i as int)),
            decreases b - i,
        {
            lower.push(to_ascii_lower(v[i]));
            i = i + 1;
            assert(lower@ =~= lower_all(v@.subrange(a as int, i as int)));
        }
        assert(lower@ == lower_all(t));
        if let Some(c) = find_named(&lower) {
            return Ok(c);
        }
        let start: usize = if lower.len() > 0 && lower[0] == '#' {
            1
        } else {
            0
        };
        let ghost hex = hex_part(lower@);
        assert(hex =~= lower@.subrange(start as int, lower.len() as int));
        let n: usize = lower.len() - start;
        let mut k: usize = start;
        while k < lower.len()
            invariant
                start <= k <= lower.len(),
                hex == lower@.subrange(start as int, lower.len() as int),
                forall|j: int| start <= j < k ==> is_hex_digit(#[trigger] lower@[j]),
                a <= b <= v.len(),
                v@.subrange(a as int, b as int) == t,
                t == trim(s@),
                lower@ == lower_all(t),
                hex == hex_part(lower@),
                lookup(named_table(), lower@) is None,
            decreases lower.len() - k,
        {
            if !is_hex_digit_char(lower[k]) {
                assert(!is_hex_digit(hex[k - start]));
                return Err(ColorParseError::Unrecognised(string_from(&v, a, b)));
            }
            k = k + 1;
        }
        assert(all_hex(hex)) by {
            assert forall|j: int| 0 <= j < hex.len() implies is_hex_digit(#[trigger] hex[j]) by {
                assert(hex[j] == lower@[j + start]);
            }
        }
        if n == 0 {
            return Err(ColorParseError::Unrecognised(string_from(&v, a, b)));
        }
        if n == 3 {
            let d0 = hex_digit_value(lower[start]);
            let d1 = hex_digit_value(lower[start + 1]);
            let d2 = hex_digit_value(lower[start + 2]);
            assert(hex[0] == lower@[start as int] && hex[1] == lower@[start + 1] && hex[2]
                == lower@[start + 2]);
            Ok(Rgb::new(d0 * 17, d1 * 17, d2 * 17))
        } else if n == 6 {
            let d0 = hex_digit_value(lower[start]);
            let d1 = hex_digit_value(lower[start + 1]);
            let d2 = hex_digit_value(lower[start + 2]);
            let d3 = hex_digit_value(lower[start + 3]);
            let d4 = hex_digit_value(lower[start + 4]);
            let d5 = hex_digit_value(lower[start + 5]);
            assert(hex[0] == lower@[start as int] && hex[1] == lower@[start + 1] && hex[2]
                == lower@[start + 2] && hex[3] == lower@[start + 3] && hex[4] == lower@[start
                + 4] && hex[5] == lower@[start + 5]);
            Ok(Rgb::new(d0 * 16 + d1, d2 * 16 + d3, d4 * 16 + d5))
        } else {
            Err(ColorParseError::BadHex(string_from(&v, a, b)))
        }
    }
}

fn scale_u8(c: u8, l: u16) -> (r: u8)
    requires
        l <= 100,
    ensures
        r == ((c as int * l as int + 50) / 100) as u8,
{
    let c16: u16 = c as u16;
    assert(c16 * l <= 25500) by (nonlinear_arith)
        requires
            c16 <= 255,
            l <= 100,
    ;
    ((c16 * l + 50) / 100) as u8
}

/// The colour a lower-cased name stands for, if it is one of the names.
fn find_named(lower: &Vec<char>) -> (r: Option<Rgb>)
    ensures
        r == lookup(named_table(), lower@),
{
    let table = named_colors();
    let mut i: usize = 0;
    assert(named_table().skip(0) =~= named_table());
    while i < table.len()
        invariant
            i <= table@.len() == named_table().len(),
            forall|j: int|
                0 <= j < table@.len() ==> (#[trigger] table@[j]).0@ == named_table()[j].0
                    && table@[j].1 == named_table()[j].1,
            lookup(named_table(), lower@) == lookup(named_table().skip(i as int), lower@),
        decreases table.len() - i,
    {
        let entry = table[i];
        let name = chars_of(entry.0);
        let ghost rest = named_table().skip(i as int);
        assert(rest[0] == named_table()[i as int]);
        if chars_eq(&name, lower) {
            return Some(entry.1);
        }
        assert(rest.drop_first() =~= named_table().skip(i + 1));
        i = i + 1;
    }
    None
}

/// Every colour name the parser accepts, so a menu can offer the list instead of
/// expecting the user to know it. `black` and `off` are the same colour under
/// two names, and both are here: the parser accepts either.
pub fn named_colors() -> (r: &'static [(&'static str, Rgb)])
    ensures
        r@.len() == named_table().len(),
        forall|j: int|
            0 <= j < r@.len() ==> (#[trigger] r@[j]).0@ == named_table()[j].0 && r@[j].1
                == named_table()[j].1,
{
    let t: &'static [(&'static str, Rgb)] = &[
        ("black", Rgb { r: 0, g: 0, b: 0 }),
        ("off", Rgb { r: 0, g: 0, b: 0 }),
        ("white", Rgb { r: 255, g: 255, b: 255 }),
        ("red", Rgb { r: 255, g: 0, b: 0 }),
        ("green", Rgb { r: 0, g: 255, b: 0 }),
        ("blue", Rgb { r: 0, g: 0, b: 255 }),
        ("yellow", Rgb { r: 255, g: 255, b: 0 }),
        ("cyan", Rgb { r: 0, g: 255, b: 255 }),
        ("magenta", Rgb { r: 255, g: 0, b: 255 }),
        ("orange", Rgb { r: 255, g: 96, b: 0 }),
        ("purple", Rgb { r: 128, g: 0, b: 255 }),
    ];
    t
}

proof fn lemma_no_name_is_hex(s: Seq<char>)
    requires
        s.len() == 7,
        s[0] == '#',
    ensures
        lookup(named_table(), s) is None,
{
    reveal_strlit("black");
    reveal_strlit("off");
    reveal_strlit("white");
    reveal_strlit("red");
    reveal_strlit("green");
    reveal_strlit("blue");
    reveal_strlit("yellow");
    reveal_strlit("cyan");
    reveal_strlit("magenta");
    reveal_strlit("orange");
    reveal_strlit("purple");
    reveal_with_fuel(lookup, 12);
    let t = named_table();
    assert(t[8].0[0] == 'm');
    assert(t.drop_first().drop_first().drop_first().drop_first().drop_first().drop_first()
        .drop_first().drop_first()[0].0 != s);
}

/// A colour shown as `#rrggbb` reads back as the same colour.
pub proof fn lemma_hex_roundtrip(c: Rgb)
    ensures
        parse_color(rgb_hex(c)) == Ok::<Rgb, ColorFault>(c),
{
    let s = rgb_hex(c);
    lemma_digit_roundtrip(c.r as int / 16);
    lemma_digit_roundtrip(c.r as int % 16);
    lemma_digit_roundtrip(c.g as int / 16);
    lemma_digit_roundtrip(c.g as int % 16);
    lemma_digit_roundtrip(c.b as int / 16);
    lemma_digit_roundtrip(c.b as int % 16);
    assert(s.len() == 7);
    assert(trim_start(s) == s);
    assert(trim_end(s) == s);
    assert(trim(s) == s);
    assert forall|i: int| 0 <= i < s.len() implies !is_ascii_upper(#[trigger] s[i]) by {}
    assert(lower_all(s) =~= s);
    lemma_no_name_is_hex(s);
    let hex = hex_part(s);
    assert(hex =~= hex2(c.r) + hex2(c.g) + hex2(c.b));
    assert(all_hex(hex));
}

/// Full brightness leaves a colour alone, zero is black, and anything above
/// 100 percent counts as 100.
pub proof fn lemma_scaled_ends(c: Rgb, level: u8)
    ensures
        scaled_spec(c, 100) == c,
        scaled_spec(c, 0) == rgb(0, 0, 0),
        level >= 100 ==> scaled_spec(c, level) == c,
{
    assert((c.r as int * 100 + 50) / 100 == c.r as int);
    assert((c.g as int * 100 + 50) / 100 == c.g as int);
    assert((c.b as int * 100 + 50) / 100 == c.b as int);
    assert(c.r as int * 0 == 0 && c.g as int * 0 == 0 && c.b as int * 0 == 0);
    assert((0int + 50) / 100 == 0);
}

/// Surrounding whitespace never changes what a string means as a colour, and
/// neither does case: a name or a hex value reads the same in capitals.
pub proof fn lemma_parse_ignores_whitespace_and_case(s: Seq<char>)
    ensures
        parse_color(trim(s)) == parse_color(s),
        parse_color(lower_all(s)) is Ok <==> parse_color(s) is Ok,
        parse_color(s) is Ok ==> parse_color(lower_all(s)) == parse_color(s),
{
    lemma_trim_idempotent(s);
    lemma_trim_lower(s);
    lemma_trim_lower(trim(s));
}

proof fn lemma_lookup_first(t: Seq<(Seq<char>, Rgb)>, j: int)
    requires
        0 <= j < t.len(),
        forall|k: int| 0 <= k < j ==> (#[trigger] t[k]).0 != t[j].0,
    ensures
        lookup(t, t[j].0) == Some(t[j].1),
    decreases j,
{
    if j > 0 {
        let u = t.drop_first();
        assert forall|k: int| 0 <= k < j - 1 implies (#[trigger] u[k]).0 != u[j - 1].0 by {
            assert(u[k] == t[k + 1]);
        }
        assert(u[j - 1] == t[j]);
        assert(t[0].0 != t[j].0);
        lemma_lookup_first(u, j - 1);
    }
}

/// The names: `black` and `off` both name black, no name is given twice, and
/// every name is lower case with no surrounding whitespace.
pub proof fn lemma_named_table_shape()
    ensures
        named_table().len() == 11,
        named_table()[0] == ("black"@, rgb(0, 0, 0)),
        named_table()[1] == ("off"@, rgb(0, 0, 0)),
        forall|a: int, b: int|
            0 <= a < b < named_table().len() ==> (#[trigger] named_table()[a]).0 != (
            #[trigger] named_table()[b]).0,
        forall|j: int|
            0 <= j < named_table().len() ==> {
                let n = (#[trigger] named_table()[j]).0;
                &&& n.len() > 0
                &&& lower_all(n) == n
                &&& trim(n) == n
            },
{
    reveal_strlit("black");
    reveal_strlit("off");
    reveal_strlit("white");
    reveal_strlit("red");
    reveal_strlit("green");
    reveal_strlit("blue");
    reveal_strlit("yellow");
    reveal_strlit("cyan");
    reveal_strlit("magenta");
    reveal_strlit("orange");
    reveal_strlit("purple");
    let t = named_table();
    assert forall|a: int, b: int| 0 <= a < b < t.len() implies (#[trigger] t[a]).0 != (
    #[trigger] t[b]).0 by {
        assert(t[a].0.len() != t[b].0.len() || t[a].0[0] != t[b].0[0]);
    }
    assert forall|j: int| 0 <= j < t.len() implies {
        let n = (#[trigger] t[j]).0;
        &&& n.len() > 0
        &&& lower_all(n) == n
        &&& trim(n) == n
    } by {
        let n = t[j].0;
        assert forall|i: int| 0 <= i < n.len() implies 'a' <= #[trigger] n[i] <= 'z' by {}
        assert(lower_all(n) =~= n);
        assert(trim_start(n) == n);
        assert(trim_end(n) == n);
    }
}

/// Every name parses to its colour, and so does any string that is that name
/// once surrounding whitespace is dropped and capitals are lowered: `RED`,
/// `  Green `.
pub proof fn lemma_every_name_parses(j: int, s: Seq<char>)
    requires
        0 <= j < named_table().len(),
        lower_all(trim(s)) == named_table()[j].0,
    ensures
        parse_color(s) == Ok::<Rgb, ColorFault>(named_table()[j].1),
        parse_color(named_table()[j].0) == Ok::<Rgb, ColorFault>(named_table()[j].1),
{
    lemma_named_table_shape();
    let t = named_table();
    lemma_lookup_first(t, j);
}

impl std::str::FromStr for Rgb {
    type Err = ColorParseError;

    fn from_str(s: &str) -> (r: Result<Rgb, ColorParseError>)
        ensures
            parse_result_view(r) == parse_color(s@),
    {
        Rgb::parse(s)
    }
}

} // verus!
