use lumen::color::{ColorParseError, Rgb};
use lumen::named_colors;
use std::str::FromStr;

#[test]
fn parses_names_case_insensitively() {
    assert_eq!(Rgb::from_str("red").unwrap(), Rgb::new(255, 0, 0));
    assert_eq!(Rgb::from_str("  GREEN ").unwrap(), Rgb::new(0, 255, 0));
    assert_eq!(Rgb::from_str("off").unwrap(), Rgb::black());
}

#[test]
fn parses_hex_with_and_without_hash() {
    assert_eq!(Rgb::from_str("#ff0080").unwrap(), Rgb::new(255, 0, 128));
    assert_eq!(Rgb::from_str("FF0080").unwrap(), Rgb::new(255, 0, 128));
}

#[test]
fn expands_short_hex() {
    assert_eq!(Rgb::from_str("#f08").unwrap(), Rgb::new(255, 0, 136));
}

#[test]
fn rejects_nonsense() {
    assert!(Rgb::from_str("burgundy").is_err());
    // Hex digits but the wrong length: report it as bad hex, not unknown name.
    assert_eq!(
        Rgb::from_str("#ff00").unwrap_err(),
        ColorParseError::BadHex("#ff00".into())
    );
}

#[test]
fn displays_as_hex() {
    assert_eq!(Rgb::new(255, 0, 128).to_string(), "#ff0080");
}

#[test]
fn scaling_keeps_the_ends_exact() {
    let c = Rgb::new(255, 128, 1);
    assert_eq!(c.scaled(100), c, "full brightness must not alter a colour");
    assert_eq!(c.scaled(0), Rgb::black(), "zero brightness is black");
}

#[test]
fn scaling_rounds_to_nearest() {
    // 255 * 50% = 127.5 -> 128, 1 * 50% = 0.5 -> 1.
    assert_eq!(Rgb::new(255, 100, 1).scaled(50), Rgb::new(128, 50, 1));
    // 255 * 33% = 84.15 -> 84.
    assert_eq!(Rgb::new(255, 0, 0).scaled(33), Rgb::new(84, 0, 0));
}

#[test]
fn scaling_treats_over_100_as_100() {
    let c = Rgb::new(10, 20, 30);
    assert_eq!(c.scaled(255), c);
}

#[test]
fn unrecognised_input_is_reported_trimmed() {
    assert_eq!(
        Rgb::parse("  burgundy\t").unwrap_err(),
        ColorParseError::Unrecognised("burgundy".into())
    );
    assert_eq!(Rgb::parse("").unwrap_err(), ColorParseError::Unrecognised("".into()));
    assert_eq!(Rgb::parse("#").unwrap_err(), ColorParseError::Unrecognised("#".into()));
    assert_eq!(Rgb::parse("#ggg").unwrap_err(), ColorParseError::Unrecognised("#ggg".into()));
    assert_eq!(Rgb::parse("##fff").unwrap_err(), ColorParseError::Unrecognised("##fff".into()));
}

#[test]
fn unicode_whitespace_is_trimmed() {
    assert_eq!(Rgb::parse("\u{a0}blue\u{3000}").unwrap(), Rgb::new(0, 0, 255));
}

#[test]
fn every_name_parses_to_its_colour() {
    for (name, c) in named_colors() {
        assert_eq!(Rgb::parse(name).unwrap(), *c);
        assert_eq!(Rgb::parse(&name.to_uppercase()).unwrap(), *c);
        assert_eq!(Rgb::parse(&format!(" \t{name}  ")).unwrap(), *c);
    }
    let names: Vec<&str> = named_colors().iter().map(|(n, _)| *n).collect();
    for (a, n) in names.iter().enumerate() {
        assert!(!names[..a].contains(n), "{n} is named twice");
    }
    assert_eq!(named_colors()[0], ("black", Rgb::black()));
    assert_eq!(named_colors()[1], ("off", Rgb::black()));
    assert_eq!(named_colors().len(), 11);
    assert_eq!(Rgb::parse("orange").unwrap(), Rgb::new(255, 96, 0));
    assert_eq!(Rgb::parse("purple").unwrap(), Rgb::new(128, 0, 255));
}

#[test]
fn a_shown_colour_reads_back_the_same() {
    for c in [Rgb::new(0, 0, 0), Rgb::new(255, 255, 255), Rgb::new(18, 52, 86), Rgb::new(171, 205, 239)] {
        assert_eq!(Rgb::parse(&c.to_string()).unwrap(), c);
    }
}

#[test]
fn scaling_an_exact_value() {
    // 200 * 40% = 80 exactly; 3 * 40% = 1.2 -> 1; 4 * 50% = 2 exactly.
    assert_eq!(Rgb::new(200, 3, 4).scaled(40), Rgb::new(80, 1, 2));
    assert_eq!(Rgb::new(3, 4, 5).scaled(50), Rgb::new(2, 2, 3));
    assert_eq!(Rgb::white(), Rgb::new(255, 255, 255));
}
