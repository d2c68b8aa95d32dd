use lumen::{swatch, Rgb};

/// Piped output carries no escape codes.
#[test]
fn a_swatch_is_empty_when_there_is_no_terminal_to_colour() {
    assert_eq!(swatch(Rgb::new(1, 2, 3), false), "");
}

#[test]
fn a_swatch_paints_the_background_with_the_colour() {
    assert_eq!(
        swatch(Rgb::new(1, 20, 255), true),
        "\x1b[48;2;1;20;255m  \x1b[0m "
    );
}
