use lumen::menu::{
    brightness_reply, continues_after, label, needs_hold, palette, read_choice, status, step,
    targets, typed_colour, unlatched, BrightnessReply, Choice, Effect, Event, Screen, Task,
};
use lumen::{Action, ColorParseError, DeviceSpec, Registry, Rgb};

fn registry() -> Registry {
    Registry::builtin().unwrap()
}

fn find<'a>(r: &'a Registry, id: &str) -> &'a DeviceSpec {
    r.all().iter().find(|d| d.id == id).unwrap()
}

#[test]
fn numbered_answers_pick_an_item_and_zero_goes_back() {
    assert_eq!(read_choice("1", 3), Some(Choice::Item(0)));
    assert_eq!(read_choice("3", 3), Some(Choice::Item(2)));
    assert_eq!(read_choice("0", 3), Some(Choice::Back));
    assert_eq!(read_choice("4", 3), None);
    assert_eq!(read_choice("red", 3), None);
    assert_eq!(read_choice("", 3), None);
}

#[test]
fn only_zero_or_the_end_of_input_leaves_after_an_action() {
    assert!(continues_after(Some("")));
    assert!(continues_after(Some("x")));
    assert!(!continues_after(Some("0")));
    assert!(!continues_after(None));
}

#[test]
fn labels_say_when_a_device_does_not_keep_a_colour() {
    let r = registry();
    assert_eq!(
        label(find(&r, "razer-cynosa-lite")),
        "Razer Cynosa Lite (keyboard)"
    );
    assert_eq!(
        label(find(&r, "hyperx-pulsefire-core")),
        "HyperX Pulsefire Core (mouse, does not keep a colour)"
    );
}

#[test]
fn everything_is_offered_only_when_more_than_one_device_is_there() {
    let r = registry();
    let kb = find(&r, "razer-cynosa-lite");
    let mouse = find(&r, "hyperx-pulsefire-core");
    let one = targets(&[kb]);
    assert_eq!(one.len(), 1);
    assert_eq!(one[0].1, "razer-cynosa-lite");
    let both = targets(&[kb, mouse]);
    assert_eq!(both.len(), 3);
    assert_eq!(both[1].1, "hyperx-pulsefire-core");
    assert_eq!(both[2], ("Everything connected".to_string(), "all".to_string()));
    assert!(targets(&[]).is_empty());
}

#[test]
fn the_palette_leaves_out_off() {
    let p = palette();
    assert!(!p.is_empty());
    assert!(p.iter().all(|(name, _)| *name != "off"));
    assert!(p.iter().any(|(name, c)| *name == "red" && *c == Rgb::new(255, 0, 0)));
}

#[test]
fn a_typed_colour_is_parsed_unless_it_is_zero() {
    assert_eq!(typed_colour("0"), None);
    assert_eq!(typed_colour("#00ff00"), Some(Ok(Rgb::new(0, 255, 0))));
    assert!(matches!(typed_colour("burgundy"), Some(Err(_))));
}

#[test]
fn brightness_answers() {
    assert_eq!(brightness_reply(""), BrightnessReply::Level(100));
    assert_eq!(brightness_reply("0"), BrightnessReply::Back);
    assert_eq!(brightness_reply("40"), BrightnessReply::Level(40));
    assert_eq!(brightness_reply("100"), BrightnessReply::Level(100));
    assert_eq!(brightness_reply("101"), BrightnessReply::Again);
    assert_eq!(brightness_reply("300"), BrightnessReply::Again);
    assert_eq!(brightness_reply("dim"), BrightnessReply::Again);
}

#[test]
fn holding_is_needed_when_a_reached_device_forgets_its_colour() {
    let r = registry();
    let kb = find(&r, "razer-cynosa-lite");
    let mouse = find(&r, "hyperx-pulsefire-core");
    assert!(needs_hold(&r, &[kb, mouse], "all"));
    assert!(needs_hold(&r, &[kb, mouse], "mouse"));
    assert!(!needs_hold(&r, &[kb, mouse], "keyboard"));
    assert!(!needs_hold(&r, &[kb], "all"));
}

#[test]
fn status_reflects_presence_and_holding() {
    let r = registry();
    let kb = find(&r, "razer-cynosa-lite");
    let mouse = find(&r, "hyperx-pulsefire-core");
    assert_eq!(status(kb, &[kb]), "connected");
    assert_eq!(status(mouse, &[kb]), "not plugged in");
    assert_eq!(status(mouse, &[kb, mouse]), "connected (needs --hold)");
}

#[test]
fn unlatched_keeps_the_devices_that_forget() {
    let r = registry();
    let kb = find(&r, "razer-cynosa-lite");
    let mouse = find(&r, "hyperx-pulsefire-core");
    let u = unlatched(&[kb, mouse]);
    assert_eq!(u.len(), 1);
    assert_eq!(u[0].id, "hyperx-pulsefire-core");
}

fn offered() -> Vec<(String, String)> {
    vec![
        ("Razer Cynosa Lite (keyboard)".to_string(), "razer-cynosa-lite".to_string()),
        ("Everything connected".to_string(), "all".to_string()),
    ]
}

#[test]
fn the_root_menu_leads_to_each_task() {
    let t = offered();
    assert!(matches!(step(Screen::Root, Event::Picked(Choice::Back), &t), (Screen::Exit, Effect::Nothing)));
    assert!(matches!(
        step(Screen::Root, Event::Picked(Choice::Item(0)), &t),
        (Screen::Target(Task::Colour), Effect::Nothing)
    ));
    assert!(matches!(
        step(Screen::Root, Event::Picked(Choice::Item(3)), &t),
        (Screen::Target(Task::Power(true)), Effect::Nothing)
    ));
    assert!(matches!(step(Screen::Root, Event::Picked(Choice::Item(4)), &t), (Screen::After, Effect::List)));
    assert!(matches!(step(Screen::Root, Event::Picked(Choice::Item(5)), &t), (Screen::After, Effect::Probe)));
}

#[test]
fn a_colour_session_ends_in_a_set() {
    let t = offered();
    let (s, e) = step(Screen::Target(Task::Colour), Event::Picked(Choice::Item(1)), &t);
    assert!(matches!(e, Effect::Nothing));
    match &s {
        Screen::Colour(id) => assert_eq!(id, "all"),
        other => panic!("expected the colour list, got {other:?}"),
    }
    let p = palette();
    let (s, _) = step(s, Event::Picked(Choice::Item(p.len())), &t);
    assert!(matches!(s, Screen::Hex(_)));
    let (s, e) = step(s, Event::Typed(Some("burgundy".to_string())), &t);
    assert!(matches!(s, Screen::Colour(_)));
    assert!(matches!(e, Effect::BadColour(ColorParseError::Unrecognised(_))));
    let (s, _) = step(s, Event::Picked(Choice::Item(p.len())), &t);
    let (s, _) = step(s, Event::Typed(Some("#00ff00".to_string())), &t);
    match &s {
        Screen::Hold(id, c) => {
            assert_eq!(id, "all");
            assert_eq!(*c, Rgb::new(0, 255, 0));
        }
        other => panic!("expected the hold question, got {other:?}"),
    }
    match step(s, Event::Picked(Choice::Item(0)), &t) {
        (Screen::After, Effect::Apply { target, action, hold }) => {
            assert_eq!(target, "all");
            assert_eq!(action, Action::Color(Rgb::new(0, 255, 0)));
            assert!(hold);
        }
        other => panic!("expected a held set, got {other:?}"),
    }
}

#[test]
fn back_and_the_end_of_input_step_back_one_level() {
    let t = offered();
    assert!(matches!(
        step(Screen::Colour("all".to_string()), Event::Picked(Choice::Back), &t),
        (Screen::Target(Task::Colour), Effect::Nothing)
    ));
    assert!(matches!(
        step(Screen::Hex("all".to_string()), Event::Typed(None), &t),
        (Screen::Target(Task::Colour), Effect::Nothing)
    ));
    assert!(matches!(
        step(Screen::Hex("all".to_string()), Event::Typed(Some("0".to_string())), &t),
        (Screen::Colour(_), Effect::Nothing)
    ));
    assert!(matches!(
        step(Screen::Level("all".to_string()), Event::Typed(Some("0".to_string())), &t),
        (Screen::Target(Task::Brightness), Effect::Nothing)
    ));
    assert!(matches!(
        step(Screen::Target(Task::Brightness), Event::NothingToPick, &t),
        (Screen::Root, Effect::NoDevices)
    ));
    assert!(matches!(step(Screen::After, Event::Typed(Some("".to_string())), &t), (Screen::Root, _)));
    assert!(matches!(step(Screen::After, Event::Typed(Some("0".to_string())), &t), (Screen::Exit, _)));
    assert!(matches!(step(Screen::After, Event::Typed(None), &t), (Screen::Exit, _)));
}

#[test]
fn brightness_from_the_menu_dims_red_and_power_applies_at_once() {
    let t = offered();
    assert!(matches!(
        step(Screen::Level("all".to_string()), Event::Typed(Some("101".to_string())), &t),
        (Screen::Level(_), Effect::BadLevel)
    ));
    match step(Screen::Level("all".to_string()), Event::Typed(Some("".to_string())), &t) {
        (Screen::After, Effect::Apply { action, hold, .. }) => {
            assert_eq!(action, Action::Brightness { level: 100, base: Rgb::new(255, 0, 0) });
            assert!(!hold);
        }
        other => panic!("expected a set, got {other:?}"),
    }
    match step(Screen::Target(Task::Power(false)), Event::Picked(Choice::Item(0)), &t) {
        (Screen::After, Effect::Apply { target, action, hold }) => {
            assert_eq!(target, "razer-cynosa-lite");
            assert_eq!(action, Action::Power(false));
            assert!(!hold);
        }
        other => panic!("expected a set, got {other:?}"),
    }
    match step(Screen::Hold("all".to_string(), Rgb::new(1, 2, 3)), Event::NoHoldNeeded, &t) {
        (Screen::After, Effect::Apply { hold, .. }) => assert!(!hold),
        other => panic!("expected a set, got {other:?}"),
    }
}
