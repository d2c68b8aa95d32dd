//! The decisions of the menu `lumen` opens when run with no arguments, and of
//! the device table `lumen list` prints.
//!
//! The menu is a front-end and nothing more: every screen ends by building the
//! same `Action` the flags build. Numbered lists all the way down, `0` is back
//! everywhere and exit at the root, anything lumen can enumerate is offered as
//! a list, and free text only where a list cannot carry the answer.
use crate::cli::{action_spec, Action};
use crate::color::{
    lemma_hex_roundtrip, named_colors, named_table, parse_color, parse_result_view, rgb, rgb_hex,
    ColorFault, ColorParseError, Rgb,
};
use crate::device::{resolve_spec, DeviceSpec, Registry};
use crate::number::{parse_u8, parse_unsigned_spec, parse_usize};
use crate::text::{owned, push_str, str_eq};
use vstd::prelude::*;

verus! {

/// What a numbered screen came back with.
#[derive(Debug, Clone, Copy, PartialEq, Eq, Structural)]
pub enum Choice {
    /// Zero-based index into the items the screen offered.
    Item(usize),
    /// `0`, or end of input: go back a level, or leave at the root.
    Back,
}

/// What an answer to a numbered list of `n` items means: `None` is "ask
/// again", because only a number on screen is an answer.
pub open spec fn choice_spec(answer: Seq<char>, n: nat) -> Option<Choice> {
    match parse_unsigned_spec(answer, 10, usize::MAX as nat) {
        Ok(k) => if k == 0 {
            Some(Choice::Back)
        } else if k <= n {
            Some(Choice::Item((k - 1) as usize))
        } else {
            None
        },
        Err(_) => None,
    }
}

/// Read one (trimmed) answer to a list of `n` items.
pub fn read_choice(answer: &str, n: usize) -> (r: Option<Choice>)
    ensures
        r == choice_spec(answer@, n as nat),
{
    match parse_usize(answer) {
        Ok(k) => if k == 0 {
            Some(Choice::Back)
        } else if k <= n {
            Some(Choice::Item(k - 1))
        } else {
            None
        },
        Err(_) => None,
    }
}

/// After an action: Enter (or anything but `0`) goes back to the menu; `0`
/// or the end of input leaves.
pub fn continues_after(answer: Option<&str>) -> (r: bool)
    ensures
        r == (answer matches Some(a) && a@ != "0"@),
{
    match answer {
        Some(a) => !str_eq(a, "0"),
        None => false,
    }
}

/// How a device is offered in the menu.
pub open spec fn label_spec(d: DeviceSpec) -> Seq<char> {
    if d.holds_colour {
        d.name@ + " ("@ + d.kind@ + ")"@
    } else {
        d.name@ + " ("@ + d.kind@ + ", does not keep a colour)"@
    }
}

pub fn label(spec: &DeviceSpec) -> (s: String)
    ensures
        s@ == label_spec(*spec),
{
    let mut s = spec.name.clone();
    push_str(&mut s, " (");
    push_str(&mut s, spec.kind.as_str());
    if spec.holds_colour {
        push_str(&mut s, ")");
    } else {
        push_str(&mut s, ", does not keep a colour)");
    }
    s
}

pub open spec fn choices_of(present: Seq<&DeviceSpec>) -> Seq<(Seq<char>, Seq<char>)> {
    present.map_values(|d: &DeviceSpec| (label_spec(*d), d.id@))
}

/// The devices a command can be aimed at, as (label, target) pairs, plus
/// `all` when there is more than one. Nothing not plugged in is ever offered.
pub open spec fn targets_spec(present: Seq<&DeviceSpec>) -> Seq<(Seq<char>, Seq<char>)> {
    if present.len() > 1 {
        choices_of(present).push(("Everything connected"@, "all"@))
    } else {
        choices_of(present)
    }
}

pub fn targets(present: &[&DeviceSpec]) -> (r: Vec<(String, String)>)
    ensures
        r@.map_values(|p: (String, String)| (p.0@, p.1@)) == targets_spec(present@),
{
    let mut out: Vec<(String, String)> = Vec::new();
    let mut i: usize = 0;
    while i < present.len()
        invariant
            i <= present@.len(),
            out@.map_values(|p: (String, String)| (p.0@, p.1@)) == choices_of(
                present@.take(i as int),
            ),
        decreases present@.len() - i,
    {
        let ghost before = out@;
        let entry = (label(present[i]), present[i].id.clone());
        out.push(entry);
        proof {
            assert(out@ =~= before.push(entry));
            assert(out@.map_values(|p: (String, String)| (p.0@, p.1@)) =~= before.map_values(
                |p: (String, String)| (p.0@, p.1@),
            ).push((entry.0@, entry.1@)));
            assert(choices_of(present@.take(i + 1)) =~= choices_of(present@.take(i as int)).push(
                (label_spec(*present@[i as int]), present@[i as int].id@),
            ));
        }
        i = i + 1;
    }
    assert(present@.take(present@.len() as int) =~= present@);
    if out.len() > 1 {
        let ghost before = out@;
        let entry = (owned("Everything connected"), owned("all"));
        out.push(entry);
        assert(out@.map_values(|p: (String, String)| (p.0@, p.1@)) =~= before.map_values(
            |p: (String, String)| (p.0@, p.1@),
        ).push((entry.0@, entry.1@)));
    }
    out
}

/// The colour names the menu offers: every name but `off`, which is `black`
/// again and has a menu entry of its own.
pub open spec fn palette_spec() -> Seq<(Seq<char>, Rgb)> {
    named_table().filter(|e: (Seq<char>, Rgb)| e.0 != "off"@)
}

pub fn palette() -> (r: Vec<(&'static str, Rgb)>)
    ensures
        r@.map_values(|e: (&'static str, Rgb)| (e.0@, e.1)) == palette_spec(),
{
    let all = named_colors();
    let ghost table = named_table();
    let ghost keep = |e: (Seq<char>, Rgb)| e.0 != "off"@;
    let mut out: Vec<(&'static str, Rgb)> = Vec::new();
    let mut i: usize = 0;
    while i < all.len()
        invariant
            i <= all@.len() == table.len(),
            table == named_table(),
            keep == (|e: (Seq<char>, Rgb)| e.0 != "off"@),
            forall|j: int|
                0 <= j < all@.len() ==> (#[trigger] all@[j]).0@ == table[j].0 && all@[j].1
                    == table[j].1,
            out@.map_values(|e: (&'static str, Rgb)| (e.0@, e.1)) == table.take(i as int).filter(
                keep,
            ),
        decreases all@.len() - i,
    {
        let entry = all[i];
        let ghost before = out@;
        proof {
            reveal_with_fuel(Seq::filter, 1);
            assert(table.take(i + 1).drop_last() =~= table.take(i as int));
            assert(table.take(i + 1).last() == table[i as int]);
        }
        if !str_eq(entry.0, "off") {
            out.push(entry);
            assert(out@.map_values(|e: (&'static str, Rgb)| (e.0@, e.1)) =~= before.map_values(
                |e: (&'static str, Rgb)| (e.0@, e.1),
            ).push((entry.0@, entry.1)));
        }
        i = i + 1;
    }
    assert(table.take(table.len() as int) =~= table);
    out
}

/// What a typed hex answer means: `0` goes back to the colour list, anything
/// else is read as a colour.
pub fn typed_colour(typed: &str) -> (r: Option<Result<Rgb, ColorParseError>>)
    ensures
        match r {
            None => typed@ == "0"@,
            Some(c) => typed@ != "0"@ && parse_result_view(c) == parse_color(typed@),
        },
{
    if str_eq(typed, "0") {
        None
    } else {
        Some(Rgb::parse(typed))
    }
}

/// What an answer to the brightness prompt means.
#[derive(Debug, Clone, Copy, PartialEq, Eq, Structural)]
pub enum BrightnessReply {
    /// Use this percentage.
    Level(u8),
    /// `0`: go back.
    Back,
    /// Not a whole number up to 100: ask again.
    Again,
}

/// Enter keeps 100, `0` goes back, a whole number up to 100 is the level,
/// anything else asks again.
pub open spec fn brightness_reply_spec(typed: Seq<char>) -> BrightnessReply {
    if typed.len() == 0 {
        BrightnessReply::Level(100)
    } else if typed == "0"@ {
        BrightnessReply::Back
    } else {
        match parse_unsigned_spec(typed, 10, 255) {
            Ok(level) => if level <= 100 {
                BrightnessReply::Level(level as u8)
            } else {
                BrightnessReply::Again
            },
            Err(_) => BrightnessReply::Again,
        }
    }
}

pub fn brightness_reply(typed: &str) -> (r: BrightnessReply)
    ensures
        r == brightness_reply_spec(typed@),
{
    if typed.is_empty() {
        return BrightnessReply::Level(100);
    }
    if str_eq(typed, "0") {
        return BrightnessReply::Back;
    }
    match parse_u8(typed) {
        Ok(level) => if level <= 100 {
            BrightnessReply::Level(level)
        } else {
            BrightnessReply::Again
        },
        Err(_) => BrightnessReply::Again,
    }
}

/// Whether any device `target` reaches among `present` drops its colour as
/// soon as lumen stops sending it, so holding it lit is worth offering.
pub open spec fn needs_hold_spec(present: Seq<&DeviceSpec>, target: Seq<char>) -> bool {
    exists|i: int|
        0 <= i < resolve_spec(present, target).len() && !(#[trigger] resolve_spec(
            present,
            target,
        )[i]).holds_colour
}

pub fn needs_hold(registry: &Registry, present: &[&DeviceSpec], target: &str) -> (r: bool)
    ensures
        r == needs_hold_spec(present@, target@),
{
    let reached = registry.resolve(target, present);
    let mut i: usize = 0;
    while i < reached.len()
        invariant
            i <= reached@.len(),
            reached@ == resolve_spec(present@, target@),
            forall|k: int| 0 <= k < i ==> (#[trigger] reached@[k]).holds_colour,
        decreases reached@.len() - i,
    {
        if !reached[i].holds_colour {
            return true;
        }
        i = i + 1;
    }
    false
}

/// The status column of `lumen list`.
pub open spec fn status_spec(here: bool, holds_colour: bool) -> Seq<char> {
    if !here {
        "not plugged in"@
    } else if holds_colour {
        "connected"@
    } else {
        "connected (needs --hold)"@
    }
}

/// Whether a device with this id is among `present`.
pub open spec fn is_present(present: Seq<&DeviceSpec>, id: Seq<char>) -> bool {
    exists|i: int| 0 <= i < present.len() && (#[trigger] present[i]).id@ == id
}

/// What `lumen list` says about one registry entry.
pub fn status(spec: &DeviceSpec, present: &[&DeviceSpec]) -> (s: &'static str)
    ensures
        s@ == status_spec(is_present(present@, spec.id@), spec.holds_colour),
{
    let mut here = false;
    let mut i: usize = 0;
    while i < present.len()
        invariant
            i <= present@.len(),
            here == exists|k: int| 0 <= k < i && (#[trigger] present@[k]).id@ == spec.id@,
        decreases present@.len() - i,
    {
        if str_eq(present[i].id.as_str(), spec.id.as_str()) {
            here = true;
        }
        i = i + 1;
    }
    if !here {
        "not plugged in"
    } else if spec.holds_colour {
        "connected"
    } else {
        "connected (needs --hold)"
    }
}

/// The devices among `devices` that do not latch a colour, in order: they
/// revert as soon as the sending stops.
pub open spec fn unlatched_spec(devices: Seq<&DeviceSpec>) -> Seq<&DeviceSpec> {
    devices.filter(|d: &DeviceSpec| !d.holds_colour)
}

pub fn unlatched<'a>(devices: &[&'a DeviceSpec]) -> (r: Vec<&'a DeviceSpec>)
    ensures
        r@ == unlatched_spec(devices@),
{
    let mut out: Vec<&'a DeviceSpec> = Vec::new();
    let mut i: usize = 0;
    while i < devices.len()
        invariant
            i <= devices@.len(),
            out@ == devices@.take(i as int).filter(|d: &DeviceSpec| !d.holds_colour),
        decreases devices@.len() - i,
    {
        proof {
            reveal_with_fuel(Seq::filter, 1);
            assert(devices@.take(i + 1).drop_last() =~= devices@.take(i as int));
        }
        if !devices[i].holds_colour {
            out.push(devices[i]);
        }
        i = i + 1;
    }
    assert(devices@.take(devices@.len() as int) =~= devices@);
    out
}


// ---------------------------------------------------------------------------
// Moving between screens
// ---------------------------------------------------------------------------

/// What a menu session is doing.
#[derive(Debug, Clone, Copy, PartialEq, Eq, Structural)]
pub enum Task {
    Colour,
    Brightness,
    /// Turning the lighting on (true) or off.
    Power(bool),
}

/// The screen the menu shows next.
#[derive(Debug)]
pub enum Screen {
    /// The main menu: set a colour, set brightness, off, on, show what is
    /// connected, inspect the hardware.
    Root,
    /// Which device, for a task.
    Target(Task),
    /// Which colour, for the device with this id: the palette, then "Type a
    /// hex value".
    Colour(String),
    /// A typed hex value for the device.
    Hex(String),
    /// A typed brightness percentage for the device.
    Level(String),
    /// Whether to keep re-sending this colour to the device.
    Hold(String, Rgb),
    /// After an action: Enter goes back to the menu, `0` leaves.
    After,
    /// The session is over.
    Exit,
}

/// What the screen just shown came back with.
#[derive(Debug)]
pub enum Event {
    /// An answer to a numbered list.
    Picked(Choice),
    /// A typed answer, already trimmed; `None` when the input ended.
    Typed(Option<String>),
    /// There was no device to offer.
    NothingToPick,
    /// Nothing the colour goes to needs holding, so the question was not asked.
    NoHoldNeeded,
}

/// What to do before showing the next screen.
#[derive(Debug)]
pub enum Effect {
    Nothing,
    /// Run `lumen set` on the target.
    Apply { target: String, action: Action, hold: bool },
    /// Show what is connected.
    List,
    /// Inspect the hardware.
    Probe,
    /// Say that nothing lumen can drive is plugged in.
    NoDevices,
    /// Say that a percentage is a whole number up to 100.
    BadLevel,
    /// Say why the typed colour is not one.
    BadColour(ColorParseError),
}

pub enum ScreenModel {
    Root,
    Target(Task),
    Colour(Seq<char>),
    Hex(Seq<char>),
    Level(Seq<char>),
    Hold(Seq<char>, Rgb),
    After,
    Exit,
}

pub enum EventModel {
    Picked(Choice),
    Typed(Option<Seq<char>>),
    NothingToPick,
    NoHoldNeeded,
}

pub enum EffectModel {
    Nothing,
    Apply { target: Seq<char>, action: Action, hold: bool },
    List,
    Probe,
    NoDevices,
    BadLevel,
    BadColour(ColorFault),
}

impl View for Screen {
    type V = ScreenModel;

    open spec fn view(&self) -> ScreenModel {
        match self {
            Screen::Root => ScreenModel::Root,
            Screen::Target(t) => ScreenModel::Target(*t),
            Screen::Colour(d) => ScreenModel::Colour(d@),
            Screen::Hex(d) => ScreenModel::Hex(d@),
            Screen::Level(d) => ScreenModel::Level(d@),
            Screen::Hold(d, c) => ScreenModel::Hold(d@, *c),
            Screen::After => ScreenModel::After,
            Screen::Exit => ScreenModel::Exit,
        }
    }
}

impl View for Event {
    type V = EventModel;

    open spec fn view(&self) -> EventModel {
        match self {
            Event::Picked(c) => EventModel::Picked(*c),
            Event::Typed(a) => EventModel::Typed(
                match a {
                    Some(t) => Some(t@),
                    None => None,
                },
            ),
            Event::NothingToPick => EventModel::NothingToPick,
            Event::NoHoldNeeded => EventModel::NoHoldNeeded,
        }
    }
}

impl View for Effect {
    type V = EffectModel;

    open spec fn view(&self) -> EffectModel {
        match self {
            Effect::Nothing => EffectModel::Nothing,
            Effect::Apply { target, action, hold } => EffectModel::Apply {
                target: target@,
                action: *action,
                hold: *hold,
            },
            Effect::List => EffectModel::List,
            Effect::Probe => EffectModel::Probe,
            Effect::NoDevices => EffectModel::NoDevices,
            Effect::BadLevel => EffectModel::BadLevel,
            Effect::BadColour(e) => EffectModel::BadColour(e@),
        }
    }
}

/// A device picked for a task: a colour or a percentage is asked next, and
/// power is applied at once.
pub open spec fn target_next(task: Task, id: Seq<char>) -> (ScreenModel, EffectModel) {
    match task {
        Task::Colour => (ScreenModel::Colour(id), EffectModel::Nothing),
        Task::Brightness => (ScreenModel::Level(id), EffectModel::Nothing),
        Task::Power(on) => (
            ScreenModel::After,
            EffectModel::Apply { target: id, action: Action::Power(on), hold: false },
        ),
    }
}

/// Where the menu goes from `screen` on `event`, and what it does on the way.
/// `ids` are the ids of the devices a device screen offered, in order. `0` is
/// back everywhere and exit at the root, and the end of input on a typed
/// screen steps back to the device list. Brightness dims red on a device
/// without a brightness command, as the flags do.
pub open spec fn menu_step(screen: ScreenModel, event: EventModel, ids: Seq<Seq<char>>) -> (
    ScreenModel,
    EffectModel,
) {
    match screen {
        ScreenModel::Root => match event {
            EventModel::Picked(Choice::Back) => (ScreenModel::Exit, EffectModel::Nothing),
            EventModel::Picked(Choice::Item(i)) => if i == 0 {
                (ScreenModel::Target(Task::Colour), EffectModel::Nothing)
            } else if i == 1 {
                (ScreenModel::Target(Task::Brightness), EffectModel::Nothing)
            } else if i == 2 {
                (ScreenModel::Target(Task::Power(false)), EffectModel::Nothing)
            } else if i == 3 {
                (ScreenModel::Target(Task::Power(true)), EffectModel::Nothing)
            } else if i == 4 {
                (ScreenModel::After, EffectModel::List)
            } else {
                (ScreenModel::After, EffectModel::Probe)
            },
            _ => (ScreenModel::Root, EffectModel::Nothing),
        },
        ScreenModel::Target(task) => match event {
            EventModel::NothingToPick => (ScreenModel::Root, EffectModel::NoDevices),
            EventModel::Picked(Choice::Back) => (ScreenModel::Root, EffectModel::Nothing),
            EventModel::Picked(Choice::Item(i)) => if i < ids.len() {
                target_next(task, ids[i as int])
            } else {
                (ScreenModel::Target(task), EffectModel::Nothing)
            },
            _ => (ScreenModel::Target(task), EffectModel::Nothing),
        },
        ScreenModel::Colour(id) => match event {
            EventModel::Picked(Choice::Back) => (ScreenModel::Target(Task::Colour), EffectModel::Nothing),
            EventModel::Picked(Choice::Item(i)) => if i < palette_spec().len() {
                (ScreenModel::Hold(id, palette_spec()[i as int].1), EffectModel::Nothing)
            } else {
                (ScreenModel::Hex(id), EffectModel::Nothing)
            },
            _ => (ScreenModel::Colour(id), EffectModel::Nothing),
        },
        ScreenModel::Hex(id) => match event {
            EventModel::Typed(None) => (ScreenModel::Target(Task::Colour), EffectModel::Nothing),
            EventModel::Typed(Some(t)) => if t == "0"@ {
                (ScreenModel::Colour(id), EffectModel::Nothing)
            } else {
                match parse_color(t) {
                    Ok(c) => (ScreenModel::Hold(id, c), EffectModel::Nothing),
                    Err(e) => (ScreenModel::Colour(id), EffectModel::BadColour(e)),
                }
            },
            _ => (ScreenModel::Hex(id), EffectModel::Nothing),
        },
        ScreenModel::Hold(id, c) => match event {
            EventModel::Picked(Choice::Item(_)) => (
                ScreenModel::After,
                EffectModel::Apply { target: id, action: Action::Color(c), hold: true },
            ),
            EventModel::Picked(Choice::Back) | EventModel::NoHoldNeeded => (
                ScreenModel::After,
                EffectModel::Apply { target: id, action: Action::Color(c), hold: false },
            ),
            _ => (ScreenModel::Hold(id, c), EffectModel::Nothing),
        },
        ScreenModel::Level(id) => match event {
            EventModel::Typed(None) => (ScreenModel::Target(Task::Brightness), EffectModel::Nothing),
            EventModel::Typed(Some(t)) => match brightness_reply_spec(t) {
                BrightnessReply::Level(level) => (
                    ScreenModel::After,
                    EffectModel::Apply {
                        target: id,
                        action: Action::Brightness { level, base: rgb(255, 0, 0) },
                        hold: false,
                    },
                ),
                BrightnessReply::Back => (ScreenModel::Target(Task::Brightness), EffectModel::Nothing),
                BrightnessReply::Again => (ScreenModel::Level(id), EffectModel::BadLevel),
            },
            _ => (ScreenModel::Level(id), EffectModel::Nothing),
        },
        ScreenModel::After => match event {
            EventModel::Typed(a) => if a matches Some(t) && t != "0"@ {
                (ScreenModel::Root, EffectModel::Nothing)
            } else {
                (ScreenModel::Exit, EffectModel::Nothing)
            },
            _ => (ScreenModel::After, EffectModel::Nothing),
        },
        ScreenModel::Exit => (ScreenModel::Exit, EffectModel::Nothing),
    }
}

pub open spec fn offered_ids(targets: Seq<(String, String)>) -> Seq<Seq<char>> {
    targets.map_values(|t: (String, String)| t.1@)
}

fn pick_target(task: Task, i: usize, targets: &[(String, String)]) -> (r: (Screen, Effect))
    ensures
        (r.0@, r.1@) == (if i < targets@.len() {
            target_next(task, offered_ids(targets@)[i as int])
        } else {
            (ScreenModel::Target(task), EffectModel::Nothing)
        }),
{
    if i < targets.len() {
        let id = targets[i].1.clone();
        match task {
            Task::Colour => (Screen::Colour(id), Effect::Nothing),
            Task::Brightness => (Screen::Level(id), Effect::Nothing),
            Task::Power(on) => (Screen::After, Effect::Apply { target: id, action: Action::Power(on), hold: false }),
        }
    } else {
        (Screen::Target(task), Effect::Nothing)
    }
}

/// One step of the menu: the next screen, and what to do first. `targets`
/// are the devices a device screen offered, as `(label, id)`.
pub fn step(screen: Screen, event: Event, targets: &[(String, String)]) -> (r: (Screen, Effect))
    ensures
        (r.0@, r.1@) == menu_step(screen@, event@, offered_ids(targets@)),
{
    match screen {
        Screen::Root => match event {
            Event::Picked(Choice::Back) => (Screen::Exit, Effect::Nothing),
            Event::Picked(Choice::Item(i)) => if i == 0 {
                (Screen::Target(Task::Colour), Effect::Nothing)
            } else if i == 1 {
                (Screen::Target(Task::Brightness), Effect::Nothing)
            } else if i == 2 {
                (Screen::Target(Task::Power(false)), Effect::Nothing)
            } else if i == 3 {
                (Screen::Target(Task::Power(true)), Effect::Nothing)
            } else if i == 4 {
                (Screen::After, Effect::List)
            } else {
                (Screen::After, Effect::Probe)
            },
            _ => (Screen::Root, Effect::Nothing),
        },
        Screen::Target(task) => match event {
            Event::NothingToPick => (Screen::Root, Effect::NoDevices),
            Event::Picked(Choice::Back) => (Screen::Root, Effect::Nothing),
            Event::Picked(Choice::Item(i)) => pick_target(task, i, targets),
            _ => (Screen::Target(task), Effect::Nothing),
        },
        Screen::Colour(id) => match event {
            Event::Picked(Choice::Back) => (Screen::Target(Task::Colour), Effect::Nothing),
            Event::Picked(Choice::Item(i)) => {
                let p = palette();
                proof {
                    assert(p@.len() == palette_spec().len());
                    if i < p@.len() {
                        assert(p@.map_values(|e: (&'static str, Rgb)| (e.0@, e.1))[i as int].1
                            == p@[i as int].1);
                    }
                }
                if i < p.len() {
                    (Screen::Hold(id, p[i].1), Effect::Nothing)
                } else {
                    (Screen::Hex(id), Effect::Nothing)
                }
            },
            _ => (Screen::Colour(id), Effect::Nothing),
        },
        Screen::Hex(id) => match event {
            Event::Typed(None) => (Screen::Target(Task::Colour), Effect::Nothing),
            Event::Typed(Some(t)) => match typed_colour(t.as_str()) {
                None => (Screen::Colour(id), Effect::Nothing),
                Some(Ok(c)) => (Screen::Hold(id, c), Effect::Nothing),
                Some(Err(e)) => (Screen::Colour(id), Effect::BadColour(e)),
            },
            _ => (Screen::Hex(id), Effect::Nothing),
        },
        Screen::Hold(id, c) => match event {
            Event::Picked(Choice::Item(_)) => (
                Screen::After,
                Effect::Apply { target: id, action: Action::Color(c), hold: true },
            ),
            Event::Picked(Choice::Back) | Event::NoHoldNeeded => (
                Screen::After,
                Effect::Apply { target: id, action: Action::Color(c), hold: false },
            ),
            _ => (Screen::Hold(id, c), Effect::Nothing),
        },
        Screen::Level(id) => match event {
            Event::Typed(None) => (Screen::Target(Task::Brightness), Effect::Nothing),
            Event::Typed(Some(t)) => match brightness_reply(t.as_str()) {
                BrightnessReply::Level(level) => (
                    Screen::After,
                    Effect::Apply {
                        target: id,
                        action: Action::Brightness { level, base: Rgb::new(255, 0, 0) },
                        hold: false,
                    },
                ),
                BrightnessReply::Back => (Screen::Target(Task::Brightness), Effect::Nothing),
                BrightnessReply::Again => (Screen::Level(id), Effect::BadLevel),
            },
            _ => (Screen::Level(id), Effect::Nothing),
        },
        Screen::After => match event {
            Event::Typed(a) => {
                let go_on = match &a {
                    Some(t) => continues_after(Some(t.as_str())),
                    None => continues_after(None),
                };
                if go_on {
                    (Screen::Root, Effect::Nothing)
                } else {
                    (Screen::Exit, Effect::Nothing)
                }
            },
            _ => (Screen::After, Effect::Nothing),
        },
        Screen::Exit => (Screen::Exit, Effect::Nothing),
    }
}


/// Each entry of the main menu does what its label says. "Set a colour"
/// (entry 0) and "Set brightness" (1) ask for a device and then for a colour
/// or a percentage for it; "Turn the lighting off" (2) and "Turn the lighting
/// on" (3) ask for a device and then turn exactly that device off or on, and
/// nothing else; "Show what is connected" (4) lists and "Inspect the
/// hardware" (5) probes. `0` leaves.
pub proof fn lemma_root_entries_do_what_they_say(ids: Seq<Seq<char>>, k: usize)
    requires
        0 <= k < ids.len(),
    ensures
        menu_step(ScreenModel::Root, EventModel::Picked(Choice::Back), ids).0 == ScreenModel::Exit,
        menu_step(
            menu_step(ScreenModel::Root, EventModel::Picked(Choice::Item(0)), ids).0,
            EventModel::Picked(Choice::Item(k)),
            ids,
        ) == (ScreenModel::Colour(ids[k as int]), EffectModel::Nothing),
        menu_step(
            menu_step(ScreenModel::Root, EventModel::Picked(Choice::Item(1)), ids).0,
            EventModel::Picked(Choice::Item(k)),
            ids,
        ) == (ScreenModel::Level(ids[k as int]), EffectModel::Nothing),
        menu_step(
            menu_step(ScreenModel::Root, EventModel::Picked(Choice::Item(2)), ids).0,
            EventModel::Picked(Choice::Item(k)),
            ids,
        ) == (
            ScreenModel::After,
            EffectModel::Apply { target: ids[k as int], action: Action::Power(false), hold: false },
        ),
        menu_step(
            menu_step(ScreenModel::Root, EventModel::Picked(Choice::Item(3)), ids).0,
            EventModel::Picked(Choice::Item(k)),
            ids,
        ) == (
            ScreenModel::After,
            EffectModel::Apply { target: ids[k as int], action: Action::Power(true), hold: false },
        ),
        menu_step(ScreenModel::Root, EventModel::Picked(Choice::Item(4)), ids).1 == EffectModel::List,
        menu_step(ScreenModel::Root, EventModel::Picked(Choice::Item(5)), ids).1 == EffectModel::Probe,
{
}

/// Flags the command line accepts together: a brightness of at most 100, and
/// at most one of `--off`, `--on` and `--brightness`.
pub open spec fn flags_accepted(brightness: Option<u8>, off: bool, on: bool) -> bool {
    &&& !(off && on)
    &&& brightness matches Some(level) ==> level <= 100 && !off && !on
}

/// `action` is what some accepted set of `lumen set` flags asks for.
pub open spec fn spelled_by_flags(action: Action) -> bool {
    exists|color: Seq<char>, brightness: Option<u8>, off: bool, on: bool|
        flags_accepted(brightness, off, on) && #[trigger] action_spec(color, brightness, off, on)
            == Ok::<Action, ColorFault>(action)
}

/// The menu can never do anything the flags cannot: every action it applies
/// is one that accepted `lumen set` flags ask for.
pub proof fn lemma_menu_only_does_what_flags_do(screen: ScreenModel, event: EventModel, ids: Seq<Seq<char>>)
    ensures
        menu_step(screen, event, ids).1 matches EffectModel::Apply { action, .. } ==> spelled_by_flags(
            action,
        ),
{
    let effect = menu_step(screen, event, ids).1;
    if let EffectModel::Apply { action, .. } = effect {
        match action {
            Action::Color(c) => {
                lemma_hex_roundtrip(c);
                assert(action_spec(rgb_hex(c), None, false, false) == Ok::<Action, ColorFault>(action));
            },
            Action::Brightness { level, base } => {
                lemma_hex_roundtrip(base);
                if let ScreenModel::Level(_) = screen {
                    if let EventModel::Typed(Some(t)) = event {
                        assert(level <= 100);
                    }
                }
                assert(action_spec(rgb_hex(base), Some(level), false, false) == Ok::<Action, ColorFault>(
                    action,
                ));
            },
            Action::Power(on) => {
                lemma_hex_roundtrip(rgb(0, 0, 0));
                assert(action_spec(rgb_hex(rgb(0, 0, 0)), None, !on, on) == Ok::<Action, ColorFault>(
                    action,
                ));
            },
        }
    }
}

} // verus!
