//! The decisions behind `lumen`'s commands: which action the flags ask for,
//! which packets that action comes to on each targeted device, and what the
//! command says about it.
use crate::color::{parse_color, parse_result_view, rgb, rgb_hex, scaled_spec, ColorFault, ColorParseError, Rgb};
use crate::device::{resolve_spec, BrightnessMode, DeviceModel, DeviceSpec, PowerMode, Registry};
use crate::driver::{built, Driver, DriverError, DriverFault, Packet};
use crate::drivers::{driver_for, is_driver_name};
use crate::protocol::{protocol, DriverCommand};
use crate::text::{dec, owned, push_dec, push_str, zero_pad};
use vstd::prelude::*;

verus! {

/// A `lumen` subcommand, as the command line gives it.
#[derive(Debug, Clone, PartialEq, Eq)]
pub enum Command {
    /// Show supported devices and which are plugged in.
    List,
    /// Set a colour, a brightness, or turn the lighting off and on.
    SetLighting {
        target: String,
        color: String,
        brightness: Option<u8>,
        off: bool,
        on: bool,
        dry_run: bool,
        hold: bool,
    },
    /// Dump every attached HID device and the feature reports it declares.
    Probe,
}

impl Command {
    /// The name this command is logged under.
    pub fn name(&self) -> (r: &'static str)
        ensures
            r@ == match self {
                Command::List => "list"@,
                Command::SetLighting { .. } => "set"@,
                Command::Probe => "probe"@,
            },
    {
        match self {
            Command::List => "list",
            Command::SetLighting { .. } => "set",
            Command::Probe => "probe",
        }
    }
}

/// What one `lumen set` run does to every device it targets.
#[derive(Debug, Clone, Copy, PartialEq, Eq, Structural)]
pub enum Action {
    Color(Rgb),
    /// A percentage, plus the colour to dim for devices that reach brightness
    /// by scaling rather than by a command.
    Brightness { level: u8, base: Rgb },
    /// True is on, false is off.
    Power(bool),
}

/// The action the flags ask for: off wins, then on, then a brightness, else
/// the colour. The colour is read first and must be one whatever else is given.
pub open spec fn action_spec(color: Seq<char>, brightness: Option<u8>, off: bool, on: bool) -> Result<
    Action,
    ColorFault,
> {
    match parse_color(color) {
        Err(e) => Err(e),
        Ok(base) => if off {
            Ok(Action::Power(false))
        } else if on {
            Ok(Action::Power(true))
        } else {
            match brightness {
                Some(level) => Ok(Action::Brightness { level, base }),
                None => Ok(Action::Color(base)),
            }
        },
    }
}

impl Action {
    /// Only one of `--off`, `--on` and `--brightness` can be given at a time;
    /// the argument parser rejects the combinations before this runs.
    pub fn from_flags(color: &str, brightness: Option<u8>, off: bool, on: bool) -> (r: Result<
        Action,
        ColorParseError,
    >)
        ensures
            match r {
                Ok(a) => action_spec(color@, brightness, off, on) == Ok::<Action, ColorFault>(a),
                Err(e) => action_spec(color@, brightness, off, on) == Err::<Action, ColorFault>(e@),
            },
    {
        let parsed = Rgb::parse(color);
        assert(parse_result_view(parsed) == parse_color(color@));
        let base = match parsed {
            Ok(c) => c,
            Err(e) => {
                return Err(e);
            },
        };
        if off {
            Ok(Action::Power(false))
        } else if on {
            Ok(Action::Power(true))
        } else {
            match brightness {
                Some(level) => Ok(Action::Brightness { level, base }),
                None => Ok(Action::Color(base)),
            }
        }
    }
}

/// What one action came to for one device: the packets to send, a plain
/// description for the line the CLI prints, and the colour that description is
/// about, when there is one.
#[derive(Debug)]
pub struct Planned {
    pub packets: Vec<Packet>,
    pub what: String,
    pub shown: Option<Rgb>,
}

/// A `Planned` as plain values.
pub struct PlanModel {
    pub packets: Seq<Seq<u8>>,
    pub what: Seq<char>,
    pub shown: Option<Rgb>,
}

impl View for Planned {
    type V = PlanModel;

    open spec fn view(&self) -> PlanModel {
        PlanModel {
            packets: self.packets@.map_values(|p: Packet| p@),
            what: self.what@,
            shown: self.shown,
        }
    }
}

/// The packets of a driver answer with the description and shown colour
/// that go with them.
pub open spec fn with_text(
    answer: Result<Seq<Seq<u8>>, DriverFault>,
    what: Seq<char>,
    shown: Option<Rgb>,
) -> Result<PlanModel, DriverFault> {
    match answer {
        Ok(p) => Ok(PlanModel { packets: p, what, shown }),
        Err(e) => Err(e),
    }
}

pub open spec fn power_word(on: bool) -> Seq<char> {
    if on {
        "on"@
    } else {
        "off"@
    }
}

/// One action for one device through the driver called `driver`, following
/// the behaviour the device's registry entry declares.
pub open spec fn plan_spec(driver: Seq<char>, dev: DeviceModel, action: Action) -> Result<
    PlanModel,
    DriverFault,
> {
    match action {
        Action::Color(c) => with_text(
            protocol(driver, dev, DriverCommand::Color(c)),
            rgb_hex(c),
            Some(c),
        ),
        Action::Brightness { level, base } => match dev.brightness {
            BrightnessMode::Native => with_text(
                protocol(driver, dev, DriverCommand::Brightness(level)),
                "brightness "@ + dec(level as nat) + "%"@,
                None,
            ),
            BrightnessMode::Scaled => {
                let dimmed = scaled_spec(base, level);
                with_text(
                    protocol(driver, dev, DriverCommand::Color(dimmed)),
                    rgb_hex(dimmed) + " ("@ + rgb_hex(base) + " at "@ + dec(level as nat) + "%)"@,
                    Some(dimmed),
                )
            },
        },
        Action::Power(on) => match dev.power {
            PowerMode::Native => with_text(
                protocol(driver, dev, DriverCommand::Power(on)),
                power_word(on),
                None,
            ),
            PowerMode::ColorBlack => {
                let c = if on {
                    rgb(255, 255, 255)
                } else {
                    rgb(0, 0, 0)
                };
                with_text(
                    protocol(driver, dev, DriverCommand::Color(c)),
                    power_word(on) + " ("@ + rgb_hex(c) + ")"@,
                    Some(c),
                )
            },
        },
    }
}

pub open spec fn plan_view(r: Result<Planned, DriverError>) -> Result<PlanModel, DriverFault> {
    match r {
        Ok(p) => Ok(p@),
        Err(e) => Err(e@),
    }
}

/// `n` in decimal, appended.
fn push_level(s: &mut String, n: u8)
    ensures
        final(s)@ == old(s)@ + dec(n as nat),
{
    push_dec(s, n as u128, 0);
    assert(zero_pad(dec(n as nat), 0) == dec(n as nat));
}

fn finish(
    r: Result<Vec<Packet>, DriverError>,
    what: String,
    shown: Option<Rgb>,
) -> (p: Result<Planned, DriverError>)
    ensures
        plan_view(p) == with_text(built(r), what@, shown),
{
    match r {
        Ok(packets) => Ok(Planned { packets, what, shown }),
        Err(e) => Err(e),
    }
}

/// Turn one action into packets for one device, following the behaviour its
/// registry entry declares rather than anything hardcoded about the device.
pub fn plan(driver: &Box<dyn Driver>, spec: &DeviceSpec, action: Action) -> (r: Result<
    Planned,
    DriverError,
>)
    ensures
        plan_view(r) == plan_spec(driver.spec_name(), spec@, action),
{
    match action {
        Action::Color(c) => {
            let packets = driver.set_color(spec, c);
            finish(packets, c.to_string(), Some(c))
        },
        Action::Brightness { level, base } => match spec.brightness {
            BrightnessMode::Native => {
                let packets = driver.set_brightness(spec, level);
                let mut what = owned("brightness ");
                push_level(&mut what, level);
                push_str(&mut what, "%");
                finish(packets, what, None)
            },
            BrightnessMode::Scaled => {
                let dimmed = base.scaled(level);
                let packets = driver.set_color(spec, dimmed);
                let mut what = dimmed.to_string();
                push_str(&mut what, " (");
                push_str(&mut what, base.to_string().as_str());
                push_str(&mut what, " at ");
                push_level(&mut what, level);
                push_str(&mut what, "%)");
                finish(packets, what, Some(dimmed))
            },
        },
        Action::Power(on) => {
            let word: &'static str = if on {
                "on"
            } else {
                "off"
            };
            match spec.power {
                PowerMode::Native => {
                    let packets = driver.set_power(spec, on);
                    finish(packets, owned(word), None)
                },
                PowerMode::ColorBlack => {
                    let c = if on {
                        Rgb::white()
                    } else {
                        Rgb::black()
                    };
                    let packets = driver.set_color(spec, c);
                    let mut what = owned(word);
                    push_str(&mut what, " (");
                    push_str(&mut what, c.to_string().as_str());
                    push_str(&mut what, ")");
                    finish(packets, what, Some(c))
                },
            }
        },
    }
}

/// Why `lumen set` built nothing.
#[derive(Debug)]
pub enum SetError {
    /// Nothing lumen can drive is plugged in.
    NothingPlugged,
    /// The target matched none of the connected devices, whose ids follow.
    NoMatch { target: String, connected: Vec<String> },
    /// One targeted device could not be planned for.
    Device { device: String, error: DriverError },
}

/// What a `SetError` says, as plain values.
pub enum SetFault {
    NothingPlugged,
    NoMatch { target: Seq<char>, connected: Seq<Seq<char>> },
    Device { device: Seq<char>, error: DriverFault },
}

impl View for SetError {
    type V = SetFault;

    open spec fn view(&self) -> SetFault {
        match self {
            SetError::NothingPlugged => SetFault::NothingPlugged,
            SetError::NoMatch { target, connected } => SetFault::NoMatch {
                target: target@,
                connected: connected@.map_values(|s: String| s@),
            },
            SetError::Device { device, error } => SetFault::Device {
                device: device@,
                error: error@,
            },
        }
    }
}

/// One device's plan: its driver looked up by name, then the action planned.
pub open spec fn plan_one(dev: DeviceModel, action: Action) -> Result<PlanModel, SetFault> {
    if !is_driver_name(dev.driver) {
        Err(SetFault::Device { device: dev.id, error: DriverFault::Unknown(dev.driver) })
    } else {
        match plan_spec(dev.driver, dev, action) {
            Ok(p) => Ok(p),
            Err(e) => Err(SetFault::Device { device: dev.id, error: e }),
        }
    }
}

/// Every device's plan in order, or the first failure.
pub open spec fn plan_all(targets: Seq<&DeviceSpec>, action: Action) -> Result<
    Seq<PlanModel>,
    SetFault,
>
    decreases targets.len(),
{
    if targets.len() == 0 {
        Ok(Seq::empty())
    } else {
        match plan_all(targets.drop_last(), action) {
            Err(e) => Err(e),
            Ok(done) => match plan_one(targets.last()@, action) {
                Err(e) => Err(e),
                Ok(p) => Ok(done.push(p)),
            },
        }
    }
}

pub open spec fn ids_of(devices: Seq<&DeviceSpec>) -> Seq<Seq<char>> {
    devices.map_values(|d: &DeviceSpec| d.id@)
}

/// What `lumen set TARGET` plans: the devices the target resolves to among
/// those present, each with its plan, all of them or nothing.
pub open spec fn set_plan_spec(present: Seq<&DeviceSpec>, target: Seq<char>, action: Action) -> Result<
    Seq<PlanModel>,
    SetFault,
> {
    let targets = resolve_spec(present, target);
    if targets.len() == 0 {
        if present.len() == 0 {
            Err(SetFault::NothingPlugged)
        } else {
            Err(SetFault::NoMatch { target, connected: ids_of(present) })
        }
    } else {
        plan_all(targets, action)
    }
}

/// Resolve `target` among the `present` devices and plan `action` for every
/// one of them, before anything is opened, so a protocol error cannot leave
/// some devices set and others not.
pub fn plan_targets<'a>(
    registry: &'a Registry,
    present: &[&'a DeviceSpec],
    target: &str,
    action: Action,
) -> (r: Result<Vec<(&'a DeviceSpec, Planned)>, SetError>)
    ensures
        match r {
            Ok(work) => {
                &&& work@.len() == resolve_spec(present@, target@).len()
                &&& forall|i: int|
                    0 <= i < work@.len() ==> (#[trigger] work@[i]).0 == resolve_spec(
                        present@,
                        target@,
                    )[i]
                &&& set_plan_spec(present@, target@, action) == Ok::<Seq<PlanModel>, SetFault>(
                    work@.map_values(|w: (&DeviceSpec, Planned)| w.1@),
                )
            },
            Err(e) => set_plan_spec(present@, target@, action) == Err::<Seq<PlanModel>, SetFault>(
                e@,
            ),
        },
{
    let targets = registry.resolve(target, present);
    if targets.len() == 0 {
        if present.len() == 0 {
            return Err(SetError::NothingPlugged);
        }
        let mut connected: Vec<String> = Vec::new();
        let mut i: usize = 0;
        while i < present.len()
            invariant
                i <= present@.len(),
                connected@.map_values(|s: String| s@) == ids_of(present@.take(i as int)),
            decreases present@.len() - i,
        {
            let ghost before = connected@;
            let id = present[i].id.clone();
            connected.push(id);
            proof {
                assert(present@.take(i + 1) =~= present@.take(i as int).push(present@[i as int]));
                assert(connected@ =~= before.push(id));
                assert(connected@.map_values(|s: String| s@) =~= before.map_values(|s: String| s@).push(
                    id@,
                ));
                assert(ids_of(present@.take(i + 1)) =~= ids_of(present@.take(i as int)).push(
                    present@[i as int].id@,
                ));
            }
            i = i + 1;
        }
        assert(present@.take(present@.len() as int) =~= present@);
        return Err(SetError::NoMatch { target: owned(target), connected });
    }
    let ghost t = targets@;
    let mut work: Vec<(&'a DeviceSpec, Planned)> = Vec::new();
    let mut i: usize = 0;
    assert(t.take(0) =~= Seq::<&DeviceSpec>::empty());
    assert(work@.map_values(|w: (&DeviceSpec, Planned)| w.1@) =~= Seq::<PlanModel>::empty());
    while i < targets.len()
        invariant
            i <= targets@.len(),
            t == targets@,
            t == resolve_spec(present@, target@),
            t.len() > 0,
            work@.len() == i,
            forall|k: int| 0 <= k < i ==> (#[trigger] work@[k]).0 == t[k],
            plan_all(t.take(i as int), action) == Ok::<Seq<PlanModel>, SetFault>(
                work@.map_values(|w: (&DeviceSpec, Planned)| w.1@),
            ),
        decreases targets@.len() - i,
    {
        let spec: &'a DeviceSpec = targets[i];
        assert(t.take(i + 1).drop_last() =~= t.take(i as int));
        assert(t.take(i + 1).last() == spec);
        assert(t[i as int] == spec);
        let driver = match driver_for(spec.driver.as_str()) {
            Ok(d) => d,
            Err(error) => {
                proof {
                    lemma_plan_all_fails(t, i as int, action);
                }
                return Err(SetError::Device { device: spec.id.clone(), error });
            },
        };
        assert(driver.spec_name() == spec.driver@);
        assert(is_driver_name(spec.driver@));
        let planned_r = plan(&driver, spec, action);
        assert(plan_view(planned_r) == plan_spec(spec.driver@, spec@, action));
        match planned_r {
            Ok(planned) => {
                let ghost before = work@;
                work.push((spec, planned));
                assert(work@.map_values(|w: (&DeviceSpec, Planned)| w.1@) =~= before.map_values(
                    |w: (&DeviceSpec, Planned)| w.1@,
                ).push(planned@));
            },
            Err(error) => {
                proof {
                    lemma_plan_all_fails(t, i as int, action);
                }
                return Err(SetError::Device { device: spec.id.clone(), error });
            },
        }
        i = i + 1;
    }
    assert(t.take(t.len() as int) =~= t);
    Ok(work)
}

/// Once the device at `i` fails, everything from `i` on fails the same way.
proof fn lemma_plan_all_fails(t: Seq<&DeviceSpec>, i: int, action: Action)
    requires
        0 <= i < t.len(),
        plan_all(t.take(i), action) is Ok,
        plan_one(t[i]@, action) is Err,
    ensures
        match plan_one(t[i]@, action) {
            Err(e) => plan_all(t, action) == Err::<Seq<PlanModel>, SetFault>(e),
            Ok(_) => false,
        },
    decreases t.len() - i,
{
    if i == t.len() - 1 {
        assert(t.drop_last() =~= t.take(i));
    } else {
        assert(t.drop_last().take(i) =~= t.take(i));
        assert(t.drop_last()[i] == t[i]);
        lemma_plan_all_fails(t.drop_last(), i, action);
    }
}


/// The one driver command an action comes to on a device, by what its
/// registry entry declares: a native brightness or power command where it has
/// one, and otherwise a colour (the base colour dimmed, or black for off and
/// white for on).
pub open spec fn planned_command(dev: DeviceModel, action: Action) -> DriverCommand {
    match action {
        Action::Color(c) => DriverCommand::Color(c),
        Action::Brightness { level, base } => match dev.brightness {
            BrightnessMode::Native => DriverCommand::Brightness(level),
            BrightnessMode::Scaled => DriverCommand::Color(scaled_spec(base, level)),
        },
        Action::Power(on) => match dev.power {
            PowerMode::Native => DriverCommand::Power(on),
            PowerMode::ColorBlack => DriverCommand::Color(
                if on {
                    rgb(255, 255, 255)
                } else {
                    rgb(0, 0, 0)
                },
            ),
        },
    }
}

pub open spec fn plan_packets(r: Result<PlanModel, DriverFault>) -> Result<Seq<Seq<u8>>, DriverFault> {
    match r {
        Ok(p) => Ok(p.packets),
        Err(e) => Err(e),
    }
}

/// A plan sends exactly what the driver builds for the command the device's
/// declarations pick, and fails exactly as the driver does: brightness on a
/// device with no command of its own is the dimmed colour, power on one is
/// black or white, and a plain colour is the colour.
pub proof fn lemma_plan_follows_declarations(driver: Seq<char>, dev: DeviceModel, action: Action)
    ensures
        plan_packets(plan_spec(driver, dev, action)) == protocol(
            driver,
            dev,
            planned_command(dev, action),
        ),
{
}

/// Among the flags, off wins, then on, then a brightness; whatever they say,
/// a colour that does not parse is the answer, and one that does decides
/// nothing about which action it is.
pub proof fn lemma_flags_pick_one_action(color: Seq<char>, brightness: Option<u8>, on: bool)
    ensures
        parse_color(color) is Err ==> action_spec(color, brightness, true, on) is Err && action_spec(
            color,
            brightness,
            false,
            on,
        ) is Err,
        parse_color(color) is Ok ==> {
            &&& action_spec(color, brightness, true, on) == Ok::<Action, ColorFault>(Action::Power(false))
            &&& action_spec(color, brightness, false, true) == Ok::<Action, ColorFault>(Action::Power(true))
            &&& brightness matches Some(level) ==> action_spec(color, brightness, false, false) == Ok::<
                Action,
                ColorFault,
            >(Action::Brightness { level, base: parse_color(color)->Ok_0 })
        },
{
}

} // verus!
