//! The device registry: what each supported device is and how to talk to it.
use crate::number::{parse_unsigned_chars, parse_unsigned_spec, IntErrorKind};
use crate::text::{chars_of, owned, str_eq, string_from, trim, trim_bounds};
use vstd::prelude::*;

verus! {

/// What a device is and how to talk to it.
#[derive(Debug, PartialEq, Eq)]
pub struct DeviceSpec {
    /// Stable slug, e.g. `razer-cynosa-lite`. Used to target the device on the CLI.
    pub id: String,
    pub name: String,
    pub vendor: String,
    /// `keyboard` or `mouse`. Also usable as a CLI target.
    pub kind: String,
    pub vendor_id: u16,
    pub product_id: u16,
    /// Name of the protocol driver that handles this device.
    pub driver: String,
    /// Data bytes in the device's control feature report, excluding the report id.
    pub control_report_len: u32,
    /// Whether the hardware keeps the colour on its own. When false, the colour
    /// only lasts while lumen keeps re-sending it.
    pub holds_colour: bool,
    /// How this device gets its brightness set.
    pub brightness: BrightnessMode,
    /// How this device gets turned off and back on.
    pub power: PowerMode,
}

/// How a device's brightness is reached, declared per device rather than
/// decided by a match on device id in the code that uses it.
#[derive(Debug, Clone, Copy, PartialEq, Eq, Structural)]
pub enum BrightnessMode {
    /// The protocol has a brightness command: the driver builds it.
    Native,
    /// The protocol has none, so brightness is applied by scaling the colour.
    Scaled,
}

/// How a device is turned off and back on.
#[derive(Debug, Clone, Copy, PartialEq, Eq, Structural)]
pub enum PowerMode {
    /// The protocol has an off command: the driver builds it.
    Native,
    /// The protocol has none, so off is the colour black and on is white.
    ColorBlack,
}

/// A `DeviceSpec` as plain values.
pub struct DeviceModel {
    pub id: Seq<char>,
    pub name: Seq<char>,
    pub vendor: Seq<char>,
    pub kind: Seq<char>,
    pub vendor_id: u16,
    pub product_id: u16,
    pub driver: Seq<char>,
    pub control_report_len: u32,
    pub holds_colour: bool,
    pub brightness: BrightnessMode,
    pub power: PowerMode,
}

impl View for DeviceSpec {
    type V = DeviceModel;

    open spec fn view(&self) -> DeviceModel {
        DeviceModel {
            id: self.id@,
            name: self.name@,
            vendor: self.vendor@,
            kind: self.kind@,
            vendor_id: self.vendor_id,
            product_id: self.product_id,
            driver: self.driver@,
            control_report_len: self.control_report_len,
            holds_colour: self.holds_colour,
            brightness: self.brightness,
            power: self.power,
        }
    }
}

/// Why a list of devices is not a registry.
#[derive(Debug, PartialEq, Eq)]
pub enum RegistryError {
    /// Two entries share an id; holds it.
    DuplicateId(String),
    /// Two entries share a USB id: the earlier entry's id, the later one's,
    /// then the vendor and product id.
    DuplicateUsbId(String, String, u16, u16),
}

/// What a `RegistryError` says, as plain values.
pub enum RegistryFault {
    DuplicateId(Seq<char>),
    DuplicateUsbId(Seq<char>, Seq<char>, u16, u16),
}

impl View for RegistryError {
    type V = RegistryFault;

    open spec fn view(&self) -> RegistryFault {
        match self {
            RegistryError::DuplicateId(a) => RegistryFault::DuplicateId(a@),
            RegistryError::DuplicateUsbId(a, b, v, p) => RegistryFault::DuplicateUsbId(
                a@,
                b@,
                *v,
                *p,
            ),
        }
    }
}

pub open spec fn same_usb(a: DeviceSpec, b: DeviceSpec) -> bool {
    a.vendor_id == b.vendor_id && a.product_id == b.product_id
}

/// No two entries share an id, and no two share a USB id.
pub open spec fn unique_devices(s: Seq<DeviceSpec>) -> bool {
    forall|i: int, j: int|
        0 <= i < j < s.len() ==> (#[trigger] s[i]).id@ != (#[trigger] s[j]).id@ && !same_usb(
            s[i],
            s[j],
        )
}

/// The first index below `i` whose entry shares an id with entry `i`, or `i`.
pub open spec fn first_same_id(s: Seq<DeviceSpec>, i: int, j: int) -> int
    decreases i - j,
{
    if j >= i || j < 0 {
        i
    } else if s[j].id@ == s[i].id@ {
        j
    } else {
        first_same_id(s, i, j + 1)
    }
}

/// The first index below `i` whose entry shares a USB id with entry `i`, or `i`.
pub open spec fn first_same_usb(s: Seq<DeviceSpec>, i: int, j: int) -> int
    decreases i - j,
{
    if j >= i || j < 0 {
        i
    } else if same_usb(s[j], s[i]) {
        j
    } else {
        first_same_usb(s, i, j + 1)
    }
}

/// Checking entries from `i` on, each against every entry before it: the
/// first clash found, in entry order, with an id clash reported before a USB
/// clash on the same entry.
pub open spec fn check_from(s: Seq<DeviceSpec>, i: int) -> Result<(), RegistryFault>
    decreases s.len() - i,
{
    if i < 0 || i >= s.len() {
        Ok(())
    } else if first_same_id(s, i, 0) < i {
        Err(RegistryFault::DuplicateId(s[first_same_id(s, i, 0)].id@))
    } else if first_same_usb(s, i, 0) < i {
        let p = first_same_usb(s, i, 0);
        Err(RegistryFault::DuplicateUsbId(s[p].id@, s[i].id@, s[i].vendor_id, s[i].product_id))
    } else {
        check_from(s, i + 1)
    }
}

/// The first entry with the given USB id.
pub open spec fn find_usb(s: Seq<DeviceSpec>, vendor_id: u16, product_id: u16) -> Option<
    DeviceSpec,
>
    decreases s.len(),
{
    if s.len() == 0 {
        None
    } else if s[0].vendor_id == vendor_id && s[0].product_id == product_id {
        Some(s[0])
    } else {
        find_usb(s.drop_first(), vendor_id, product_id)
    }
}

/// Looking a device up by USB id finds an entry with exactly that vendor and
/// product id, and finds none only when no entry has both.
pub proof fn lemma_find_usb_matches(s: Seq<DeviceSpec>, vendor_id: u16, product_id: u16)
    ensures
        match find_usb(s, vendor_id, product_id) {
            Some(d) => s.contains(d) && d.vendor_id == vendor_id && d.product_id == product_id,
            None => forall|k: int|
                0 <= k < s.len() ==> !((#[trigger] s[k]).vendor_id == vendor_id && s[k].product_id
                    == product_id),
        },
    decreases s.len(),
{
    if s.len() > 0 {
        let rest = s.drop_first();
        lemma_find_usb_matches(rest, vendor_id, product_id);
        if s[0].vendor_id == vendor_id && s[0].product_id == product_id {
            assert(s[0] == s[0]);
        } else {
            match find_usb(rest, vendor_id, product_id) {
                Some(d) => {
                    let k = choose|k: int| 0 <= k < rest.len() && rest[k] == d;
                    assert(s[k + 1] == d);
                },
                None => {
                    assert forall|k: int| 0 <= k < s.len() implies !((#[trigger] s[k]).vendor_id
                        == vendor_id && s[k].product_id == product_id) by {
                        if k > 0 {
                            assert(s[k] == rest[k - 1]);
                        }
                    }
                },
            }
        }
    }
}

/// Whether a device answers to a CLI target by id or by kind.
pub open spec fn answers_to(d: DeviceSpec, target: Seq<char>) -> bool {
    d.id@ == target || d.kind@ == target
}

/// The devices of `present` that answer to `target`, in order.
pub open spec fn matching(present: Seq<&DeviceSpec>, target: Seq<char>) -> Seq<&DeviceSpec>
    decreases present.len(),
{
    if present.len() == 0 {
        Seq::empty()
    } else {
        let rest = matching(present.drop_last(), target);
        if answers_to(*present.last(), target) {
            rest.push(present.last())
        } else {
            rest
        }
    }
}

/// `all` is everything present; anything else matches by id or kind.
pub open spec fn resolve_spec(present: Seq<&DeviceSpec>, target: Seq<char>) -> Seq<&DeviceSpec> {
    if target == "all"@ {
        present
    } else {
        matching(present, target)
    }
}

impl Clone for DeviceSpec {
    fn clone(&self) -> (r: DeviceSpec)
        ensures
            r@ == self@,
    {
        DeviceSpec {
            id: self.id.clone(),
            name: self.name.clone(),
            vendor: self.vendor.clone(),
            kind: self.kind.clone(),
            vendor_id: self.vendor_id,
            product_id: self.product_id,
            driver: self.driver.clone(),
            control_report_len: self.control_report_len,
            holds_colour: self.holds_colour,
            brightness: self.brightness,
            power: self.power,
        }
    }
}

/// Every device lumen knows how to drive.
#[derive(Debug)]
pub struct Registry {
    devices: Vec<DeviceSpec>,
}

impl View for Registry {
    type V = Seq<DeviceSpec>;

    closed spec fn view(&self) -> Seq<DeviceSpec> {
        self.devices@
    }
}

impl Clone for Registry {
    fn clone(&self) -> (r: Registry)
        ensures
            r@.len() == self@.len(),
            forall|i: int| 0 <= i < r@.len() ==> (#[trigger] r@[i])@ == self@[i]@,
    {
        proof {
            use_type_invariant(self);
        }
        let mut devices: Vec<DeviceSpec> = Vec::new();
        let mut i: usize = 0;
        while i < self.devices.len()
            invariant
                i <= self.devices@.len(),
                unique_devices(self.devices@),
                devices@.len() == i,
                forall|k: int| 0 <= k < i ==> (#[trigger] devices@[k])@ == self.devices@[k]@,
            decreases self.devices@.len() - i,
        {
            devices.push(self.devices[i].clone());
            i = i + 1;
        }
        proof {
            assert forall|a: int, b: int| 0 <= a < b < devices@.len() implies (
            #[trigger] devices@[a]).id@ != (#[trigger] devices@[b]).id@ && !same_usb(
                devices@[a],
                devices@[b],
            ) by {
                assert(devices@[a]@ == self.devices@[a]@);
                assert(devices@[b]@ == self.devices@[b]@);
                assert(self.devices@[a].id@ != self.devices@[b].id@);
            }
        }
        Registry { devices }
    }
}

impl Registry {
    #[verifier::type_invariant]
    closed spec fn unique(self) -> bool {
        unique_devices(self.devices@)
    }

    /// A registry of `devices`, or the first clash between two of them.
    pub fn from_devices(devices: Vec<DeviceSpec>) -> (r: Result<Registry, RegistryError>)
        ensures
            r is Ok <==> unique_devices(devices@),
            match r {
                Ok(reg) => reg@ == devices@,
                Err(e) => check_from(devices@, 0) == Err::<(), RegistryFault>(e@),
            },
    {
        let mut i: usize = 0;
        while i < devices.len()
            invariant
                i <= devices.len(),
                check_from(devices@, 0) == check_from(devices@, i as int),
                forall|a: int, b: int|
                    0 <= a < b < i ==> (#[trigger] devices@[a]).id@ != (#[trigger] devices@[b]).id@
                        && !same_usb(devices@[a], devices@[b]),
            decreases devices.len() - i,
        {
            let mut j: usize = 0;
            while j < i
                invariant
                    j <= i < devices.len(),
                    first_same_id(devices@, i as int, 0) == first_same_id(
                        devices@,
                        i as int,
                        j as int,
                    ),
                    forall|a: int| 0 <= a < j ==> devices@[a].id@ != devices@[i as int].id@,
                    check_from(devices@, 0) == check_from(devices@, i as int),
                decreases i - j,
            {
                if str_eq(devices[j].id.as_str(), devices[i].id.as_str()) {
                    proof {
                        lemma_unique_from_check(devices@, i as int);
                    }
                    return Err(RegistryError::DuplicateId(devices[j].id.clone()));
                }
                j = j + 1;
            }
            let mut k: usize = 0;
            while k < i
                invariant
                    k <= i < devices.len(),
                    first_same_id(devices@, i as int, 0) == i,
                    first_same_usb(devices@, i as int, 0) == first_same_usb(
                        devices@,
                        i as int,
                        k as int,
                    ),
                    forall|a: int| 0 <= a < k ==> !same_usb(devices@[a], devices@[i as int]),
                    check_from(devices@, 0) == check_from(devices@, i as int),
                decreases i - k,
            {
                if devices[k].vendor_id == devices[i].vendor_id && devices[k].product_id
                    == devices[i].product_id {
                    proof {
                        lemma_unique_from_check(devices@, i as int);
                    }
                    return Err(
                        RegistryError::DuplicateUsbId(
                            devices[k].id.clone(),
                            devices[i].id.clone(),
                            devices[i].vendor_id,
                            devices[i].product_id,
                        ),
                    );
                }
                k = k + 1;
            }
            i = i + 1;
        }
        Ok(Registry { devices })
    }

    /// Every device, in registry order.
    pub fn all(&self) -> (r: &[DeviceSpec])
        ensures
            r@ == self@,
            unique_devices(r@),
    {
        proof {
            use_type_invariant(self);
        }
        self.devices.as_slice()
    }

    /// The device with this USB id, if the registry has one.
    pub fn by_usb_id(&self, vendor_id: u16, product_id: u16) -> (r: Option<&DeviceSpec>)
        ensures
            match r {
                Some(d) => find_usb(self@, vendor_id, product_id) == Some(*d),
                None => find_usb(self@, vendor_id, product_id) is None,
            },
            match r {
                Some(d) => self@.contains(*d) && d.vendor_id == vendor_id && d.product_id
                    == product_id,
                None => forall|k: int|
                    0 <= k < self@.len() ==> !((#[trigger] self@[k]).vendor_id == vendor_id
                        && self@[k].product_id == product_id),
            },
    {
        proof {
            lemma_find_usb_matches(self@, vendor_id, product_id);
        }
        let mut i: usize = 0;
        proof {
            assert(self.devices@.skip(0) =~= self.devices@);
        }
        while i < self.devices.len()
            invariant
                i <= self.devices@.len(),
                find_usb(self@, vendor_id, product_id) == find_usb(
                    self.devices@.skip(i as int),
                    vendor_id,
                    product_id,
                ),
                self@ == self.devices@,
            decreases self.devices.len() - i,
        {
            let ghost rest = self.devices@.skip(i as int);
            assert(rest[0] == self.devices@[i as int]);
            if self.devices[i].vendor_id == vendor_id && self.devices[i].product_id == product_id {
                proof {
                    lemma_find_usb_matches(self@, vendor_id, product_id);
                }
                return Some(&self.devices[i]);
            }
            assert(rest.drop_first() =~= self.devices@.skip(i + 1));
            i = i + 1;
        }
        None
    }

    /// Resolve a CLI target: `all`, a device id, or a kind such as `mouse`.
    /// Matching is restricted to `present`, so targeting never returns a device
    /// that is not plugged in.
    pub fn resolve<'a>(&'a self, target: &str, present: &[&'a DeviceSpec]) -> (r: Vec<
        &'a DeviceSpec,
    >)
        ensures
            r@ == resolve_spec(present@, target@),
    {
        resolve_in(target, present)
    }
}

/// The registry compiled into this binary.
pub open spec fn builtin_models() -> Seq<DeviceModel> {
    seq![
        DeviceModel {
            id: "razer-cynosa-lite"@,
            name: "Razer Cynosa Lite"@,
            vendor: "Razer"@,
            kind: "keyboard"@,
            vendor_id: 0x1532,
            product_id: 0x023F,
            driver: "razer-extended-matrix"@,
            control_report_len: 90,
            holds_colour: true,
            brightness: BrightnessMode::Native,
            power: PowerMode::Native,
        },
        DeviceModel {
            id: "hyperx-pulsefire-core"@,
            name: "HyperX Pulsefire Core"@,
            vendor: "HyperX"@,
            kind: "mouse"@,
            vendor_id: 0x03F0,
            product_id: 0x0D8F,
            driver: "hyperx-pulsefire"@,
            control_report_len: 263,
            holds_colour: false,
            brightness: BrightnessMode::Scaled,
            power: PowerMode::ColorBlack,
        },
    ]
}

pub open spec fn models(s: Seq<DeviceSpec>) -> Seq<DeviceModel> {
    s.map_values(|d: DeviceSpec| d@)
}

impl Registry {
    /// The registry compiled into this binary.
    pub fn builtin() -> (r: Result<Registry, RegistryError>)
        ensures
            r matches Ok(reg) && models(reg@) == builtin_models(),
    {
        let keyboard = DeviceSpec {
            id: owned("razer-cynosa-lite"),
            name: owned("Razer Cynosa Lite"),
            vendor: owned("Razer"),
            kind: owned("keyboard"),
            vendor_id: 0x1532,
            product_id: 0x023F,
            driver: owned("razer-extended-matrix"),
            control_report_len: 90,
            holds_colour: true,
            brightness: BrightnessMode::Native,
            power: PowerMode::Native,
        };
        let mouse = DeviceSpec {
            id: owned("hyperx-pulsefire-core"),
            name: owned("HyperX Pulsefire Core"),
            vendor: owned("HyperX"),
            kind: owned("mouse"),
            vendor_id: 0x03F0,
            product_id: 0x0D8F,
            driver: owned("hyperx-pulsefire"),
            control_report_len: 263,
            holds_colour: false,
            brightness: BrightnessMode::Scaled,
            power: PowerMode::ColorBlack,
        };
        let mut devices: Vec<DeviceSpec> = Vec::new();
        devices.push(keyboard);
        devices.push(mouse);
        proof {
            reveal_strlit("razer-cynosa-lite");
            reveal_strlit("hyperx-pulsefire-core");
            assert(devices@[0].id@.len() != devices@[1].id@.len());
            assert(unique_devices(devices@));
            assert(models(devices@) =~= builtin_models());
        }
        Registry::from_devices(devices)
    }
}

/// Why a string is not a USB id.
#[derive(Debug, PartialEq, Eq)]
pub enum UsbIdError {
    /// Not written with a `0x` prefix; holds the trimmed text.
    MissingPrefix(String),
    /// The digits after `0x` are not a 16-bit hex number; holds the trimmed
    /// text and what is wrong with the digits.
    BadHex(String, IntErrorKind),
}

/// What a `UsbIdError` says, as plain values.
pub enum UsbIdFault {
    MissingPrefix(Seq<char>),
    BadHex(Seq<char>, IntErrorKind),
}

impl View for UsbIdError {
    type V = UsbIdFault;

    open spec fn view(&self) -> UsbIdFault {
        match self {
            UsbIdError::MissingPrefix(t) => UsbIdFault::MissingPrefix(t@),
            UsbIdError::BadHex(t, k) => UsbIdFault::BadHex(t@, *k),
        }
    }
}

/// A USB id written the way they are documented, `0x1532`: surrounding
/// whitespace ignored, `0x` or `0X`, then hex digits.
pub open spec fn usb_id_spec(s: Seq<char>) -> Result<u16, UsbIdFault> {
    let t = trim(s);
    if t.len() >= 2 && t[0] == '0' && (t[1] == 'x' || t[1] == 'X') {
        match parse_unsigned_spec(t.skip(2), 16, 0xffff) {
            Ok(n) => Ok(n as u16),
            Err(k) => Err(UsbIdFault::BadHex(t, k)),
        }
    } else {
        Err(UsbIdFault::MissingPrefix(t))
    }
}

/// Accept USB ids written the way they are documented: `"0x1532"`.
pub fn parse_usb_id(s: &str) -> (r: Result<u16, UsbIdError>)
    ensures
        match r {
            Ok(n) => usb_id_spec(s@) == Ok::<u16, UsbIdFault>(n),
            Err(e) => usb_id_spec(s@) == Err::<u16, UsbIdFault>(e@),
        },
{
    let v = chars_of(s);
    let (a, b) = trim_bounds(&v);
    let ghost t = trim(s@);
    if b - a >= 2 && v[a] == '0' && (v[a + 1] == 'x' || v[a + 1] == 'X') {
        let mut digits: Vec<char> = Vec::new();
        let mut i: usize = a + 2;
        while i < b
            invariant
                a + 2 <= i <= b <= v.len(),
                digits@ == v@.subrange(a + 2, i as int),
            decreases b - i,
        {
            digits.push(v[i]);
            i = i + 1;
            assert(digits@ =~= v@.subrange(a + 2, i as int));
        }
        assert(digits@ =~= t.skip(2));
        match parse_unsigned_chars(&digits, 16, 0xffff) {
            Ok(n) => Ok(n as u16),
            Err(k) => Err(UsbIdError::BadHex(string_from(&v, a, b), k)),
        }
    } else {
        Err(UsbIdError::MissingPrefix(string_from(&v, a, b)))
    }
}

/// `Registry::resolve`, which depends on nothing but its arguments.
pub fn resolve_in<'a>(target: &str, present: &[&'a DeviceSpec]) -> (r: Vec<&'a DeviceSpec>)
    ensures
        r@ == resolve_spec(present@, target@),
{
    let mut out: Vec<&'a DeviceSpec> = Vec::new();
    if str_eq(target, "all") {
        let mut i: usize = 0;
        while i < present.len()
            invariant
                i <= present@.len(),
                out@ == present@.take(i as int),
            decreases present@.len() - i,
        {
            out.push(present[i]);
            i = i + 1;
            assert(out@ =~= present@.take(i as int));
        }
        assert(present@.take(present@.len() as int) =~= present@);
        return out;
    }
    let mut i: usize = 0;
    while i < present.len()
        invariant
            i <= present@.len(),
            out@ == matching(present@.take(i as int), target@),
        decreases present@.len() - i,
    {
        let d: &'a DeviceSpec = present[i];
        assert(present@.take(i + 1).drop_last() =~= present@.take(i as int));
        if str_eq(d.id.as_str(), target) || str_eq(d.kind.as_str(), target) {
            out.push(d);
        }
        i = i + 1;
    }
    assert(present@.take(present@.len() as int) =~= present@);
    out
}

/// Two entries clash when they share an id or a USB id.
pub open spec fn clash(a: DeviceSpec, b: DeviceSpec) -> bool {
    a.id@ == b.id@ || same_usb(a, b)
}

proof fn lemma_check_skips_clean(s: Seq<DeviceSpec>, k: int, j: int)
    requires
        0 <= k <= j < s.len(),
        forall|a: int, b: int| 0 <= a < b < j ==> !clash(#[trigger] s[a], #[trigger] s[b]),
    ensures
        check_from(s, k) == check_from(s, j),
    decreases j - k,
{
    if k < j {
        lemma_first_same_id(s, k, 0);
        lemma_first_same_usb(s, k, 0);
        let p = first_same_id(s, k, 0);
        let q = first_same_usb(s, k, 0);
        if p < k {
            assert(clash(s[p], s[k]));
        }
        if q < k {
            assert(clash(s[q], s[k]));
        }
        lemma_check_skips_clean(s, k + 1, j);
    }
}

/// A registry reports its first clash in entry order. Take `j`, the first
/// entry that clashes with an earlier one: if an earlier entry has its id,
/// the error is that id; otherwise it names the first earlier entry with its
/// USB id, then entry `j`, then the USB id.
pub proof fn lemma_first_clash_is_reported(s: Seq<DeviceSpec>, i: int, j: int)
    requires
        0 <= i < j < s.len(),
        clash(s[i], s[j]),
        forall|a: int, b: int| 0 <= a < b < j ==> !clash(#[trigger] s[a], #[trigger] s[b]),
    ensures
        !unique_devices(s),
        s[i].id@ == s[j].id@ ==> check_from(s, 0) == Err::<(), RegistryFault>(
            RegistryFault::DuplicateId(s[j].id@),
        ),
        (forall|k: int| 0 <= k < j ==> s[k].id@ != s[j].id@) && (forall|k: int|
            0 <= k < i ==> !same_usb(s[k], s[j])) ==> check_from(s, 0) == Err::<(), RegistryFault>(
            RegistryFault::DuplicateUsbId(s[i].id@, s[j].id@, s[j].vendor_id, s[j].product_id),
        ),
{
    lemma_check_skips_clean(s, 0, j);
    lemma_first_same_id(s, j, 0);
    lemma_first_same_usb(s, j, 0);
    let p = first_same_id(s, j, 0);
    let q = first_same_usb(s, j, 0);
    if s[i].id@ == s[j].id@ {
        assert(p <= i);
    } else {
        assert(same_usb(s[i], s[j]));
        assert(q <= i);
        if (forall|k: int| 0 <= k < j ==> s[k].id@ != s[j].id@) {
            assert(p == j);
        }
        if (forall|k: int| 0 <= k < i ==> !same_usb(s[k], s[j])) {
            assert(q == i);
        }
    }
}

proof fn lemma_unique_from_check(s: Seq<DeviceSpec>, i: int)
    requires
        0 <= i < s.len(),
        first_same_id(s, i, 0) < i || first_same_usb(s, i, 0) < i,
    ensures
        !unique_devices(s),
{
    if first_same_id(s, i, 0) < i {
        lemma_first_same_id(s, i, 0);
        let p = first_same_id(s, i, 0);
        assert(s[p].id@ == s[i].id@);
    } else {
        lemma_first_same_usb(s, i, 0);
        let p = first_same_usb(s, i, 0);
        assert(same_usb(s[p], s[i]));
    }
}

proof fn lemma_first_same_id(s: Seq<DeviceSpec>, i: int, j: int)
    requires
        0 <= j <= i < s.len(),
    ensures
        j <= first_same_id(s, i, j) <= i,
        first_same_id(s, i, j) < i ==> s[first_same_id(s, i, j)].id@ == s[i].id@,
        forall|k: int| j <= k < first_same_id(s, i, j) ==> s[k].id@ != s[i].id@,
    decreases i - j,
{
    if j < i && s[j].id@ != s[i].id@ {
        lemma_first_same_id(s, i, j + 1);
    }
}

proof fn lemma_first_same_usb(s: Seq<DeviceSpec>, i: int, j: int)
    requires
        0 <= j <= i < s.len(),
    ensures
        j <= first_same_usb(s, i, j) <= i,
        first_same_usb(s, i, j) < i ==> same_usb(s[first_same_usb(s, i, j)], s[i]),
        forall|k: int| j <= k < first_same_usb(s, i, j) ==> !same_usb(s[k], s[i]),
    decreases i - j,
{
    if j < i && !same_usb(s[j], s[i]) {
        lemma_first_same_usb(s, i, j + 1);
    }
}


proof fn lemma_matching(present: Seq<&DeviceSpec>, target: Seq<char>)
    ensures
        forall|i: int|
            0 <= i < matching(present, target).len() ==> present.contains(
                #[trigger] matching(present, target)[i],
            ) && answers_to(*matching(present, target)[i], target),
        forall|j: int|
            0 <= j < present.len() && answers_to(*present[j], target) ==> matching(
                present,
                target,
            ).contains(#[trigger] present[j]),
    decreases present.len(),
{
    if present.len() > 0 {
        let rest = present.drop_last();
        lemma_matching(rest, target);
        let m = matching(present, target);
        assert forall|i: int| 0 <= i < m.len() implies present.contains(#[trigger] m[i])
            && answers_to(*m[i], target) by {
            if i < matching(rest, target).len() {
                assert(m[i] == matching(rest, target)[i]);
                let k = choose|k: int| 0 <= k < rest.len() && rest[k] == m[i];
                assert(present[k] == m[i]);
            } else {
                assert(m[i] == present.last());
                assert(present[present.len() - 1] == m[i]);
            }
        }
        assert forall|j: int| 0 <= j < present.len() && answers_to(*present[j], target) implies m.contains(
            #[trigger] present[j],
        ) by {
            if j < present.len() - 1 {
                assert(rest[j] == present[j]);
                assert(matching(rest, target).contains(rest[j]));
                let k = choose|k: int| 0 <= k < matching(rest, target).len() && matching(rest, target)[k] == rest[j];
                assert(m[k] == present[j]);
            } else {
                assert(m[m.len() - 1] == present[j]);
            }
        }
    }
}

/// `lumen set` only ever reaches devices that are plugged in: every device a
/// target resolves to is present and, unless the target is `all`, answers to
/// it by id or kind. Nothing present that answers to the target is left out,
/// and `all` is every present device.
pub proof fn lemma_resolve_reaches_only_present_devices(present: Seq<&DeviceSpec>, target: Seq<char>)
    ensures
        forall|i: int|
            0 <= i < resolve_spec(present, target).len() ==> present.contains(
                #[trigger] resolve_spec(present, target)[i],
            ),
        target != "all"@ ==> forall|i: int|
            0 <= i < resolve_spec(present, target).len() ==> answers_to(
                *#[trigger] resolve_spec(present, target)[i],
                target,
            ),
        forall|j: int|
            0 <= j < present.len() && (target == "all"@ || answers_to(*present[j], target))
                ==> resolve_spec(present, target).contains(#[trigger] present[j]),
{
    lemma_matching(present, target);
    if target == "all"@ {
        assert forall|j: int| 0 <= j < present.len() implies resolve_spec(present, target).contains(
            #[trigger] present[j],
        ) by {
            assert(resolve_spec(present, target)[j] == present[j]);
        }
    }
}

} // verus!
