//! What `lumen probe` reports: every attached HID device, known to lumen or
//! not, with the feature reports each of its interfaces declares. This is where
//! a new device's `control_report_len` comes from.
use crate::device::{find_usb, usb_id_spec, DeviceSpec, Registry, UsbIdFault};
use crate::number::digits_from;
use crate::text::{
    chars_of, dec, digit, digit_char, hex2, is_whitespace, lemma_digit_roundtrip, owned,
    push_char, push_dec, push_hex2, push_str, str_eq, string_from, trim, trim_bounds, trim_end,
    trim_start, zero_pad,
};
use vstd::prelude::*;

verus! {

/// One USB interface as `lumen probe` found it.
#[derive(Debug)]
pub struct ProbedInterface {
    pub interface: i32,
    /// Feature reports this interface declares, as `(report id, data bytes)`.
    /// The data-byte count is what a registry entry's `control_report_len` holds.
    pub feature_reports: Vec<(u8, u32)>,
    /// Why the interface could not be read, when it could not. Some interfaces
    /// are unopenable by design -- a keyboard collection always is.
    pub error: Option<String>,
}

/// One attached device and every interface it exposes, known to lumen or not.
#[derive(Debug)]
pub struct ProbedDevice {
    pub vendor_id: u16,
    pub product_id: u16,
    pub product: String,
    pub manufacturer: String,
    pub interfaces: Vec<ProbedInterface>,
}

/// A `ProbedInterface` as plain values.
pub struct InterfaceModel {
    pub interface: i32,
    pub feature_reports: Seq<(u8, u32)>,
    pub error: Option<Seq<char>>,
}

/// A `ProbedDevice` as plain values.
pub struct ProbeModel {
    pub vendor_id: u16,
    pub product_id: u16,
    pub product: Seq<char>,
    pub manufacturer: Seq<char>,
    pub interfaces: Seq<InterfaceModel>,
}

pub open spec fn error_view(e: Option<String>) -> Option<Seq<char>> {
    match e {
        Some(s) => Some(s@),
        None => None,
    }
}

impl View for ProbedInterface {
    type V = InterfaceModel;

    open spec fn view(&self) -> InterfaceModel {
        InterfaceModel {
            interface: self.interface,
            feature_reports: self.feature_reports@,
            error: error_view(self.error),
        }
    }
}

pub open spec fn interfaces_view(s: Seq<ProbedInterface>) -> Seq<InterfaceModel> {
    s.map_values(|i: ProbedInterface| i@)
}

impl View for ProbedDevice {
    type V = ProbeModel;

    open spec fn view(&self) -> ProbeModel {
        ProbeModel {
            vendor_id: self.vendor_id,
            product_id: self.product_id,
            product: self.product@,
            manufacturer: self.manufacturer@,
            interfaces: interfaces_view(self.interfaces@),
        }
    }
}

// ---------------------------------------------------------------------------
// Text
// ---------------------------------------------------------------------------

/// What a probed device calls itself, or a stand-in when it says nothing.
pub open spec fn describe_spec(manufacturer: Seq<char>, product: Seq<char>) -> Seq<char> {
    let t = trim(manufacturer + seq![' '] + product);
    if t.len() == 0 {
        "unnamed device"@
    } else {
        t
    }
}

pub fn describe(device: &ProbedDevice) -> (s: String)
    ensures
        s@ == describe_spec(device.manufacturer@, device.product@),
{
    let mut name = device.manufacturer.clone();
    push_char(&mut name, ' ');
    push_str(&mut name, device.product.as_str());
    assert(name@ =~= device.manufacturer@ + seq![' '] + device.product@);
    let v = chars_of(name.as_str());
    let (a, b) = trim_bounds(&v);
    if a == b {
        owned("unnamed device")
    } else {
        string_from(&v, a, b)
    }
}

/// `{:04x}` of a 16-bit id.
pub open spec fn hex4(v: u16) -> Seq<char> {
    seq![
        digit_char(v as int / 4096),
        digit_char((v as int / 256) % 16),
        digit_char((v as int / 16) % 16),
        digit_char(v as int % 16),
    ]
}

fn push_hex4(s: &mut String, v: u16)
    ensures
        final(s)@ == old(s)@ + hex4(v),
{
    push_char(s, digit((v / 4096) as u8));
    push_char(s, digit(((v / 256) % 16) as u8));
    push_char(s, digit(((v / 16) % 16) as u8));
    push_char(s, digit((v % 16) as u8));
    assert(s@ =~= old(s)@ + hex4(v));
}

pub open spec fn report_text(r: (u8, u32)) -> Seq<char> {
    "feature report 0x"@ + hex2(r.0) + ", "@ + dec(r.1 as nat) + " data bytes"@
}

pub open spec fn join_reports(s: Seq<(u8, u32)>) -> Seq<char>
    decreases s.len(),
{
    if s.len() == 0 {
        Seq::empty()
    } else if s.len() == 1 {
        report_text(s[0])
    } else {
        join_reports(s.drop_last()) + "; "@ + report_text(s.last())
    }
}

/// What one interface declares, or why it could not be read.
pub open spec fn interface_what(i: InterfaceModel) -> Seq<char> {
    match i.error {
        Some(e) => "unreadable ("@ + e + ")"@,
        None => if i.feature_reports.len() == 0 {
            "no feature reports"@
        } else {
            join_reports(i.feature_reports)
        },
    }
}

/// The line `lumen probe` prints for one interface. hidapi reports -1 for
/// anything with no USB interface number of its own, a Bluetooth peripheral
/// for instance.
pub open spec fn interface_line_spec(i: InterfaceModel) -> Seq<char> {
    if i.interface < 0 {
        "  no interface number: "@ + interface_what(i)
    } else {
        "  interface "@ + dec(i.interface as nat) + ": "@ + interface_what(i)
    }
}

pub fn interface_line(i: &ProbedInterface) -> (s: String)
    ensures
        s@ == interface_line_spec(i@),
{
    let mut s = String::new();
    if i.interface < 0 {
        push_str(&mut s, "  no interface number: ");
    } else {
        push_str(&mut s, "  interface ");
        push_dec(&mut s, i.interface as u128, 0);
        assert(zero_pad(dec(i.interface as nat), 0) == dec(i.interface as nat));
        push_str(&mut s, ": ");
    }
    let ghost head = s@;
    match &i.error {
        Some(e) => {
            push_str(&mut s, "unreadable (");
            push_str(&mut s, e.as_str());
            push_str(&mut s, ")");
        },
        None => {
            if i.feature_reports.len() == 0 {
                push_str(&mut s, "no feature reports");
            } else {
                let mut k: usize = 0;
                while k < i.feature_reports.len()
                    invariant
                        k <= i.feature_reports@.len(),
                        i.feature_reports@.len() > 0,
                        s@ == head + join_reports(i.feature_reports@.take(k as int)),
                    decreases i.feature_reports@.len() - k,
                {
                    let r = i.feature_reports[k];
                    let ghost before = s@;
                    if k > 0 {
                        push_str(&mut s, "; ");
                    }
                    push_str(&mut s, "feature report 0x");
                    push_hex2(&mut s, r.0);
                    push_str(&mut s, ", ");
                    push_dec(&mut s, r.1 as u128, 0);
                    assert(zero_pad(dec(r.1 as nat), 0) == dec(r.1 as nat));
                    push_str(&mut s, " data bytes");
                    proof {
                        let t = i.feature_reports@.take(k + 1);
                        assert(t.drop_last() =~= i.feature_reports@.take(k as int));
                        assert(t.last() == r);
                        if k == 0 {
                            assert(join_reports(i.feature_reports@.take(0)) =~= Seq::<
                                char,
                            >::empty());
                            assert(s@ =~= head + join_reports(t));
                        } else {
                            assert(s@ =~= head + join_reports(t));
                        }
                    }
                    k = k + 1;
                }
                assert(i.feature_reports@.take(i.feature_reports@.len() as int)
                    =~= i.feature_reports@);
            }
        },
    }
    assert(s@ =~= interface_line_spec(i@));
    s
}

/// How a probed device relates to the registry.
pub open spec fn known_spec(entry: Option<DeviceSpec>) -> Seq<char> {
    match entry {
        Some(d) => "in the registry as `"@ + d.id@ + "`, driver `"@ + d.driver@ + "`"@,
        None => "not in the registry"@,
    }
}

/// The first line `lumen probe` prints for a device: its USB id, what it
/// calls itself, and whether the registry knows it.
pub open spec fn header_spec(d: ProbeModel, entry: Option<DeviceSpec>) -> Seq<char> {
    hex4(d.vendor_id) + ":"@ + hex4(d.product_id) + "  "@ + describe_spec(
        d.manufacturer,
        d.product,
    ) + "  -- "@ + known_spec(entry)
}

pub fn header_line(device: &ProbedDevice, registry: &Registry) -> (s: String)
    ensures
        s@ == header_spec(device@, find_usb(registry@, device.vendor_id, device.product_id)),
{
    let mut s = String::new();
    push_hex4(&mut s, device.vendor_id);
    push_str(&mut s, ":");
    push_hex4(&mut s, device.product_id);
    push_str(&mut s, "  ");
    let name = describe(device);
    push_str(&mut s, name.as_str());
    push_str(&mut s, "  -- ");
    let ghost head = s@;
    match registry.by_usb_id(device.vendor_id, device.product_id) {
        Some(spec) => {
            push_str(&mut s, "in the registry as `");
            push_str(&mut s, spec.id.as_str());
            push_str(&mut s, "`, driver `");
            push_str(&mut s, spec.driver.as_str());
            push_str(&mut s, "`");
        },
        None => {
            push_str(&mut s, "not in the registry");
        },
    }
    assert(s@ =~= header_spec(
        device@,
        find_usb(registry@, device.vendor_id, device.product_id),
    ));
    s
}

// ---------------------------------------------------------------------------
// Grouping the HID list by device
// ---------------------------------------------------------------------------

/// One readable entry of the HID list: the device it belongs to and what its
/// interface declared.
#[derive(Debug)]
pub struct ScanEntry {
    pub vendor_id: u16,
    pub product_id: u16,
    pub product: String,
    pub manufacturer: String,
    pub interface: ProbedInterface,
}

pub struct EntryModel {
    pub vendor_id: u16,
    pub product_id: u16,
    pub product: Seq<char>,
    pub manufacturer: Seq<char>,
    pub interface: InterfaceModel,
}

impl View for ScanEntry {
    type V = EntryModel;

    open spec fn view(&self) -> EntryModel {
        EntryModel {
            vendor_id: self.vendor_id,
            product_id: self.product_id,
            product: self.product@,
            manufacturer: self.manufacturer@,
            interface: self.interface@,
        }
    }
}

pub open spec fn key_below(a: (u16, u16), b: (u16, u16)) -> bool {
    a.0 < b.0 || (a.0 == b.0 && a.1 < b.1)
}

pub open spec fn key_of(d: ProbeModel) -> (u16, u16) {
    (d.vendor_id, d.product_id)
}

/// The first device at or after `j` with USB id `key`, or `devs.len()`.
pub open spec fn find_key(devs: Seq<ProbeModel>, key: (u16, u16), j: int) -> int
    decreases devs.len() - j,
{
    if j < 0 || j >= devs.len() {
        devs.len() as int
    } else if key_of(devs[j]) == key {
        j
    } else {
        find_key(devs, key, j + 1)
    }
}

/// The first device at or after `j` whose USB id is not below `key`, or
/// `devs.len()`: where a new device with that id goes.
pub open spec fn key_slot(devs: Seq<ProbeModel>, key: (u16, u16), j: int) -> int
    decreases devs.len() - j,
{
    if j < 0 || j >= devs.len() {
        devs.len() as int
    } else if !key_below(key_of(devs[j]), key) {
        j
    } else {
        key_slot(devs, key, j + 1)
    }
}

/// One HID entry filed under its device: appended to the interfaces of the
/// device with its USB id, or a new device, named by this entry, in USB-id
/// order.
pub open spec fn add_entry(devs: Seq<ProbeModel>, e: EntryModel) -> Seq<ProbeModel> {
    let key = (e.vendor_id, e.product_id);
    let k = find_key(devs, key, 0);
    if k < devs.len() {
        devs.update(
            k,
            ProbeModel { interfaces: devs[k].interfaces.push(e.interface), ..devs[k] },
        )
    } else {
        devs.insert(
            key_slot(devs, key, 0),
            ProbeModel {
                vendor_id: e.vendor_id,
                product_id: e.product_id,
                product: e.product,
                manufacturer: e.manufacturer,
                interfaces: seq![e.interface],
            },
        )
    }
}

pub open spec fn group_spec(entries: Seq<EntryModel>) -> Seq<ProbeModel>
    decreases entries.len(),
{
    if entries.len() == 0 {
        Seq::empty()
    } else {
        add_entry(group_spec(entries.drop_last()), entries.last())
    }
}

/// The first interface of `sorted` numbered above `n`, or its length.
pub open spec fn after_number(sorted: Seq<InterfaceModel>, n: i32, j: int) -> int
    decreases sorted.len() - j,
{
    if j < 0 || j >= sorted.len() {
        sorted.len() as int
    } else if sorted[j].interface > n {
        j
    } else {
        after_number(sorted, n, j + 1)
    }
}

/// Interfaces in interface-number order, equal numbers kept in the order
/// they came (a stable sort).
pub open spec fn sort_interfaces(s: Seq<InterfaceModel>) -> Seq<InterfaceModel>
    decreases s.len(),
{
    if s.len() == 0 {
        Seq::empty()
    } else {
        let rest = sort_interfaces(s.drop_last());
        rest.insert(after_number(rest, s.last().interface, 0), s.last())
    }
}

pub open spec fn with_sorted_interfaces(d: ProbeModel) -> ProbeModel {
    ProbeModel { interfaces: sort_interfaces(d.interfaces), ..d }
}

/// Every attached device once, in USB-id order, named by its first entry,
/// with its interfaces in interface-number order.
pub open spec fn scan_spec(entries: Seq<EntryModel>) -> Seq<ProbeModel> {
    group_spec(entries).map_values(|d: ProbeModel| with_sorted_interfaces(d))
}

pub open spec fn probes_view(s: Seq<ProbedDevice>) -> Seq<ProbeModel> {
    s.map_values(|d: ProbedDevice| d@)
}

pub open spec fn entries_view(s: Seq<ScanEntry>) -> Seq<EntryModel> {
    s.map_values(|e: ScanEntry| e@)
}

proof fn lemma_find_key(devs: Seq<ProbeModel>, key: (u16, u16), j: int)
    requires
        0 <= j <= devs.len(),
    ensures
        j <= find_key(devs, key, j) <= devs.len(),
        find_key(devs, key, j) < devs.len() ==> key_of(devs[find_key(devs, key, j)]) == key,
        forall|k: int| j <= k < find_key(devs, key, j) ==> key_of(#[trigger] devs[k]) != key,
    decreases devs.len() - j,
{
    if j < devs.len() && key_of(devs[j]) != key {
        lemma_find_key(devs, key, j + 1);
    }
}

proof fn lemma_key_slot(devs: Seq<ProbeModel>, key: (u16, u16), j: int)
    requires
        0 <= j <= devs.len(),
    ensures
        j <= key_slot(devs, key, j) <= devs.len(),
        key_slot(devs, key, j) < devs.len() ==> !key_below(key_of(devs[key_slot(devs, key, j)]), key),
        forall|k: int| j <= k < key_slot(devs, key, j) ==> key_below(key_of(#[trigger] devs[k]), key),
    decreases devs.len() - j,
{
    if j < devs.len() && key_below(key_of(devs[j]), key) {
        lemma_key_slot(devs, key, j + 1);
    }
}

proof fn lemma_after_number(sorted: Seq<InterfaceModel>, n: i32, j: int)
    requires
        0 <= j <= sorted.len(),
    ensures
        j <= after_number(sorted, n, j) <= sorted.len(),
        after_number(sorted, n, j) < sorted.len() ==> sorted[after_number(sorted, n, j)].interface > n,
        forall|k: int| j <= k < after_number(sorted, n, j) ==> (#[trigger] sorted[k]).interface <= n,
    decreases sorted.len() - j,
{
    if j < sorted.len() && sorted[j].interface <= n {
        lemma_after_number(sorted, n, j + 1);
    }
}

/// Stable insertion sort by interface number.
fn sort_by_interface(v: Vec<ProbedInterface>) -> (r: Vec<ProbedInterface>)
    ensures
        interfaces_view(r@) == sort_interfaces(interfaces_view(v@)),
{
    let ghost all = interfaces_view(v@);
    let mut rest = v;
    let mut out: Vec<ProbedInterface> = Vec::new();
    let ghost mut i: int = 0;
    assert(all.take(0) =~= Seq::<InterfaceModel>::empty());
    assert(interfaces_view(out@) =~= Seq::<InterfaceModel>::empty());
    while rest.len() > 0
        invariant
            0 <= i <= all.len(),
            i + rest@.len() == all.len(),
            interfaces_view(rest@) == all.skip(i),
            interfaces_view(out@) == sort_interfaces(all.take(i)),
        decreases rest@.len(),
    {
        let ghost rest0 = rest@;
        let x = rest.remove(0);
        let ghost xv = x@;
        let ghost sorted = interfaces_view(out@);
        proof {
            assert(interfaces_view(rest0)[0] == xv);
            assert(all[i] == xv);
            assert(rest@ =~= rest0.drop_first());
            assert(interfaces_view(rest@) =~= interfaces_view(rest0).drop_first());
            assert(all.skip(i).drop_first() =~= all.skip(i + 1));
            assert(interfaces_view(rest@) =~= all.skip(i + 1));
            assert(all.take(i + 1).drop_last() =~= all.take(i));
            assert(all.take(i + 1).last() == xv);
        }
        let mut p: usize = 0;
        while p < out.len() && out[p].interface <= x.interface
            invariant
                p <= out@.len(),
                interfaces_view(out@) == sorted,
                xv == x@,
                forall|k: int| 0 <= k < p ==> (#[trigger] sorted[k]).interface <= xv.interface,
            decreases out@.len() - p,
        {
            assert(sorted[p as int] == out@[p as int]@);
            p = p + 1;
        }
        proof {
            lemma_after_number(sorted, xv.interface, 0);
            if p < out.len() {
                assert(sorted[p as int] == out@[p as int]@);
            }
            let q = after_number(sorted, xv.interface, 0);
            if q < p {
                assert(sorted[q].interface <= xv.interface);
            }
            if p < q {
                assert(sorted[p as int].interface <= xv.interface);
            }
            assert(q == p);
        }
        let ghost before = out@;
        out.insert(p, x);
        proof {
            assert(out@ =~= before.insert(p as int, x));
            assert(interfaces_view(out@) =~= sorted.insert(p as int, xv));
            i = i + 1;
        }
    }
    assert(all.take(all.len() as int) =~= all);
    out
}

/// Whether each path of the HID list is the first with its text: several HID
/// entries can share one interface path, and each is read once. Each path is
/// compared with the ones before it rather than looked up in a set of
/// strings, so that the result is stated for every path.
pub fn first_occurrences(paths: &[String]) -> (r: Vec<bool>)
    ensures
        r@.len() == paths@.len(),
        forall|i: int|
            0 <= i < r@.len() ==> (#[trigger] r@[i] <==> forall|j: int|
                0 <= j < i ==> paths@[j]@ != paths@[i]@),
{
    let mut out: Vec<bool> = Vec::new();
    let mut i: usize = 0;
    while i < paths.len()
        invariant
            i <= paths@.len(),
            out@.len() == i,
            forall|a: int|
                0 <= a < i ==> (#[trigger] out@[a] <==> forall|j: int|
                    0 <= j < a ==> paths@[j]@ != paths@[a]@),
        decreases paths@.len() - i,
    {
        let mut first = true;
        let mut j: usize = 0;
        while j < i
            invariant
                j <= i < paths@.len(),
                first == forall|k: int| 0 <= k < j ==> paths@[k]@ != paths@[i as int]@,
            decreases i - j,
        {
            if str_eq(paths[j].as_str(), paths[i].as_str()) {
                first = false;
            }
            j = j + 1;
        }
        out.push(first);
        i = i + 1;
    }
    out
}

/// Every attached device with the interfaces each exposes, from the readable
/// entries of the HID list in list order; `None` when the list is empty.
/// Devices are keyed by USB id, because one device shows up in the HID list
/// once per interface. They are kept in a vector sorted by that key rather
/// than in a map, so that `scan_spec` can say in which order they come out.
pub fn group_devices(entries: Vec<ScanEntry>) -> (r: Option<Vec<ProbedDevice>>)
    ensures
        r is None <==> entries@.len() == 0,
        r matches Some(v) ==> probes_view(v@) == scan_spec(entries_view(entries@)),
{
    let ghost all = entries_view(entries@);
    if entries.len() == 0 {
        return None;
    }
    let mut rest = entries;
    let mut devs: Vec<ProbedDevice> = Vec::new();
    let ghost mut i: int = 0;
    assert(all.take(0) =~= Seq::<EntryModel>::empty());
    assert(probes_view(devs@) =~= Seq::<ProbeModel>::empty());
    while rest.len() > 0
        invariant
            0 <= i <= all.len(),
            i + rest@.len() == all.len(),
            entries_view(rest@) == all.skip(i),
            probes_view(devs@) == group_spec(all.take(i)),
        decreases rest@.len(),
    {
        let ghost rest0 = rest@;
        let e = rest.remove(0);
        let ghost ev = e@;
        let ghost before = probes_view(devs@);
        proof {
            assert(entries_view(rest0)[0] == ev);
            assert(all[i] == ev);
            assert(rest@ =~= rest0.drop_first());
            assert(entries_view(rest@) =~= entries_view(rest0).drop_first());
            assert(all.skip(i).drop_first() =~= all.skip(i + 1));
            assert(entries_view(rest@) =~= all.skip(i + 1));
            assert(all.take(i + 1).drop_last() =~= all.take(i));
            assert(all.take(i + 1).last() == ev);
        }
        let ghost key = (e.vendor_id, e.product_id);
        let mut k: usize = 0;
        while k < devs.len() && !(devs[k].vendor_id == e.vendor_id && devs[k].product_id
            == e.product_id)
            invariant
                k <= devs@.len(),
                probes_view(devs@) == before,
                key == (e.vendor_id, e.product_id),
                forall|a: int| 0 <= a < k ==> key_of(#[trigger] before[a]) != key,
            decreases devs@.len() - k,
        {
            assert(before[k as int] == devs@[k as int]@);
            k = k + 1;
        }
        proof {
            lemma_find_key(before, key, 0);
            let f = find_key(before, key, 0);
            if k < devs.len() {
                assert(before[k as int] == devs@[k as int]@);
            }
            if f < k {
                assert(key_of(before[f]) != key);
            }
            if k < f {
                assert(key_of(before[k as int]) != key);
            }
            assert(f == k);
        }
        if k < devs.len() {
            let mut d = devs.remove(k);
            let ghost dv = d@;
            d.interfaces.push(e.interface);
            proof {
                assert(interfaces_view(d.interfaces@) =~= dv.interfaces.push(ev.interface));
            }
            devs.insert(k, d);
            proof {
                assert(probes_view(devs@) =~= before.update(
                    k as int,
                    ProbeModel { interfaces: dv.interfaces.push(ev.interface), ..dv },
                ));
            }
        } else {
            let mut p: usize = 0;
            while p < devs.len() && (devs[p].vendor_id < e.vendor_id || (devs[p].vendor_id
                == e.vendor_id && devs[p].product_id < e.product_id))
                invariant
                    p <= devs@.len(),
                    probes_view(devs@) == before,
                    key == (e.vendor_id, e.product_id),
                    forall|a: int| 0 <= a < p ==> key_below(key_of(#[trigger] before[a]), key),
                decreases devs@.len() - p,
            {
                assert(before[p as int] == devs@[p as int]@);
                p = p + 1;
            }
            proof {
                lemma_key_slot(before, key, 0);
                let q = key_slot(before, key, 0);
                if p < devs.len() {
                    assert(before[p as int] == devs@[p as int]@);
                }
                if q < p {
                    assert(key_below(key_of(before[q]), key));
                }
                if p < q {
                    assert(key_below(key_of(before[p as int]), key));
                }
                assert(q == p);
            }
            let mut interfaces: Vec<ProbedInterface> = Vec::new();
            interfaces.push(e.interface);
            let d = ProbedDevice {
                vendor_id: e.vendor_id,
                product_id: e.product_id,
                product: e.product,
                manufacturer: e.manufacturer,
                interfaces,
            };
            let ghost dv = d@;
            assert(dv.interfaces =~= seq![ev.interface]);
            let ghost devs0 = devs@;
            devs.insert(p, d);
            proof {
                assert(devs@ =~= devs0.insert(p as int, d));
                assert(probes_view(devs@) =~= before.insert(p as int, dv));
            }
        }
        proof {
            i = i + 1;
        }
    }
    assert(all.take(all.len() as int) =~= all);
    let ghost grouped = probes_view(devs@);
    let mut sorted: Vec<ProbedDevice> = Vec::new();
    while devs.len() > 0
        invariant
            sorted@.len() + devs@.len() == grouped.len(),
            probes_view(devs@) == grouped.skip(sorted@.len() as int),
            probes_view(sorted@) == grouped.take(sorted@.len() as int).map_values(
                |d: ProbeModel| with_sorted_interfaces(d),
            ),
        decreases devs@.len(),
    {
        let ghost devs0 = devs@;
        let ghost n = sorted@.len() as int;
        let d = devs.remove(0);
        let ghost dv = d@;
        proof {
            assert(probes_view(devs0)[0] == dv);
            assert(grouped[n] == dv);
            assert(devs@ =~= devs0.drop_first());
            assert(probes_view(devs@) =~= probes_view(devs0).drop_first());
            assert(grouped.skip(n).drop_first() =~= grouped.skip(n + 1));
            assert(probes_view(devs@) =~= grouped.skip(n + 1));
        }
        let ProbedDevice { vendor_id, product_id, product, manufacturer, interfaces } = d;
        let interfaces = sort_by_interface(interfaces);
        let ghost before = sorted@;
        let nd = ProbedDevice { vendor_id, product_id, product, manufacturer, interfaces };
        sorted.push(nd);
        proof {
            assert(nd@ == with_sorted_interfaces(dv));
            assert(sorted@ =~= before.push(nd));
            assert(grouped.take(n + 1) =~= grouped.take(n).push(dv));
            assert(probes_view(sorted@) =~= probes_view(before).push(nd@));
            assert(grouped.take(n + 1).map_values(|d: ProbeModel| with_sorted_interfaces(d))
                =~= grouped.take(n).map_values(|d: ProbeModel| with_sorted_interfaces(d)).push(
                with_sorted_interfaces(dv),
            ));
            assert(probes_view(sorted@) =~= grouped.take(n + 1).map_values(
                |d: ProbeModel| with_sorted_interfaces(d),
            ));
        }
    }
    assert(grouped.take(grouped.len() as int) =~= grouped);
    Some(sorted)
}


/// A USB id as `lumen probe` prints it, with `0x` in front, reads back as the
/// same id in a registry entry: what probe shows is what the registry takes.
pub proof fn lemma_probe_ids_read_back(v: u16)
    ensures
        usb_id_spec("0x"@ + hex4(v)) == Ok::<u16, UsbIdFault>(v),
{
    reveal_strlit("0x");
    let d0 = v as int / 4096;
    let d1 = (v as int / 256) % 16;
    let d2 = (v as int / 16) % 16;
    let d3 = v as int % 16;
    lemma_digit_roundtrip(d0);
    lemma_digit_roundtrip(d1);
    lemma_digit_roundtrip(d2);
    lemma_digit_roundtrip(d3);
    let s = "0x"@ + hex4(v);
    assert(s.len() == 6);
    assert(!is_whitespace(s[0]) && !is_whitespace(s.last()));
    assert(trim_start(s) == s);
    assert(trim_end(s) == s);
    let h = s.skip(2);
    assert(h =~= hex4(v));
    assert(v / 256 == (v / 4096) * 16 + (v / 256) % 16) by (bit_vector);
    assert(v / 16 == (v / 256) * 16 + (v / 16) % 16) by (bit_vector);
    assert(v == (v / 16) * 16 + v % 16) by (bit_vector);
    let a1 = d0;
    let a2 = v as int / 256;
    let a3 = v as int / 16;
    assert(digits_from(h, 16, 0xffff, 3, a3 as nat) == Ok::<nat, crate::number::IntErrorKind>(v as nat)) by {
        assert(digits_from(h, 16, 0xffff, 4, v as nat) == Ok::<nat, crate::number::IntErrorKind>(v as nat));
    }
    assert(digits_from(h, 16, 0xffff, 2, a2 as nat) == digits_from(h, 16, 0xffff, 3, a3 as nat));
    assert(digits_from(h, 16, 0xffff, 1, a1 as nat) == digits_from(h, 16, 0xffff, 2, a2 as nat));
    assert(digits_from(h, 16, 0xffff, 0, 0) == digits_from(h, 16, 0xffff, 1, a1 as nat));
}


// ---------------------------------------------------------------------------
// What grouping keeps
// ---------------------------------------------------------------------------

/// USB ids strictly increasing: each device once, in order.
pub open spec fn keys_ascending(devs: Seq<ProbeModel>) -> bool {
    forall|a: int, b: int| 0 <= a < b < devs.len() ==> key_below(key_of(#[trigger] devs[a]), key_of(#[trigger] devs[b]))
}

/// Interfaces in interface-number order.
pub open spec fn numbers_ascending(s: Seq<InterfaceModel>) -> bool {
    forall|a: int, b: int| 0 <= a < b < s.len() ==> (#[trigger] s[a]).interface <= (#[trigger] s[b]).interface
}

pub open spec fn has_key(devs: Seq<ProbeModel>, key: (u16, u16)) -> bool {
    exists|k: int| 0 <= k < devs.len() && key_of(#[trigger] devs[k]) == key
}

/// How many interfaces the devices hold between them.
pub open spec fn interface_count(devs: Seq<ProbeModel>) -> nat
    decreases devs.len(),
{
    if devs.len() == 0 {
        0
    } else {
        interface_count(devs.drop_last()) + devs.last().interfaces.len()
    }
}

proof fn lemma_count_update(devs: Seq<ProbeModel>, k: int, d: ProbeModel)
    requires
        0 <= k < devs.len(),
    ensures
        interface_count(devs.update(k, d)) + devs[k].interfaces.len() == interface_count(devs)
            + d.interfaces.len(),
    decreases devs.len(),
{
    let u = devs.update(k, d);
    if k < devs.len() - 1 {
        assert(u.drop_last() =~= devs.drop_last().update(k, d));
        lemma_count_update(devs.drop_last(), k, d);
    } else {
        assert(u.drop_last() =~= devs.drop_last());
    }
}

proof fn lemma_count_insert(devs: Seq<ProbeModel>, k: int, d: ProbeModel)
    requires
        0 <= k <= devs.len(),
    ensures
        interface_count(devs.insert(k, d)) == interface_count(devs) + d.interfaces.len(),
    decreases devs.len(),
{
    let u = devs.insert(k, d);
    if k < devs.len() {
        assert(u.drop_last() =~= devs.drop_last().insert(k, d));
        assert(u.last() == devs.last());
        lemma_count_insert(devs.drop_last(), k, d);
    } else {
        assert(u.drop_last() =~= devs);
    }
}

proof fn lemma_add_entry_keeps(devs: Seq<ProbeModel>, e: EntryModel)
    requires
        keys_ascending(devs),
    ensures
        keys_ascending(add_entry(devs, e)),
        has_key(add_entry(devs, e), (e.vendor_id, e.product_id)),
        forall|key: (u16, u16)| has_key(devs, key) ==> has_key(add_entry(devs, e), key),
        interface_count(add_entry(devs, e)) == interface_count(devs) + 1,
{
    let key = (e.vendor_id, e.product_id);
    lemma_find_key(devs, key, 0);
    lemma_key_slot(devs, key, 0);
    let k = find_key(devs, key, 0);
    let r = add_entry(devs, e);
    if k < devs.len() {
        let d = ProbeModel { interfaces: devs[k].interfaces.push(e.interface), ..devs[k] };
        assert(r == devs.update(k, d));
        assert forall|a: int| 0 <= a < r.len() implies key_of(#[trigger] r[a]) == key_of(devs[a]) by {}
        assert(key_of(r[k]) == key);
        assert forall|key2: (u16, u16)| has_key(devs, key2) implies has_key(r, key2) by {
            let j = choose|j: int| 0 <= j < devs.len() && key_of(#[trigger] devs[j]) == key2;
            assert(key_of(r[j]) == key2);
        }
        lemma_count_update(devs, k, d);
    } else {
        let slot = key_slot(devs, key, 0);
        let d = ProbeModel {
            vendor_id: e.vendor_id,
            product_id: e.product_id,
            product: e.product,
            manufacturer: e.manufacturer,
            interfaces: seq![e.interface],
        };
        assert(r == devs.insert(slot, d));
        assert(key_of(r[slot]) == key);
        assert forall|a: int, b: int| 0 <= a < b < r.len() implies key_below(
            key_of(#[trigger] r[a]),
            key_of(#[trigger] r[b]),
        ) by {
            if b < slot {
                assert(r[a] == devs[a] && r[b] == devs[b]);
            } else if b == slot {
                assert(r[a] == devs[a]);
            } else if a == slot {
                assert(r[b] == devs[b - 1]);
                if b - 1 > slot {
                    assert(key_below(key_of(devs[slot]), key_of(devs[b - 1])));
                }
                assert(key_of(devs[slot]) != key);
            } else if a < slot {
                assert(r[a] == devs[a] && r[b] == devs[b - 1]);
            } else {
                assert(r[a] == devs[a - 1] && r[b] == devs[b - 1]);
            }
        }
        assert forall|key2: (u16, u16)| has_key(devs, key2) implies has_key(r, key2) by {
            let j = choose|j: int| 0 <= j < devs.len() && key_of(#[trigger] devs[j]) == key2;
            if j < slot {
                assert(key_of(r[j]) == key2);
            } else {
                assert(r[j + 1] == devs[j]);
            }
        }
        lemma_count_insert(devs, slot, d);
    }
}

proof fn lemma_group_keeps(entries: Seq<EntryModel>)
    ensures
        keys_ascending(group_spec(entries)),
        forall|i: int|
            0 <= i < entries.len() ==> has_key(
                group_spec(entries),
                (#[trigger] entries[i].vendor_id, entries[i].product_id),
            ),
        interface_count(group_spec(entries)) == entries.len(),
    decreases entries.len(),
{
    if entries.len() > 0 {
        let rest = entries.drop_last();
        lemma_group_keeps(rest);
        lemma_add_entry_keeps(group_spec(rest), entries.last());
        assert forall|i: int| 0 <= i < entries.len() implies has_key(
            group_spec(entries),
            (#[trigger] entries[i].vendor_id, entries[i].product_id),
        ) by {
            if i < rest.len() {
                assert(rest[i] == entries[i]);
            }
        }
    }
}

proof fn lemma_sort_interfaces(s: Seq<InterfaceModel>)
    ensures
        sort_interfaces(s).len() == s.len(),
        numbers_ascending(sort_interfaces(s)),
    decreases s.len(),
{
    if s.len() > 0 {
        let rest = sort_interfaces(s.drop_last());
        lemma_sort_interfaces(s.drop_last());
        let x = s.last();
        lemma_after_number(rest, x.interface, 0);
        let q = after_number(rest, x.interface, 0);
        let r = rest.insert(q, x);
        assert forall|a: int, b: int| 0 <= a < b < r.len() implies (#[trigger] r[a]).interface <= (
        #[trigger] r[b]).interface by {
            if b < q {
                assert(r[a] == rest[a] && r[b] == rest[b]);
            } else if b == q {
                assert(r[a] == rest[a]);
            } else if a == q {
                assert(r[b] == rest[b - 1]);
                assert(rest[q].interface > x.interface);
            } else if a < q {
                assert(r[a] == rest[a] && r[b] == rest[b - 1]);
            } else {
                assert(r[a] == rest[a - 1] && r[b] == rest[b - 1]);
            }
        }
    }
}

proof fn lemma_count_sorted(g: Seq<ProbeModel>)
    ensures
        interface_count(g.map_values(|d: ProbeModel| with_sorted_interfaces(d))) == interface_count(g),
    decreases g.len(),
{
    if g.len() > 0 {
        let m = g.map_values(|d: ProbeModel| with_sorted_interfaces(d));
        assert(m.drop_last() =~= g.drop_last().map_values(|d: ProbeModel| with_sorted_interfaces(d)));
        lemma_count_sorted(g.drop_last());
        lemma_sort_interfaces(g.last().interfaces);
    }
}

/// `lumen probe` shows each attached device once, in USB-id order, with its
/// interfaces in interface-number order, and loses nothing: every readable
/// entry of the HID list is filed under the device with its USB id, and the
/// devices hold as many interfaces between them as there were entries.
pub proof fn lemma_probe_files_every_entry_once(entries: Seq<EntryModel>)
    ensures
        keys_ascending(scan_spec(entries)),
        forall|k: int|
            0 <= k < scan_spec(entries).len() ==> numbers_ascending(
                (#[trigger] scan_spec(entries)[k]).interfaces,
            ),
        forall|i: int|
            0 <= i < entries.len() ==> has_key(
                scan_spec(entries),
                (#[trigger] entries[i].vendor_id, entries[i].product_id),
            ),
        interface_count(scan_spec(entries)) == entries.len(),
{
    let g = group_spec(entries);
    let m = scan_spec(entries);
    lemma_group_keeps(entries);
    lemma_count_sorted(g);
    assert forall|k: int| 0 <= k < m.len() implies numbers_ascending((#[trigger] m[k]).interfaces) by {
        lemma_sort_interfaces(g[k].interfaces);
    }
    assert forall|a: int| 0 <= a < m.len() implies key_of(#[trigger] m[a]) == key_of(g[a]) by {}
    assert forall|i: int| 0 <= i < entries.len() implies has_key(
        m,
        (#[trigger] entries[i].vendor_id, entries[i].product_id),
    ) by {
        let key = (entries[i].vendor_id, entries[i].product_id);
        assert(has_key(g, key));
        let k = choose|k: int| 0 <= k < g.len() && key_of(#[trigger] g[k]) == key;
        assert(key_of(m[k]) == key);
    }
}

} // verus!
