//! The decisions around opening HID devices: which USB ids are attached,
//! which registry entries that makes present, which interfaces to try and in
//! what order, which feature report is the control report, and what to say
//! when no interface will do.
//!
//! One macOS HID "path" is one USB interface, and which interface carries a
//! device's control report is a per-device fact, not a convention. The control
//! interface is therefore found by reading each interface's report descriptor
//! and picking the one that declares the feature report the driver expects.
use crate::device::DeviceSpec;
use crate::text::{chars_of, dec, pad_int, push_dec, push_int, push_str};
use vstd::prelude::*;

verus! {

// ---------------------------------------------------------------------------
// USB ids
// ---------------------------------------------------------------------------

pub open spec fn usb_less(a: (u16, u16), b: (u16, u16)) -> bool {
    a.0 < b.0 || (a.0 == b.0 && a.1 < b.1)
}

/// Strictly increasing, so sorted with nothing twice.
pub open spec fn strictly_sorted_usb(s: Seq<(u16, u16)>) -> bool {
    forall|i: int, j: int| 0 <= i < j < s.len() ==> usb_less(#[trigger] s[i], #[trigger] s[j])
}

/// The USB ids seen, each once, in increasing order; `None` when none are
/// visible at all, which is a different problem from "your device is
/// unplugged" (no grant to list, or another process holding them).
pub fn sorted_usb_ids(ids: &[(u16, u16)]) -> (r: Option<Vec<(u16, u16)>>)
    ensures
        r is None <==> ids@.len() == 0,
        r matches Some(v) ==> strictly_sorted_usb(v@) && v@.to_set() == ids@.to_set(),
{
    if ids.len() == 0 {
        return None;
    }
    let mut out: Vec<(u16, u16)> = Vec::new();
    let mut i: usize = 0;
    while i < ids.len()
        invariant
            i <= ids@.len(),
            strictly_sorted_usb(out@),
            out@.to_set() == ids@.take(i as int).to_set(),
        decreases ids@.len() - i,
    {
        let id = ids[i];
        let ghost before = out@;
        // First position whose id is not below `id`.
        let mut p: usize = 0;
        while p < out.len() && (out[p].0 < id.0 || (out[p].0 == id.0 && out[p].1 < id.1))
            invariant
                p <= out@.len(),
                out@ == before,
                forall|k: int| 0 <= k < p ==> usb_less(#[trigger] out@[k], id),
            decreases out@.len() - p,
        {
            p = p + 1;
        }
        proof {
            assert(ids@.take(i + 1) =~= ids@.take(i as int).push(id));
            ids@.take(i as int).lemma_push_to_set_commute(id);
            assert(ids@.take(i + 1).to_set() =~= ids@.take(i as int).to_set().insert(id));
        }
        if p < out.len() && out[p].0 == id.0 && out[p].1 == id.1 {
            assert(out@.to_set() =~= out@.to_set().insert(id)) by {
                assert(out@.contains(id));
            }
        } else {
            out.insert(p, id);
            proof {
                assert forall|a: int, b: int| 0 <= a < b < out@.len() implies usb_less(
                    #[trigger] out@[a],
                    #[trigger] out@[b],
                ) by {
                    if b < p as int {
                        assert(out@[a] == before[a] && out@[b] == before[b]);
                    } else if b == p as int {
                        assert(out@[a] == before[a]);
                    } else if a == p as int {
                        assert(out@[b] == before[b - 1]);
                        assert(!usb_less(before[b - 1], id) || b - 1 < p);
                    } else if a < p as int {
                        assert(out@[a] == before[a] && out@[b] == before[b - 1]);
                    } else {
                        assert(out@[a] == before[a - 1] && out@[b] == before[b - 1]);
                    }
                }
                assert(out@ =~= before.insert(p as int, id));
                assert(out@.to_set() =~= before.to_set().insert(id)) by {
                    assert forall|x: (u16, u16)| out@.contains(x) implies before.to_set().insert(
                        x,
                    ).contains(x) by {}
                    assert forall|x: (u16, u16)| #[trigger] before.to_set().insert(id).contains(x) implies out@.contains(x) by {
                        if x == id {
                            assert(out@[p as int] == id);
                        } else {
                            let k = choose|k: int| 0 <= k < before.len() && before[k] == x;
                            if k < p {
                                assert(out@[k] == x);
                            } else {
                                assert(out@[k + 1] == x);
                            }
                        }
                    }
                    assert forall|x: (u16, u16)| #[trigger] out@.contains(x) implies before.to_set().insert(id).contains(x) by {
                        let k = choose|k: int| 0 <= k < out@.len() && out@[k] == x;
                        if k < p {
                            assert(before[k] == x);
                        } else if k > p {
                            assert(before[k - 1] == x);
                        }
                    }
                }
            }
        }
        i = i + 1;
    }
    assert(ids@.take(ids@.len() as int) =~= ids@);
    Some(out)
}

/// Whether a USB id is among `ids`.
pub open spec fn has_usb(ids: Seq<(u16, u16)>, d: DeviceSpec) -> bool {
    ids.contains((d.vendor_id, d.product_id))
}

/// The registry entries whose USB id is attached, in registry order.
pub open spec fn present_spec(known: Seq<DeviceSpec>, ids: Seq<(u16, u16)>) -> Seq<DeviceSpec> {
    known.filter(|d: DeviceSpec| has_usb(ids, d))
}

/// Which registry entries are actually attached right now.
pub fn present_devices<'a>(known: &'a [DeviceSpec], ids: &[(u16, u16)]) -> (r: Vec<
    &'a DeviceSpec,
>)
    ensures
        r@.len() == present_spec(known@, ids@).len(),
        forall|i: int| 0 <= i < r@.len() ==> *(#[trigger] r@[i]) == present_spec(known@, ids@)[i],
{
    let mut out: Vec<&'a DeviceSpec> = Vec::new();
    let mut i: usize = 0;
    while i < known.len()
        invariant
            i <= known@.len(),
            out@.len() == known@.take(i as int).filter(|d: DeviceSpec| has_usb(ids@, d)).len(),
            forall|k: int|
                0 <= k < out@.len() ==> *(#[trigger] out@[k]) == known@.take(i as int).filter(
                    |d: DeviceSpec| has_usb(ids@, d),
                )[k],
        decreases known@.len() - i,
    {
        let d: &'a DeviceSpec = &known[i];
        let mut found = false;
        let mut j: usize = 0;
        while j < ids.len()
            invariant
                j <= ids@.len(),
                found == exists|k: int|
                    0 <= k < j && #[trigger] ids@[k] == (d.vendor_id, d.product_id),
            decreases ids@.len() - j,
        {
            if ids[j].0 == d.vendor_id && ids[j].1 == d.product_id {
                found = true;
            }
            j = j + 1;
        }
        proof {
            reveal_with_fuel(Seq::filter, 1);
            assert(known@.take(i + 1).drop_last() =~= known@.take(i as int));
            assert(found == has_usb(ids@, *d));
        }
        if found {
            out.push(d);
        }
        i = i + 1;
    }
    assert(known@.take(known@.len() as int) =~= known@);
    out
}

// ---------------------------------------------------------------------------
// Finding the control interface
// ---------------------------------------------------------------------------

/// The report id of the first feature report of `len` data bytes.
pub open spec fn control_report_spec(reports: Seq<(u8, u32)>, len: u32) -> Option<u8>
    decreases reports.len(),
{
    if reports.len() == 0 {
        None
    } else if reports[0].1 == len {
        Some(reports[0].0)
    } else {
        control_report_spec(reports.drop_first(), len)
    }
}

/// The control report is a report of exactly the asked length, the first
/// one; there is none only when no report has that length.
pub proof fn lemma_control_report_is_first_of_length(reports: Seq<(u8, u32)>, len: u32)
    ensures
        match control_report_spec(reports, len) {
            Some(id) => exists|k: int|
                0 <= k < reports.len() && #[trigger] reports[k] == (id, len) && forall|j: int|
                    0 <= j < k ==> (#[trigger] reports[j]).1 != len,
            None => forall|k: int| 0 <= k < reports.len() ==> (#[trigger] reports[k]).1 != len,
        },
    decreases reports.len(),
{
    if reports.len() > 0 {
        let rest = reports.drop_first();
        lemma_control_report_is_first_of_length(rest, len);
        if reports[0].1 == len {
            assert(reports[0] == (reports[0].0, len));
        } else {
            match control_report_spec(rest, len) {
                Some(id) => {
                    let k = choose|k: int|
                        0 <= k < rest.len() && #[trigger] rest[k] == (id, len) && forall|j: int|
                            0 <= j < k ==> (#[trigger] rest[j]).1 != len;
                    assert(reports[k + 1] == rest[k]);
                    assert forall|j: int| 0 <= j < k + 1 implies (#[trigger] reports[j]).1 != len by {
                        if j > 0 {
                            assert(reports[j] == rest[j - 1]);
                        }
                    }
                },
                None => {
                    assert forall|k: int| 0 <= k < reports.len() implies (#[trigger] reports[k]).1
                        != len by {
                        if k > 0 {
                            assert(reports[k] == rest[k - 1]);
                        }
                    }
                },
            }
        }
    }
}

/// Among the feature reports an interface declares, the control report: the
/// first with the data-byte count the device's registry entry gives.
pub fn control_report_for(reports: &[(u8, u32)], len: u32) -> (r: Option<u8>)
    ensures
        r == control_report_spec(reports@, len),
        match r {
            Some(id) => exists|k: int|
                0 <= k < reports@.len() && #[trigger] reports@[k] == (id, len) && forall|j: int|
                    0 <= j < k ==> (#[trigger] reports@[j]).1 != len,
            None => forall|k: int| 0 <= k < reports@.len() ==> (#[trigger] reports@[k]).1 != len,
        },
{
    proof {
        lemma_control_report_is_first_of_length(reports@, len);
    }
    let mut i: usize = 0;
    assert(reports@.skip(0) =~= reports@);
    while i < reports.len()
        invariant
            i <= reports@.len(),
            control_report_spec(reports@, len) == control_report_spec(reports@.skip(i as int), len),
        decreases reports@.len() - i,
    {
        let ghost rest = reports@.skip(i as int);
        assert(rest[0] == reports@[i as int]);
        if reports[i].1 == len {
            proof {
                lemma_control_report_is_first_of_length(reports@, len);
            }
            return Some(reports[i].0);
        }
        assert(rest.drop_first() =~= reports@.skip(i + 1));
        i = i + 1;
    }
    None
}

/// Why no interface of a device could be driven.
#[derive(Debug, Clone, Copy, PartialEq, Eq, Structural)]
pub enum OpenVerdict {
    /// An interface refused to open and Input Monitoring is not granted: say
    /// that, and keep the refusals underneath it.
    Permission,
    /// No interface declares the control report.
    NoControlInterface,
}

/// The test is "any interface refused", not "none opened": a device can hand
/// over a harmless interface and refuse the control one, and that case needs
/// the same answer. With the grant in place a refusal is the device's own
/// doing, and the list of what each interface said stands on its own.
pub fn open_verdict(refused_any: bool, grant_missing: bool) -> (r: OpenVerdict)
    ensures
        r == (if refused_any && grant_missing {
            OpenVerdict::Permission
        } else {
            OpenVerdict::NoControlInterface
        }),
{
    if refused_any && grant_missing {
        OpenVerdict::Permission
    } else {
        OpenVerdict::NoControlInterface
    }
}

// ---------------------------------------------------------------------------
// Interfaces in path order
// ---------------------------------------------------------------------------

/// `a` before `b` in byte order, which for UTF-8 text is character order.
pub open spec fn text_less(a: Seq<char>, b: Seq<char>) -> bool
    decreases a.len(),
{
    if a.len() == 0 {
        b.len() > 0
    } else if b.len() == 0 {
        false
    } else if a[0] != b[0] {
        a[0] < b[0]
    } else {
        text_less(a.drop_first(), b.drop_first())
    }
}

/// `(path, interface)` pairs, ordered by path and then by interface number.
pub open spec fn path_less(a: (Seq<char>, i32), b: (Seq<char>, i32)) -> bool {
    text_less(a.0, b.0) || (a.0 == b.0 && a.1 < b.1)
}

pub open spec fn path_view(p: (String, i32)) -> (Seq<char>, i32) {
    (p.0@, p.1)
}

pub open spec fn paths_view(s: Seq<(String, i32)>) -> Seq<(Seq<char>, i32)> {
    s.map_values(|p: (String, i32)| path_view(p))
}

pub open spec fn strictly_sorted_paths(s: Seq<(Seq<char>, i32)>) -> bool {
    forall|i: int, j: int| 0 <= i < j < s.len() ==> path_less(#[trigger] s[i], #[trigger] s[j])
}

proof fn lemma_text_irrefl(a: Seq<char>)
    ensures
        !text_less(a, a),
    decreases a.len(),
{
    if a.len() > 0 {
        lemma_text_irrefl(a.drop_first());
    }
}

proof fn lemma_text_asym(a: Seq<char>, b: Seq<char>)
    ensures
        text_less(a, b) ==> !text_less(b, a),
    decreases a.len(),
{
    if a.len() > 0 && b.len() > 0 && a[0] == b[0] {
        lemma_text_asym(a.drop_first(), b.drop_first());
    }
}

proof fn lemma_text_total(a: Seq<char>, b: Seq<char>)
    ensures
        a != b ==> text_less(a, b) || text_less(b, a),
    decreases a.len(),
{
    if a.len() == 0 && b.len() == 0 {
        assert(a =~= b);
    } else if a.len() > 0 && b.len() > 0 && a[0] == b[0] {
        lemma_text_total(a.drop_first(), b.drop_first());
        if a.drop_first() == b.drop_first() {
            assert(a =~= seq![a[0]] + a.drop_first());
            assert(b =~= seq![b[0]] + b.drop_first());
        }
    }
}

proof fn lemma_text_trans(a: Seq<char>, b: Seq<char>, c: Seq<char>)
    ensures
        text_less(a, b) && text_less(b, c) ==> text_less(a, c),
    decreases a.len(),
{
    if a.len() > 0 && b.len() > 0 && c.len() > 0 {
        lemma_text_trans(a.drop_first(), b.drop_first(), c.drop_first());
    }
}

proof fn lemma_text_order(a: Seq<char>, b: Seq<char>, c: Seq<char>)
    ensures
        !text_less(a, a),
        text_less(a, b) ==> !text_less(b, a),
        a != b ==> text_less(a, b) || text_less(b, a),
        text_less(a, b) && text_less(b, c) ==> text_less(a, c),
{
    lemma_text_irrefl(a);
    lemma_text_asym(a, b);
    lemma_text_total(a, b);
    lemma_text_trans(a, b, c);
}

/// Compare two texts: `-1`, `0` or `1` as `a` sorts before, equal to, or
/// after `b`.
fn compare_text(a: &String, b: &String) -> (r: i8)
    ensures
        r == 0 <==> a@ == b@,
        r < 0 <==> text_less(a@, b@),
        r > 0 <==> text_less(b@, a@),
{
    let va = chars_of(a.as_str());
    let vb = chars_of(b.as_str());
    let mut i: usize = 0;
    assert(va@.skip(0) =~= va@);
    assert(vb@.skip(0) =~= vb@);
    while i < va.len() && i < vb.len()
        invariant
            i <= va@.len(),
            i <= vb@.len(),
            va@ == a@,
            vb@ == b@,
            va@.take(i as int) == vb@.take(i as int),
            text_less(a@, b@) == text_less(va@.skip(i as int), vb@.skip(i as int)),
            text_less(b@, a@) == text_less(vb@.skip(i as int), va@.skip(i as int)),
        decreases va@.len() - i,
    {
        let ghost sa = va@.skip(i as int);
        let ghost sb = vb@.skip(i as int);
        assert(sa[0] == va@[i as int] && sb[0] == vb@[i as int]);
        if va[i] != vb[i] {
            proof {
                lemma_text_order(a@, b@, b@);
                if a@ == b@ {
                    assert(va@[i as int] == vb@[i as int]);
                }
            }
            return if va[i] < vb[i] {
                -1
            } else {
                1
            };
        }
        assert(sa.drop_first() =~= va@.skip(i + 1));
        assert(sb.drop_first() =~= vb@.skip(i + 1));
        assert(va@.take(i + 1) =~= va@.take(i as int).push(va@[i as int]));
        assert(vb@.take(i + 1) =~= vb@.take(i as int).push(vb@[i as int]));
        i = i + 1;
    }
    proof {
        lemma_text_order(a@, b@, b@);
        if va.len() == vb.len() {
            assert(va@ =~= va@.take(i as int));
            assert(vb@ =~= vb@.take(i as int));
        } else if i == va.len() {
            assert(va@.skip(i as int).len() == 0);
            assert(va@ =~= va@.take(i as int));
            assert(a@ != b@);
        } else {
            assert(vb@.skip(i as int).len() == 0);
            assert(vb@ =~= vb@.take(i as int));
            assert(a@ != b@);
        }
    }
    if va.len() == vb.len() {
        0
    } else if va.len() < vb.len() {
        -1
    } else {
        1
    }
}

/// The interfaces of one device in the order they are tried: sorted by path
/// (then interface number), each once. Several HID entries can share one
/// interface path, and each interface is opened at most once.
pub fn sorted_unique_paths(paths: Vec<(String, i32)>) -> (r: Vec<(String, i32)>)
    ensures
        strictly_sorted_paths(paths_view(r@)),
        paths_view(r@).to_set() == paths_view(paths@).to_set(),
{
    let mut out: Vec<(String, i32)> = Vec::new();
    let mut rest = paths;
    let ghost all = paths_view(rest@);
    let ghost mut i: int = 0;
    while rest.len() > 0
        invariant
            0 <= i,
            i + rest@.len() == all.len(),
            paths_view(rest@) == all.skip(i as int),
            strictly_sorted_paths(paths_view(out@)),
            paths_view(out@).to_set() == all.take(i as int).to_set(),
        decreases rest@.len(),
    {
        let ghost rest0 = rest@;
        let entry = rest.remove(0);
        let ghost ev = path_view(entry);
        proof {
            assert(paths_view(rest0)[0] == ev);
            assert(paths_view(rest@) =~= all.skip(i + 1)) by {
                assert(rest@ =~= rest0.drop_first());
                assert(paths_view(rest@) =~= paths_view(rest0).drop_first());
                assert(all.skip(i as int).drop_first() =~= all.skip(i + 1));
            }
            assert(all.take(i + 1) =~= all.take(i as int).push(ev)) by {
                assert(all[i as int] == paths_view(rest0)[0]);
            }
            all.take(i as int).lemma_push_to_set_commute(ev);
            assert(all.take(i + 1).to_set() =~= all.take(i as int).to_set().insert(ev));
        }
        let ghost before = paths_view(out@);
        let mut p: usize = 0;
        while p < out.len()
            invariant
                p <= out@.len(),
                paths_view(out@) == before,
                strictly_sorted_paths(before),
                ev == path_view(entry),
                forall|k: int| 0 <= k < p ==> path_less(#[trigger] before[k], ev),
            ensures
                p <= out@.len(),
                paths_view(out@) == before,
                forall|k: int| 0 <= k < p ==> path_less(#[trigger] before[k], ev),
                p < out@.len() ==> !path_less(before[p as int], ev),
            decreases out@.len() - p,
        {
            let c = compare_text(&out[p].0, &entry.0);
            assert(before[p as int] == path_view(out@[p as int]));
            if c < 0 || (c == 0 && out[p].1 < entry.1) {
                assert(path_less(before[p as int], ev));
                p = p + 1;
            } else {
                proof {
                    lemma_text_order(before[p as int].0, ev.0, ev.0);
                }
                break;
            }
        }
        let same: bool = p < out.len() && compare_text(&out[p].0, &entry.0) == 0 && out[p].1
            == entry.1;
        proof {
            if p < out.len() {
                assert(before[p as int] == path_view(out@[p as int]));
            }
        }
        if same {
            proof {
                assert(before[p as int] == ev);
                assert(before.to_set() =~= before.to_set().insert(ev)) by {
                    assert(before.contains(ev));
                }
            }
        } else {
            out.insert(p, entry);
            proof {
                let after = paths_view(out@);
                assert(after =~= before.insert(p as int, ev));
                assert forall|a: int, b: int| 0 <= a < b < after.len() implies path_less(
                    #[trigger] after[a],
                    #[trigger] after[b],
                ) by {
                    lemma_path_after(before, ev, p as int, a, b);
                }
                assert(after.to_set() =~= before.to_set().insert(ev)) by {
                    assert forall|x: (Seq<char>, i32)| #[trigger] before.to_set().insert(ev).contains(x) implies after.contains(x) by {
                        if x == ev {
                            assert(after[p as int] == ev);
                        } else {
                            let k = choose|k: int| 0 <= k < before.len() && before[k] == x;
                            if k < p {
                                assert(after[k] == x);
                            } else {
                                assert(after[k + 1] == x);
                            }
                        }
                    }
                    assert forall|x: (Seq<char>, i32)| #[trigger] after.contains(x) implies before.to_set().insert(ev).contains(x) by {
                        let k = choose|k: int| 0 <= k < after.len() && after[k] == x;
                        if k < p {
                            assert(before[k] == x);
                        } else if k > p {
                            assert(before[k - 1] == x);
                        }
                    }
                }
            }
        }
        proof {
            i = i + 1;
        }
    }
    assert(all.take(all.len() as int) =~= all);
    out
}

proof fn lemma_path_order(x: (Seq<char>, i32), y: (Seq<char>, i32), z: (Seq<char>, i32))
    ensures
        path_less(x, y) && path_less(y, z) ==> path_less(x, z),
        path_less(x, y) ==> !path_less(y, x),
        x != y ==> path_less(x, y) || path_less(y, x),
{
    lemma_text_order(x.0, y.0, z.0);
    lemma_text_order(y.0, x.0, z.0);
}

proof fn lemma_path_after(before: Seq<(Seq<char>, i32)>, ev: (Seq<char>, i32), p: int, a: int, b: int)
    requires
        0 <= p <= before.len(),
        strictly_sorted_paths(before),
        forall|k: int| 0 <= k < p ==> path_less(#[trigger] before[k], ev),
        p < before.len() ==> !path_less(before[p], ev) && before[p] != ev,
        0 <= a < b < before.len() + 1,
    ensures
        path_less(before.insert(p, ev)[a], before.insert(p, ev)[b]),
{
    let after = before.insert(p, ev);
    if p < before.len() {
        lemma_path_order(before[p], ev, ev);
    }
    if b < p {
        assert(after[a] == before[a] && after[b] == before[b]);
    } else if b == p {
        assert(after[a] == before[a]);
    } else if a == p {
        assert(after[b] == before[b - 1]);
        if b - 1 > p {
            assert(path_less(before[p], before[b - 1]));
            lemma_path_order(ev, before[p], before[b - 1]);
        }
    } else if a < p {
        assert(after[a] == before[a] && after[b] == before[b - 1]);
    } else {
        assert(after[a] == before[a - 1] && after[b] == before[b - 1]);
    }
}


// ---------------------------------------------------------------------------
// Trying the interfaces of one device
// ---------------------------------------------------------------------------

/// What trying one interface of a device came to.
#[derive(Debug)]
pub enum InterfaceOutcome {
    /// It would not open; what hidapi said about it.
    Refused(String),
    /// It opened but gave no report descriptor; what hidapi said about it.
    NoDescriptor(String),
    /// The feature reports its report descriptor declares.
    Reports(Vec<(u8, u32)>),
}

/// The line kept about an interface that was not the control interface.
pub open spec fn outcome_line(interface: i32, outcome: InterfaceOutcome, len: u32) -> Seq<char> {
    let head = "interface "@ + pad_int(interface as int, 0) + ": "@;
    match outcome {
        InterfaceOutcome::Refused(e) => head + "cannot open ("@ + e@ + ")"@,
        InterfaceOutcome::NoDescriptor(e) => head + "no report descriptor ("@ + e@ + ")"@,
        InterfaceOutcome::Reports(_) => head + "no "@ + dec(len as nat) + "-byte feature report"@,
    }
}

/// The control report id an outcome yields: only a descriptor can declare it.
pub open spec fn outcome_control(outcome: InterfaceOutcome, len: u32) -> Option<u8> {
    match outcome {
        InterfaceOutcome::Reports(rs) => control_report_spec(rs@, len),
        _ => None,
    }
}

pub open spec fn texts(v: Seq<String>) -> Seq<Seq<char>> {
    v.map_values(|t: String| t@)
}

/// Lines joined by `sep`.
pub open spec fn join_with(lines: Seq<Seq<char>>, sep: Seq<char>) -> Seq<char>
    decreases lines.len(),
{
    if lines.len() == 0 {
        Seq::empty()
    } else if lines.len() == 1 {
        lines[0]
    } else {
        join_with(lines.drop_last(), sep) + sep + lines.last()
    }
}

/// The search for a device's control interface, one interface at a time:
/// what each interface that was not it said, and whether any refused to open.
pub struct OpenAttempt {
    pub tried: Vec<String>,
    pub refused_any: bool,
}

impl OpenAttempt {
    /// Nothing tried yet.
    pub fn new() -> (a: OpenAttempt)
        ensures
            a.tried@.len() == 0,
            !a.refused_any,
    {
        OpenAttempt { tried: Vec::new(), refused_any: false }
    }

    /// File what one interface came to, against a control report of `len`
    /// data bytes: the control report id when this is the control interface,
    /// and otherwise a line about why not.
    pub fn record(&mut self, interface: i32, outcome: InterfaceOutcome, len: u32) -> (r: Option<
        u8,
    >)
        ensures
            r == outcome_control(outcome, len),
            final(self).refused_any == (old(self).refused_any || outcome is Refused),
            r is Some ==> final(self).tried@ == old(self).tried@,
            r is None ==> texts(final(self).tried@) == texts(old(self).tried@).push(
                outcome_line(interface, outcome, len),
            ),
    {
        let ghost out = outcome;
        let mut line = String::new();
        push_str(&mut line, "interface ");
        push_int(&mut line, interface as i64, 0);
        push_str(&mut line, ": ");
        match outcome {
            InterfaceOutcome::Refused(e) => {
                self.refused_any = true;
                push_str(&mut line, "cannot open (");
                push_str(&mut line, e.as_str());
                push_str(&mut line, ")");
            },
            InterfaceOutcome::NoDescriptor(e) => {
                push_str(&mut line, "no report descriptor (");
                push_str(&mut line, e.as_str());
                push_str(&mut line, ")");
            },
            InterfaceOutcome::Reports(rs) => {
                let found = control_report_for(rs.as_slice(), len);
                if found.is_some() {
                    return found;
                }
                push_str(&mut line, "no ");
                push_dec(&mut line, len as u128, 0);
                push_str(&mut line, "-byte feature report");
            },
        }
        assert(line@ =~= outcome_line(interface, out, len));
        let ghost before = self.tried@;
        self.tried.push(line);
        assert(texts(self.tried@) =~= texts(before).push(line@));
        None
    }

    /// What each interface said, one per line, indented under a heading.
    pub fn tried_text(&self) -> (s: String)
        ensures
            s@ == join_with(texts(self.tried@), "\n  "@),
    {
        let mut s = String::new();
        let mut i: usize = 0;
        while i < self.tried.len()
            invariant
                i <= self.tried@.len(),
                s@ == join_with(texts(self.tried@.take(i as int)), "\n  "@),
            decreases self.tried@.len() - i,
        {
            let ghost before = s@;
            if i > 0 {
                push_str(&mut s, "\n  ");
            }
            push_str(&mut s, self.tried[i].as_str());
            proof {
                let t = texts(self.tried@.take(i + 1));
                assert(t.drop_last() =~= texts(self.tried@.take(i as int)));
                assert(t.last() == self.tried@[i as int]@);
                if i == 0 {
                    assert(before =~= Seq::<char>::empty());
                }
            }
            i = i + 1;
        }
        assert(self.tried@.take(self.tried@.len() as int) =~= self.tried@);
        s
    }

    /// Why no interface would do, once all were tried.
    pub fn verdict(&self, grant_missing: bool) -> (r: OpenVerdict)
        ensures
            r == (if self.refused_any && grant_missing {
                OpenVerdict::Permission
            } else {
                OpenVerdict::NoControlInterface
            }),
    {
        open_verdict(self.refused_any, grant_missing)
    }
}

/// One entry of the HID list as the interface search needs it: USB id, path,
/// interface number.
pub open spec fn entry_path(e: (u16, u16, String, i32)) -> (Seq<char>, i32) {
    (e.2@, e.3)
}

/// The paths of the device with USB id `(vendor_id, product_id)` among the
/// entries of the HID list, in list order.
pub open spec fn paths_of(entries: Seq<(u16, u16, String, i32)>, vendor_id: u16, product_id: u16) -> Seq<
    (Seq<char>, i32),
>
    decreases entries.len(),
{
    if entries.len() == 0 {
        Seq::empty()
    } else {
        let e = entries.last();
        let before = paths_of(entries.drop_last(), vendor_id, product_id);
        if e.0 == vendor_id && e.1 == product_id {
            before.push(entry_path(e))
        } else {
            before
        }
    }
}

/// The interfaces of the device with this USB id, in the order they are
/// tried: sorted by path then interface number, each once.
pub fn device_paths(entries: Vec<(u16, u16, String, i32)>, vendor_id: u16, product_id: u16) -> (r: Vec<
    (String, i32),
>)
    ensures
        strictly_sorted_paths(paths_view(r@)),
        paths_view(r@).to_set() == paths_of(entries@, vendor_id, product_id).to_set(),
{
    let ghost all = entries@;
    let mut mine: Vec<(String, i32)> = Vec::new();
    let mut rest = entries;
    let ghost mut i: int = 0;
    while rest.len() > 0
        invariant
            0 <= i <= all.len(),
            i + rest@.len() == all.len(),
            rest@ == all.skip(i),
            paths_view(mine@) == paths_of(all.take(i), vendor_id, product_id),
        decreases rest@.len(),
    {
        let e = rest.remove(0);
        let ghost before = mine@;
        proof {
            assert(e == all[i]);
            assert(rest@ =~= all.skip(i + 1));
            assert(all.take(i + 1).drop_last() =~= all.take(i));
            assert(all.take(i + 1).last() == e);
        }
        if e.0 == vendor_id && e.1 == product_id {
            mine.push((e.2, e.3));
            assert(paths_view(mine@) =~= paths_view(before).push(entry_path(e)));
        }
        proof {
            i = i + 1;
        }
    }
    assert(all.take(i) =~= all);
    sorted_unique_paths(mine)
}

} // verus!
