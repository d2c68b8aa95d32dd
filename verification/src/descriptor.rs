//! Just enough HID report descriptor parsing to find a device's control report.
//!
//! A descriptor is a flat stream of items. Each starts with a prefix byte holding
//! a tag, a type and a payload size; global items (report id, report size, report
//! count) accumulate as state, and a main item (Input/Output/Feature) emits a
//! report using whatever state is current.
use vstd::prelude::*;

verus! {

pub const TYPE_MAIN: u8 = 0;

pub const TYPE_GLOBAL: u8 = 1;

pub const TAG_FEATURE: u8 = 0xB;

pub const TAG_REPORT_SIZE: u8 = 0x7;

pub const TAG_REPORT_ID: u8 = 0x8;

pub const TAG_REPORT_COUNT: u8 = 0x9;

/// Payload bytes after a prefix: a size field of 3 means four, not three.
pub open spec fn payload_len(prefix: u8) -> int {
    if prefix % 4 == 3 {
        4
    } else {
        (prefix % 4) as int
    }
}

pub open spec fn item_type(prefix: u8) -> int {
    ((prefix / 4) % 4) as int
}

pub open spec fn item_tag(prefix: u8) -> int {
    (prefix / 16) as int
}

/// Bytes read least significant first.
pub open spec fn le_value(s: Seq<u8>) -> nat
    decreases s.len(),
{
    if s.len() == 0 {
        0
    } else {
        s[0] as nat + 256 * le_value(s.drop_first())
    }
}

/// Data bytes of a report of `bits` bits, rounded up.
pub open spec fn bytes_for_bits(bits: int) -> int {
    (bits + 7) / 8
}

/// The feature reports declared from item `i` on, given the global state in
/// force there and the reports already found; `None` when a feature item's
/// `report size * report count` does not fit in 32 bits.
pub open spec fn reports_from(
    desc: Seq<u8>,
    i: int,
    id: u32,
    size: u32,
    count: u32,
    out: Seq<(u8, u32)>,
) -> Option<Seq<(u8, u32)>>
    decreases desc.len() - i,
{
    if i < 0 || i >= desc.len() {
        Some(out)
    } else {
        let prefix = desc[i];
        let n = payload_len(prefix);
        if i + 1 + n > desc.len() {
            // A truncated descriptor: report what was found.
            Some(out)
        } else {
            let data = le_value(desc.subrange(i + 1, i + 1 + n)) as u32;
            let next = i + 1 + n;
            let t = item_type(prefix);
            let g = item_tag(prefix);
            if t == 1 && g == 7 {
                reports_from(desc, next, id, data, count, out)
            } else if t == 1 && g == 8 {
                reports_from(desc, next, data, size, count, out)
            } else if t == 1 && g == 9 {
                reports_from(desc, next, id, size, data, out)
            } else if t == 0 && g == 11 {
                if size * count > u32::MAX {
                    None
                } else {
                    reports_from(
                        desc,
                        next,
                        id,
                        size,
                        count,
                        out.push((id as u8, bytes_for_bits(size * count) as u32)),
                    )
                }
            } else {
                reports_from(desc, next, id, size, count, out)
            }
        }
    }
}

/// Every feature report `desc` declares, or `None` when a report's bit count
/// overflows 32 bits.
pub open spec fn feature_reports_spec(desc: Seq<u8>) -> Option<Seq<(u8, u32)>> {
    reports_from(desc, 0, 0, 0, 0, Seq::empty())
}

/// Whether `a`, from position `i` on, is whole items: each prefix byte is
/// followed by its full payload, and the last one ends exactly at the end.
pub open spec fn whole_items_from(a: Seq<u8>, i: int) -> bool
    decreases a.len() - i,
{
    if i < 0 || i > a.len() {
        false
    } else if i == a.len() {
        true
    } else {
        i + 1 + payload_len(a[i]) <= a.len() && whole_items_from(a, i + 1 + payload_len(a[i]))
    }
}

proof fn lemma_cut_item_from(
    a: Seq<u8>,
    p: u8,
    r: Seq<u8>,
    i: int,
    id: u32,
    size: u32,
    count: u32,
    out: Seq<(u8, u32)>,
)
    requires
        whole_items_from(a, i),
        r.len() < payload_len(p),
    ensures
        reports_from(a + seq![p] + r, i, id, size, count, out) == reports_from(a, i, id, size, count, out),
    decreases a.len() - i,
{
    let desc = a + seq![p] + r;
    if i == a.len() {
        assert(desc[i] == p);
    } else {
        let n = payload_len(a[i]);
        assert(desc[i] == a[i]);
        assert(desc.subrange(i + 1, i + 1 + n) =~= a.subrange(i + 1, i + 1 + n));
        let data = le_value(a.subrange(i + 1, i + 1 + n)) as u32;
        let next = i + 1 + n;
        lemma_cut_item_from(a, p, r, next, id, size, data, out);
        lemma_cut_item_from(a, p, r, next, id, data, count, out);
        lemma_cut_item_from(a, p, r, next, data, size, count, out);
        lemma_cut_item_from(a, p, r, next, id, size, count, out);
        if size * count <= u32::MAX {
            lemma_cut_item_from(
                a,
                p,
                r,
                next,
                id,
                size,
                count,
                out.push((id as u8, bytes_for_bits(size * count) as u32)),
            );
        }
    }
}

/// A descriptor whose last item is cut off declares exactly what the items
/// before it declare: the partial item is dropped and every report found
/// before it is kept.
pub proof fn lemma_cut_off_item_is_dropped(a: Seq<u8>, p: u8, r: Seq<u8>)
    requires
        whole_items_from(a, 0),
        r.len() < payload_len(p),
    ensures
        feature_reports_spec(a + seq![p] + r) == feature_reports_spec(a),
{
    lemma_cut_item_from(a, p, r, 0, 0, 0, 0, Seq::empty());
}

/// A prefix byte of a Feature main item.
pub open spec fn is_feature_prefix(b: u8) -> bool {
    item_type(b) == 0 && item_tag(b) == 11
}

/// How many bytes of `desc` from position `i` on could start a Feature item.
pub open spec fn feature_bytes_from(desc: Seq<u8>, i: int) -> nat
    decreases desc.len() - i,
{
    if i < 0 || i >= desc.len() {
        0
    } else {
        (if is_feature_prefix(desc[i]) {
            1nat
        } else {
            0nat
        }) + feature_bytes_from(desc, i + 1)
    }
}

proof fn lemma_feature_bytes_monotone(desc: Seq<u8>, i: int, j: int)
    requires
        0 <= i <= j,
    ensures
        feature_bytes_from(desc, j) <= feature_bytes_from(desc, i),
    decreases j - i,
{
    if i < j {
        lemma_feature_bytes_monotone(desc, i + 1, j);
    }
}

proof fn lemma_only_feature_items_report_from(
    desc: Seq<u8>,
    i: int,
    id: u32,
    size: u32,
    count: u32,
    out: Seq<(u8, u32)>,
)
    requires
        0 <= i,
    ensures
        reports_from(desc, i, id, size, count, out) matches Some(r) ==> out.len() <= r.len()
            <= out.len() + feature_bytes_from(desc, i) && forall|k: int|
            0 <= k < out.len() ==> #[trigger] r[k] == out[k],
        feature_bytes_from(desc, i) == 0 ==> reports_from(desc, i, id, size, count, out) == Some(
            out,
        ),
    decreases desc.len() - i,
{
    if i < desc.len() {
        let prefix = desc[i];
        let n = payload_len(prefix);
        if i + 1 + n <= desc.len() {
            let data = le_value(desc.subrange(i + 1, i + 1 + n)) as u32;
            let next = i + 1 + n;
            lemma_feature_bytes_monotone(desc, i + 1, next);
            lemma_only_feature_items_report_from(desc, next, id, size, data, out);
            lemma_only_feature_items_report_from(desc, next, id, data, count, out);
            lemma_only_feature_items_report_from(desc, next, data, size, count, out);
            lemma_only_feature_items_report_from(desc, next, id, size, count, out);
            let t = item_type(prefix);
            let g = item_tag(prefix);
            if t == 0 && g == 11 && size * count <= u32::MAX {
                let out2 = out.push((id as u8, bytes_for_bits(size * count) as u32));
                lemma_only_feature_items_report_from(desc, next, id, size, count, out2);
                if let Some(r) = reports_from(desc, i, id, size, count, out) {
                    assert forall|k: int| 0 <= k < out.len() implies #[trigger] r[k] == out[k] by {
                        assert(r[k] == out2[k]);
                    }
                }
            }
        }
    }
}

/// Only Feature items declare feature reports: a descriptor declares no more
/// feature reports than it has bytes that can start a Feature item (Input and
/// Output items declare none), and one with no such byte declares none.
pub proof fn lemma_only_feature_items_report(desc: Seq<u8>)
    ensures
        feature_reports_spec(desc) matches Some(r) ==> r.len() <= feature_bytes_from(desc, 0),
        feature_bytes_from(desc, 0) == 0 ==> feature_reports_spec(desc) == Some(
            Seq::<(u8, u32)>::empty(),
        ),
{
    lemma_only_feature_items_report_from(desc, 0, 0, 0, 0, Seq::empty());
}

proof fn lemma_le_bound(s: Seq<u8>)
    requires
        s.len() <= 3,
    ensures
        le_value(s) < 0x100_0000,
{
    if s.len() >= 1 {
        let s1 = s.drop_first();
        if s1.len() >= 1 {
            let s2 = s1.drop_first();
            if s2.len() >= 1 {
                let s3 = s2.drop_first();
                assert(le_value(s3) == 0);
                assert(le_value(s2) < 0x100);
            } else {
                assert(le_value(s2) == 0);
            }
            assert(le_value(s1) < 0x1_0000);
        } else {
            assert(le_value(s1) == 0);
        }
    }
}

/// The little-endian value of `desc[from..to]`, at most four bytes.
fn read_le(desc: &[u8], from: usize, to: usize) -> (r: u32)
    requires
        from <= to <= desc@.len(),
        to - from <= 4,
    ensures
        r == le_value(desc@.subrange(from as int, to as int)),
{
    let mut data: u32 = 0;
    let mut k: usize = to;
    while k > from
        invariant
            from <= k <= to <= desc@.len(),
            to - from <= 4,
            data == le_value(desc@.subrange(k as int, to as int)),
        decreases k,
    {
        let ghost tail = desc@.subrange(k as int, to as int);
        let ghost whole = desc@.subrange(k - 1, to as int);
        assert(whole.drop_first() =~= tail);
        proof {
            lemma_le_bound(tail);
        }
        let b: u8 = desc[k - 1];
        data = data * 256 + b as u32;
        k = k - 1;
    }
    data
}

/// Every feature report a descriptor declares, as `(report_id, data_byte_count)`.
/// The count excludes the report-id byte that hidapi expects at `bytes[0]`.
///
/// A feature report whose bit count does not fit in 32 bits is an arithmetic
/// overflow; `checked_feature_reports` is the form that reports it.
pub fn feature_reports(desc: &[u8]) -> (r: Vec<(u8, u32)>)
    requires
        feature_reports_spec(desc@) is Some,
    ensures
        feature_reports_spec(desc@) == Some(r@),
        r@.len() <= feature_bytes_from(desc@, 0),
{
    match checked_feature_reports(desc) {
        Some(v) => v,
        None => Vec::new(),
    }
}

/// `feature_reports`, or `None` when a feature report's
/// `report size * report count` overflows 32 bits.
pub fn checked_feature_reports(desc: &[u8]) -> (r: Option<Vec<(u8, u32)>>)
    ensures
        match r {
            Some(v) => feature_reports_spec(desc@) == Some(v@),
            None => feature_reports_spec(desc@) is None,
        },
        r matches Some(v) ==> v@.len() <= feature_bytes_from(desc@, 0),
        feature_bytes_from(desc@, 0) == 0 ==> (r matches Some(v) && v@.len() == 0),
{
    proof {
        lemma_only_feature_items_report(desc@);
    }
    let mut report_id: u32 = 0;
    let mut report_size: u32 = 0;
    let mut report_count: u32 = 0;
    let mut out: Vec<(u8, u32)> = Vec::new();
    let mut i: usize = 0;
    while i < desc.len()
        invariant_except_break
            i <= desc@.len(),
            feature_reports_spec(desc@) == reports_from(
                desc@,
                i as int,
                report_id,
                report_size,
                report_count,
                out@,
            ),
        ensures
            feature_reports_spec(desc@) == Some(out@),
        decreases desc@.len() - i,
    {
        let ghost start = i as int;
        let prefix = desc[i];
        i = i + 1;
        let low: u8 = prefix & 0x03;
        assert(low == prefix % 4) by (bit_vector)
            requires
                low == prefix & 0x03,
        ;
        let size: usize = if low == 3 {
            4
        } else {
            low as usize
        };
        if size > desc.len() - i {
            // Truncated descriptor; report what we have.
            break;
        }
        let data = read_le(desc, i, i + size);
        i = i + size;
        let typ: u8 = (prefix >> 2) & 0x03;
        let tag: u8 = prefix >> 4;
        assert(typ == (prefix / 4) % 4 && tag == prefix / 16) by (bit_vector)
            requires
                typ == (prefix >> 2) & 0x03,
                tag == prefix >> 4,
        ;
        if typ == TYPE_GLOBAL && tag == TAG_REPORT_SIZE {
            report_size = data;
        } else if typ == TYPE_GLOBAL && tag == TAG_REPORT_ID {
            report_id = data;
        } else if typ == TYPE_GLOBAL && tag == TAG_REPORT_COUNT {
            report_count = data;
        } else if typ == TYPE_MAIN && tag == TAG_FEATURE {
            let bits: u32 = match report_size.checked_mul(report_count) {
                Some(b) => b,
                None => {
                    proof {
                        lemma_only_feature_items_report(desc@);
                    }
                    return None;
                },
            };
            let bytes: u32 = bits / 8 + if bits % 8 > 0 {
                1
            } else {
                0
            };
            assert(bytes == bytes_for_bits(bits as int));
            out.push(((#[verifier::truncate] (report_id as u8)), bytes));
        }
    }
    Some(out)
}

} // verus!
