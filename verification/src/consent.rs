//! Privacy: which apps used the camera, microphone or location, as recorded
//! in the Windows ConsentStore. The registry is read elsewhere; this module
//! turns the raw key names and FILETIME values into access records and
//! orders them for display.

use vstd::prelude::*;
use crate::text::{
    after_last, after_last_str, before_first, before_first_str, concat_str, eq_ignore_ascii_case,
    eq_ignore_ascii_case_str, replace_char, replace_char_str,
};
use crate::timekeeping::{filetime_to_unix, spec_filetime_to_unix};

verus! {

broadcast use vstd::seq_lib::group_seq_properties;

/// One app's use of a sensor.
pub struct SensorAccess {
    /// "webcam" | "microphone" | "location"
    pub capability: String,
    /// Readable app name (exe file name or package family name).
    pub app: String,
    /// Full exe path or package id.
    pub path: String,
    /// Unix seconds of the last time the app started using the sensor.
    pub last_used: i64,
    /// True if the app is using the sensor right now.
    pub in_use: bool,
}

/// The contents of a `SensorAccess`.
pub struct AccessRecord {
    pub capability: Seq<char>,
    pub app: Seq<char>,
    pub path: Seq<char>,
    pub last_used: i64,
    pub in_use: bool,
}

impl View for SensorAccess {
    type V = AccessRecord;

    open spec fn view(&self) -> AccessRecord {
        AccessRecord {
            capability: self.capability@,
            app: self.app@,
            path: self.path@,
            last_used: self.last_used,
            in_use: self.in_use,
        }
    }
}

/// The records of a list of accesses.
pub open spec fn records(s: Seq<SensorAccess>) -> Seq<AccessRecord> {
    s.map_values(|e: SensorAccess| e@)
}

// ---------------------------------------------------------------------------
// Key names
// ---------------------------------------------------------------------------

/// NonPackaged keys encode the exe path with '#' in place of '\'; the app
/// name is the path's last component.
pub open spec fn spec_nonpackaged_name(raw: Seq<char>) -> (Seq<char>, Seq<char>) {
    let path = replace_char(raw, '#', '\\');
    (after_last(path, '\\'), path)
}

/// NonPackaged keys encode the exe path with '#' instead of '\'.
/// Returns (app, path).
pub fn nonpackaged_name(raw: &str) -> (r: (String, String))
    ensures
        (r.0@, r.1@) == spec_nonpackaged_name(raw@),
{
    let path = replace_char_str(raw, '#', '\\');
    let app = after_last_str(path.as_str(), '\\');
    (app, path)
}

/// A NonPackaged entry's path holds no '#', and its app name is the path's
/// last component: a suffix of the path without any '\'.
pub proof fn lemma_nonpackaged_app_is_last_component(raw: Seq<char>)
    ensures
        !spec_nonpackaged_name(raw).1.contains('#'),
        !spec_nonpackaged_name(raw).0.contains('\\'),
        spec_nonpackaged_name(raw).0 == spec_nonpackaged_name(raw).1.subrange(
            spec_nonpackaged_name(raw).1.len() - spec_nonpackaged_name(raw).0.len(),
            spec_nonpackaged_name(raw).1.len() as int,
        ),
{
    let path = replace_char(raw, '#', '\\');
    assert forall|i: int| 0 <= i < path.len() implies path[i] != '#' by {}
    crate::text::lemma_after_last_is_last_component(path, '\\');
}

/// A packaged app's readable name: its package id up to the first '_'.
pub fn packaged_app_name(raw: &str) -> (r: String)
    ensures
        r@ == before_first(raw@, '_'),
{
    before_first_str(raw, '_')
}

/// Whether a subkey of a capability is the "NonPackaged" container
/// (compared ignoring ASCII case).
pub fn is_nonpackaged_key(sub: &str) -> (b: bool)
    ensures
        b == eq_ignore_ascii_case(sub@, "NonPackaged"@),
{
    eq_ignore_ascii_case_str(sub, "NonPackaged")
}

/// Registry path (under HKCU or HKLM) of a capability's consent entries.
pub open spec fn spec_consent_store_path(cap: Seq<char>) -> Seq<char> {
    "SOFTWARE\\Microsoft\\Windows\\CurrentVersion\\CapabilityAccessManager\\ConsentStore\\"@
        + cap
}

pub fn consent_store_path(cap: &str) -> (r: String)
    ensures
        r@ == spec_consent_store_path(cap@),
{
    concat_str(
        "SOFTWARE\\Microsoft\\Windows\\CurrentVersion\\CapabilityAccessManager\\ConsentStore\\",
        cap,
    )
}

// ---------------------------------------------------------------------------
// Access records
// ---------------------------------------------------------------------------

/// The record for one consent entry with the given `LastUsedTimeStart` and
/// `LastUsedTimeStop` values, or none when no use was ever recorded.
pub open spec fn spec_access_record(
    cap: Seq<char>,
    raw: Seq<char>,
    nonpackaged: bool,
    start: u64,
    stop: u64,
) -> Option<AccessRecord> {
    if start == 0 && stop == 0 {
        None
    } else {
        let names = if nonpackaged {
            spec_nonpackaged_name(raw)
        } else {
            (before_first(raw, '_'), raw)
        };
        Some(
            AccessRecord {
                capability: cap,
                app: names.0,
                path: names.1,
                last_used: spec_filetime_to_unix(start) as i64,
                in_use: stop == 0 && start != 0,
            },
        )
    }
}

/// Appends the record of one consent entry to `out`, unless the entry has
/// no recorded use.
pub fn push_access(
    cap: &str,
    raw: &str,
    nonpackaged: bool,
    start: u64,
    stop: u64,
    out: &mut Vec<SensorAccess>,
)
    ensures
        records(final(out)@) == match spec_access_record(cap@, raw@, nonpackaged, start, stop) {
            Some(rec) => records(old(out)@).push(rec),
            None => records(old(out)@),
        },
{
    if start == 0 && stop == 0 {
        return;
    }
    let (app, path) = if nonpackaged {
        nonpackaged_name(raw)
    } else {
        (packaged_app_name(raw), raw.to_owned())
    };
    let entry = SensorAccess {
        capability: cap.to_owned(),
        app,
        path,
        last_used: filetime_to_unix(start),
        in_use: stop == 0 && start != 0,
    };
    out.push(entry);
    assert(records(final(out)@) =~= records(old(out)@).push(entry@));
}

/// An entry with a recorded start is always listed; its last use is the
/// Unix time of the start FILETIME alone (whatever the stop value), and it
/// is in use exactly when no stop time is recorded.
pub proof fn lemma_last_used_is_start_time(
    cap: Seq<char>,
    raw: Seq<char>,
    nonpackaged: bool,
    start: u64,
    stop: u64,
    other_stop: u64,
)
    requires
        start != 0,
    ensures
        spec_access_record(cap, raw, nonpackaged, start, stop) is Some,
        spec_access_record(cap, raw, nonpackaged, start, stop)->0.last_used as int == start as int
            / 10_000_000 - 11_644_473_600,
        spec_access_record(cap, raw, nonpackaged, start, stop)->0.last_used == spec_access_record(
            cap,
            raw,
            nonpackaged,
            start,
            other_stop,
        )->0.last_used,
        spec_access_record(cap, raw, nonpackaged, start, stop)->0.in_use == (stop == 0),
{
    assert(start as int / 10_000_000 <= 1_844_674_407_370);
}

/// An entry with only a stop time is listed as last used at time 0 and
/// not in use; an entry with neither time is not listed.
pub proof fn lemma_no_start_time(cap: Seq<char>, raw: Seq<char>, nonpackaged: bool, stop: u64)
    ensures
        stop == 0 ==> spec_access_record(cap, raw, nonpackaged, 0, stop) is None,
        stop != 0 ==> spec_access_record(cap, raw, nonpackaged, 0, stop) is Some
            && spec_access_record(cap, raw, nonpackaged, 0, stop)->0.last_used == 0
            && !spec_access_record(cap, raw, nonpackaged, 0, stop)->0.in_use,
{
}

// ---------------------------------------------------------------------------
// Display order
// ---------------------------------------------------------------------------

/// `a` may be listed before `b`: sensors in use first, then the most
/// recently used.
pub open spec fn ranks_before(a: AccessRecord, b: AccessRecord) -> bool {
    (a.in_use && !b.in_use) || (a.in_use == b.in_use && a.last_used >= b.last_used)
}

/// Every record may be listed before every later one.
pub open spec fn display_ordered(s: Seq<AccessRecord>) -> bool {
    forall|i: int, j: int| 0 <= i < j < s.len() ==> ranks_before(#[trigger] s[i], #[trigger] s[j])
}

/// The records with the given ordering key, in their order in `s`.
pub open spec fn with_key(s: Seq<AccessRecord>, in_use: bool, last_used: i64) -> Seq<
    AccessRecord,
> {
    s.filter(|e: AccessRecord| e.in_use == in_use && e.last_used == last_used)
}

/// `r` is `s` sorted stably into display order: ordered, and for each key
/// the records with that key keep their relative order (so, together,
/// `r` holds exactly the records of `s`).
pub open spec fn stable_display_sort(s: Seq<AccessRecord>, r: Seq<AccessRecord>) -> bool {
    &&& display_ordered(r)
    &&& forall|u: bool, t: i64| #[trigger] with_key(r, u, t) == with_key(s, u, t)
}

proof fn lemma_insert_keeps_keys(out: Seq<AccessRecord>, p: int, x: AccessRecord, u: bool, t: i64)
    requires
        display_ordered(out),
        0 <= p <= out.len(),
        p < out.len() ==> !ranks_before(out[p], x),
    ensures
        with_key(out.insert(p, x), u, t) == if x.in_use == u && x.last_used == t {
            with_key(out, u, t).push(x)
        } else {
            with_key(out, u, t)
        },
{
    let f = |e: AccessRecord| e.in_use == u && e.last_used == t;
    let a = out.take(p);
    let b = out.skip(p);
    assert(out == a + b);
    assert(out.insert(p, x) =~= a + seq![x] + b);
    Seq::filter_distributes_over_add(a + seq![x], b, f);
    Seq::filter_distributes_over_add(a, seq![x], f);
    Seq::filter_distributes_over_add(a, b, f);
    assert(seq![x].filter(f) == if f(x) { seq![x] } else { Seq::<AccessRecord>::empty() }) by {
        Seq::<AccessRecord>::empty().lemma_filter_push(x, f);
        assert(Seq::<AccessRecord>::empty().push(x) =~= seq![x]);
    }
    if f(x) {
        assert forall|k: int| 0 <= k < b.len() implies !f(b[k]) by {
            assert(b[k] == out[p + k]);
            if k > 0 {
                assert(ranks_before(out[p], out[p + k]));
            }
        }
        b.lemma_all_neg_filter_empty(f);
        assert(b.filter(f) =~= Seq::<AccessRecord>::empty());
        assert(a.filter(f) + seq![x] + b.filter(f) =~= (a.filter(f) + b.filter(f)).push(x));
    } else {
        assert(a.filter(f) + Seq::<AccessRecord>::empty() + b.filter(f) =~= a.filter(f) + b.filter(
            f,
        ));
    }
}

proof fn lemma_insert_keeps_order(out: Seq<AccessRecord>, p: int, x: AccessRecord)
    requires
        display_ordered(out),
        0 <= p <= out.len(),
        forall|k: int| 0 <= k < p ==> ranks_before(#[trigger] out[k], x),
        p < out.len() ==> !ranks_before(out[p], x),
    ensures
        display_ordered(out.insert(p, x)),
{
    let r = out.insert(p, x);
    assert forall|i: int, j: int| 0 <= i < j < r.len() implies ranks_before(
        #[trigger] r[i],
        #[trigger] r[j],
    ) by {
        if j < p {
            assert(r[i] == out[i] && r[j] == out[j]);
        } else if j == p {
            assert(r[i] == out[i]);
        } else if i < p {
            assert(r[i] == out[i] && r[j] == out[j - 1]);
            assert(ranks_before(out[i], out[j - 1]));
        } else if i == p {
            assert(r[j] == out[j - 1]);
            if j - 1 > p {
                assert(ranks_before(out[p], out[j - 1]));
            }
        } else {
            assert(r[i] == out[i - 1] && r[j] == out[j - 1]);
            assert(ranks_before(out[i - 1], out[j - 1]));
        }
    }
}

proof fn lemma_key_present(s: Seq<AccessRecord>, j: int)
    requires
        0 <= j < s.len(),
    ensures
        with_key(s, s[j].in_use, s[j].last_used).len() > 0,
{
    let f = |e: AccessRecord| e.in_use == s[j].in_use && e.last_used == s[j].last_used;
    s.lemma_filter_contains(f, j);
}

proof fn lemma_key_occurs(s: Seq<AccessRecord>, u: bool, t: i64) -> (j: int)
    requires
        with_key(s, u, t).len() > 0,
    ensures
        0 <= j < s.len(),
        s[j].in_use == u && s[j].last_used == t,
{
    let f = |e: AccessRecord| e.in_use == u && e.last_used == t;
    let e = s.filter(f)[0];
    s.lemma_filter_pred(f, 0);
    assert(s.filter(f).contains(e));
    s.lemma_filter_contains_rev(f, e);
    choose|j: int| 0 <= j < s.len() && s[j] == e
}

proof fn lemma_ordered_same_keys_equal(a: Seq<AccessRecord>, b: Seq<AccessRecord>)
    requires
        display_ordered(a),
        display_ordered(b),
        forall|u: bool, t: i64| #[trigger] with_key(a, u, t) == with_key(b, u, t),
    ensures
        a == b,
    decreases a.len(),
{
    if a.len() == 0 || b.len() == 0 {
        if b.len() > 0 {
            lemma_key_present(b, 0);
            assert(with_key(a, b[0].in_use, b[0].last_used) =~= Seq::<AccessRecord>::empty());
        }
        if a.len() > 0 {
            lemma_key_present(a, 0);
            assert(with_key(b, a[0].in_use, a[0].last_used) =~= Seq::<AccessRecord>::empty());
        }
        assert(a =~= b);
    } else {
        let x = a[0];
        let y = b[0];
        lemma_key_present(b, 0);
        let ja = lemma_key_occurs(a, y.in_use, y.last_used);
        if ja > 0 {
            assert(ranks_before(a[0], a[ja]));
        }
        lemma_key_present(a, 0);
        let jb = lemma_key_occurs(b, x.in_use, x.last_used);
        if jb > 0 {
            assert(ranks_before(b[0], b[jb]));
        }
        assert(x.in_use == y.in_use && x.last_used == y.last_used);
        let a1 = a.drop_first();
        let b1 = b.drop_first();
        assert(a =~= seq![x] + a1);
        assert(b =~= seq![y] + b1);
        assert forall|u: bool, t: i64| #[trigger] with_key(a1, u, t) == with_key(b1, u, t) by {
            let f = |e: AccessRecord| e.in_use == u && e.last_used == t;
            a1.lemma_filter_prepend(x, f);
            b1.lemma_filter_prepend(y, f);
            if f(x) {
                assert(with_key(a, u, t) == seq![x] + with_key(a1, u, t));
                assert(with_key(b, u, t) == seq![y] + with_key(b1, u, t));
                assert(with_key(a, u, t)[0] == x);
                assert(with_key(b, u, t)[0] == y);
                assert(with_key(a1, u, t) =~= with_key(a, u, t).drop_first());
                assert(with_key(b1, u, t) =~= with_key(b, u, t).drop_first());
            } else {
                assert(with_key(a, u, t) =~= with_key(a1, u, t));
                assert(with_key(b, u, t) =~= with_key(b1, u, t));
            }
        }
        let f0 = |e: AccessRecord| e.in_use == x.in_use && e.last_used == x.last_used;
        a1.lemma_filter_prepend(x, f0);
        b1.lemma_filter_prepend(y, f0);
        assert(with_key(a, x.in_use, x.last_used)[0] == x);
        assert(with_key(b, x.in_use, x.last_used)[0] == y);
        assert forall|i: int, j: int| 0 <= i < j < a1.len() implies ranks_before(
            #[trigger] a1[i],
            #[trigger] a1[j],
        ) by {
            assert(ranks_before(a[i + 1], a[j + 1]));
        }
        assert forall|i: int, j: int| 0 <= i < j < b1.len() implies ranks_before(
            #[trigger] b1[i],
            #[trigger] b1[j],
        ) by {
            assert(ranks_before(b[i + 1], b[j + 1]));
        }
        lemma_ordered_same_keys_equal(a1, b1);
    }
}

/// The display order is fully determined: two stable display sorts of the
/// same records are the same list.
pub proof fn lemma_display_sort_unique(
    s: Seq<AccessRecord>,
    r1: Seq<AccessRecord>,
    r2: Seq<AccessRecord>,
)
    requires
        stable_display_sort(s, r1),
        stable_display_sort(s, r2),
    ensures
        r1 == r2,
{
    lemma_ordered_same_keys_equal(r1, r2);
}

/// Records already in display order are their own stable display sort, so
/// sorting them (or sorting twice) changes nothing.
pub proof fn lemma_display_sort_keeps_ordered(s: Seq<AccessRecord>, r: Seq<AccessRecord>)
    requires
        display_ordered(s),
        stable_display_sort(s, r),
    ensures
        r == s,
{
    lemma_ordered_same_keys_equal(r, s);
}

/// Active sensors first, then most recently used; a stable sort, like the
/// `sort_by` it stands for.
pub fn sort_sensor_access(v: Vec<SensorAccess>) -> (r: Vec<SensorAccess>)
    ensures
        stable_display_sort(records(v@), records(r@)),
        records(r@).to_multiset() == records(v@).to_multiset(),
{
    let ghost orig = records(v@);
    let mut rest = v;
    let mut out: Vec<SensorAccess> = Vec::new();
    let ghost mut taken: int = 0;
    assert(records(rest@) =~= orig.skip(0));
    while rest.len() > 0
        invariant
            0 <= taken <= orig.len(),
            records(rest@) == orig.skip(taken),
            display_ordered(records(out@)),
            forall|u: bool, t: i64| #[trigger]
                with_key(records(out@), u, t) == with_key(orig.take(taken), u, t),
            records(out@).to_multiset() == orig.take(taken).to_multiset(),
        decreases rest@.len(),
    {
        let ghost old_rest = rest@;
        let x = rest.remove(0);
        let ghost old_out = records(out@);
        proof {
            assert(records(old_rest).len() == old_rest.len());
            assert(taken < orig.len());
            assert(records(old_rest)[0] == x@);
            assert(orig.skip(taken)[0] == x@);
            assert(orig[taken] == x@);
            assert forall|k: int| 0 <= k < records(rest@).len() implies #[trigger] records(rest@)[k]
                == orig.skip(taken + 1)[k] by {
                assert(rest@[k] == old_rest[k + 1]);
                assert(records(old_rest)[k + 1] == orig.skip(taken)[k + 1]);
            }
            assert(records(rest@) =~= orig.skip(taken + 1));
            assert(orig.take(taken + 1) =~= orig.take(taken).push(x@));
        }
        let mut p: usize = 0;
        while p < out.len() && (out[p].in_use && !x.in_use || out[p].in_use == x.in_use
            && out[p].last_used >= x.last_used)
            invariant
                p <= out@.len(),
                old_out == records(out@),
                forall|k: int| 0 <= k < p ==> ranks_before(#[trigger] old_out[k], x@),
            decreases out@.len() - p,
        {
            p = p + 1;
        }
        proof {
            lemma_insert_keeps_order(old_out, p as int, x@);
            assert forall|u: bool, t: i64| #[trigger]
                with_key(old_out.insert(p as int, x@), u, t) == with_key(
                    orig.take(taken + 1),
                    u,
                    t,
                ) by {
                lemma_insert_keeps_keys(old_out, p as int, x@, u, t);
                let f = |e: AccessRecord| e.in_use == u && e.last_used == t;
                orig.take(taken).lemma_filter_push(x@, f);
            }
            vstd::seq_lib::to_multiset_insert(old_out, p as int, x@);
            vstd::seq_lib::to_multiset_build(orig.take(taken), x@);
        }
        out.insert(p, x);
        proof {
            assert(records(out@) =~= old_out.insert(p as int, x@));
            taken = taken + 1;
        }
    }
    proof {
        assert(orig.take(taken) =~= orig);
    }
    out
}

} // verus!
