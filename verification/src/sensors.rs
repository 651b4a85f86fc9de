//! Temperature sources: choosing the representative CPU sensor, combining
//! the sources in order of preference, and reading the text that
//! `nvidia-smi` and WMI report. The temperatures themselves are
//! floating-point values and stay with the caller; this module handles the
//! labels and the text around them.

use vstd::prelude::*;
use crate::text::{
    after_first, after_last, after_last_str, before_first, concat_str, contains_seq, contains_str,
    lowercase, same_text, split_once_char, to_lowercase, trim, trim_str,
};

verus! {

broadcast use vstd::seq_lib::group_seq_properties;

// ---------------------------------------------------------------------------
// Representative CPU temperature
// ---------------------------------------------------------------------------

/// What the choice of a CPU sensor reads of a sensor: its label and kind
/// ("temp" or "fan").
pub struct SensorTag {
    pub label: String,
    pub kind: String,
}

impl View for SensorTag {
    type V = (Seq<char>, Seq<char>);

    open spec fn view(&self) -> (Seq<char>, Seq<char>) {
        (self.label@, self.kind@)
    }
}

pub open spec fn tag_views(s: Seq<SensorTag>) -> Seq<(Seq<char>, Seq<char>)> {
    s.map_values(|t: SensorTag| t@)
}

/// A temperature sensor whose lowercased label contains `kw`.
pub open spec fn tag_matches(tag: (Seq<char>, Seq<char>), kw: Seq<char>) -> bool {
    tag.1 == "temp"@ && contains_seq(lowercase(tag.0), kw)
}

/// The first sensor at or after `from` that matches `kw`.
pub open spec fn first_match_from(s: Seq<(Seq<char>, Seq<char>)>, kw: Seq<char>, from: int) -> Option<
    int,
>
    decreases s.len() - from,
{
    if from < 0 || from >= s.len() {
        None
    } else if tag_matches(s[from], kw) {
        Some(from)
    } else {
        first_match_from(s, kw, from + 1)
    }
}

/// The sensor that stands for the CPU on the timeline: the first "package"
/// temperature, else the first "cpu" one.
pub open spec fn spec_pick_cpu_temp(s: Seq<(Seq<char>, Seq<char>)>) -> Option<int> {
    match first_match_from(s, "package"@, 0) {
        Some(i) => Some(i),
        None => first_match_from(s, "cpu"@, 0),
    }
}

/// A temperature sensor whose lowercased label contains `kw`, stated on the
/// sensor's label and kind directly.
pub open spec fn is_temp_with(tag: (Seq<char>, Seq<char>), kw: Seq<char>) -> bool {
    tag.1 == "temp"@ && contains_seq(lowercase(tag.0), kw)
}

proof fn lemma_first_match_from_sound(s: Seq<(Seq<char>, Seq<char>)>, kw: Seq<char>, from: int)
    requires
        0 <= from,
    ensures
        first_match_from(s, kw, from) matches Some(j) ==> from <= j < s.len() && is_temp_with(
            s[j],
            kw,
        ),
        first_match_from(s, kw, from) is None ==> forall|k: int|
            from <= k < s.len() ==> !is_temp_with(#[trigger] s[k], kw),
    decreases s.len() - from,
{
    if from < s.len() && !tag_matches(s[from], kw) {
        lemma_first_match_from_sound(s, kw, from + 1);
        if first_match_from(s, kw, from) is None {
            assert forall|k: int| from <= k < s.len() implies !is_temp_with(#[trigger] s[k], kw) by {
                if k > from {
                }
            }
        }
    }
}

proof fn lemma_first_match_from_finds(
    s: Seq<(Seq<char>, Seq<char>)>,
    kw: Seq<char>,
    from: int,
    i: int,
)
    requires
        0 <= from <= i < s.len(),
        is_temp_with(s[i], kw),
    ensures
        first_match_from(s, kw, from) matches Some(j) && from <= j <= i && is_temp_with(s[j], kw),
    decreases i - from,
{
    if !tag_matches(s[from], kw) {
        lemma_first_match_from_finds(s, kw, from + 1, i);
    }
}

/// Whatever sensor is picked is a temperature sensor whose lowercased label
/// contains "package" or "cpu".
pub proof fn lemma_pick_is_cpu_sensor(s: Seq<(Seq<char>, Seq<char>)>)
    ensures
        spec_pick_cpu_temp(s) matches Some(j) ==> 0 <= j < s.len() && (is_temp_with(
            s[j],
            "package"@,
        ) || is_temp_with(s[j], "cpu"@)),
{
    lemma_first_match_from_sound(s, "package"@, 0);
    lemma_first_match_from_sound(s, "cpu"@, 0);
}

/// When some sensor is a "package" temperature, the pick is the first such
/// sensor: a "package" temperature at or before it.
pub proof fn lemma_pick_prefers_package(s: Seq<(Seq<char>, Seq<char>)>, i: int)
    requires
        0 <= i < s.len(),
        s[i].1 == "temp"@,
        contains_seq(lowercase(s[i].0), "package"@),
    ensures
        spec_pick_cpu_temp(s) matches Some(j) && 0 <= j <= i && is_temp_with(s[j], "package"@)
            && forall|k: int| 0 <= k < j ==> !is_temp_with(#[trigger] s[k], "package"@),
{
    lemma_first_match_from_finds(s, "package"@, 0, i);
    lemma_first_mismatch_before(s, "package"@, 0);
}

proof fn lemma_first_mismatch_before(s: Seq<(Seq<char>, Seq<char>)>, kw: Seq<char>, from: int)
    requires
        0 <= from,
    ensures
        first_match_from(s, kw, from) matches Some(j) ==> forall|k: int|
            from <= k < j ==> !is_temp_with(#[trigger] s[k], kw),
    decreases s.len() - from,
{
    if from < s.len() && !tag_matches(s[from], kw) {
        lemma_first_mismatch_before(s, kw, from + 1);
        if let Some(j) = first_match_from(s, kw, from) {
            assert forall|k: int| from <= k < j implies !is_temp_with(#[trigger] s[k], kw) by {
                if k > from {
                }
            }
        }
    }
}

/// When no sensor is a "package" temperature but some sensor is a "cpu"
/// temperature, the pick is the first "cpu" temperature.
pub proof fn lemma_pick_falls_back_to_cpu(s: Seq<(Seq<char>, Seq<char>)>, i: int)
    requires
        forall|k: int| 0 <= k < s.len() ==> !is_temp_with(#[trigger] s[k], "package"@),
        0 <= i < s.len(),
        s[i].1 == "temp"@,
        contains_seq(lowercase(s[i].0), "cpu"@),
    ensures
        spec_pick_cpu_temp(s) matches Some(j) && 0 <= j <= i && is_temp_with(s[j], "cpu"@)
            && forall|k: int| 0 <= k < j ==> !is_temp_with(#[trigger] s[k], "cpu"@),
{
    lemma_first_match_from_sound(s, "package"@, 0);
    if let Some(j) = first_match_from(s, "package"@, 0) {
        assert(!is_temp_with(s[j], "package"@));
    }
    lemma_first_match_from_finds(s, "cpu"@, 0, i);
    lemma_first_mismatch_before(s, "cpu"@, 0);
}

/// When no sensor is a "package" or "cpu" temperature, nothing is picked.
pub proof fn lemma_pick_none_without_cpu_sensor(s: Seq<(Seq<char>, Seq<char>)>)
    requires
        forall|k: int|
            0 <= k < s.len() ==> !is_temp_with(#[trigger] s[k], "package"@) && !is_temp_with(
                s[k],
                "cpu"@,
            ),
    ensures
        spec_pick_cpu_temp(s) is None,
{
    lemma_first_match_from_sound(s, "package"@, 0);
    lemma_first_match_from_sound(s, "cpu"@, 0);
    if let Some(j) = first_match_from(s, "package"@, 0) {
        assert(!is_temp_with(s[j], "package"@));
    }
    if let Some(j) = first_match_from(s, "cpu"@, 0) {
        assert(!is_temp_with(s[j], "cpu"@));
    }
}

fn first_match(sensors: &Vec<SensorTag>, kw: &str) -> (r: Option<usize>)
    ensures
        match r {
            Some(i) => first_match_from(tag_views(sensors@), kw@, 0) == Some(i as int),
            None => first_match_from(tag_views(sensors@), kw@, 0) is None,
        },
{
    let ghost s = tag_views(sensors@);
    let mut i: usize = 0;
    while i < sensors.len()
        invariant
            s == tag_views(sensors@),
            i <= sensors@.len(),
            first_match_from(s, kw@, 0) == first_match_from(s, kw@, i as int),
        decreases sensors@.len() - i,
    {
        let is_temp = same_text(sensors[i].kind.as_str(), "temp");
        let hit = if is_temp {
            let lower = to_lowercase(sensors[i].label.as_str());
            contains_str(lower.as_str(), kw)
        } else {
            false
        };
        assert(s[i as int] == sensors@[i as int]@);
        if hit {
            return Some(i);
        }
        i = i + 1;
    }
    None
}

/// Picks the representative CPU temperature sensor: prefer a "package"
/// sensor, else any CPU-labelled one. Returns its index.
pub fn pick_cpu_temp(sensors: &Vec<SensorTag>) -> (r: Option<usize>)
    ensures
        match r {
            Some(i) => spec_pick_cpu_temp(tag_views(sensors@)) == Some(i as int),
            None => spec_pick_cpu_temp(tag_views(sensors@)) is None,
        },
{
    match first_match(sensors, "package") {
        Some(i) => Some(i),
        None => first_match(sensors, "cpu"),
    }
}

// ---------------------------------------------------------------------------
// Combining the sources
// ---------------------------------------------------------------------------

/// The sensors to show: the LibreHardwareMonitor helper's when it reported
/// any; otherwise HWiNFO's, then the cached ACPI ones, then the GPU ones,
/// available when any of them is.
pub fn combine_temperatures<T>(
    lhm: Vec<T>,
    hwinfo_available: bool,
    hwinfo: Vec<T>,
    acpi: Vec<T>,
    gpu: Vec<T>,
) -> (r: (bool, Vec<T>))
    ensures
        lhm@.len() > 0 ==> r.0 && r.1@ == lhm@,
        lhm@.len() == 0 ==> r.0 == (hwinfo_available || acpi@.len() > 0 || gpu@.len() > 0)
            && r.1@ == hwinfo@ + acpi@ + gpu@,
{
    if lhm.len() > 0 {
        return (true, lhm);
    }
    let available = hwinfo_available || acpi.len() > 0 || gpu.len() > 0;
    let mut sensors = hwinfo;
    let mut acpi = acpi;
    let mut gpu = gpu;
    sensors.append(&mut acpi);
    sensors.append(&mut gpu);
    (available, sensors)
}

// ---------------------------------------------------------------------------
// Text lines
// ---------------------------------------------------------------------------

/// Index of the first `c` at or after `from` (the length when none).
pub open spec fn next_index(s: Seq<char>, c: char, from: int) -> int
    decreases s.len() - from,
{
    if from < 0 || from >= s.len() {
        s.len() as int
    } else if s[from] == c {
        from
    } else {
        next_index(s, c, from + 1)
    }
}

pub proof fn lemma_next_index_bounds(s: Seq<char>, c: char, from: int)
    requires
        0 <= from <= s.len(),
    ensures
        from <= next_index(s, c, from) <= s.len(),
        next_index(s, c, from) < s.len() ==> s[next_index(s, c, from)] == c,
        forall|t: int| from <= t < next_index(s, c, from) ==> #[trigger] s[t] != c,
    decreases s.len() - from,
{
    if from < s.len() && s[from] != c {
        lemma_next_index_bounds(s, c, from + 1);
    }
}

/// A line ended by '\n' loses one '\r' before it.
pub open spec fn strip_cr(l: Seq<char>) -> Seq<char> {
    if l.len() > 0 && l.last() == '\r' {
        l.drop_last()
    } else {
        l
    }
}

/// `str::lines` on the text from `from` on: split at '\n', each terminated
/// line without its "\n" or "\r\n", and no empty line after a final '\n'.
pub open spec fn lines_from(s: Seq<char>, from: int) -> Seq<Seq<char>>
    decreases s.len() - from,
{
    if from < 0 || from >= s.len() {
        Seq::empty()
    } else {
        let k = next_index(s, '\n', from);
        if k >= s.len() {
            seq![s.subrange(from, s.len() as int)]
        } else {
            proof {
                lemma_next_index_bounds(s, '\n', from);
            }
            seq![strip_cr(s.subrange(from, k))] + lines_from(s, k + 1)
        }
    }
}

/// `str::lines`.
pub open spec fn lines(s: Seq<char>) -> Seq<Seq<char>> {
    lines_from(s, 0)
}

pub open spec fn string_views(v: Seq<String>) -> Seq<Seq<char>> {
    v.map_values(|x: String| x@)
}

/// The lines of `text`, as `str::lines` yields them.
pub fn split_lines(text: &str) -> (r: Vec<String>)
    ensures
        string_views(r@) == lines(text@),
{
    let v = crate::text::chars_of(text);
    let n = v.len();
    let mut out: Vec<String> = Vec::new();
    let mut pos: usize = 0;
    assert(string_views(out@) + lines_from(v@, 0) =~= lines_from(v@, 0));
    while pos < n
        invariant
            v@ == text@,
            n == v@.len(),
            pos <= n,
            string_views(out@) + lines_from(v@, pos as int) == lines_from(v@, 0),
        decreases n - pos,
    {
        let ghost before = string_views(out@);
        let mut k = pos;
        while k < n && v[k] != '\n'
            invariant
                n == v@.len(),
                pos <= k <= n,
                forall|t: int| pos <= t < k ==> #[trigger] v@[t] != '\n',
            decreases n - k,
        {
            k = k + 1;
        }
        proof {
            lemma_next_index_bounds(v@, '\n', pos as int);
            let j = next_index(v@, '\n', pos as int);
            if j < k {
                assert(v@[j] != '\n');
            }
            if k < j {
                assert(v@[k as int] != '\n');
            }
            assert(j == k);
        }
        let mut line = String::new();
        if k == n {
            crate::text::push_chars(&mut line, v.as_slice(), pos, n);
            out.push(line);
            proof {
                assert(lines_from(v@, n as int) =~= Seq::<Seq<char>>::empty());
                assert(string_views(out@) =~= before.push(v@.subrange(pos as int, n as int)));
                assert(lines_from(v@, pos as int) =~= seq![v@.subrange(pos as int, n as int)]);
                assert(string_views(out@) + lines_from(v@, n as int) =~= before + lines_from(
                    v@,
                    pos as int,
                ));
            }
            pos = n;
        } else {
            let end = if k > pos && v[k - 1] == '\r' {
                k - 1
            } else {
                k
            };
            crate::text::push_chars(&mut line, v.as_slice(), pos, end);
            out.push(line);
            proof {
                let seg = v@.subrange(pos as int, k as int);
                assert(strip_cr(seg) =~= v@.subrange(pos as int, end as int));
                assert(string_views(out@) =~= before.push(strip_cr(seg)));
                assert(lines_from(v@, pos as int) == seq![strip_cr(seg)] + lines_from(
                    v@,
                    k + 1,
                ));
                assert(string_views(out@) + lines_from(v@, k + 1) =~= before + lines_from(
                    v@,
                    pos as int,
                ));
            }
            pos = k + 1;
        }
    }
    assert(lines_from(v@, pos as int) =~= Seq::<Seq<char>>::empty());
    assert(string_views(out@) + Seq::<Seq<char>>::empty() =~= string_views(out@));
    out
}

// ---------------------------------------------------------------------------
// nvidia-smi
// ---------------------------------------------------------------------------

/// One line of `nvidia-smi --query-gpu=name,temperature.gpu
/// --format=csv,noheader,nounits`: the sensor label "GPU: <name>" and the
/// (trimmed) temperature text, or nothing when the line has fewer than two
/// comma-separated fields.
pub open spec fn spec_nvidia_row(line: Seq<char>) -> Option<(Seq<char>, Seq<char>)> {
    match after_first(line, ',') {
        None => None,
        Some(rest) => Some(
            ("GPU: "@ + trim(before_first(line, ',')), trim(before_first(rest, ','))),
        ),
    }
}

/// A GPU's label and temperature text, as read from one line.
pub struct GpuRow {
    pub label: String,
    pub temp_text: String,
}

impl View for GpuRow {
    type V = (Seq<char>, Seq<char>);

    open spec fn view(&self) -> (Seq<char>, Seq<char>) {
        (self.label@, self.temp_text@)
    }
}

pub fn nvidia_row(line: &str) -> (r: Option<GpuRow>)
    ensures
        match r {
            Some(row) => spec_nvidia_row(line@) == Some(row@),
            None => spec_nvidia_row(line@) is None,
        },
{
    let (name, rest) = split_once_char(line, ',');
    match rest {
        None => None,
        Some(rest) => {
            let (temp, _more) = split_once_char(rest.as_str(), ',');
            let label = concat_str("GPU: ", trim_str(name.as_str()).as_str());
            let temp_text = trim_str(temp.as_str());
            Some(GpuRow { label, temp_text })
        },
    }
}

/// The rows of the lines that have at least two fields, in order.
pub open spec fn nvidia_rows(ls: Seq<Seq<char>>) -> Seq<(Seq<char>, Seq<char>)>
    decreases ls.len(),
{
    if ls.len() == 0 {
        Seq::empty()
    } else {
        match spec_nvidia_row(ls.last()) {
            Some(row) => nvidia_rows(ls.drop_last()).push(row),
            None => nvidia_rows(ls.drop_last()),
        }
    }
}

pub open spec fn gpu_row_views(v: Seq<GpuRow>) -> Seq<(Seq<char>, Seq<char>)> {
    v.map_values(|r: GpuRow| r@)
}

/// The GPU rows of `nvidia-smi`'s output.
pub fn parse_nvidia_output(text: &str) -> (r: Vec<GpuRow>)
    ensures
        gpu_row_views(r@) == nvidia_rows(lines(text@)),
{
    let ls = split_lines(text);
    let ghost lv = string_views(ls@);
    let mut out: Vec<GpuRow> = Vec::new();
    let mut i: usize = 0;
    assert(lv.take(0) =~= Seq::<Seq<char>>::empty());
    assert(gpu_row_views(out@) =~= Seq::<(Seq<char>, Seq<char>)>::empty());
    while i < ls.len()
        invariant
            lv == string_views(ls@),
            i <= ls@.len(),
            gpu_row_views(out@) == nvidia_rows(lv.take(i as int)),
        decreases ls@.len() - i,
    {
        let ghost before = gpu_row_views(out@);
        proof {
            assert(lv.take(i + 1).drop_last() =~= lv.take(i as int));
            assert(lv.take(i + 1).last() == ls@[i as int]@);
        }
        match nvidia_row(ls[i].as_str()) {
            Some(row) => {
                out.push(row);
                assert(gpu_row_views(out@) =~= before.push(out@.last()@));
            },
            None => {},
        }
        i = i + 1;
    }
    assert(lv.take(ls@.len() as int) =~= lv);
    out
}

// ---------------------------------------------------------------------------
// ACPI thermal zones
// ---------------------------------------------------------------------------

/// The label of an ACPI thermal zone: "CPU/ACPI: " and the last component
/// of its WMI instance name.
pub open spec fn spec_acpi_zone_label(instance_name: Seq<char>) -> Seq<char> {
    "CPU/ACPI: "@ + after_last(instance_name, '\\')
}

pub fn acpi_zone_label(instance_name: &str) -> (r: String)
    ensures
        r@ == spec_acpi_zone_label(instance_name@),
{
    let zone = after_last_str(instance_name, '\\');
    concat_str("CPU/ACPI: ", zone.as_str())
}

} // verus!
