//! The HWiNFO shared-memory layout ("Global\HWiNFO_SENS_SM2"): a header
//! that locates the reading section, then fixed-size reading records. This
//! module walks a copy of the mapped bytes and returns the temperature
//! readings; the readings' values stay raw IEEE-754 bit patterns, which the
//! caller turns into floating-point numbers and range-checks.

use vstd::prelude::*;
use crate::text::{decode_utf8_lossy, utf8_lossy};

verus! {

/// Header offset of the reading section's start.
pub const HEADER_READING_OFFSET_POS: usize = 36;
/// Header offset of the size of one reading record.
pub const HEADER_READING_SIZE_POS: usize = 40;
/// Header offset of the number of reading records.
pub const HEADER_READING_COUNT_POS: usize = 44;
/// Bytes of the header that are read.
pub const HEADER_LEN: usize = 48;
/// Reading type of a temperature sensor.
pub const SENSOR_TYPE_TEMP: u32 = 1;
/// Record offsets of the sensor's own label and the user-given one.
pub const LABEL_ORIG_POS: usize = 12;
pub const LABEL_USER_POS: usize = 140;
/// Longest label, in bytes.
pub const LABEL_MAX: usize = 128;
/// Record offsets of the current, minimum and maximum value (`f64`, LE).
pub const VALUE_POS: usize = 288;
pub const MIN_POS: usize = 296;
pub const MAX_POS: usize = 304;

/// The little-endian `u32` at `off`.
pub open spec fn le_u32(m: Seq<u8>, off: int) -> int {
    m[off] + 256 * m[off + 1] + 65536 * m[off + 2] + 16777216 * m[off + 3]
}

/// The little-endian `u64` at `off`.
pub open spec fn le_u64(m: Seq<u8>, off: int) -> int {
    le_u32(m, off) + 4294967296 * le_u32(m, off + 4)
}

pub open spec fn reading_offset(m: Seq<u8>) -> int {
    le_u32(m, 36)
}

pub open spec fn reading_size(m: Seq<u8>) -> int {
    le_u32(m, 40)
}

pub open spec fn reading_count(m: Seq<u8>) -> int {
    le_u32(m, 44)
}

/// The sanity gate on the section geometry: records of 200 to 1999 bytes,
/// fewer than 100000 of them. Outside it no reading is taken.
pub open spec fn geometry_plausible(m: Seq<u8>) -> bool {
    200 <= reading_size(m) < 2000 && reading_count(m) < 100000
}

/// Where record `i` starts.
pub open spec fn record_start(m: Seq<u8>, i: int) -> int {
    reading_offset(m) + i * reading_size(m)
}

/// Record `i` is a temperature reading.
pub open spec fn is_temp_record(m: Seq<u8>, i: int) -> bool {
    le_u32(m, record_start(m, i)) == 1
}

/// Every byte that reading the section touches lies within `m`: the header,
/// the type of every record and, for temperature records, the labels and
/// the three values.
pub open spec fn hwinfo_fits(m: Seq<u8>) -> bool {
    &&& m.len() >= 48
    &&& geometry_plausible(m) ==> forall|i: int|
        0 <= i < reading_count(m) ==> {
            &&& #[trigger] record_start(m, i) + 4 <= m.len()
            &&& is_temp_record(m, i) ==> record_start(m, i) + 312 <= m.len()
        }
}

/// The NUL-terminated string at `start`, at most `max` bytes long.
pub open spec fn cstr(m: Seq<u8>, start: int, max: nat) -> Seq<u8>
    decreases max,
{
    if max == 0 || m[start] == 0 {
        Seq::empty()
    } else {
        seq![m[start]] + cstr(m, start + 1, (max - 1) as nat)
    }
}

/// One temperature reading; the three values are `f64` bit patterns.
pub struct HwinfoReading {
    pub label: String,
    pub value_bits: u64,
    pub min_bits: u64,
    pub max_bits: u64,
}

pub struct ReadingRecord {
    pub label: Seq<char>,
    pub value_bits: u64,
    pub min_bits: u64,
    pub max_bits: u64,
}

impl View for HwinfoReading {
    type V = ReadingRecord;

    open spec fn view(&self) -> ReadingRecord {
        ReadingRecord {
            label: self.label@,
            value_bits: self.value_bits,
            min_bits: self.min_bits,
            max_bits: self.max_bits,
        }
    }
}

/// A record's label: the user-given one, or the sensor's own when that is empty.
pub open spec fn record_label(m: Seq<u8>, b: int) -> Seq<char> {
    let user = utf8_lossy(cstr(m, b + 140, 128));
    if user.len() == 0 {
        utf8_lossy(cstr(m, b + 12, 128))
    } else {
        user
    }
}

/// The reading of record `i`.
pub open spec fn record_reading(m: Seq<u8>, i: int) -> ReadingRecord {
    let b = record_start(m, i);
    ReadingRecord {
        label: record_label(m, b),
        value_bits: le_u64(m, b + 288) as u64,
        min_bits: le_u64(m, b + 296) as u64,
        max_bits: le_u64(m, b + 304) as u64,
    }
}

/// The temperature readings among the first `n` records, in order.
pub open spec fn readings_upto(m: Seq<u8>, n: int) -> Seq<ReadingRecord>
    decreases n,
{
    if n <= 0 {
        Seq::empty()
    } else if is_temp_record(m, n - 1) {
        readings_upto(m, n - 1).push(record_reading(m, n - 1))
    } else {
        readings_upto(m, n - 1)
    }
}

/// All temperature readings of the shared memory `m`.
pub open spec fn hwinfo_readings(m: Seq<u8>) -> Seq<ReadingRecord> {
    if geometry_plausible(m) {
        readings_upto(m, reading_count(m))
    } else {
        Seq::empty()
    }
}

/// The type field of record `i`.
pub open spec fn record_type(m: Seq<u8>, i: int) -> int {
    le_u32(m, reading_offset(m) + i * reading_size(m))
}

/// Among the first `n` records, the readings come one for one, in record
/// order, from exactly the records whose type is 1 (temperature): `src`
/// gives each reading's record.
#[verifier::rlimit(60)]
pub proof fn lemma_reading_sources(m: Seq<u8>, n: int) -> (src: Seq<int>)
    requires
        0 <= n,
    ensures
        src.len() == readings_upto(m, n).len(),
        forall|k: int|
            0 <= k < src.len() ==> 0 <= #[trigger] src[k] < n && record_type(m, src[k]) == 1
                && readings_upto(m, n)[k] == record_reading(m, src[k]),
        forall|k1: int, k2: int| 0 <= k1 < k2 < src.len() ==> src[k1] < src[k2],
        forall|i: int| 0 <= i < n && #[trigger] record_type(m, i) == 1 ==> src.contains(i),
    decreases n,
{
    if n == 0 {
        Seq::empty()
    } else {
        let prev_src = lemma_reading_sources(m, n - 1);
        let prev = readings_upto(m, n - 1);
        let cur = readings_upto(m, n);
        assert(record_type(m, n - 1) == le_u32(m, record_start(m, n - 1)));
        if record_type(m, n - 1) == 1 {
            let src = prev_src.push(n - 1);
            assert(cur == prev.push(record_reading(m, n - 1)));
            assert forall|k: int| 0 <= k < src.len() implies 0 <= #[trigger] src[k] < n
                && record_type(m, src[k]) == 1 && cur[k] == record_reading(m, src[k]) by {
                if k < prev_src.len() {
                    assert(src[k] == prev_src[k]);
                    assert(cur[k] == prev[k]);
                }
            }
            assert forall|i: int| 0 <= i < n && #[trigger] record_type(m, i) == 1 implies src.contains(
                i,
            ) by {
                if i < n - 1 {
                    let k = choose|k: int| 0 <= k < prev_src.len() && prev_src[k] == i;
                    assert(src[k] == i);
                } else {
                    assert(src[prev_src.len() as int] == i);
                }
            }
            src
        } else {
            assert(cur == prev);
            assert forall|i: int| 0 <= i < n && #[trigger] record_type(m, i) == 1 implies prev_src.contains(
                i,
            ) by {
                assert(i != n - 1);
            }
            prev_src
        }
    }
}

/// The readings taken from the shared memory come one for one, in record
/// order, from the records whose type field is 1 (temperature): a record of
/// any other type contributes none, and within the plausible geometry every
/// temperature record contributes its reading. `src` gives each reading's
/// record.
pub proof fn lemma_hwinfo_readings_are_temperatures(m: Seq<u8>) -> (src: Seq<int>)
    ensures
        src.len() == hwinfo_readings(m).len(),
        forall|k: int|
            0 <= k < src.len() ==> 0 <= #[trigger] src[k] < reading_count(m) && record_type(
                m,
                src[k],
            ) == 1 && hwinfo_readings(m)[k] == record_reading(m, src[k]),
        forall|k1: int, k2: int| 0 <= k1 < k2 < src.len() ==> src[k1] < src[k2],
        geometry_plausible(m) ==> forall|i: int|
            0 <= i < reading_count(m) && #[trigger] record_type(m, i) == 1 ==> src.contains(i),
        !geometry_plausible(m) ==> src.len() == 0,
{
    if geometry_plausible(m) {
        lemma_reading_sources(m, reading_count(m))
    } else {
        Seq::empty()
    }
}

pub open spec fn reading_views(s: Seq<HwinfoReading>) -> Seq<ReadingRecord> {
    s.map_values(|r: HwinfoReading| r@)
}

fn read_le_u32(m: &[u8], off: usize) -> (r: u32)
    requires
        off + 4 <= m@.len(),
    ensures
        r as int == le_u32(m@, off as int),
{
    m[off] as u32 + m[off + 1] as u32 * 256 + m[off + 2] as u32 * 65536 + m[off + 3] as u32
        * 16777216
}

fn read_le_u64(m: &[u8], off: usize) -> (r: u64)
    requires
        off + 8 <= m@.len(),
    ensures
        r as int == le_u64(m@, off as int),
{
    let _n = m.len();
    read_le_u32(m, off) as u64 + read_le_u32(m, off + 4) as u64 * 4294967296
}

fn read_cstr(m: &[u8], start: usize, max: usize) -> (r: Vec<u8>)
    requires
        start + max <= m@.len(),
    ensures
        r@ == cstr(m@, start as int, max as nat),
{
    let n = m.len();
    let mut r: Vec<u8> = Vec::new();
    let mut k: usize = 0;
    while k < max && m[start + k] != 0
        invariant
            n == m@.len(),
            start + max <= m@.len(),
            k <= max,
            cstr(m@, start as int, max as nat) == r@ + cstr(m@, start + k, (max - k) as nat),
        decreases max - k,
    {
        let ghost before = r@;
        r.push(m[start + k]);
        proof {
            assert(cstr(m@, start + k, (max - k) as nat) == seq![m@[start + k]] + cstr(
                m@,
                start + k + 1,
                (max - k - 1) as nat,
            ));
            assert(r@ =~= before + seq![m@[start + k]]);
            assert(before + (seq![m@[start + k]] + cstr(m@, start + k + 1, (max - k - 1) as nat))
                =~= r@ + cstr(m@, start + k + 1, (max - k - 1) as nat));
        }
        k = k + 1;
    }
    proof {
        assert(cstr(m@, start + k, (max - k) as nat) =~= Seq::<u8>::empty());
        assert(r@ + Seq::<u8>::empty() =~= r@);
    }
    r
}

/// Where record `i` starts, as a machine integer.
fn record_start_exec(off: u32, size: u32, i: u32) -> (b: u64)
    requires
        200 <= size < 2000,
        i < 100000,
    ensures
        b as int == off as int + i as int * size as int,
        b < 0x1_0000_0000 + 200_000_000,
{
    assert(0 <= i * size < 100000 * 2000) by (nonlinear_arith)
        requires
            0 <= i < 100000,
            200 <= size < 2000,
    ;
    off as u64 + i as u64 * size as u64
}

/// Whether every byte that `read_hwinfo_readings` would read lies in `m`.
pub fn hwinfo_view_fits(m: &[u8]) -> (b: bool)
    ensures
        b == hwinfo_fits(m@),
{
    if m.len() < HEADER_LEN {
        return false;
    }
    let off = read_le_u32(m, HEADER_READING_OFFSET_POS);
    let size = read_le_u32(m, HEADER_READING_SIZE_POS);
    let num = read_le_u32(m, HEADER_READING_COUNT_POS);
    if !(200 <= size && size < 2000 && num < 100000) {
        return true;
    }
    let n = m.len();
    let len = n as u64;
    let mut i: u32 = 0;
    while i < num
        invariant
            n == m@.len(),
            m@.len() >= 48,
            len == m@.len(),
            geometry_plausible(m@),
            off as int == reading_offset(m@),
            size as int == reading_size(m@),
            num as int == reading_count(m@),
            i <= num,
            forall|k: int|
                0 <= k < i ==> {
                    &&& #[trigger] record_start(m@, k) + 4 <= m@.len()
                    &&& is_temp_record(m@, k) ==> record_start(m@, k) + 312 <= m@.len()
                },
        decreases num - i,
    {
        let b = record_start_exec(off, size, i);
        assert(b as int == record_start(m@, i as int));
        if b + 4 > len {
            return false;
        }
        let t = read_le_u32(m, b as usize);
        assert(t as int == le_u32(m@, record_start(m@, i as int)));
        if t == SENSOR_TYPE_TEMP && b + 312 > len {
            return false;
        }
        i = i + 1;
    }
    true
}

/// The temperature readings in a copy of HWiNFO's shared memory.
pub fn read_hwinfo_readings(m: &[u8]) -> (r: Vec<HwinfoReading>)
    requires
        hwinfo_fits(m@),
    ensures
        reading_views(r@) == hwinfo_readings(m@),
{
    let mut out: Vec<HwinfoReading> = Vec::new();
    let off = read_le_u32(m, HEADER_READING_OFFSET_POS);
    let size = read_le_u32(m, HEADER_READING_SIZE_POS);
    let num = read_le_u32(m, HEADER_READING_COUNT_POS);
    if !(200 <= size && size < 2000 && num < 100000) {
        assert(reading_views(out@) =~= Seq::<ReadingRecord>::empty());
        return out;
    }
    let n = m.len();
    let mut i: u32 = 0;
    while i < num
        invariant
            n == m@.len(),
            hwinfo_fits(m@),
            geometry_plausible(m@),
            off as int == reading_offset(m@),
            size as int == reading_size(m@),
            num as int == reading_count(m@),
            i <= num,
            reading_views(out@) == readings_upto(m@, i as int),
        decreases num - i,
    {
        let b64 = record_start_exec(off, size, i);
        assert(b64 as int == record_start(m@, i as int));
        assert(record_start(m@, i as int) + 4 <= m@.len());
        let b = b64 as usize;
        if read_le_u32(m, b) == SENSOR_TYPE_TEMP {
            assert(is_temp_record(m@, i as int));
            let user = decode_utf8_lossy(read_cstr(m, b + LABEL_USER_POS, LABEL_MAX).as_slice());
            let label = if user.as_str().is_empty() {
                decode_utf8_lossy(read_cstr(m, b + LABEL_ORIG_POS, LABEL_MAX).as_slice())
            } else {
                user
            };
            let reading = HwinfoReading {
                label,
                value_bits: read_le_u64(m, b + VALUE_POS),
                min_bits: read_le_u64(m, b + MIN_POS),
                max_bits: read_le_u64(m, b + MAX_POS),
            };
            assert(reading@ == record_reading(m@, i as int));
            let ghost before = reading_views(out@);
            out.push(reading);
            assert(reading_views(out@) =~= before.push(reading@));
        } else {
            assert(!is_temp_record(m@, i as int));
        }
        i = i + 1;
    }
    out
}

} // verus!
