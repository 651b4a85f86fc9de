//! The monitor's bookkeeping: the background sampler's counters, the
//! figures stored per sample, the history window, and the small decisions
//! the commands and the tray make.

use vstd::prelude::*;
use crate::text::{decimal, push_decimal, same_text};

verus! {

/// Seconds between two samples.
pub const SAMPLE_SECS: u64 = 2;
/// How long samples are kept: three days.
pub const RETENTION_SECS: i64 = 259_200;
/// Heaviest processes stored per sample.
pub const TOP_N: usize = 8;
/// Old rows are pruned every this many samples.
pub const PRUNE_EVERY: u32 = 60;
/// The sensor helper is polled every this many samples.
pub const LHM_POLL_EVERY: u32 = 3;

// ---------------------------------------------------------------------------
// Sampler
// ---------------------------------------------------------------------------

/// The counters of the background sampling loop.
pub struct SamplerState {
    /// Samples persisted so far (wrapping).
    pub tick: u32,
    /// Cycles in which the sensor helper was considered (wrapping).
    pub lhm_tick: u32,
}

/// `x + 1` wrapping at 2^32.
pub open spec fn next_tick(x: u32) -> u32 {
    if x == u32::MAX {
        0
    } else {
        (x + 1) as u32
    }
}

impl SamplerState {
    /// Whether the next `after_persist` prunes, i.e. needs its cutoff.
    pub fn prune_due_next(&self) -> (r: bool)
        ensures
            r == (next_tick(self.tick) % 60 == 0),
    {
        self.tick.wrapping_add(1) % PRUNE_EVERY == 0
    }

    pub fn new() -> (r: SamplerState)
        ensures
            r.tick == 0,
            r.lhm_tick == 0,
    {
        SamplerState { tick: 0, lhm_tick: 0 }
    }

    /// Whether the sensor helper is polled this cycle: only when it exists,
    /// and then every third cycle, starting with the first.
    pub fn lhm_poll_due(&mut self, has_helper: bool) -> (due: bool)
        ensures
            final(self).tick == old(self).tick,
            has_helper ==> due == (old(self).lhm_tick % 3 == 0) && final(self).lhm_tick
                == next_tick(old(self).lhm_tick),
            !has_helper ==> !due && final(self).lhm_tick == old(self).lhm_tick,
    {
        if !has_helper {
            return false;
        }
        let due = self.lhm_tick % LHM_POLL_EVERY == 0;
        self.lhm_tick = self.lhm_tick.wrapping_add(1);
        due
    }

    /// After a sample is persisted at `ts`: counts it, and on every
    /// sixtieth count returns the cutoff before which rows are pruned.
    /// (The cutoff `ts - RETENTION_SECS` must not overflow when it is due.)
    pub fn after_persist(&mut self, ts: i64) -> (cutoff: Option<i64>)
        requires
            next_tick(old(self).tick) % 60 == 0 ==> ts >= i64::MIN + RETENTION_SECS,
        ensures
            final(self).lhm_tick == old(self).lhm_tick,
            final(self).tick == next_tick(old(self).tick),
            cutoff == (if final(self).tick % 60 == 0 {
                Some((ts - RETENTION_SECS) as i64)
            } else {
                None
            }),
    {
        self.tick = self.tick.wrapping_add(1);
        if self.tick % PRUNE_EVERY == 0 {
            Some(ts - RETENTION_SECS)
        } else {
            None
        }
    }
}

// ---------------------------------------------------------------------------
// Per-sample figures
// ---------------------------------------------------------------------------

/// The CPU count used to scale per-process CPU usage: at least one.
pub fn effective_cpu_count(n: usize) -> (r: usize)
    ensures
        r == (if n == 0 {
            1
        } else {
            n
        }),
{
    if n == 0 {
        1
    } else {
        n
    }
}

/// How many of the (sorted) processes are stored with a sample.
pub fn top_count(n: usize) -> (r: usize)
    ensures
        r == (if n < TOP_N {
            n
        } else {
            TOP_N
        }),
{
    if n < TOP_N {
        n
    } else {
        TOP_N
    }
}

/// Total bytes read by the processes of a sample.
pub open spec fn total_read(s: Seq<(u64, u64)>) -> int
    decreases s.len(),
{
    if s.len() == 0 {
        0
    } else {
        total_read(s.drop_last()) + s.last().0
    }
}

/// Total bytes written by the processes of a sample.
pub open spec fn total_written(s: Seq<(u64, u64)>) -> int
    decreases s.len(),
{
    if s.len() == 0 {
        0
    } else {
        total_written(s.drop_last()) + s.last().1
    }
}

proof fn lemma_totals_grow(s: Seq<(u64, u64)>, i: int)
    requires
        0 <= i <= s.len(),
    ensures
        0 <= total_read(s.take(i)) <= total_read(s),
        0 <= total_written(s.take(i)) <= total_written(s),
    decreases s.len(),
{
    if s.len() == 0 {
        assert(s.take(i) =~= s);
    } else if i == s.len() {
        lemma_totals_grow(s.drop_last(), i - 1);
        assert(s.drop_last().take(i - 1) =~= s.drop_last());
        assert(s.take(i) =~= s);
    } else {
        lemma_totals_grow(s.drop_last(), i);
        assert(s.drop_last().take(i) =~= s.take(i));
    }
}

/// The disk totals of a sample, as (read, written) over all processes, or
/// `None` when a total does not fit in 64 bits (where the unchecked sum
/// would overflow).
pub fn disk_totals(io: &Vec<(u64, u64)>) -> (r: Option<(u64, u64)>)
    ensures
        r is Some <==> (total_read(io@) <= u64::MAX && total_written(io@) <= u64::MAX),
        r matches Some(t) ==> t.0 == total_read(io@) && t.1 == total_written(io@),
{
    let mut read: u64 = 0;
    let mut written: u64 = 0;
    let mut i: usize = 0;
    assert(io@.take(0) =~= Seq::<(u64, u64)>::empty());
    while i < io.len()
        invariant
            i <= io@.len(),
            read == total_read(io@.take(i as int)),
            written == total_written(io@.take(i as int)),
        decreases io@.len() - i,
    {
        let (r, w) = io[i];
        proof {
            assert(io@.take(i + 1).drop_last() =~= io@.take(i as int));
            lemma_totals_grow(io@, i + 1);
        }
        match read.checked_add(r) {
            Some(x) => read = x,
            None => return None,
        }
        match written.checked_add(w) {
            Some(x) => written = x,
            None => return None,
        }
        i = i + 1;
    }
    assert(io@.take(io@.len() as int) =~= io@);
    Some((read, written))
}

// ---------------------------------------------------------------------------
// History
// ---------------------------------------------------------------------------

/// The available history range and the sampling parameters.
pub struct HistoryWindow {
    pub min_ts: Option<i64>,
    pub max_ts: Option<i64>,
    pub retention_secs: i64,
    pub sample_secs: u64,
}

pub fn history_window(min_ts: Option<i64>, max_ts: Option<i64>) -> (r: HistoryWindow)
    ensures
        r.min_ts == min_ts,
        r.max_ts == max_ts,
        r.retention_secs == RETENTION_SECS,
        r.sample_secs == SAMPLE_SECS,
{
    HistoryWindow { min_ts, max_ts, retention_secs: RETENTION_SECS, sample_secs: SAMPLE_SECS }
}

/// The width of the history buckets: the requested width, at least one
/// second.
pub fn bucket_width(bucket_secs: i64) -> (r: i64)
    ensures
        r == (if bucket_secs < 1 {
            1
        } else {
            bucket_secs
        }),
{
    if bucket_secs < 1 {
        1
    } else {
        bucket_secs
    }
}

// ---------------------------------------------------------------------------
// Commands
// ---------------------------------------------------------------------------

/// The error a command reports for a PID that is not running.
pub open spec fn spec_process_not_found(pid: u32) -> Seq<char> {
    "Process "@ + decimal(pid as nat) + " not found"@
}

pub fn process_not_found(pid: u32) -> (r: String)
    ensures
        r@ == spec_process_not_found(pid),
{
    let mut s = "Process ".to_owned();
    push_decimal(&mut s, pid);
    s.append(" not found");
    s
}

/// What a tray menu item does.
#[derive(Clone, Copy, Debug, PartialEq, Eq, Structural)]
pub enum TrayAction {
    /// Show, unminimize and focus the main window.
    Show,
    /// Exit the application.
    Quit,
    /// Nothing.
    Ignore,
}

pub open spec fn spec_tray_menu_action(id: Seq<char>) -> TrayAction {
    if id == "show"@ {
        TrayAction::Show
    } else if id == "quit"@ {
        TrayAction::Quit
    } else {
        TrayAction::Ignore
    }
}

/// The action of the tray menu item with id `id`.
pub fn tray_menu_action(id: &str) -> (r: TrayAction)
    ensures
        r == spec_tray_menu_action(id@),
{
    if same_text(id, "show") {
        TrayAction::Show
    } else if same_text(id, "quit") {
        TrayAction::Quit
    } else {
        TrayAction::Ignore
    }
}

/// A click on the tray icon restores the window when it is the left button
/// being released.
pub fn tray_click_reveals(left_button: bool, released: bool) -> (r: bool)
    ensures
        r == (left_button && released),
{
    left_button && released
}

/// `ShellExecuteW` reports success with a value above 32.
pub fn elevation_started(code: isize) -> (r: bool)
    ensures
        r == (code > 32),
{
    code > 32
}

/// The process runs elevated when the token query succeeded and reported
/// elevation.
pub fn token_elevated(query_ok: i32, elevated: u32) -> (r: bool)
    ensures
        r == (query_ok != 0 && elevated != 0),
{
    query_ok != 0 && elevated != 0
}

} // verus!
