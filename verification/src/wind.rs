//! Wind alert levels: the level reported to the UI follows the per-window
//! candidate level only after it has held for a few consecutive windows
//! (quickly when wind rises, slowly when it falls), and is re-reported at a
//! fixed interval.
use vstd::prelude::*;

verus! {

/// Consecutive windows a higher level must hold before it is reported.
pub const ATTACK_WINDOWS: u8 = 4;
/// Consecutive windows a lower level must hold before it is reported.
pub const RELEASE_WINDOWS: u8 = 8;
/// Windows after which the current level is reported again.
pub const EVENT_WINDOW_INTERVAL: u8 = 4;

/// The level hysteresis of the wind detector.
#[derive(Clone, Copy, Debug, PartialEq, Eq, Structural)]
pub struct WindLevelFilter {
    pub current_level: u8,
    pub pending_level: u8,
    pub pending_windows: u8,
    pub windows_since_event: u8,
}

/// `x + 1`, saturating at 255.
pub open spec fn saturating_inc(x: u8) -> u8 {
    if x == 255 { 255 } else { (x + 1) as u8 }
}

/// The filter after one analysis window whose candidate level is
/// `candidate`, and the level reported then, if any.
pub open spec fn stepped(s: WindLevelFilter, candidate: u8) -> (WindLevelFilter, Option<u8>) {
    let (pending_level, pending_windows) = if candidate == s.current_level {
        (candidate, 0u8)
    } else if candidate == s.pending_level {
        (s.pending_level, saturating_inc(s.pending_windows))
    } else {
        (candidate, 1u8)
    };
    let required = if candidate > s.current_level { ATTACK_WINDOWS } else { RELEASE_WINDOWS };
    let changed = pending_windows >= required;
    let current_level = if changed { candidate } else { s.current_level };
    let pending_windows = if changed { 0u8 } else { pending_windows };
    let since = saturating_inc(s.windows_since_event);
    let report = changed || since >= EVENT_WINDOW_INTERVAL;
    (
        WindLevelFilter {
            current_level,
            pending_level,
            pending_windows,
            windows_since_event: if report { 0u8 } else { since },
        },
        if report { Some(current_level) } else { None },
    )
}

impl WindLevelFilter {
    /// Calm, nothing pending.
    pub fn new() -> (f: WindLevelFilter)
        ensures
            f.current_level == 0 && f.pending_level == 0 && f.pending_windows == 0 && f.windows_since_event == 0,
    {
        WindLevelFilter { current_level: 0, pending_level: 0, pending_windows: 0, windows_since_event: 0 }
    }

    /// Takes one window's candidate level; returns the level to report.
    pub fn observe(&mut self, candidate: u8) -> (report: Option<u8>)
        ensures
            (*final(self), report) == stepped(*old(self), candidate),
    {
        if candidate == self.current_level {
            self.pending_level = candidate;
            self.pending_windows = 0;
        } else if candidate == self.pending_level {
            self.pending_windows = if self.pending_windows == 255 { 255 } else { self.pending_windows + 1 };
        } else {
            self.pending_level = candidate;
            self.pending_windows = 1;
        }
        let required = if candidate > self.current_level { ATTACK_WINDOWS } else { RELEASE_WINDOWS };
        let changed = self.pending_windows >= required;
        if changed {
            self.current_level = candidate;
            self.pending_windows = 0;
        }
        self.windows_since_event = if self.windows_since_event == 255 { 255 } else { self.windows_since_event + 1 };
        if changed || self.windows_since_event >= EVENT_WINDOW_INTERVAL {
            self.windows_since_event = 0;
            Some(self.current_level)
        } else {
            None
        }
    }
}

/// The filter after `n` windows that all have the candidate level `c`.
pub open spec fn repeated(s: WindLevelFilter, c: u8, n: nat) -> WindLevelFilter
    decreases n,
{
    if n == 0 {
        s
    } else {
        stepped(repeated(s, c, (n - 1) as nat), c).0
    }
}

proof fn lemma_repeated_pending(s: WindLevelFilter, c: u8, n: nat, required: u8)
    requires
        c != s.current_level,
        s.pending_level != c,
        required == if c > s.current_level { ATTACK_WINDOWS } else { RELEASE_WINDOWS },
        1 <= n < required,
    ensures
        repeated(s, c, n).current_level == s.current_level,
        repeated(s, c, n).pending_level == c,
        repeated(s, c, n).pending_windows == n,
    decreases n,
{
    let prev = repeated(s, c, (n - 1) as nat);
    assert(repeated(s, c, n) == stepped(prev, c).0);
    if n > 1 {
        lemma_repeated_pending(s, c, (n - 1) as nat, required);
        assert(prev.pending_windows == n - 1);
        assert(saturating_inc(prev.pending_windows) == n);
    } else {
        assert(prev == s);
    }
}

/// A new wind level is reported only once it has held for its number of
/// consecutive windows (`ATTACK_WINDOWS` when rising, `RELEASE_WINDOWS` when
/// falling), and then it is: one window fewer leaves the level unchanged.
pub proof fn lemma_level_changes_after_consecutive_windows(s: WindLevelFilter, c: u8)
    requires
        c != s.current_level,
        s.pending_level != c,
    ensures
        ({
            let required = if c > s.current_level { ATTACK_WINDOWS } else { RELEASE_WINDOWS };
            &&& repeated(s, c, (required - 1) as nat).current_level == s.current_level
            &&& repeated(s, c, required as nat).current_level == c
        }),
{
    let required = if c > s.current_level { ATTACK_WINDOWS } else { RELEASE_WINDOWS };
    lemma_repeated_pending(s, c, (required - 1) as nat, required);
    let prev = repeated(s, c, (required - 1) as nat);
    assert(repeated(s, c, required as nat) == stepped(prev, c).0);
}

/// The filter after the first `n` windows of `candidates`.
pub open spec fn filter_after(s: WindLevelFilter, candidates: Seq<u8>, n: nat) -> WindLevelFilter
    decreases n,
{
    if n == 0 {
        s
    } else {
        stepped(filter_after(s, candidates, (n - 1) as nat), candidates[n - 1]).0
    }
}

/// The pending count counts windows: the last `pending_windows` of the
/// first `n` candidates all had the pending level.
pub open spec fn pending_is_a_run(f: WindLevelFilter, candidates: Seq<u8>, n: nat) -> bool {
    &&& f.pending_windows <= n
    &&& forall|k: int| n - f.pending_windows <= k < n ==> candidates[k] == f.pending_level
}

proof fn lemma_pending_is_a_run(s: WindLevelFilter, candidates: Seq<u8>, n: nat)
    requires
        s.pending_windows == 0,
        n <= candidates.len(),
    ensures
        pending_is_a_run(filter_after(s, candidates, n), candidates, n),
    decreases n,
{
    if n > 0 {
        lemma_pending_is_a_run(s, candidates, (n - 1) as nat);
    }
}

/// The wind level reported changes only after the new level held for its
/// whole number of consecutive windows (`ATTACK_WINDOWS` when rising,
/// `RELEASE_WINDOWS` when falling): over any run of windows from a filter
/// with nothing pending, when a window changes the level, it and the
/// windows just before it, that many in all, all had the new level; a
/// window of the current level in between starts the count again.
pub proof fn lemma_level_change_needs_consecutive_windows(s: WindLevelFilter, candidates: Seq<u8>, n: nat)
    requires
        s.pending_windows == 0,
        n < candidates.len(),
        filter_after(s, candidates, n + 1).current_level != filter_after(s, candidates, n).current_level,
    ensures
        ({
            let before = filter_after(s, candidates, n).current_level;
            let after = filter_after(s, candidates, n + 1).current_level;
            let required = if after > before { ATTACK_WINDOWS } else { RELEASE_WINDOWS };
            &&& required <= n + 1
            &&& forall|k: int| n + 1 - required <= k <= n ==> candidates[k] == after
        }),
{
    lemma_pending_is_a_run(s, candidates, n);
    let prev = filter_after(s, candidates, n);
    assert(filter_after(s, candidates, n + 1) == stepped(prev, candidates[n as int]).0);
}

} // verus!
