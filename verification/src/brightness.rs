//! Display brightness: the logical brightness scale, the auto-brightness
//! sample window and its median, backlight stepping, and the display sleep
//! state.
use vstd::prelude::*;
use std::collections::VecDeque;

verus! {

/// Logical brightness of the brightest setting.
pub const BRIGHTNESS_BRIGHTEST: u8 = 0;
/// Logical brightness of the dimmest setting.
pub const BRIGHTNESS_DIMMEST: u8 = 160;
/// Logical brightness used when nothing was saved.
pub const DEFAULT_BRIGHTNESS: u8 = 113;
/// Lowest backlight level that auto-brightness drives the panel to.
pub const AUTO_MIN_BACKLIGHT: u32 = 16;
/// Ambient samples in the median window.
pub const SMOOTHING_SAMPLES: usize = 11;
/// Largest level of the stock ambient light scale.
pub const STOCK_AMBIENT_LEVEL_MAX: u32 = 255;

/// Saved display brightness settings.
#[derive(Clone, Copy, Debug, PartialEq, Eq, Structural)]
pub struct BrightnessConfig {
    pub auto: bool,
    pub brightness: u8,
}

impl Default for BrightnessConfig {
    /// Auto-brightness on, at the default logical level.
    fn default() -> (c: BrightnessConfig)
        ensures
            c.auto && c.brightness == DEFAULT_BRIGHTNESS,
    {
        BrightnessConfig { auto: true, brightness: DEFAULT_BRIGHTNESS }
    }
}

/// `value` limited to the logical range.
pub open spec fn clamped_brightness(value: u8) -> u8 {
    if value > BRIGHTNESS_DIMMEST { BRIGHTNESS_DIMMEST } else { value }
}

/// Limits a logical brightness to `BRIGHTNESS_BRIGHTEST..=BRIGHTNESS_DIMMEST`.
pub fn clamp_brightness(value: u8) -> (c: u8)
    ensures
        c == clamped_brightness(value),
{
    if value > BRIGHTNESS_DIMMEST {
        BRIGHTNESS_DIMMEST
    } else {
        value
    }
}

/// A saved configuration with its brightness brought into the logical range.
pub fn sanitize_config(config: BrightnessConfig) -> (c: BrightnessConfig)
    ensures
        c.auto == config.auto,
        c.brightness == clamped_brightness(config.brightness),
{
    BrightnessConfig { auto: config.auto, brightness: clamp_brightness(config.brightness) }
}

/// Why a requested brightness was refused.
#[derive(Clone, Copy, Debug, PartialEq, Eq, Structural)]
pub enum BrightnessError {
    /// The value lies outside the logical range.
    OutOfRange,
}

/// Accepts a manually requested brightness only inside the logical range.
pub fn validate_brightness(value: u8) -> (r: Result<u8, BrightnessError>)
    ensures
        value <= BRIGHTNESS_DIMMEST ==> r == Ok::<u8, BrightnessError>(value),
        value > BRIGHTNESS_DIMMEST ==> r == Err::<u8, BrightnessError>(BrightnessError::OutOfRange),
{
    if value > BRIGHTNESS_DIMMEST {
        Err(BrightnessError::OutOfRange)
    } else {
        Ok(value)
    }
}

/// The lowest backlight level auto-brightness uses on a panel whose maximum
/// is `max_brightness`.
pub open spec fn min_auto_backlight(max_brightness: u32) -> u32 {
    if max_brightness < AUTO_MIN_BACKLIGHT { max_brightness } else { AUTO_MIN_BACKLIGHT }
}

/// `AUTO_MIN_BACKLIGHT`, or the panel maximum when that is lower.
pub fn minimum_auto_backlight(max_brightness: u32) -> (m: u32)
    ensures
        m == min_auto_backlight(max_brightness),
{
    if max_brightness < AUTO_MIN_BACKLIGHT {
        max_brightness
    } else {
        AUTO_MIN_BACKLIGHT
    }
}

/// A stock ambient level mapped onto 0..=100.
pub fn normalize_stock_ambient_level(level: u32) -> (n: u32)
    ensures
        n == 100 * (if level > STOCK_AMBIENT_LEVEL_MAX { STOCK_AMBIENT_LEVEL_MAX } else { level }) / 255,
        n <= 100,
{
    let capped = if level > STOCK_AMBIENT_LEVEL_MAX { STOCK_AMBIENT_LEVEL_MAX } else { level };
    100 * capped / STOCK_AMBIENT_LEVEL_MAX
}

/// Whether `s` is in ascending order.
pub open spec fn ascending(s: Seq<u32>) -> bool {
    forall|i: int, j: int| 0 <= i <= j < s.len() ==> s[i] <= s[j]
}

/// `m` is the middle element (index `len / 2`) of the ascending arrangement
/// of `samples`.
pub open spec fn is_median(samples: Seq<u32>, m: u32) -> bool {
    exists|s: Seq<u32>|
        #![trigger ascending(s), s.to_multiset()]
        ascending(s) && s.to_multiset() == samples.to_multiset() && s[samples.len() as int / 2] == m
}

/// Sorts `samples` ascending.
fn sorted_samples(samples: &VecDeque<u32>) -> (out: Vec<u32>)
    ensures
        ascending(out@),
        out@.to_multiset() == samples@.to_multiset(),
        out@.len() == samples@.len(),
{
    broadcast use vstd::seq_lib::group_to_multiset_ensures;

    let mut out: Vec<u32> = Vec::new();
    let mut i: usize = 0;
    while i < samples.len()
        invariant
            i <= samples@.len(),
            ascending(out@),
            out@.to_multiset() == samples@.take(i as int).to_multiset(),
            out@.len() == i,
        decreases samples@.len() - i,
    {
        let x = samples[i];
        let mut p: usize = 0;
        while p < out.len() && out[p] < x
            invariant
                p <= out@.len(),
                forall|j: int| 0 <= j < p ==> out@[j] < x,
            decreases out@.len() - p,
        {
            p = p + 1;
        }
        let ghost before = out@;
        out.insert(p, x);
        proof {
            vstd::seq_lib::to_multiset_insert(before, p as int, x);
            assert(samples@.take(i as int + 1) =~= samples@.take(i as int).push(x));
            vstd::seq_lib::to_multiset_build(samples@.take(i as int), x);
            assert forall|a: int, b: int| 0 <= a <= b < out@.len() implies out@[a] <= out@[b] by {
                if b < p {
                } else if b == p {
                    if a < p {
                    }
                } else if a > p {
                    assert(out@[a] == before[a - 1] && out@[b] == before[b - 1]);
                } else if a == p {
                    assert(out@[b] == before[b - 1]);
                    if p < before.len() {
                        assert(before[p as int] >= x);
                    }
                } else {
                    assert(out@[b] == before[b - 1]);
                    assert(before[a] <= before[b - 1]);
                }
            }
        }
        i = i + 1;
    }
    assert(samples@.take(i as int) =~= samples@);
    out
}

/// The median of a full window: `None` until `SMOOTHING_SAMPLES` samples
/// are held, then the middle element of the samples in ascending order.
pub fn median_of_samples(samples: &VecDeque<u32>) -> (m: Option<u32>)
    ensures
        m is None <==> samples@.len() < SMOOTHING_SAMPLES,
        m matches Some(v) ==> is_median(samples@, v),
{
    if samples.len() < SMOOTHING_SAMPLES {
        return None;
    }
    let sorted = sorted_samples(samples);
    let m = sorted[sorted.len() / 2];
    assert(ascending(sorted@) && sorted@.to_multiset() == samples@.to_multiset());
    Some(m)
}

/// Two ascending arrangements of the same samples are the same sequence, so
/// the median of a window is determined by its samples.
pub proof fn lemma_ascending_arrangement_unique(a: Seq<u32>, b: Seq<u32>)
    requires
        ascending(a),
        ascending(b),
        a.to_multiset() == b.to_multiset(),
    ensures
        a == b,
    decreases a.len(),
{
    broadcast use vstd::seq_lib::group_to_multiset_ensures;

    a.to_multiset_ensures();
    b.to_multiset_ensures();
    if a.len() == 0 {
        assert(b.len() == 0);
        assert(a =~= b);
    } else {
        assert(b.len() == a.len());
        assert(a.contains(a[0]));
        assert(b.to_multiset().count(a[0]) > 0);
        assert(b.contains(a[0]));
        assert(b.contains(b[0]));
        assert(a.to_multiset().count(b[0]) > 0);
        assert(a.contains(b[0]));
        let ia = choose|k: int| 0 <= k < a.len() && a[k] == b[0];
        let ib = choose|k: int| 0 <= k < b.len() && b[k] == a[0];
        assert(a[0] <= a[ia]);
        assert(b[0] <= b[ib]);
        assert(a[0] == b[0]);
        vstd::seq_lib::to_multiset_remove(a, 0);
        vstd::seq_lib::to_multiset_remove(b, 0);
        assert(a.remove(0) =~= a.drop_first());
        assert(b.remove(0) =~= b.drop_first());
        lemma_ascending_arrangement_unique(a.drop_first(), b.drop_first());
        assert(a =~= b) by {
            assert forall|k: int| 0 <= k < a.len() implies a[k] == b[k] by {
                if k > 0 {
                    assert(a[k] == a.drop_first()[k - 1]);
                    assert(b[k] == b.drop_first()[k - 1]);
                }
            }
        }
    }
}

/// A window has at most one median.
pub proof fn lemma_median_unique(samples: Seq<u32>, m1: u32, m2: u32)
    requires
        is_median(samples, m1),
        is_median(samples, m2),
    ensures
        m1 == m2,
{
    let s1 = choose|s: Seq<u32>|
        #![trigger ascending(s), s.to_multiset()]
        ascending(s) && s.to_multiset() == samples.to_multiset() && s[samples.len() as int / 2] == m1;
    let s2 = choose|s: Seq<u32>|
        #![trigger ascending(s), s.to_multiset()]
        ascending(s) && s.to_multiset() == samples.to_multiset() && s[samples.len() as int / 2] == m2;
    lemma_ascending_arrangement_unique(s1, s2);
}

/// Where one backlight step from `current` toward `target` lands: the target
/// once the step would reach or pass it, and never outside
/// `min_auto_backlight(max)..=max`.
pub open spec fn advanced_backlight(current: u32, target: u32, step: i64, max_brightness: u32) -> int {
    if current == target {
        current as int
    } else {
        let next = current + step;
        let next = if (step > 0 && next >= target) || (step < 0 && next <= target) {
            target as int
        } else if next < 0 {
            0
        } else {
            next
        };
        let low = min_auto_backlight(max_brightness) as int;
        if next < low {
            low
        } else if next > max_brightness {
            max_brightness as int
        } else {
            next
        }
    }
}

/// Moves the backlight one step toward `target`.
pub fn advance_backlight(current: u32, target: u32, step: i64, max_brightness: u32) -> (next: u32)
    requires
        current + step <= i64::MAX,
    ensures
        next == advanced_backlight(current, target, step, max_brightness),
{
    if current == target {
        return current;
    }
    let next: i64 = current as i64 + step;
    let next: u32 = if (step > 0 && next >= target as i64) || (step < 0 && next <= target as i64) {
        target
    } else if next < 0 {
        0
    } else if next > u32::MAX as i64 {
        u32::MAX
    } else {
        next as u32
    };
    let low = minimum_auto_backlight(max_brightness);
    if next < low {
        low
    } else if next > max_brightness {
        max_brightness
    } else {
        next
    }
}

/// The sign of `x`: -1, 0 or 1.
pub open spec fn signum(x: int) -> int {
    if x > 0 { 1 } else if x < 0 { -1 } else { 0 }
}

/// The step to take: the previous one while the target and direction are
/// unchanged, else `fresh_step`, the transition step computed for
/// `current -> target`.
pub open spec fn chosen_step(current: u32, target: u32, previous_target: Option<u32>, previous_step: i64, fresh_step: i64) -> i64 {
    if previous_target == Some(target) && signum(previous_step as int) == signum(target - current) {
        previous_step
    } else {
        fresh_step
    }
}

/// One smoothing tick: keeps the previous step while heading to the same
/// target in the same direction, otherwise takes `fresh_step` (the
/// transition step for `current -> target`), and advances the backlight.
pub fn smooth_backlight_step(
    current: u32,
    target: u32,
    previous_target: Option<u32>,
    previous_step: i64,
    fresh_step: i64,
    max_brightness: u32,
) -> (r: (u32, i64))
    requires
        current + previous_step <= i64::MAX,
        current + fresh_step <= i64::MAX,
    ensures
        r.1 == chosen_step(current, target, previous_target, previous_step, fresh_step),
        r.0 == advanced_backlight(current, target, r.1, max_brightness),
{
    let diff: i64 = target as i64 - current as i64;
    let direction: i64 = if diff > 0 { 1 } else if diff < 0 { -1 } else { 0 };
    let previous_direction: i64 = if previous_step > 0 { 1 } else if previous_step < 0 { -1 } else { 0 };
    let same_target = match previous_target {
        Some(t) => t == target,
        None => false,
    };
    let step = if same_target && previous_direction == direction { previous_step } else { fresh_step };
    (advance_backlight(current, target, step, max_brightness), step)
}

/// Ticks between ambient-light updates to the UI.
pub const AMBIENT_EVENT_TICKS: u8 = 25;
/// Bound on the size of a smoothing step.
pub const STEP_BOUND: i64 = 0x1_0000_0000;

/// The sample window after `value` arrives: appended, with the oldest
/// dropped once more than `SMOOTHING_SAMPLES` are held.
pub open spec fn window_after(samples: Seq<u32>, value: u32) -> Seq<u32> {
    if samples.len() + 1 > SMOOTHING_SAMPLES {
        samples.push(value).drop_first()
    } else {
        samples.push(value)
    }
}

/// Ambient-light samples turned into a smoothed level of the stock ambient
/// scale, reported to the UI every `AMBIENT_EVENT_TICKS` ticks. The level a
/// median stands for, and the size of a fresh smoothing step, are floating
/// point and are handed in.
pub struct AmbientLevelFilter {
    /// The latest samples, oldest first.
    pub samples: VecDeque<u32>,
    /// The median of the last full window.
    pub raw_value: Option<u32>,
    /// The level shown now.
    pub current_level: Option<u32>,
    /// The level being approached.
    pub target_level: Option<u32>,
    /// The target of the previous smoothing step.
    pub previous_target: Option<u32>,
    /// The previous smoothing step.
    pub previous_step: i64,
    /// Ticks since the last report.
    pub ticks_since_event: u8,
}

impl AmbientLevelFilter {
    /// The window holds at most `SMOOTHING_SAMPLES` samples and the previous
    /// step is bounded.
    pub open spec fn wf(&self) -> bool {
        &&& self.samples@.len() <= SMOOTHING_SAMPLES
        &&& -STEP_BOUND <= self.previous_step <= STEP_BOUND
    }

    /// A filter that has seen nothing.
    pub fn new() -> (f: AmbientLevelFilter)
        ensures
            f.wf(),
            f.samples@.len() == 0,
            f.raw_value is None,
            f.current_level is None,
            f.target_level is None,
            f.previous_target is None,
            f.previous_step == 0,
            f.ticks_since_event == 0,
    {
        AmbientLevelFilter {
            samples: VecDeque::new(),
            raw_value: None,
            current_level: None,
            target_level: None,
            previous_target: None,
            previous_step: 0,
            ticks_since_event: 0,
        }
    }

    /// Takes a sample into the window; once the window is full, returns its
    /// median, which becomes the raw value (the caller then sets the target
    /// level that median stands for).
    pub fn push_sample(&mut self, value: u32) -> (median: Option<u32>)
        requires
            old(self).wf(),
        ensures
            final(self).wf(),
            final(self).samples@ == window_after(old(self).samples@, value),
            median is None <==> final(self).samples@.len() < SMOOTHING_SAMPLES,
            median matches Some(m) ==> is_median(final(self).samples@, m),
            final(self).raw_value == match median {
                Some(m) => Some(m),
                None => old(self).raw_value,
            },
            final(self).current_level == old(self).current_level,
            final(self).target_level == old(self).target_level,
            final(self).previous_target == old(self).previous_target,
            final(self).previous_step == old(self).previous_step,
            final(self).ticks_since_event == old(self).ticks_since_event,
    {
        self.samples.push_back(value);
        if self.samples.len() > SMOOTHING_SAMPLES {
            self.samples.pop_front();
        }
        assert(self.samples@ =~= window_after(old(self).samples@, value));
        let median = median_of_samples(&self.samples);
        if let Some(m) = median {
            self.raw_value = Some(m);
        }
        median
    }

    /// Sets the level being approached.
    pub fn set_target_level(&mut self, level: u32)
        ensures
            final(self).target_level == Some(level),
            final(self).samples@ == old(self).samples@,
            final(self).raw_value == old(self).raw_value,
            final(self).current_level == old(self).current_level,
            final(self).previous_target == old(self).previous_target,
            final(self).previous_step == old(self).previous_step,
            final(self).ticks_since_event == old(self).ticks_since_event,
    {
        self.target_level = Some(level);
    }

    /// The (current, target) levels a fresh smoothing step spans, when the
    /// next tick will take a step.
    pub fn step_span(&self) -> (span: Option<(u32, u32)>)
        ensures
            span == match (self.current_level, self.target_level) {
                (Some(c), Some(t)) => Some((c, t)),
                _ => None,
            },
    {
        match (self.current_level, self.target_level) {
            (Some(c), Some(t)) => Some((c, t)),
            _ => None,
        }
    }

    /// One tick: with no target nothing happens; the first tick jumps to the
    /// target, later ones take a smoothing step toward it (keeping the
    /// previous step while the target and direction hold, else
    /// `fresh_step`). Every `AMBIENT_EVENT_TICKS` ticks the raw value and the
    /// level on the 0..=100 scale are reported.
    pub fn tick(&mut self, fresh_step: i64) -> (report: Option<(u32, u32)>)
        requires
            old(self).wf(),
            -STEP_BOUND <= fresh_step <= STEP_BOUND,
        ensures
            final(self).wf(),
            final(self).samples@ == old(self).samples@,
            final(self).raw_value == old(self).raw_value,
            final(self).target_level == old(self).target_level,
            match old(self).target_level {
                None => report is None && final(self).current_level == old(self).current_level
                    && final(self).previous_target == old(self).previous_target && final(self).previous_step
                    == old(self).previous_step && final(self).ticks_since_event == old(self).ticks_since_event,
                Some(target) => {
                    let (level, prev_target, prev_step) = match old(self).current_level {
                        Some(c) => {
                            let step = chosen_step(c, target, old(self).previous_target, old(self).previous_step, fresh_step);
                            (advanced_backlight(c, target, step, STOCK_AMBIENT_LEVEL_MAX), Some(target), step)
                        },
                        None => (target as int, old(self).previous_target, old(self).previous_step),
                    };
                    let ticks: int = if old(self).ticks_since_event < 255 { old(self).ticks_since_event + 1 } else { 255 };
                    &&& final(self).current_level == Some(level as u32)
                    &&& final(self).previous_target == prev_target
                    &&& final(self).previous_step == prev_step
                    &&& if ticks < AMBIENT_EVENT_TICKS {
                        report is None && final(self).ticks_since_event == ticks
                    } else {
                        &&& final(self).ticks_since_event == 0
                        &&& match old(self).raw_value {
                            Some(raw) => report matches Some((r, n)) && r == raw && n == 100 * (if level
                                > STOCK_AMBIENT_LEVEL_MAX { STOCK_AMBIENT_LEVEL_MAX as int } else { level }) / 255,
                            None => report is None,
                        }
                    }
                },
            },
    {
        let target = match self.target_level {
            Some(t) => t,
            None => return None,
        };
        let current = match self.current_level {
            Some(c) => {
                let (next, step) = smooth_backlight_step(
                    c,
                    target,
                    self.previous_target,
                    self.previous_step,
                    fresh_step,
                    STOCK_AMBIENT_LEVEL_MAX,
                );
                self.previous_target = Some(target);
                self.previous_step = step;
                next
            },
            None => target,
        };
        self.current_level = Some(current);
        self.ticks_since_event = if self.ticks_since_event < 255 { self.ticks_since_event + 1 } else { 255 };
        if self.ticks_since_event < AMBIENT_EVENT_TICKS {
            return None;
        }
        self.ticks_since_event = 0;
        match self.raw_value {
            Some(raw) => Some((raw, normalize_stock_ambient_level(current))),
            None => None,
        }
    }
}

/// The brightness settings saved when the display went to sleep; present
/// exactly while the display sleeps.
pub struct DisplaySleepState {
    pub saved: Option<BrightnessConfig>,
}

impl DisplaySleepState {
    /// Awake.
    pub fn new() -> (s: DisplaySleepState)
        ensures
            s.saved is None,
    {
        DisplaySleepState { saved: None }
    }

    /// Puts the display to sleep remembering `config`; a display that already
    /// sleeps keeps what it saved. Returns the settings in force.
    pub fn enter(&mut self, config: BrightnessConfig) -> (in_force: BrightnessConfig)
        ensures
            old(self).saved matches Some(c) ==> in_force == c && final(self).saved == old(self).saved,
            old(self).saved is None ==> in_force == config && final(self).saved == Some(config),
    {
        match self.saved {
            Some(c) => c,
            None => {
                self.saved = Some(config);
                config
            },
        }
    }

    /// The settings to show: those saved at sleep, else `stored`.
    pub fn config_or(&self, stored: BrightnessConfig) -> (c: BrightnessConfig)
        ensures
            c == match self.saved {
                Some(s) => s,
                None => stored,
            },
    {
        match self.saved {
            Some(s) => s,
            None => stored,
        }
    }

    /// Wakes the display, forgetting the saved settings.
    pub fn clear(&mut self)
        ensures
            final(self).saved is None,
    {
        self.saved = None;
    }
}

/// Whether the display is asleep.
pub fn is_display_sleeping(state: &DisplaySleepState) -> (asleep: bool)
    ensures
        asleep == state.saved is Some,
{
    state.saved.is_some()
}

} // verus!
