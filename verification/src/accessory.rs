//! AccessorySetupKit BLE advertising: when the accessory advertises, and the
//! decisions of the controller that keeps the advertisement registered with
//! BlueZ only while it is needed (failing closed when that cannot be told).
use vstd::prelude::*;

verus! {

/// Whether a D-Bus error from unregistering an advertisement means it was
/// already gone: BlueZ's `DoesNotExist` or D-Bus's `UnknownObject`.
pub fn advertisement_is_absent(error_name: Option<&str>) -> (absent: bool)
    ensures
        absent == (error_name matches Some(n) && (n@ == "org.bluez.Error.DoesNotExist"@ || n@
            == "org.freedesktop.DBus.Error.UnknownObject"@)),
{
    match error_name {
        Some(n) => crate::text::str_eq(n, "org.bluez.Error.DoesNotExist") || crate::text::str_eq(
            n,
            "org.freedesktop.DBus.Error.UnknownObject",
        ),
        None => false,
    }
}

/// Whether the accessory should advertise: only while powered, and then
/// either because the adapter is discoverable (explicit pairing, even during
/// LE connections) or to let a bonded peer reconnect while no LE link is up.
pub fn should_advertise(powered: bool, discoverable: bool, has_bonded_peer: bool, le_acl_active: bool) -> (adv: bool)
    ensures
        adv == (powered && (discoverable || (!le_acl_active && has_bonded_peer))),
{
    powered && (discoverable || (!le_acl_active && has_bonded_peer))
}


/// First delay before retrying after a failure.
pub const ADV_RETRY_INITIAL_DELAY_MS: u64 = 250;
/// Longest delay between retries.
pub const ADV_RETRY_MAX_DELAY_MS: u64 = 5000;
/// How often eligibility is polled while nothing fails.
pub const ADV_STATE_POLL_INTERVAL_MS: u64 = 500;

/// What the controller does after reading whether advertising is required.
#[derive(Clone, Copy, Debug, PartialEq, Eq, Structural)]
pub struct EligibilityStep {
    /// Register the advertisement (then confirm eligibility again).
    pub register: bool,
    /// Withdraw the advertisement first (failing closed).
    pub stop_first: bool,
    /// Wait with the retry back-off rather than the poll interval.
    pub retry: bool,
}

/// What the controller does after a wait ends.
#[derive(Clone, Copy, Debug, PartialEq, Eq, Structural)]
pub enum WakeStep {
    /// Read eligibility again.
    Continue,
    /// The publisher's connection was lost or BlueZ released the
    /// advertisement: build a new publisher, then read eligibility again.
    ReplacePublisher,
    /// The adapter event stream ended: withdraw the advertisement first when
    /// `stop_first`, then subscribe to adapter events again.
    Resubscribe { stop_first: bool },
}

/// The state of the advertising controller: whether the advertisement is
/// registered and the current retry back-off.
pub struct AdvertisingController {
    pub advertising: bool,
    pub retry_delay_ms: u64,
}

/// The back-off after `d`: doubled, at most `ADV_RETRY_MAX_DELAY_MS`.
pub open spec fn next_delay(d: u64) -> u64 {
    if 2 * d > ADV_RETRY_MAX_DELAY_MS { ADV_RETRY_MAX_DELAY_MS } else { (2 * d) as u64 }
}

impl AdvertisingController {
    /// The back-off stays within its bounds.
    pub open spec fn wf(&self) -> bool {
        ADV_RETRY_INITIAL_DELAY_MS <= self.retry_delay_ms <= ADV_RETRY_MAX_DELAY_MS
    }

    /// Not advertising, with the initial back-off.
    pub fn new() -> (c: AdvertisingController)
        ensures
            c.wf(),
            !c.advertising,
            c.retry_delay_ms == ADV_RETRY_INITIAL_DELAY_MS,
    {
        AdvertisingController { advertising: false, retry_delay_ms: ADV_RETRY_INITIAL_DELAY_MS }
    }

    /// On shutdown: whether the advertisement must be withdrawn first.
    pub fn on_shutdown(&self) -> (withdraw: bool)
        ensures
            withdraw == self.advertising,
    {
        self.advertising
    }

    /// Acts on whether advertising is required (`None`: it could not be
    /// read). A required but unregistered advertisement is registered; one
    /// no longer required, or whose need cannot be read, is withdrawn.
    pub fn on_eligibility(&mut self, required: Option<bool>) -> (step: EligibilityStep)
        requires
            old(self).wf(),
        ensures
            final(self).wf(),
            required == Some(true) && !old(self).advertising ==> step == (EligibilityStep {
                register: true,
                stop_first: false,
                retry: false,
            }) && *final(self) == *old(self),
            required == Some(true) && old(self).advertising ==> step == (EligibilityStep {
                register: false,
                stop_first: false,
                retry: false,
            }) && *final(self) == *old(self),
            required == Some(false) ==> step == (EligibilityStep {
                register: false,
                stop_first: old(self).advertising,
                retry: false,
            }) && !final(self).advertising && final(self).retry_delay_ms == ADV_RETRY_INITIAL_DELAY_MS,
            required is None ==> step == (EligibilityStep {
                register: false,
                stop_first: old(self).advertising,
                retry: true,
            }) && !final(self).advertising && final(self).retry_delay_ms == old(self).retry_delay_ms,
    {
        match required {
            Some(true) => EligibilityStep { register: !self.advertising, stop_first: false, retry: false },
            Some(false) => {
                let stop_first = self.advertising;
                self.advertising = false;
                self.retry_delay_ms = ADV_RETRY_INITIAL_DELAY_MS;
                EligibilityStep { register: false, stop_first, retry: false }
            },
            None => {
                let stop_first = self.advertising;
                self.advertising = false;
                EligibilityStep { register: false, stop_first, retry: true }
            },
        }
    }

    /// Acts on the eligibility read again right after registering: only a
    /// confirmed need keeps the advertisement (and resets the back-off);
    /// otherwise it is withdrawn at once. Returns the step that follows.
    pub fn on_confirmed(&mut self, required: Option<bool>) -> (step: EligibilityStep)
        requires
            old(self).wf(),
        ensures
            final(self).wf(),
            required == Some(true) ==> final(self).advertising && final(self).retry_delay_ms
                == ADV_RETRY_INITIAL_DELAY_MS && step == (EligibilityStep {
                register: false,
                stop_first: false,
                retry: false,
            }),
            required == Some(false) ==> !final(self).advertising && final(self).retry_delay_ms
                == old(self).retry_delay_ms && step == (EligibilityStep {
                register: false,
                stop_first: true,
                retry: false,
            }),
            required is None ==> !final(self).advertising && final(self).retry_delay_ms
                == old(self).retry_delay_ms && step == (EligibilityStep {
                register: false,
                stop_first: true,
                retry: true,
            }),
    {
        match required {
            Some(true) => {
                self.advertising = true;
                self.retry_delay_ms = ADV_RETRY_INITIAL_DELAY_MS;
                EligibilityStep { register: false, stop_first: false, retry: false }
            },
            Some(false) => {
                self.advertising = false;
                EligibilityStep { register: false, stop_first: true, retry: false }
            },
            None => {
                self.advertising = false;
                EligibilityStep { register: false, stop_first: true, retry: true }
            },
        }
    }

    /// How long to wait before reading eligibility again: the current
    /// back-off (which then doubles, up to its cap) after a failure, else the
    /// poll interval.
    pub fn wait_delay_ms(&mut self, retry: bool) -> (d: u64)
        requires
            old(self).wf(),
        ensures
            final(self).wf(),
            final(self).advertising == old(self).advertising,
            retry ==> d == old(self).retry_delay_ms && final(self).retry_delay_ms == next_delay(
                old(self).retry_delay_ms,
            ),
            !retry ==> d == ADV_STATE_POLL_INTERVAL_MS && final(self).retry_delay_ms == old(self).retry_delay_ms,
    {
        if retry {
            let d = self.retry_delay_ms;
            self.retry_delay_ms = if 2 * d > ADV_RETRY_MAX_DELAY_MS { ADV_RETRY_MAX_DELAY_MS } else { 2 * d };
            d
        } else {
            ADV_STATE_POLL_INTERVAL_MS
        }
    }

    /// Acts on how a wait ended.
    pub fn on_woke(&mut self, events_alive: bool, publisher_lost: bool, publisher_released: bool) -> (step: WakeStep)
        requires
            old(self).wf(),
        ensures
            final(self).wf(),
            publisher_lost || publisher_released ==> step == WakeStep::ReplacePublisher && !final(self).advertising
                && final(self).retry_delay_ms == ADV_RETRY_INITIAL_DELAY_MS,
            !(publisher_lost || publisher_released) && !events_alive ==> step == (WakeStep::Resubscribe {
                stop_first: old(self).advertising,
            }) && !final(self).advertising && final(self).retry_delay_ms == old(self).retry_delay_ms,
            !(publisher_lost || publisher_released) && events_alive ==> step == WakeStep::Continue && *final(self)
                == *old(self),
    {
        if publisher_lost || publisher_released {
            self.advertising = false;
            self.retry_delay_ms = ADV_RETRY_INITIAL_DELAY_MS;
            return WakeStep::ReplacePublisher;
        }
        if !events_alive {
            let stop_first = self.advertising;
            self.advertising = false;
            return WakeStep::Resubscribe { stop_first };
        }
        WakeStep::Continue
    }

    /// Acts on an attempt to subscribe to adapter events again: success
    /// resets the back-off; a failure gives the delay before the next attempt
    /// (and doubles the back-off).
    pub fn on_resubscribed(&mut self, ok: bool) -> (retry_after: Option<u64>)
        requires
            old(self).wf(),
        ensures
            final(self).wf(),
            final(self).advertising == old(self).advertising,
            ok ==> retry_after is None && final(self).retry_delay_ms == ADV_RETRY_INITIAL_DELAY_MS,
            !ok ==> retry_after == Some(old(self).retry_delay_ms) && final(self).retry_delay_ms == next_delay(
                old(self).retry_delay_ms,
            ),
    {
        if ok {
            self.retry_delay_ms = ADV_RETRY_INITIAL_DELAY_MS;
            None
        } else {
            Some(self.wait_delay_ms(true))
        }
    }
}

} // verus!
