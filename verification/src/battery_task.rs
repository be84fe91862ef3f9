//! Decisions of the battery task: which charge limit and charge rate to
//! send to the embedded controller, and when. The settings are sent when
//! they change, and sent again once the reapply interval has passed since
//! they were last applied. A disabled charge rate lifts the rate limit:
//! 1.0 C is sent once. A reading that reports no battery makes the task
//! forget what it applied.
//!
//! Time is a monotonic clock reading in nanoseconds.
use vstd::prelude::*;
use crate::types::SettingU8;

verus! {

/// Lowest charge limit the embedded controller is given, in percent.
pub const CHARGE_LIMIT_MIN_PCT: u8 = 25;

/// Highest charge limit, in percent.
pub const CHARGE_LIMIT_MAX_PCT: u8 = 100;

/// How long an applied setting is trusted before it is sent again (thirty minutes).
pub const REAPPLY_INTERVAL_NS: u64 = 1_800_000_000_000;

/// The charge rate that stands for no limit, 1.0 C, in twentieths of C.
pub const UNLIMITED_RATE_TWENTIETHS: u32 = 20;

/// A charge rate setting: whether it is applied, and the rate rounded to
/// the nearest twentieth of C, in twentieths (the rate times 20, rounded).
#[derive(Debug, Clone, Copy, PartialEq, Eq)]
pub struct ChargeRateSetting {
    pub enabled: bool,
    pub twentieths: i64,
}

/// What the battery task remembers of what it applied.
#[derive(Debug, Clone, Copy, PartialEq, Eq)]
pub struct BatteryTaskState {
    pub last_charge_limit_pct: Option<u8>,
    pub last_charge_apply_at: Option<u64>,
    /// Last charge rate applied, in twentieths of C.
    pub last_rate_twentieths: Option<u32>,
    pub last_threshold_pct: Option<u8>,
    pub last_rate_apply_at: Option<u64>,
    /// Whether the rate limit was lifted (1.0 C sent) for a disabled rate
    /// setting, with no enabled rate applied since.
    pub rate_limit_lifted: bool,
}

/// Nothing applied yet.
pub open spec fn fresh_state() -> BatteryTaskState {
    BatteryTaskState {
        last_charge_limit_pct: None,
        last_charge_apply_at: None,
        last_rate_twentieths: None,
        last_threshold_pct: None,
        last_rate_apply_at: None,
        rate_limit_lifted: false,
    }
}

/// A charge limit brought into `[25, 100]`.
pub open spec fn clamp_limit(v: u8) -> u8 {
    if v < CHARGE_LIMIT_MIN_PCT {
        CHARGE_LIMIT_MIN_PCT
    } else if v > CHARGE_LIMIT_MAX_PCT {
        CHARGE_LIMIT_MAX_PCT
    } else {
        v
    }
}

/// A charge rate brought into `[0.05 C, 1 C]`, in twentieths of C.
pub open spec fn clamp_rate(t: i64) -> u32 {
    if t < 1 {
        1
    } else if t > 20 {
        20
    } else {
        t as u32
    }
}

/// Whether a setting applied at `last_at` is due to be sent again at `now`.
pub open spec fn reapply_due(last_at: Option<u64>, now: u64) -> bool {
    match last_at {
        None => true,
        Some(t) => now >= t && now - t >= REAPPLY_INTERVAL_NS,
    }
}

/// The charge limit to send for `setting` at `now`, if any.
pub open spec fn limit_plan(st: BatteryTaskState, setting: Option<SettingU8>, now: u64) -> Option<u8> {
    match setting {
        Some(s) => if s.enabled {
            let d = clamp_limit(s.value);
            if st.last_charge_limit_pct != Some(d) || reapply_due(st.last_charge_apply_at, now) {
                Some(d)
            } else {
                None
            }
        } else {
            None
        },
        None => None,
    }
}

/// What planning the charge limit does to the state: a disabled setting
/// makes the task forget the limit it applied.
pub open spec fn limit_planned(st: BatteryTaskState, setting: Option<SettingU8>) -> BatteryTaskState {
    match setting {
        Some(s) => if s.enabled {
            st
        } else {
            BatteryTaskState { last_charge_limit_pct: None, last_charge_apply_at: None, ..st }
        },
        None => st,
    }
}

/// The charge rate (in twentieths of C) and state of charge threshold to
/// send for `setting` at `now`, if any: an enabled rate when it changed or
/// is due again; for a disabled rate, 1.0 C (no limit) unless the limit was
/// already lifted.
pub open spec fn rate_plan(
    st: BatteryTaskState,
    setting: Option<ChargeRateSetting>,
    threshold: Option<u8>,
    now: u64,
) -> Option<(u32, Option<u8>)> {
    match setting {
        Some(s) => if s.enabled {
            let d = clamp_rate(s.twentieths);
            let changed = match st.last_rate_twentieths {
                Some(prev) => prev != d || st.last_threshold_pct != threshold,
                None => true,
            };
            if changed || reapply_due(st.last_rate_apply_at, now) {
                Some((d, threshold))
            } else {
                None
            }
        } else if st.rate_limit_lifted {
            None
        } else {
            Some((UNLIMITED_RATE_TWENTIETHS, threshold))
        },
        None => None,
    }
}

/// What planning the charge rate does to the state: a disabled setting makes
/// the task forget the enabled rate it applied (not whether the limit was lifted).
pub open spec fn rate_planned(st: BatteryTaskState, setting: Option<ChargeRateSetting>) -> BatteryTaskState {
    match setting {
        Some(s) => if s.enabled {
            st
        } else {
            BatteryTaskState {
                last_rate_twentieths: None,
                last_threshold_pct: None,
                last_rate_apply_at: None,
                ..st
            }
        },
        None => st,
    }
}

/// Whether a charge rate setting asks for the rate limit to be lifted (it
/// is disabled).
pub open spec fn lifts_rate_limit(setting: Option<ChargeRateSetting>) -> bool {
    match setting {
        Some(s) => !s.enabled,
        None => false,
    }
}

impl BatteryTaskState {
    /// Nothing applied yet.
    pub fn new() -> (r: Self)
        ensures
            r == fresh_state(),
    {
        BatteryTaskState {
            last_charge_limit_pct: None,
            last_charge_apply_at: None,
            last_rate_twentieths: None,
            last_threshold_pct: None,
            last_rate_apply_at: None,
            rate_limit_lifted: false,
        }
    }

    /// The battery is reported absent: everything applied is forgotten.
    pub fn battery_absent(&mut self)
        ensures
            *final(self) == fresh_state(),
    {
        *self = BatteryTaskState::new();
    }

    /// The charge limit to send now, if any; a disabled setting makes the
    /// task forget the limit it applied.
    pub fn plan_charge_limit(&mut self, setting: Option<SettingU8>, now: u64) -> (r: Option<u8>)
        ensures
            r == limit_plan(*old(self), setting, now),
            *final(self) == limit_planned(*old(self), setting),
            r matches Some(d) ==> CHARGE_LIMIT_MIN_PCT <= d <= CHARGE_LIMIT_MAX_PCT,
    {
        match setting {
            Some(s) => {
                if s.enabled {
                    let d = if s.value < CHARGE_LIMIT_MIN_PCT {
                        CHARGE_LIMIT_MIN_PCT
                    } else if s.value > CHARGE_LIMIT_MAX_PCT {
                        CHARGE_LIMIT_MAX_PCT
                    } else {
                        s.value
                    };
                    let changed = match self.last_charge_limit_pct {
                        Some(prev) => prev != d,
                        None => true,
                    };
                    if changed || is_reapply_due(self.last_charge_apply_at, now) {
                        Some(d)
                    } else {
                        None
                    }
                } else {
                    self.last_charge_limit_pct = None;
                    self.last_charge_apply_at = None;
                    None
                }
            },
            None => None,
        }
    }

    /// The embedded controller took the charge limit `pct` at `now`.
    pub fn charge_limit_applied(&mut self, pct: u8, now: u64)
        ensures
            *final(self) == (BatteryTaskState {
                last_charge_limit_pct: Some(pct),
                last_charge_apply_at: Some(now),
                ..*old(self)
            }),
    {
        self.last_charge_limit_pct = Some(pct);
        self.last_charge_apply_at = Some(now);
    }

    /// The charge rate (twentieths of C) and threshold to send now, if any;
    /// a disabled setting makes the task forget the enabled rate it applied,
    /// and asks for 1.0 C (no limit) until the limit is lifted.
    pub fn plan_charge_rate(
        &mut self,
        setting: Option<ChargeRateSetting>,
        threshold: Option<u8>,
        now: u64,
    ) -> (r: Option<(u32, Option<u8>)>)
        ensures
            r == rate_plan(*old(self), setting, threshold, now),
            *final(self) == rate_planned(*old(self), setting),
            r matches Some(p) ==> 1 <= p.0 <= 20,
    {
        match setting {
            Some(s) => {
                if s.enabled {
                    let d: u32 = if s.twentieths < 1 {
                        1
                    } else if s.twentieths > 20 {
                        20
                    } else {
                        s.twentieths as u32
                    };
                    let changed = match self.last_rate_twentieths {
                        Some(prev) => prev != d || self.last_threshold_pct != threshold,
                        None => true,
                    };
                    if changed || is_reapply_due(self.last_rate_apply_at, now) {
                        Some((d, threshold))
                    } else {
                        None
                    }
                } else {
                    self.last_rate_twentieths = None;
                    self.last_threshold_pct = None;
                    self.last_rate_apply_at = None;
                    if self.rate_limit_lifted {
                        None
                    } else {
                        Some((UNLIMITED_RATE_TWENTIETHS, threshold))
                    }
                }
            },
            None => None,
        }
    }

    /// The embedded controller took the enabled charge rate `twentieths`
    /// (with the given threshold) at `now`.
    pub fn charge_rate_applied(&mut self, twentieths: u32, threshold: Option<u8>, now: u64)
        ensures
            *final(self) == (BatteryTaskState {
                last_rate_twentieths: Some(twentieths),
                last_threshold_pct: threshold,
                last_rate_apply_at: Some(now),
                rate_limit_lifted: false,
                ..*old(self)
            }),
    {
        self.last_rate_twentieths = Some(twentieths);
        self.last_threshold_pct = threshold;
        self.last_rate_apply_at = Some(now);
        self.rate_limit_lifted = false;
    }

    /// The embedded controller took the charge rate planned for `setting`:
    /// for a disabled setting that was 1.0 C and the limit is lifted; else
    /// the rate `twentieths` with `threshold` was applied at `now`.
    pub fn charge_rate_sent(
        &mut self,
        setting: Option<ChargeRateSetting>,
        twentieths: u32,
        threshold: Option<u8>,
        now: u64,
    )
        ensures
            lifts_rate_limit(setting) ==> *final(self) == (BatteryTaskState {
                rate_limit_lifted: true,
                ..*old(self)
            }),
            !lifts_rate_limit(setting) ==> *final(self) == (BatteryTaskState {
                last_rate_twentieths: Some(twentieths),
                last_threshold_pct: threshold,
                last_rate_apply_at: Some(now),
                rate_limit_lifted: false,
                ..*old(self)
            }),
    {
        let lifting = match setting {
            Some(s) => !s.enabled,
            None => false,
        };
        if lifting {
            self.charge_rate_limit_lifted();
        } else {
            self.charge_rate_applied(twentieths, threshold, now);
        }
    }

    /// The embedded controller took 1.0 C for a disabled rate setting: the
    /// limit is lifted and is not sent again while the setting stays disabled.
    pub fn charge_rate_limit_lifted(&mut self)
        ensures
            *final(self) == (BatteryTaskState { rate_limit_lifted: true, ..*old(self) }),
    {
        self.rate_limit_lifted = true;
    }
}

fn is_reapply_due(last_at: Option<u64>, now: u64) -> (r: bool)
    ensures
        r == reapply_due(last_at, now),
{
    match last_at {
        None => true,
        Some(t) => now >= t && now - t >= REAPPLY_INTERVAL_NS,
    }
}

// ---------------------------------------------------------------------------
// Laws
// ---------------------------------------------------------------------------

/// A charge limit that was applied is not sent again while the setting
/// stays the same and the reapply interval has not passed; it is sent again
/// once the interval has passed.
pub proof fn law_limit_reapplied_only_after_interval(
    st: BatteryTaskState,
    s: SettingU8,
    t: u64,
    now: u64,
)
    requires
        s.enabled,
        t <= now,
    ensures
        ({
            let applied = BatteryTaskState {
                last_charge_limit_pct: Some(clamp_limit(s.value)),
                last_charge_apply_at: Some(t),
                ..st
            };
            &&& now - t < REAPPLY_INTERVAL_NS ==> limit_plan(applied, Some(s), now) is None
            &&& now - t >= REAPPLY_INTERVAL_NS ==> limit_plan(applied, Some(s), now) == Some(
                clamp_limit(s.value),
            )
        }),
{
}

/// A changed charge limit setting is sent at once, whenever the last one was applied.
pub proof fn law_limit_change_sent_at_once(st: BatteryTaskState, s: SettingU8, now: u64)
    requires
        s.enabled,
        st.last_charge_limit_pct != Some(clamp_limit(s.value)),
    ensures
        limit_plan(st, Some(s), now) == Some(clamp_limit(s.value)),
{
}

/// Once a setting has been disabled, or the battery reported absent, the
/// next enabled setting is sent at once.
pub proof fn law_forgotten_settings_sent_at_once(
    st: BatteryTaskState,
    limit: SettingU8,
    rate: ChargeRateSetting,
    threshold: Option<u8>,
    now: u64,
)
    requires
        limit.enabled,
        rate.enabled,
    ensures
        limit_plan(
            limit_planned(st, Some(SettingU8 { enabled: false, ..limit })),
            Some(limit),
            now,
        ) == Some(clamp_limit(limit.value)),
        rate_plan(
            rate_planned(st, Some(ChargeRateSetting { enabled: false, ..rate })),
            Some(rate),
            threshold,
            now,
        ) == Some((clamp_rate(rate.twentieths), threshold)),
        rate_plan(
            BatteryTaskState {
                rate_limit_lifted: true,
                ..rate_planned(st, Some(ChargeRateSetting { enabled: false, ..rate }))
            },
            Some(rate),
            threshold,
            now,
        ) == Some((clamp_rate(rate.twentieths), threshold)),
        limit_plan(fresh_state(), Some(limit), now) == Some(clamp_limit(limit.value)),
        rate_plan(fresh_state(), Some(rate), threshold, now) == Some(
            (clamp_rate(rate.twentieths), threshold),
        ),
{
}

/// A charge rate that was applied is not sent again while the rate and the
/// threshold stay the same and the reapply interval has not passed; a new
/// threshold is sent at once.
pub proof fn law_rate_reapplied_only_on_change_or_interval(
    st: BatteryTaskState,
    s: ChargeRateSetting,
    threshold: Option<u8>,
    other: Option<u8>,
    t: u64,
    now: u64,
)
    requires
        s.enabled,
        t <= now,
        other != threshold,
    ensures
        ({
            let applied = BatteryTaskState {
                last_rate_twentieths: Some(clamp_rate(s.twentieths)),
                last_threshold_pct: threshold,
                last_rate_apply_at: Some(t),
                ..st
            };
            &&& now - t < REAPPLY_INTERVAL_NS ==> rate_plan(applied, Some(s), threshold, now) is None
            &&& now - t >= REAPPLY_INTERVAL_NS ==> rate_plan(applied, Some(s), threshold, now)
                == Some((clamp_rate(s.twentieths), threshold))
            &&& rate_plan(applied, Some(s), other, now) == Some((clamp_rate(s.twentieths), other))
        }),
{
}

/// A disabled charge rate lifts the limit once: 1.0 C is planned (with the
/// configured threshold) until the embedded controller has taken it, and
/// nothing is planned after that while the setting stays disabled, whatever
/// the time or the threshold.
pub proof fn law_disabled_rate_lifted_once(
    st: BatteryTaskState,
    s: ChargeRateSetting,
    threshold: Option<u8>,
    later_threshold: Option<u8>,
    now: u64,
    later: u64,
)
    requires
        !s.enabled,
        !st.rate_limit_lifted,
    ensures
        rate_plan(st, Some(s), threshold, now) == Some((UNLIMITED_RATE_TWENTIETHS, threshold)),
        rate_plan(fresh_state(), Some(s), threshold, now) == Some(
            (UNLIMITED_RATE_TWENTIETHS, threshold),
        ),
        ({
            let lifted = BatteryTaskState { rate_limit_lifted: true, ..rate_planned(st, Some(s)) };
            &&& rate_plan(lifted, Some(s), later_threshold, later) is None
            &&& rate_planned(lifted, Some(s)) == lifted
        }),
{
}

/// A changed charge rate is sent at once, however recently the last one was
/// applied: where the enabled setting, brought into 1 to 20 twentieths of
/// C, differs from the rate last applied (or none was), that rate is planned
/// with the threshold.
pub proof fn law_rate_change_sent_at_once(
    st: BatteryTaskState,
    s: ChargeRateSetting,
    threshold: Option<u8>,
    now: u64,
)
    requires
        s.enabled,
        ({
            let d: u32 = if s.twentieths < 1 {
                1
            } else if s.twentieths > 20 {
                20
            } else {
                s.twentieths as u32
            };
            st.last_rate_twentieths != Some(d)
        }),
    ensures
        ({
            let d: u32 = if s.twentieths < 1 {
                1
            } else if s.twentieths > 20 {
                20
            } else {
                s.twentieths as u32
            };
            rate_plan(st, Some(s), threshold, now) == Some((d, threshold))
        }),
{
}

/// What is sent first: an enabled charge limit brought into 25 to 100
/// percent (a value in range as it is), and an enabled charge rate brought
/// into 1 to 20 twentieths of C (a value in range as it is), each with
/// nothing applied before.
pub proof fn law_first_settings_clamped(limit: SettingU8, rate: ChargeRateSetting, threshold: Option<u8>, now: u64)
    requires
        limit.enabled,
        rate.enabled,
    ensures
        25 <= limit.value <= 100 ==> limit_plan(fresh_state(), Some(limit), now) == Some(limit.value),
        limit.value < 25 ==> limit_plan(fresh_state(), Some(limit), now) == Some(25u8),
        limit.value > 100 ==> limit_plan(fresh_state(), Some(limit), now) == Some(100u8),
        1 <= rate.twentieths <= 20 ==> rate_plan(fresh_state(), Some(rate), threshold, now) == Some(
            (rate.twentieths as u32, threshold),
        ),
        rate.twentieths < 1 ==> rate_plan(fresh_state(), Some(rate), threshold, now) == Some(
            (1u32, threshold),
        ),
        rate.twentieths > 20 ==> rate_plan(fresh_state(), Some(rate), threshold, now) == Some(
            (20u32, threshold),
        ),
{
}

} // verus!
