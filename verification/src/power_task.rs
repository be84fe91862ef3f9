//! Decisions of the power task: which profile applies, and which of its
//! settings are to be enforced.
use vstd::prelude::*;
use crate::parser::PowerBatteryInfo;
use crate::text::{chars_of, spec_trim, trim};
use crate::types::{PowerConfig, PowerProfile, SettingString, SettingU32};

verus! {

/// The profile for the current power source: the AC profile when the
/// battery is reported absent or AC is reported connected, the battery
/// profile when AC is reported disconnected (and the battery not absent),
/// and none when the power source is unknown.
pub fn select_profile_from_power(cfg_power: PowerConfig, power: &PowerBatteryInfo) -> (r: Option<
    PowerProfile,
>)
    ensures
        power.battery_present == Some(false) ==> r == cfg_power.ac,
        power.ac_present == Some(true) ==> r == cfg_power.ac,
        power.battery_present != Some(false) && power.ac_present == Some(false) ==> r
            == cfg_power.battery,
        power.battery_present != Some(false) && power.ac_present is None ==> r is None,
{
    match (power.battery_present, power.ac_present) {
        (Some(false), _) => cfg_power.ac,
        (_, Some(true)) => cfg_power.ac,
        (_, Some(false)) => cfg_power.battery,
        _ => None,
    }
}

/// A numeric power setting is enforced when it is enabled with a non-zero value.
pub fn u32_setting_enforced(s: &SettingU32) -> (r: bool)
    ensures
        r == (s.enabled && s.value > 0),
{
    s.enabled && s.value > 0
}

/// A text power setting is enforced when it is enabled and its value is not blank.
pub fn string_setting_enforced(s: &SettingString) -> (r: bool)
    ensures
        r == (s.enabled && spec_trim(s.value@).len() > 0),
{
    s.enabled && trim(&chars_of(s.value.as_str())).len() > 0
}

/// The value of a frequency limit setting that is enforced.
pub open spec fn enforced_limit(s: Option<SettingU32>) -> Option<u32> {
    match s {
        Some(v) => if v.enabled && v.value > 0 {
            Some(v.value)
        } else {
            None
        },
        None => None,
    }
}

/// The frequency limits a profile asks for: `None` where it sets neither
/// limit; else whether any limit is enforced, and the `(min, max)` target
/// in MHz, each limit present only where its setting is enforced.
pub fn frequency_limits_target(profile: &PowerProfile) -> (r: Option<(bool, (Option<u32>, Option<u32>))>)
    ensures
        profile.min_freq_mhz is None && profile.max_freq_mhz is None ==> r is None,
        !(profile.min_freq_mhz is None && profile.max_freq_mhz is None) ==> r == Some(
            (
                enforced_limit(profile.min_freq_mhz) is Some || enforced_limit(profile.max_freq_mhz) is Some,
                (enforced_limit(profile.min_freq_mhz), enforced_limit(profile.max_freq_mhz)),
            ),
        ),
{
    if profile.min_freq_mhz.is_none() && profile.max_freq_mhz.is_none() {
        return None;
    }
    let lo = match profile.min_freq_mhz {
        Some(s) => if s.enabled && s.value > 0 {
            Some(s.value)
        } else {
            None
        },
        None => None,
    };
    let hi = match profile.max_freq_mhz {
        Some(s) => if s.enabled && s.value > 0 {
            Some(s.value)
        } else {
            None
        },
        None => None,
    };
    Some((lo.is_some() || hi.is_some(), (lo, hi)))
}

/// The configured `(min, max)` limits in MHz as compared with a frequency
/// target: each limit kept only where the target sets it.
pub fn limits_compared_with(target: (Option<u32>, Option<u32>), current: (u32, u32)) -> (r: (
    Option<u32>,
    Option<u32>,
))
    ensures
        r.0 == (if target.0 is Some {
            Some(current.0)
        } else {
            None
        }),
        r.1 == (if target.1 is Some {
            Some(current.1)
        } else {
            None
        }),
{
    (
        if target.0.is_some() {
            Some(current.0)
        } else {
            None
        },
        if target.1.is_some() {
            Some(current.1)
        } else {
            None
        },
    )
}

} // verus!
