//! Linux power management through kernel interfaces (cpufreq, AMD P-State,
//! RAPL powercap): the backends that were found, and the decisions made on
//! what sysfs reports. Reading and writing sysfs is left to the caller.
use vstd::prelude::*;
use crate::text::{
    chars_of, owned, parse_unsigned, spec_parse_unsigned, spec_starts_with, spec_tokens,
    spec_trim, starts_with, string_of, tokens, trim, views,
};
use crate::types::PowerCapabilities;

verus! {

/// RAPL powercap domain of the CPU package (energy telemetry).
#[derive(Debug, Clone)]
pub struct RaplBackend {
    pub energy_path: String,
    pub max_energy_range_uj: Option<u64>,
}

/// AMD P-State energy performance preference control.
#[derive(Debug, Clone)]
pub struct AmdPStateBackend {
    /// The CPU directories, in CPU order.
    pub cpu_paths: Vec<String>,
}

/// cpufreq governor and frequency limits.
#[derive(Debug, Clone)]
pub struct CpufreqBackend {
    /// The CPU directories, in CPU order.
    pub cpu_paths: Vec<String>,
    /// Hardware frequency range of CPU 0, `(min, max)` in MHz.
    pub frequency_range: Option<(u32, u32)>,
}

/// The Linux power management interfaces that were found.
#[derive(Debug, Clone)]
pub struct LinuxPower {
    pub amd_pstate: Option<AmdPStateBackend>,
    pub cpufreq: Option<CpufreqBackend>,
    pub rapl: Option<RaplBackend>,
}

/// The highest frequency limit in MHz that cpufreq can be given: its kHz
/// value, a thousand times as much, must fit in 32 bits.
pub const MAX_LIMIT_MHZ: u32 = 4_294_967;

/// A positive frequency, or none.
pub open spec fn positive(v: u32) -> Option<u32> {
    if v > 0 {
        Some(v)
    } else {
        None
    }
}

impl LinuxPower {
    /// The capabilities of the backends that were found, given the EPP
    /// preferences and governors that sysfs lists (read by the caller).
    pub fn capabilities(
        &self,
        available_epp_preferences: Option<Vec<String>>,
        available_governors: Option<Vec<String>>,
    ) -> (caps: PowerCapabilities)
        ensures
            caps.supports_tdp == false,
            caps.supports_thermal == false,
            caps.tdp_min_watts is None,
            caps.tdp_max_watts is None,
            self.amd_pstate is Some ==> caps.available_epp_preferences == available_epp_preferences
                && caps.supports_epp == available_epp_preferences is Some,
            self.amd_pstate is None ==> caps.available_epp_preferences is None && !caps.supports_epp,
            caps.supports_governor == self.cpufreq is Some,
            caps.supports_frequency_limits == self.cpufreq is Some,
            self.cpufreq is Some ==> caps.available_governors == available_governors,
            self.cpufreq is None ==> caps.available_governors is None,
            caps.frequency_min_mhz == (match self.cpufreq {
                Some(c) => match c.frequency_range {
                    Some(r) => positive(r.0),
                    None => None,
                },
                None => None,
            }),
            caps.frequency_max_mhz == (match self.cpufreq {
                Some(c) => match c.frequency_range {
                    Some(r) => positive(r.1),
                    None => None,
                },
                None => None,
            }),
    {
        let mut caps = PowerCapabilities {
            supports_tdp: false,
            supports_thermal: false,
            supports_epp: false,
            supports_governor: false,
            supports_frequency_limits: false,
            available_epp_preferences: None,
            available_governors: None,
            frequency_min_mhz: None,
            frequency_max_mhz: None,
            tdp_min_watts: None,
            tdp_max_watts: None,
        };
        if self.amd_pstate.is_some() {
            caps.supports_epp = available_epp_preferences.is_some();
            caps.available_epp_preferences = available_epp_preferences;
        }
        if let Some(cpufreq) = &self.cpufreq {
            caps.supports_governor = true;
            caps.supports_frequency_limits = true;
            caps.available_governors = available_governors;
            if let Some((lo, hi)) = cpufreq.frequency_range {
                caps.frequency_min_mhz = if lo > 0 {
                    Some(lo)
                } else {
                    None
                };
                caps.frequency_max_mhz = if hi > 0 {
                    Some(hi)
                } else {
                    None
                };
            }
        }
        caps
    }

    /// The `(min, max)` frequency limits in MHz to write, clamped to the
    /// hardware range (`0` to `MAX_LIMIT_MHZ` where it is unknown, and never
    /// above `MAX_LIMIT_MHZ`): a missing limit resets to the hardware bound,
    /// the minimum never exceeds the maximum, and both can be written in kHz.
    /// An error where cpufreq was not found.
    pub fn frequency_limits(&self, min_mhz: Option<u32>, max_mhz: Option<u32>) -> (r: Result<
        (u32, u32),
        String,
    >)
        ensures
            self.cpufreq is None <==> r is Err,
            r matches Err(e) ==> e@ == "cpufreq backend not available"@,
            r matches Ok(p) ==> ({
                let (hw_min, hw_max) = hardware_range(self.cpufreq.unwrap().frequency_range);
                let max = clamp_to(
                    match max_mhz {
                        Some(v) => v,
                        None => hw_max,
                    },
                    hw_min,
                    hw_max,
                );
                let min = clamp_to(
                    match min_mhz {
                        Some(v) => v,
                        None => hw_min,
                    },
                    hw_min,
                    hw_max,
                );
                p == (if min <= max {
                    min
                } else {
                    max
                }, max)
            }),
            r matches Ok(p) ==> p.0 <= p.1,
            r matches Ok(p) ==> p.1 <= MAX_LIMIT_MHZ && p.1 * 1000 <= u32::MAX,
    {
        match &self.cpufreq {
            None => Err(owned("cpufreq backend not available")),
            Some(cpufreq) => {
                let (hw_min, hw_max) = match cpufreq.frequency_range {
                    Some(range) => {
                        let top = if range.1 < MAX_LIMIT_MHZ {
                            range.1
                        } else {
                            MAX_LIMIT_MHZ
                        };
                        (
                            if range.0 < top {
                                range.0
                            } else {
                                top
                            },
                            top,
                        )
                    },
                    None => (0u32, MAX_LIMIT_MHZ),
                };
                let max = clamp_u32(
                    match max_mhz {
                        Some(v) => v,
                        None => hw_max,
                    },
                    hw_min,
                    hw_max,
                );
                let min = clamp_u32(
                    match min_mhz {
                        Some(v) => v,
                        None => hw_min,
                    },
                    hw_min,
                    hw_max,
                );
                Ok((
                    if min <= max {
                        min
                    } else {
                        max
                    },
                    max,
                ))
            },
        }
    }
}

/// The hardware range, its top brought down to `MAX_LIMIT_MHZ` and its
/// bottom to that top; `0` to `MAX_LIMIT_MHZ` where it is unknown.
pub open spec fn hardware_range(range: Option<(u32, u32)>) -> (u32, u32) {
    match range {
        Some(r) => {
            let top = if r.1 < MAX_LIMIT_MHZ {
                r.1
            } else {
                MAX_LIMIT_MHZ
            };
            (if r.0 < top {
                r.0
            } else {
                top
            }, top)
        },
        None => (0u32, MAX_LIMIT_MHZ),
    }
}

/// `v` brought into `[lo, hi]` (to `lo` where `v` is below it, else to `hi`
/// where above it).
pub open spec fn clamp_to(v: u32, lo: u32, hi: u32) -> u32 {
    if v < lo {
        lo
    } else if v > hi {
        hi
    } else {
        v
    }
}

fn clamp_u32(v: u32, lo: u32, hi: u32) -> (r: u32)
    ensures
        r == clamp_to(v, lo, hi),
{
    if v < lo {
        lo
    } else if v > hi {
        hi
    } else {
        v
    }
}

/// The hardware frequency range in MHz from the `cpuinfo_min_freq` and
/// `cpuinfo_max_freq` readings in kHz: each reading truncated to 32 bits,
/// then divided by 1000; none unless both were read.
pub fn frequency_range_from(min_khz: Option<u64>, max_khz: Option<u64>) -> (r: Option<(u32, u32)>)
    ensures
        r == (match (min_khz, max_khz) {
            (Some(a), Some(b)) => Some(((a as u32) / 1000, (b as u32) / 1000)),
            _ => None,
        }),
{
    match (min_khz, max_khz) {
        (Some(a), Some(b)) => Some(((a as u32) / 1000, (b as u32) / 1000)),
        _ => None,
    }
}

/// A frequency in kHz as MHz, the quotient truncated to 32 bits.
pub fn khz_to_mhz(khz: u64) -> (r: u32)
    ensures
        r == (khz / 1000) as u32,
{
    (khz / 1000) as u32
}

/// The frequency limits in kHz that cpufreq takes for limits in MHz.
pub fn frequency_limits_khz(min_mhz: u32, max_mhz: u32) -> (r: (u64, u64))
    requires
        min_mhz * 1000 <= u32::MAX,
        max_mhz * 1000 <= u32::MAX,
    ensures
        r.0 == min_mhz * 1000,
        r.1 == max_mhz * 1000,
{
    ((min_mhz * 1000) as u64, (max_mhz * 1000) as u64)
}

/// The lowest of the readings in MHz (each kHz reading divided by 1000 and
/// truncated to 32 bits); `u32::MAX` over no reading.
pub open spec fn readings_min(rs: Seq<u64>) -> u32
    decreases rs.len(),
{
    if rs.len() == 0 {
        u32::MAX
    } else {
        let m = readings_min(rs.drop_last());
        let c = (rs.last() / 1000) as u32;
        if c < m {
            c
        } else {
            m
        }
    }
}

/// The highest of the readings in MHz; `0` over no reading.
pub open spec fn readings_max(rs: Seq<u64>) -> u32
    decreases rs.len(),
{
    if rs.len() == 0 {
        0
    } else {
        let m = readings_max(rs.drop_last());
        let c = (rs.last() / 1000) as u32;
        if c > m {
            c
        } else {
            m
        }
    }
}

/// Over at least one reading, the lowest is at most the highest.
proof fn lemma_readings_min_le_max(rs: Seq<u64>)
    requires
        rs.len() > 0,
    ensures
        readings_min(rs) <= readings_max(rs),
    decreases rs.len(),
{
    if rs.drop_last().len() > 0 {
        lemma_readings_min_le_max(rs.drop_last());
    }
}

/// The live `(min, max)` frequency in MHz across CPUs, from the
/// `scaling_cur_freq` readings in kHz that succeeded. An error where the
/// lowest reading is `u32::MAX` MHz or the highest is `0` MHz (so where
/// there is no reading).
pub fn live_frequency_range(readings_khz: &Vec<u64>) -> (r: Result<(u32, u32), String>)
    ensures
        (readings_min(readings_khz@) != u32::MAX && readings_max(readings_khz@) != 0) <==> r is Ok,
        r matches Ok(p) ==> p == (readings_min(readings_khz@), readings_max(readings_khz@)),
        r matches Err(e) ==> e@ == "Could not read current frequency from any CPU"@,
        r matches Ok(p) ==> p.0 <= p.1,
{
    let mut lo: u32 = u32::MAX;
    let mut hi: u32 = 0;
    let mut i: usize = 0;
    assert(readings_khz@.take(0) =~= Seq::<u64>::empty());
    while i < readings_khz.len()
        invariant
            i <= readings_khz.len(),
            lo == readings_min(readings_khz@.take(i as int)),
            hi == readings_max(readings_khz@.take(i as int)),
        decreases readings_khz.len() - i,
    {
        assert(readings_khz@.take(i + 1).drop_last() =~= readings_khz@.take(i as int));
        let cur = (readings_khz[i] / 1000) as u32;
        if cur < lo {
            lo = cur;
        }
        if cur > hi {
            hi = cur;
        }
        i += 1;
    }
    assert(readings_khz@.take(readings_khz.len() as int) =~= readings_khz@);
    if lo != u32::MAX && hi != 0 {
        proof {
            if readings_khz@.len() > 0 {
                lemma_readings_min_le_max(readings_khz@);
            }
        }
        Ok((lo, hi))
    } else {
        Err(owned("Could not read current frequency from any CPU"))
    }
}

/// Whether a requested governor or EPP preference may be written: where
/// sysfs lists the available ones, only one of them.
pub fn choice_available(available: &Option<Vec<String>>, requested: &str) -> (r: bool)
    ensures
        r == (match available {
            Some(list) => exists|i: int| 0 <= i < list.len() && list[i]@ == requested@,
            None => true,
        }),
{
    match available {
        None => true,
        Some(list) => list_contains(list, requested),
    }
}

fn list_contains(list: &Vec<String>, requested: &str) -> (r: bool)
    ensures
        r == exists|i: int| 0 <= i < list.len() && list[i]@ == requested@,
{
    let req = owned(requested);
    let mut i: usize = 0;
    while i < list.len()
        invariant
            i <= list.len(),
            req@ == requested@,
            forall|j: int| 0 <= j < i ==> list@[j]@ != requested@,
        decreases list.len() - i,
    {
        if list[i] == req {
            assert(list@[i as int]@ == requested@);
            return true;
        }
        i += 1;
    }
    false
}

/// Energy used between two readings of a RAPL counter, in µJ: the counter
/// wraps at `max_energy_range_uj`; an error where it wrapped and that range
/// is unknown.
pub fn energy_delta_uj(start: u64, end: u64, max_energy_range_uj: Option<u64>) -> (r: Result<
    u64,
    String,
>)
    ensures
        end >= start ==> r == Ok::<u64, String>((end - start) as u64),
        end < start && max_energy_range_uj is Some ==> ({
            let m = max_energy_range_uj.unwrap();
            let left: int = if m >= start {
                m - start
            } else {
                0
            };
            r == Ok::<u64, String>(
                if left + end <= u64::MAX {
                    (left + end) as u64
                } else {
                    u64::MAX
                },
            )
        }),
        end < start && max_energy_range_uj is None ==> (r matches Err(e) && e@
            == "RAPL energy counter wrapped without max range"@),
{
    if end >= start {
        Ok(end - start)
    } else if let Some(max) = max_energy_range_uj {
        Ok(max.saturating_sub(start).saturating_add(end))
    } else {
        Err(owned("RAPL energy counter wrapped without max range"))
    }
}

/// Whether a powercap domain named `name` is a CPU package.
pub fn is_package_domain(name: &str) -> (r: bool)
    ensures
        r == spec_starts_with(name@, "package-"@),
{
    starts_with(&chars_of(name), &chars_of("package-"))
}

/// A sysfs attribute holding a number.
pub fn parse_sysfs_u64(content: &str) -> (r: Option<u64>)
    ensures
        match r {
            Some(v) => spec_parse_unsigned(spec_trim(content@), u64::MAX as nat) == Some(v as nat),
            None => spec_parse_unsigned(spec_trim(content@), u64::MAX as nat) is None,
        },
{
    parse_unsigned(&trim(&chars_of(content)), u64::MAX)
}

/// A sysfs attribute holding a whitespace-separated list.
pub fn sysfs_list(content: &str) -> (r: Vec<String>)
    ensures
        r@.len() == spec_tokens(content@).len(),
        forall|i: int| 0 <= i < r@.len() ==> r@[i]@ == spec_tokens(content@)[i],
{
    let toks = tokens(&chars_of(content));
    let mut out: Vec<String> = Vec::new();
    let mut i: usize = 0;
    while i < toks.len()
        invariant
            i <= toks.len(),
            out@.len() == i,
            views(toks@) == spec_tokens(content@),
            forall|j: int| 0 <= j < i ==> out@[j]@ == spec_tokens(content@)[j],
        decreases toks.len() - i,
    {
        out.push(string_of(&toks[i]));
        i += 1;
    }
    out
}

/// A sysfs attribute holding one value, trimmed.
pub fn sysfs_string(content: &str) -> (r: String)
    ensures
        r@ == spec_trim(content@),
{
    string_of(&trim(&chars_of(content)))
}

/// The live range spans the readings: over at least one reading, its
/// minimum is at most every reading in MHz and is one of them, and its
/// maximum is at least every reading and is one of them.
pub proof fn law_live_range_is_lowest_and_highest(rs: Seq<u64>)
    requires
        rs.len() > 0,
    ensures
        forall|i: int|
            0 <= i < rs.len() ==> readings_min(rs) <= #[trigger] ((rs[i] / 1000) as u32) <= readings_max(rs),
        exists|i: int| 0 <= i < rs.len() && readings_min(rs) == #[trigger] ((rs[i] / 1000) as u32),
        exists|i: int| 0 <= i < rs.len() && readings_max(rs) == #[trigger] ((rs[i] / 1000) as u32),
    decreases rs.len(),
{
    let p = rs.drop_last();
    let c = (rs.last() / 1000) as u32;
    let last = rs.len() - 1;
    assert(rs[last] == rs.last());
    if p.len() == 0 {
        assert(readings_min(p) == u32::MAX);
        assert(readings_max(p) == 0);
        assert(readings_min(rs) == c);
        assert(readings_max(rs) == c);
    } else {
        law_live_range_is_lowest_and_highest(p);
        assert forall|i: int| 0 <= i < rs.len() implies readings_min(rs) <= #[trigger] ((rs[i] / 1000) as u32)
            <= readings_max(rs) by {
            if i < p.len() {
                assert(rs[i] == p[i]);
            }
        }
        let jm = choose|i: int| 0 <= i < p.len() && readings_min(p) == #[trigger] ((p[i] / 1000) as u32);
        let jx = choose|i: int| 0 <= i < p.len() && readings_max(p) == #[trigger] ((p[i] / 1000) as u32);
        assert(rs[jm] == p[jm]);
        assert(rs[jx] == p[jx]);
        if c < readings_min(p) {
            assert(readings_min(rs) == (rs[last] / 1000) as u32);
        } else {
            assert(readings_min(rs) == (rs[jm] / 1000) as u32);
        }
        if c > readings_max(p) {
            assert(readings_max(rs) == (rs[last] / 1000) as u32);
        } else {
            assert(readings_max(rs) == (rs[jx] / 1000) as u32);
        }
    }
}

/// Clamping keeps a value inside the range: for a range `lo <= hi`, the
/// result lies in it, a value inside it is kept, one below gives `lo` and
/// one above gives `hi`. A known range that can be written is kept as it
/// is; an unknown one is `0` to `MAX_LIMIT_MHZ`.
pub proof fn law_clamp_to_range(v: u32, lo: u32, hi: u32)
    requires
        lo <= hi,
    ensures
        lo <= clamp_to(v, lo, hi) <= hi,
        lo <= v <= hi ==> clamp_to(v, lo, hi) == v,
        v < lo ==> clamp_to(v, lo, hi) == lo,
        v > hi ==> clamp_to(v, lo, hi) == hi,
        hi <= MAX_LIMIT_MHZ ==> hardware_range(Some((lo, hi))) == (lo, hi),
        hardware_range(None) == (0u32, 4_294_967u32),
{
}

} // verus!
