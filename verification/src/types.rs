//! Configuration and API types of the service.
use vstd::prelude::*;
use crate::parser::{BatteryChargeLimitInfo, PowerBatteryInfo};
use crate::temp_map::TempMap;

verus! {

/// How the fans are driven.
#[derive(Debug, Clone, Copy, PartialEq, Eq, Default)]
pub enum FanControlMode {
    /// The embedded controller drives the fans.
    #[default]
    Disabled,
    /// A fixed duty cycle.
    Manual,
    /// A duty cycle that follows a temperature curve.
    Curve,
}

/// Fan control settings.
#[derive(Debug, Clone, Default)]
pub struct FanControlConfig {
    pub mode: Option<FanControlMode>,
    pub manual: Option<ManualConfig>,
    pub curve: Option<CurveConfig>,
    pub calibration: Option<FanCalibration>,
}

/// A fixed fan duty cycle, in percent.
#[derive(Debug, Clone)]
pub struct ManualConfig {
    pub duty_pct: u32,
}

/// A fan curve: temperature to duty cycle points, `[temp_c, duty_pct]`.
#[derive(Debug, Clone)]
pub struct CurveConfig {
    pub sensors: Vec<String>,
    pub points: Vec<[u32; 2]>,
    pub poll_ms: u64,
    pub hysteresis_c: u32,
    pub rate_limit_pct_per_step: u32,
}

/// The curve points used when a configuration gives none.
pub open spec fn spec_default_points() -> Seq<[u32; 2]> {
    seq![[40, 0], [60, 40], [75, 80], [85, 100]]
}

/// Curve points of a curve configuration that gives none.
pub fn default_points() -> (r: Vec<[u32; 2]>)
    ensures
        r@ == spec_default_points(),
{
    let r = vec![[40, 0], [60, 40], [75, 80], [85, 100]];
    assert(r@ =~= spec_default_points());
    r
}

/// Curve polling period, in milliseconds, when a configuration gives none.
pub fn default_poll_ms() -> (r: u64)
    ensures
        r == 2000,
{
    2000
}

/// Curve hysteresis, in °C, when a configuration gives none.
pub fn default_hysteresis_c() -> (r: u32)
    ensures
        r == 2,
{
    2
}

/// Largest duty change per curve step, in percent, when a configuration gives none.
pub fn default_rate_limit_pct_per_step() -> (r: u32)
    ensures
        r == 100,
{
    100
}

/// The installed and the latest released version.
#[derive(Debug, Clone)]
pub struct UpdateCheck {
    pub current_version: String,
    pub latest_version: String,
}

/// A description of the machine.
#[derive(Debug, Clone)]
pub struct SystemInfo {
    pub cpu: String,
    pub memory_total_mb: u64,
    pub os: String,
    pub dgpu: Option<String>,
}

/// Whether the service found `framework_tool`, and its version.
#[derive(Debug, Clone)]
pub struct Health {
    pub cli_present: bool,
    pub service_version: String,
}

/// Whether the desktop shortcuts are installed.
#[derive(Debug, Clone, Default)]
pub struct ShortcutsStatus {
    pub installed: bool,
}

/// An empty response.
#[derive(Debug, Clone, Default)]
pub struct Empty {}

/// Update settings.
#[derive(Debug, Clone, Default)]
pub struct UpdatesConfig {
    pub auto_install: bool,
}

/// User interface settings.
#[derive(Debug, Clone, Default)]
pub struct UiConfig {
    /// Preferred UI theme.
    pub theme: Option<String>,
}

/// How often telemetry is sampled and how long it is kept.
#[derive(Debug, Clone)]
pub struct TelemetryConfig {
    pub poll_ms: u64,
    pub retain_seconds: u64,
}

/// Telemetry polling period, in milliseconds, when a configuration gives none.
pub fn default_telemetry_poll_ms() -> (r: u64)
    ensures
        r == 1000,
{
    1000
}

/// How long telemetry samples are kept, in seconds, when a configuration gives none.
pub fn default_telemetry_retain_seconds() -> (r: u64)
    ensures
        r == 1800,
{
    1800
}

impl Default for TelemetryConfig {
    fn default() -> (r: Self)
        ensures
            r.poll_ms == 1000,
            r.retain_seconds == 1800,
    {
        TelemetryConfig {
            poll_ms: default_telemetry_poll_ms(),
            retain_seconds: default_telemetry_retain_seconds(),
        }
    }
}

/// One telemetry sample: temperatures by sensor and fan speeds.
pub struct TelemetrySample {
    pub ts_ms: i64,
    pub temps: TempMap,
    pub rpms: Vec<u32>,
}

/// Measured fan response: `[duty_pct, rpm]` points.
#[derive(Debug, Clone)]
pub struct FanCalibration {
    pub points: Vec<[u32; 2]>,
    /// Unix timestamp (seconds).
    pub updated_at: i64,
}

/// Generic API error envelope.
#[derive(Debug, Clone)]
pub struct ErrorEnvelope {
    pub code: String,
    pub message: String,
}

/// A numeric setting: whether it is applied, and the last chosen value
/// (kept even when disabled).
#[derive(Debug, Clone, Copy, PartialEq, Eq, Default)]
pub struct SettingU32 {
    pub enabled: bool,
    pub value: u32,
}

/// A text setting: whether it is applied, and the last chosen value
/// (kept even when disabled).
#[derive(Debug, Clone, Default)]
pub struct SettingString {
    pub enabled: bool,
    pub value: String,
}

/// Power settings for one power source.
#[derive(Debug, Clone, Default)]
pub struct PowerProfile {
    /// Direct TDP control (Windows).
    pub tdp_watts: Option<SettingU32>,
    /// Thermal limit.
    pub thermal_limit_c: Option<SettingU32>,
    /// AMD P-State energy performance preference (Linux).
    pub epp_preference: Option<SettingString>,
    /// cpufreq governor (Linux).
    pub governor: Option<SettingString>,
    /// cpufreq frequency limits in MHz (Linux).
    pub min_freq_mhz: Option<SettingU32>,
    pub max_freq_mhz: Option<SettingU32>,
}

/// The power profiles to apply on AC power and on battery.
#[derive(Debug, Clone, Default)]
pub struct PowerConfig {
    /// Profile used when AC power is present (plugged in / charging).
    pub ac: Option<PowerProfile>,
    /// Profile used when running on battery (not charging).
    pub battery: Option<PowerProfile>,
}

/// A small numeric setting: whether it is applied, and the last chosen value
/// (kept even when disabled).
#[derive(Debug, Clone, Copy, PartialEq, Eq, Default)]
pub struct SettingU8 {
    pub enabled: bool,
    pub value: u8,
}

/// Battery information: what `--power` reports, with the charge limits.
#[derive(Debug, Clone, Copy, Default)]
pub struct BatteryInfo {
    pub power_info: PowerBatteryInfo,
    pub limits: BatteryChargeLimitInfo,
}

/// What the power controls of this machine can do.
#[derive(Debug, Clone, Default)]
pub struct PowerCapabilities {
    pub supports_tdp: bool,
    pub supports_thermal: bool,
    pub supports_epp: bool,
    pub supports_governor: bool,
    pub supports_frequency_limits: bool,
    pub available_epp_preferences: Option<Vec<String>>,
    pub available_governors: Option<Vec<String>>,
    pub frequency_min_mhz: Option<u32>,
    pub frequency_max_mhz: Option<u32>,
    pub tdp_min_watts: Option<u32>,
    pub tdp_max_watts: Option<u32>,
}

/// A request to set the maximum charge level, in percent.
#[derive(Debug, Clone, Copy)]
pub struct SetChargeLimitRequest {
    pub max_pct: u8,
}

} // verus!
