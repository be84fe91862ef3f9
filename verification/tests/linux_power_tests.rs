use framework_service::linux_power::{
    choice_available, energy_delta_uj, frequency_limits_khz, frequency_range_from,
    is_package_domain, khz_to_mhz, live_frequency_range, parse_sysfs_u64, sysfs_list,
    sysfs_string, AmdPStateBackend, MAX_LIMIT_MHZ, CpufreqBackend, LinuxPower,
};

fn with_cpufreq(range: Option<(u32, u32)>) -> LinuxPower {
    LinuxPower {
        amd_pstate: None,
        cpufreq: Some(CpufreqBackend { cpu_paths: vec!["/sys/devices/system/cpu/cpu0".to_string()], frequency_range: range }),
        rapl: None,
    }
}

#[test]
fn frequency_limits_default_and_clamp() {
    let lp = with_cpufreq(Some((400, 5000)));
    assert_eq!(lp.frequency_limits(None, None), Ok((400, 5000)));
    assert_eq!(lp.frequency_limits(Some(1000), Some(3000)), Ok((1000, 3000)));
    assert_eq!(lp.frequency_limits(Some(4000), Some(3000)), Ok((3000, 3000)));
    assert_eq!(lp.frequency_limits(Some(100), Some(9000)), Ok((400, 5000)));
    let unknown = with_cpufreq(None);
    assert_eq!(unknown.frequency_limits(Some(1200), None), Ok((1200, MAX_LIMIT_MHZ)));
    assert_eq!(unknown.frequency_limits(None, None), Ok((0, 4_294_967)));
    assert_eq!(unknown.frequency_limits(Some(u32::MAX), Some(u32::MAX)), Ok((MAX_LIMIT_MHZ, MAX_LIMIT_MHZ)));
    // the reset maximum can be written in kHz
    let (lo, hi) = unknown.frequency_limits(None, None).unwrap();
    assert_eq!(frequency_limits_khz(lo, hi), (0, 4_294_967_000));
}

#[test]
fn frequency_limits_without_cpufreq_fail() {
    let lp = LinuxPower { amd_pstate: None, cpufreq: None, rapl: None };
    assert_eq!(lp.frequency_limits(Some(1), Some(2)), Err("cpufreq backend not available".to_string()));
}

#[test]
fn capabilities_follow_backends() {
    let lp = LinuxPower {
        amd_pstate: Some(AmdPStateBackend { cpu_paths: vec![] }),
        cpufreq: Some(CpufreqBackend { cpu_paths: vec![], frequency_range: Some((0, 4800)) }),
        rapl: None,
    };
    let caps = lp.capabilities(Some(vec!["balance_power".to_string()]), Some(vec!["powersave".to_string()]));
    assert!(caps.supports_epp);
    assert!(caps.supports_governor);
    assert!(caps.supports_frequency_limits);
    assert!(!caps.supports_tdp);
    assert_eq!(caps.frequency_min_mhz, None);
    assert_eq!(caps.frequency_max_mhz, Some(4800));
    assert_eq!(caps.available_governors, Some(vec!["powersave".to_string()]));
    let none = LinuxPower { amd_pstate: None, cpufreq: None, rapl: None };
    let caps = none.capabilities(Some(vec!["x".to_string()]), None);
    assert!(!caps.supports_epp);
    assert_eq!(caps.available_epp_preferences, None);
    assert!(!caps.supports_governor);
}

#[test]
fn live_range_over_readings() {
    assert_eq!(live_frequency_range(&vec![1_400_000, 3_900_500, 2_000_000]), Ok((1400, 3900)));
    assert_eq!(live_frequency_range(&vec![]), Err("Could not read current frequency from any CPU".to_string()));
    assert!(live_frequency_range(&vec![500, 999]).is_err());
}

#[test]
fn hardware_range_and_unit_conversions() {
    assert_eq!(frequency_range_from(Some(400_000), Some(5_137_000)), Some((400, 5137)));
    assert_eq!(frequency_range_from(None, Some(5_137_000)), None);
    assert_eq!(frequency_range_from(Some(4_294_967_296 + 400_000), Some(1_000)), Some((400, 1)));
    assert_eq!(khz_to_mhz(3_600_999), 3600);
    assert_eq!(frequency_limits_khz(800, 4200), (800_000, 4_200_000));
}

#[test]
fn rapl_energy_delta() {
    assert_eq!(energy_delta_uj(100, 350, None), Ok(250));
    assert_eq!(energy_delta_uj(900, 100, Some(1000)), Ok(200));
    assert_eq!(energy_delta_uj(900, 100, Some(500)), Ok(100));
    assert_eq!(energy_delta_uj(900, 100, None), Err("RAPL energy counter wrapped without max range".to_string()));
    assert_eq!(energy_delta_uj(1, 0, Some(u64::MAX)), Ok(u64::MAX - 1));
}

#[test]
fn available_choices() {
    let list = Some(vec!["performance".to_string(), "powersave".to_string()]);
    assert!(choice_available(&list, "powersave"));
    assert!(!choice_available(&list, "ondemand"));
    assert!(choice_available(&None, "anything"));
}

#[test]
fn sysfs_values() {
    assert_eq!(parse_sysfs_u64(" 123456\n"), Some(123456));
    assert_eq!(parse_sysfs_u64("+7"), Some(7));
    assert_eq!(parse_sysfs_u64("abc"), None);
    assert_eq!(parse_sysfs_u64("18446744073709551616"), None);
    assert_eq!(sysfs_list("performance powersave\n"), vec!["performance".to_string(), "powersave".to_string()]);
    assert_eq!(sysfs_string("  balance_performance\n"), "balance_performance".to_string());
    assert!(is_package_domain("package-0"));
    assert!(!is_package_domain("core"));
}
