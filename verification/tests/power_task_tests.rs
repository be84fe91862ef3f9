use framework_service::parser::PowerBatteryInfo;
use framework_service::power_task::{
    frequency_limits_target, limits_compared_with, select_profile_from_power, string_setting_enforced,
    u32_setting_enforced,
};
use framework_service::types::{PowerConfig, PowerProfile, SettingString, SettingU32};

fn profile(value: u32) -> PowerProfile {
    PowerProfile {
        thermal_limit_c: Some(SettingU32 { enabled: true, value }),
        ..Default::default()
    }
}

fn selected_value(power: PowerBatteryInfo) -> Option<u32> {
    let cfg = PowerConfig {
        ac: Some(profile(90)),
        battery: Some(profile(70)),
    };
    select_profile_from_power(cfg, &power).and_then(|p| p.thermal_limit_c.map(|s| s.value))
}

#[test]
fn selects_ac_profile_when_battery_present_and_ac_connected() {
    assert_eq!(
        selected_value(PowerBatteryInfo {
            battery_present: Some(true),
            ac_present: Some(true),
            ..Default::default()
        }),
        Some(90)
    );
}

#[test]
fn selects_battery_profile_when_battery_present_and_ac_disconnected() {
    assert_eq!(
        selected_value(PowerBatteryInfo {
            battery_present: Some(true),
            ac_present: Some(false),
            ..Default::default()
        }),
        Some(70)
    );
}

#[test]
fn selects_ac_profile_when_no_battery_is_present() {
    assert_eq!(
        selected_value(PowerBatteryInfo {
            battery_present: Some(false),
            ac_present: None,
            ..Default::default()
        }),
        Some(90)
    );
}

#[test]
fn skips_when_power_source_is_unknown_and_battery_is_not_explicitly_absent() {
    assert_eq!(
        selected_value(PowerBatteryInfo {
            battery_present: None,
            ac_present: None,
            ..Default::default()
        }),
        None
    );
}

#[test]
fn battery_absent_wins_over_ac_disconnected() {
    assert_eq!(
        selected_value(PowerBatteryInfo {
            battery_present: Some(false),
            ac_present: Some(false),
            ..Default::default()
        }),
        Some(90)
    );
}

#[test]
fn unknown_battery_with_ac_disconnected_selects_battery_profile() {
    assert_eq!(
        selected_value(PowerBatteryInfo {
            battery_present: None,
            ac_present: Some(false),
            ..Default::default()
        }),
        Some(70)
    );
}

#[test]
fn settings_enforced_only_when_enabled_and_meaningful() {
    assert!(u32_setting_enforced(&SettingU32 { enabled: true, value: 15 }));
    assert!(!u32_setting_enforced(&SettingU32 { enabled: true, value: 0 }));
    assert!(!u32_setting_enforced(&SettingU32 { enabled: false, value: 15 }));
    assert!(string_setting_enforced(&SettingString { enabled: true, value: "powersave".to_string() }));
    assert!(!string_setting_enforced(&SettingString { enabled: true, value: "  \t".to_string() }));
    assert!(!string_setting_enforced(&SettingString { enabled: false, value: "performance".to_string() }));
}

#[test]
fn frequency_targets_keep_only_enforced_limits() {
    let none = PowerProfile::default();
    assert_eq!(frequency_limits_target(&none), None);
    let p = PowerProfile {
        min_freq_mhz: Some(SettingU32 { enabled: false, value: 800 }),
        max_freq_mhz: Some(SettingU32 { enabled: true, value: 3000 }),
        ..Default::default()
    };
    assert_eq!(frequency_limits_target(&p), Some((true, (None, Some(3000)))));
    let q = PowerProfile {
        min_freq_mhz: Some(SettingU32 { enabled: true, value: 0 }),
        ..Default::default()
    };
    assert_eq!(frequency_limits_target(&q), Some((false, (None, None))));
}

#[test]
fn current_limits_compared_only_where_targeted() {
    assert_eq!(limits_compared_with((Some(800), None), (400, 5000)), (Some(400), None));
    assert_eq!(limits_compared_with((None, Some(3000)), (400, 5000)), (None, Some(5000)));
    assert_eq!(limits_compared_with((Some(1), Some(2)), (400, 5000)), (Some(400), Some(5000)));
    assert_eq!(limits_compared_with((None, None), (400, 5000)), (None, None));
}
