use framework_service::battery_task::{BatteryTaskState, ChargeRateSetting, REAPPLY_INTERVAL_NS};
use framework_service::types::SettingU8;

const SEC: u64 = 1_000_000_000;

#[test]
fn charge_limit_is_clamped_and_sent_once_then_after_interval() {
    let mut st = BatteryTaskState::new();
    let s = Some(SettingU8 { enabled: true, value: 10 });
    assert_eq!(st.plan_charge_limit(s, 0), Some(25));
    st.charge_limit_applied(25, 0);
    assert_eq!(st.plan_charge_limit(s, 60 * SEC), None);
    assert_eq!(st.plan_charge_limit(s, 29 * 60 * SEC), None);
    assert_eq!(st.plan_charge_limit(s, 30 * 60 * SEC), Some(25));
    assert_eq!(REAPPLY_INTERVAL_NS, 30 * 60 * SEC);
}

#[test]
fn charge_limit_above_range_is_clamped_to_100() {
    let mut st = BatteryTaskState::new();
    assert_eq!(st.plan_charge_limit(Some(SettingU8 { enabled: true, value: 250 }), 5), Some(100));
}

#[test]
fn changed_charge_limit_is_sent_at_once() {
    let mut st = BatteryTaskState::new();
    st.charge_limit_applied(80, 0);
    assert_eq!(st.plan_charge_limit(Some(SettingU8 { enabled: true, value: 70 }), SEC), Some(70));
}

#[test]
fn disabled_charge_limit_forgets_and_sends_nothing() {
    let mut st = BatteryTaskState::new();
    st.charge_limit_applied(80, 0);
    assert_eq!(st.plan_charge_limit(Some(SettingU8 { enabled: false, value: 80 }), SEC), None);
    assert_eq!(st.last_charge_limit_pct, None);
    assert_eq!(st.last_charge_apply_at, None);
    assert_eq!(st.plan_charge_limit(Some(SettingU8 { enabled: true, value: 80 }), 2 * SEC), Some(80));
}

#[test]
fn missing_setting_changes_nothing() {
    let mut st = BatteryTaskState::new();
    st.charge_limit_applied(60, 7);
    let before = st;
    assert_eq!(st.plan_charge_limit(None, 9), None);
    assert_eq!(st, before);
    assert_eq!(st.plan_charge_rate(None, Some(50), 9), None);
    assert_eq!(st, before);
}

#[test]
fn charge_rate_is_clamped_and_threshold_change_resent() {
    let mut st = BatteryTaskState::new();
    let low = Some(ChargeRateSetting { enabled: true, twentieths: 0 });
    assert_eq!(st.plan_charge_rate(low, None, 0), Some((1, None)));
    let high = Some(ChargeRateSetting { enabled: true, twentieths: 33 });
    assert_eq!(st.plan_charge_rate(high, None, 0), Some((20, None)));
    let half = Some(ChargeRateSetting { enabled: true, twentieths: 10 });
    st.charge_rate_applied(10, Some(80), 0);
    assert_eq!(st.plan_charge_rate(half, Some(80), SEC), None);
    assert_eq!(st.plan_charge_rate(half, Some(70), SEC), Some((10, Some(70))));
    assert_eq!(st.plan_charge_rate(half, Some(80), 31 * 60 * SEC), Some((10, Some(80))));
}

#[test]
fn disabled_rate_forgets_and_lifts_the_limit_once() {
    let mut st = BatteryTaskState::new();
    st.charge_rate_applied(10, Some(80), 0);
    let off = Some(ChargeRateSetting { enabled: false, twentieths: 10 });
    // a disabled rate asks for 1.0 C (no limit) with the configured threshold
    assert_eq!(st.plan_charge_rate(off, Some(80), SEC), Some((20, Some(80))));
    assert_eq!(st.last_rate_twentieths, None);
    assert_eq!(st.last_threshold_pct, None);
    assert_eq!(st.last_rate_apply_at, None);
    // not taken yet: asked for again
    assert_eq!(st.plan_charge_rate(off, Some(80), 2 * SEC), Some((20, Some(80))));
    st.charge_rate_limit_lifted();
    assert!(st.rate_limit_lifted);
    // lifted: quiet while the setting stays disabled, even after the interval
    assert_eq!(st.plan_charge_rate(off, Some(80), 3 * SEC), None);
    assert_eq!(st.plan_charge_rate(off, None, 3 * SEC + 3_600 * SEC), None);
    // enabling again sends the rate at once and clears the lift
    let on = Some(ChargeRateSetting { enabled: true, twentieths: 10 });
    assert_eq!(st.plan_charge_rate(on, Some(80), 4 * SEC), Some((10, Some(80))));
    st.charge_rate_applied(10, Some(80), 4 * SEC);
    assert!(!st.rate_limit_lifted);
    assert_eq!(st.plan_charge_rate(off, Some(80), 5 * SEC), Some((20, Some(80))));
}

#[test]
fn disabled_rate_on_a_fresh_task_lifts_the_limit() {
    let mut st = BatteryTaskState::new();
    let off = Some(ChargeRateSetting { enabled: false, twentieths: 4 });
    assert_eq!(st.plan_charge_rate(off, None, 0), Some((20, None)));
    assert_eq!(st.plan_charge_rate(None, None, 0), None);
}

#[test]
fn battery_absent_forgets_everything() {
    let mut st = BatteryTaskState::new();
    st.charge_limit_applied(80, 3);
    st.charge_rate_applied(10, Some(80), 3);
    st.battery_absent();
    assert_eq!(st, BatteryTaskState::new());
    assert_eq!(st.plan_charge_limit(Some(SettingU8 { enabled: true, value: 80 }), 4), Some(80));
}

#[test]
fn clock_going_back_does_not_trigger_reapply() {
    let mut st = BatteryTaskState::new();
    st.charge_limit_applied(80, 100 * 60 * SEC);
    assert_eq!(st.plan_charge_limit(Some(SettingU8 { enabled: true, value: 80 }), 0), None);
}

#[test]
fn sent_rate_is_recorded_by_what_the_setting_asked() {
    let off = Some(ChargeRateSetting { enabled: false, twentieths: 6 });
    let on = Some(ChargeRateSetting { enabled: true, twentieths: 6 });
    let mut st = BatteryTaskState::new();
    st.charge_rate_sent(off, 20, Some(70), SEC);
    assert!(st.rate_limit_lifted);
    assert_eq!(st.last_rate_twentieths, None);
    assert_eq!(st.plan_charge_rate(off, Some(70), 2 * SEC), None);
    st.charge_rate_sent(on, 6, Some(70), 3 * SEC);
    assert!(!st.rate_limit_lifted);
    assert_eq!(st.last_rate_twentieths, Some(6));
    assert_eq!(st.last_threshold_pct, Some(70));
    assert_eq!(st.last_rate_apply_at, Some(3 * SEC));
    let mut fresh = BatteryTaskState::new();
    fresh.charge_rate_sent(None, 6, None, 4 * SEC);
    assert_eq!(fresh.last_rate_twentieths, Some(6));
}
