use framework_service::types::{
    default_hysteresis_c, default_points, default_poll_ms, default_rate_limit_pct_per_step,
    default_telemetry_poll_ms, default_telemetry_retain_seconds, FanControlMode, TelemetryConfig,
};

#[test]
fn configuration_defaults() {
    assert_eq!(default_points(), vec![[40, 0], [60, 40], [75, 80], [85, 100]]);
    assert_eq!(default_poll_ms(), 2000);
    assert_eq!(default_hysteresis_c(), 2);
    assert_eq!(default_rate_limit_pct_per_step(), 100);
    assert_eq!(default_telemetry_poll_ms(), 1000);
    assert_eq!(default_telemetry_retain_seconds(), 1800);
    let t = TelemetryConfig::default();
    assert_eq!((t.poll_ms, t.retain_seconds), (1000, 1800));
    assert_eq!(FanControlMode::default(), FanControlMode::Disabled);
}
