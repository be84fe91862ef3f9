use framework_service::cli::{
    accept_charge_limit, autofanctrl_args, charge_limit_set_args, charge_rate_limit_args,
    command_outcome, fan_duty_args, mainboard_is_desktop, next_install_step, InstallStep,
};
use framework_service::parser::{BatteryChargeLimitInfo, VersionsParsed};

#[test]
fn desktop_boards() {
    let mut v = VersionsParsed::default();
    assert!(!mainboard_is_desktop(&v));
    v.mainboard_type = Some("Framework DESKTOP (AMD Ryzen AI Max 300 Series)".to_string());
    assert!(mainboard_is_desktop(&v));
    v.mainboard_type = Some("Laptop 13".to_string());
    assert!(!mainboard_is_desktop(&v));
}

#[test]
fn command_arguments() {
    assert_eq!(fan_duty_args(55, None), vec!["--fansetduty".to_string(), "55".to_string()]);
    assert_eq!(fan_duty_args(100, Some(1)), vec!["--fansetduty".to_string(), "1".to_string(), "100".to_string()]);
    assert_eq!(autofanctrl_args(), vec!["--autofanctrl".to_string()]);
    assert_eq!(charge_limit_set_args(80), vec!["--charge-limit".to_string(), "80".to_string()]);
    assert_eq!(charge_rate_limit_args("0.500", None), vec!["--charge-rate-limit".to_string(), "0.500".to_string()]);
    assert_eq!(
        charge_rate_limit_args("1.000", Some(85)),
        vec!["--charge-rate-limit".to_string(), "1.000".to_string(), "85".to_string()]
    );
}

#[test]
fn charge_limit_acceptance() {
    let none = BatteryChargeLimitInfo::default();
    assert_eq!(accept_charge_limit(none), Err("failed to parse charge limit".to_string()));
    let some = BatteryChargeLimitInfo { charge_limit_min_pct: None, charge_limit_max_pct: Some(80) };
    assert_eq!(accept_charge_limit(some), Ok(some));
}

#[test]
fn command_outcomes() {
    assert_eq!(command_outcome(true, "ok\n", "exit status: 0", ""), Ok("ok\n".to_string()));
    assert_eq!(
        command_outcome(false, "", "exit status: 1", "boom"),
        Err("exit exit status: 1: boom".to_string())
    );
}

#[test]
fn install_steps() {
    assert_eq!(next_install_step(InstallStep::Resolve, true, false), InstallStep::Resolved);
    assert_eq!(next_install_step(InstallStep::Resolve, false, false), InstallStep::DirectDownload);
    assert_eq!(next_install_step(InstallStep::Resolve, false, true), InstallStep::Winget);
    assert_eq!(next_install_step(InstallStep::Winget, false, true), InstallStep::ResolveAfterWinget);
    assert_eq!(next_install_step(InstallStep::ResolveAfterWinget, false, true), InstallStep::DirectDownload);
    assert_eq!(next_install_step(InstallStep::DirectDownload, false, true), InstallStep::FinalResolve);
    assert_eq!(next_install_step(InstallStep::FinalResolve, false, true), InstallStep::Failed);
    assert_eq!(next_install_step(InstallStep::FinalResolve, true, true), InstallStep::Resolved);
    let mut step = InstallStep::Resolve;
    for _ in 0..5 {
        step = next_install_step(step, false, true);
    }
    assert_eq!(step, InstallStep::Failed);
}
