//! The `framework_tool` command line: the arguments it is given, and what
//! is made of what it prints. Running it is left to the caller.
use vstd::prelude::*;
use crate::parser::{BatteryChargeLimitInfo, VersionsParsed};
use crate::text::{
    chars_of, concat, contains, decimal, decimal_string, lower, owned, spec_contains, spec_lower,
};

verus! {

/// The `framework_tool` executable to run.
#[derive(Debug, Clone)]
pub struct FrameworkTool {
    pub path: String,
}

/// The views of a list of arguments.
pub open spec fn arg_views(args: Seq<String>) -> Seq<Seq<char>> {
    args.map_values(|a: String| a@)
}

/// Whether the mainboard type that `--versions` reports names a desktop
/// (in any letter case).
pub fn mainboard_is_desktop(versions: &VersionsParsed) -> (r: bool)
    ensures
        r == (match versions.mainboard_type {
            Some(t) => spec_contains(spec_lower(t@), "desktop"@),
            None => false,
        }),
{
    match &versions.mainboard_type {
        Some(t) => contains(&lower(&chars_of(t.as_str())), &chars_of("desktop")),
        None => false,
    }
}

/// Arguments that set the fan duty cycle: of one fan where an index is
/// given, of all fans otherwise.
pub fn fan_duty_args(percent: u32, fan_index: Option<u32>) -> (args: Vec<String>)
    ensures
        arg_views(args@) == (match fan_index {
            Some(i) => seq!["--fansetduty"@, decimal(i as nat), decimal(percent as nat)],
            None => seq!["--fansetduty"@, decimal(percent as nat)],
        }),
{
    let mut args: Vec<String> = Vec::new();
    args.push(owned("--fansetduty"));
    if let Some(i) = fan_index {
        args.push(decimal_string(i as u64));
    }
    args.push(decimal_string(percent as u64));
    assert(arg_views(args@) =~= (match fan_index {
        Some(i) => seq!["--fansetduty"@, decimal(i as nat), decimal(percent as nat)],
        None => seq!["--fansetduty"@, decimal(percent as nat)],
    }));
    args
}

/// Arguments that hand the fans back to the embedded controller.
pub fn autofanctrl_args() -> (args: Vec<String>)
    ensures
        arg_views(args@) == seq!["--autofanctrl"@],
{
    let args = vec![owned("--autofanctrl")];
    assert(arg_views(args@) =~= seq!["--autofanctrl"@]);
    args
}

/// Arguments that set the maximum charge level.
pub fn charge_limit_set_args(max_pct: u8) -> (args: Vec<String>)
    ensures
        arg_views(args@) == seq!["--charge-limit"@, decimal(max_pct as nat)],
{
    let args = vec![owned("--charge-limit"), decimal_string(max_pct as u64)];
    assert(arg_views(args@) =~= seq!["--charge-limit"@, decimal(max_pct as nat)]);
    args
}

/// Arguments that limit the charge rate (`rate` in C, as text), with an
/// optional state of charge threshold in percent.
pub fn charge_rate_limit_args(rate: &str, soc_threshold_pct: Option<u8>) -> (args: Vec<String>)
    ensures
        arg_views(args@) == (match soc_threshold_pct {
            Some(s) => seq!["--charge-rate-limit"@, rate@, decimal(s as nat)],
            None => seq!["--charge-rate-limit"@, rate@],
        }),
{
    let mut args: Vec<String> = Vec::new();
    args.push(owned("--charge-rate-limit"));
    args.push(owned(rate));
    if let Some(s) = soc_threshold_pct {
        args.push(decimal_string(s as u64));
    }
    assert(arg_views(args@) =~= (match soc_threshold_pct {
        Some(s) => seq!["--charge-rate-limit"@, rate@, decimal(s as nat)],
        None => seq!["--charge-rate-limit"@, rate@],
    }));
    args
}

/// The charge limits read from `--charge-limit` output, accepted where at
/// least one of them was found.
pub fn accept_charge_limit(info: BatteryChargeLimitInfo) -> (r: Result<BatteryChargeLimitInfo, String>)
    ensures
        (info.charge_limit_min_pct is Some || info.charge_limit_max_pct is Some) ==> r == Ok::<
            BatteryChargeLimitInfo,
            String,
        >(info),
        (info.charge_limit_min_pct is None && info.charge_limit_max_pct is None) ==> (r matches Err(
            e,
        ) && e@ == "failed to parse charge limit"@),
{
    if info.charge_limit_min_pct.is_some() || info.charge_limit_max_pct.is_some() {
        Ok(info)
    } else {
        Err(owned("failed to parse charge limit"))
    }
}

/// What a finished `framework_tool` run yields: its standard output where
/// it exited successfully, else `exit <status>: <standard error>`.
pub fn command_outcome(success: bool, stdout: &str, status: &str, stderr: &str) -> (r: Result<
    String,
    String,
>)
    ensures
        success ==> (r matches Ok(out) && out@ == stdout@),
        !success ==> (r matches Err(e) && e@ == "exit "@ + status@ + ": "@ + stderr@),
{
    if success {
        Ok(owned(stdout))
    } else {
        let head = concat("exit ", status);
        let head = concat(head.as_str(), ": ");
        let e = concat(head.as_str(), stderr);
        Err(e)
    }
}

// ---------------------------------------------------------------------------
// Finding or installing framework_tool
// ---------------------------------------------------------------------------

/// The steps of finding `framework_tool`, installing it where it is missing.
#[derive(Debug, Clone, Copy, PartialEq, Eq)]
pub enum InstallStep {
    /// Look for it (on `PATH`, then beside the service) and check that it runs.
    Resolve,
    /// Install it with winget (Windows).
    Winget,
    /// Look for it again after winget.
    ResolveAfterWinget,
    /// Download it from the project's latest release.
    DirectDownload,
    /// Look for it a last time.
    FinalResolve,
    /// Found, and it runs.
    Resolved,
    /// Not found after every attempt.
    Failed,
}

/// The step after `step`, given whether it succeeded: a look that succeeds
/// ends the search; an installation attempt, failed or not, is followed by
/// a look; winget is tried on Windows only, before the direct download.
pub open spec fn install_next(step: InstallStep, succeeded: bool, windows: bool) -> InstallStep {
    match step {
        InstallStep::Resolve => if succeeded {
            InstallStep::Resolved
        } else if windows {
            InstallStep::Winget
        } else {
            InstallStep::DirectDownload
        },
        InstallStep::Winget => InstallStep::ResolveAfterWinget,
        InstallStep::ResolveAfterWinget => if succeeded {
            InstallStep::Resolved
        } else {
            InstallStep::DirectDownload
        },
        InstallStep::DirectDownload => InstallStep::FinalResolve,
        InstallStep::FinalResolve => if succeeded {
            InstallStep::Resolved
        } else {
            InstallStep::Failed
        },
        InstallStep::Resolved => InstallStep::Resolved,
        InstallStep::Failed => InstallStep::Failed,
    }
}

/// The step after `step`, given whether it succeeded.
pub fn next_install_step(step: InstallStep, succeeded: bool, windows: bool) -> (next: InstallStep)
    ensures
        next == install_next(step, succeeded, windows),
{
    match step {
        InstallStep::Resolve => {
            if succeeded {
                InstallStep::Resolved
            } else if windows {
                InstallStep::Winget
            } else {
                InstallStep::DirectDownload
            }
        },
        InstallStep::Winget => InstallStep::ResolveAfterWinget,
        InstallStep::ResolveAfterWinget => {
            if succeeded {
                InstallStep::Resolved
            } else {
                InstallStep::DirectDownload
            }
        },
        InstallStep::DirectDownload => InstallStep::FinalResolve,
        InstallStep::FinalResolve => {
            if succeeded {
                InstallStep::Resolved
            } else {
                InstallStep::Failed
            }
        },
        InstallStep::Resolved => InstallStep::Resolved,
        InstallStep::Failed => InstallStep::Failed,
    }
}

/// The step reached from `step` after the outcomes `outcomes`, in order.
pub open spec fn install_run(step: InstallStep, outcomes: Seq<bool>, windows: bool) -> InstallStep
    decreases outcomes.len(),
{
    if outcomes.len() == 0 {
        step
    } else {
        install_run(install_next(step, outcomes[0], windows), outcomes.drop_first(), windows)
    }
}

/// The search ends within five steps, whatever the outcomes; it ends
/// failed only where every look failed.
pub proof fn law_install_search_ends(outcomes: Seq<bool>, windows: bool)
    requires
        outcomes.len() >= 5,
    ensures
        install_run(InstallStep::Resolve, outcomes, windows) == InstallStep::Resolved
            || install_run(InstallStep::Resolve, outcomes, windows) == InstallStep::Failed,
        install_run(InstallStep::Resolve, outcomes, windows) == InstallStep::Failed ==> !outcomes[0]
            && (if windows {
            !outcomes[2] && !outcomes[4]
        } else {
            !outcomes[2]
        }),
{
    lemma_install_run_final(InstallStep::Resolved, outcomes.skip(1), windows);
    reveal_with_fuel(install_run, 6);
    assert(outcomes.drop_first() =~= outcomes.skip(1));
    let o = outcomes;
    assert(o.skip(1).drop_first() =~= o.skip(2));
    assert(o.skip(2).drop_first() =~= o.skip(3));
    assert(o.skip(3).drop_first() =~= o.skip(4));
    assert(o.skip(4).drop_first() =~= o.skip(5));
    lemma_install_run_final(InstallStep::Resolved, o.skip(2), windows);
    lemma_install_run_final(InstallStep::Resolved, o.skip(3), windows);
    lemma_install_run_final(InstallStep::Resolved, o.skip(4), windows);
    lemma_install_run_final(InstallStep::Resolved, o.skip(5), windows);
    lemma_install_run_final(InstallStep::Failed, o.skip(4), windows);
    lemma_install_run_final(InstallStep::Failed, o.skip(5), windows);
    lemma_install_run_final(InstallStep::Failed, o.skip(3), windows);
}

/// An ended search stays ended.
pub proof fn lemma_install_run_final(step: InstallStep, outcomes: Seq<bool>, windows: bool)
    requires
        step == InstallStep::Resolved || step == InstallStep::Failed,
    ensures
        install_run(step, outcomes, windows) == step,
    decreases outcomes.len(),
{
    if outcomes.len() > 0 {
        lemma_install_run_final(step, outcomes.drop_first(), windows);
    }
}

} // verus!
