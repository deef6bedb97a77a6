use holly::supervisor::Directive;
use holly::supervisor::RunOutcome;
use holly::supervisor::Supervisor;

#[test]
fn clean_runs_restart_immediately() {
    let mut sup = Supervisor::new();
    assert_eq!(sup.on_run_end(RunOutcome::Clean, 1000), Directive::RestartNow);
    assert_eq!(sup.on_run_end(RunOutcome::Clean, 0), Directive::RestartNow);
}

#[test]
fn isolated_fatal_error_backs_off() {
    let mut sup = Supervisor::new();
    assert_eq!(sup.on_run_end(RunOutcome::Fatal, 61), Directive::BackoffRestart);
    // The flag was cleared: another late fatal error backs off again.
    assert_eq!(sup.on_run_end(RunOutcome::Fatal, 61), Directive::BackoffRestart);
}

#[test]
fn two_fatal_errors_within_the_window_terminate() {
    let mut sup = Supervisor::new();
    assert_eq!(sup.on_run_end(RunOutcome::Fatal, 30), Directive::RestartNow);
    assert_eq!(sup.on_run_end(RunOutcome::Fatal, 30), Directive::Terminate);
}

#[test]
fn window_boundary_counts_as_within() {
    let mut sup = Supervisor::new();
    assert_eq!(sup.on_run_end(RunOutcome::Fatal, 60), Directive::RestartNow);
    assert_eq!(sup.on_run_end(RunOutcome::Fatal, 60), Directive::Terminate);
}

#[test]
fn clean_run_clears_the_error_flag() {
    let mut sup = Supervisor::new();
    assert_eq!(sup.on_run_end(RunOutcome::Fatal, 30), Directive::RestartNow);
    assert_eq!(sup.on_run_end(RunOutcome::Clean, 30), Directive::RestartNow);
    // The earlier fatal error no longer counts.
    assert_eq!(sup.on_run_end(RunOutcome::Fatal, 30), Directive::RestartNow);
}

#[test]
fn late_fatal_error_resets_the_flag() {
    let mut sup = Supervisor::new();
    assert_eq!(sup.on_run_end(RunOutcome::Fatal, 10), Directive::RestartNow);
    assert_eq!(sup.on_run_end(RunOutcome::Fatal, 61), Directive::BackoffRestart);
    assert_eq!(sup.on_run_end(RunOutcome::Fatal, 10), Directive::RestartNow);
    assert_eq!(sup.on_run_end(RunOutcome::Fatal, 10), Directive::Terminate);
}
