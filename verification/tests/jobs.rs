use w_squid::dispatch::ResultDispatcher;
use w_squid::jobs::{job_result_from_outcome, JobRunner, SpawnOutcome};

fn completed(success: bool, stdout: &str, stderr: &str) -> SpawnOutcome {
    SpawnOutcome::Completed {
        exit_success: success,
        stdout: stdout.to_string(),
        stderr: stderr.to_string(),
    }
}

#[test]
fn missing_script_synthesizes_a_failed_result_without_spawning() {
    let mut runner = JobRunner::new();
    let request = runner.start("CleanUp", "backend/clean_up.ps1", false);
    assert!(request.is_none());
    let result = ResultDispatcher::poll(&mut runner).unwrap();
    assert_eq!(result.name, "CleanUp");
    assert!(!result.success);
    assert_eq!(result.stdout, "");
    assert_eq!(result.stderr, "ProcessLaunchFailed: script not found: backend/clean_up.ps1");
}

#[test]
fn spawn_request_carries_the_fixed_interpreter_invocation() {
    let mut runner = JobRunner::new();
    let request = runner.start("CleanUp", "backend/clean_up.ps1", true).unwrap();
    assert_eq!(request.program, "powershell");
    assert_eq!(
        request.args,
        vec!["-NoProfile", "-ExecutionPolicy", "Bypass", "-File", "backend/clean_up.ps1"]
    );
}

#[test]
fn poll_before_any_completion_returns_nothing() {
    let mut runner = JobRunner::new();
    let _ = runner.start("A", "backend/a.ps1", true);
    assert!(ResultDispatcher::poll(&mut runner).is_none());
}

#[test]
fn second_start_discards_the_first_jobs_result() {
    let mut runner = JobRunner::new();
    let a = runner.start("A", "backend/a.ps1", true).unwrap();
    let b = runner.start("B", "backend/b.ps1", true).unwrap();

    let result_a = job_result_from_outcome("A", completed(true, "from a", ""));
    runner.deliver(a.job_id, result_a);
    assert!(ResultDispatcher::poll(&mut runner).is_none());

    let result_b = job_result_from_outcome("B", completed(true, "from b", ""));
    runner.deliver(b.job_id, result_b);
    let polled = ResultDispatcher::poll(&mut runner).unwrap();
    assert_eq!(polled.name, "B");
    assert_eq!(polled.stdout, "from b");
}

#[test]
fn a_result_is_consumed_by_exactly_one_poll() {
    let mut runner = JobRunner::new();
    let a = runner.start("A", "backend/a.ps1", true).unwrap();
    runner.deliver(a.job_id, job_result_from_outcome("A", completed(true, "ok", "")));
    assert!(ResultDispatcher::poll(&mut runner).is_some());
    assert!(ResultDispatcher::poll(&mut runner).is_none());
}

#[test]
fn completed_outcome_is_packaged_verbatim() {
    let result = job_result_from_outcome("DriveOpt", completed(false, "out", "err"));
    assert_eq!(result.name, "DriveOpt");
    assert!(!result.success);
    assert_eq!(result.stdout, "out");
    assert_eq!(result.stderr, "err");
}

#[test]
fn launch_failure_is_packaged_as_a_failed_result() {
    let outcome = SpawnOutcome::LaunchFailed { message: "interpreter missing".to_string() };
    let result = job_result_from_outcome("PowerPlan", outcome);
    assert!(!result.success);
    assert_eq!(result.stdout, "");
    assert_eq!(result.stderr, "ProcessLaunchFailed: interpreter missing");
}
