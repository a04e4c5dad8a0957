use w_squid::dispatch::{default_log_paths, log_paths, ResultDispatcher};
use w_squid::jobs::{job_result_from_outcome, JobRunner, SpawnOutcome};
use w_squid::panel::plan_toggle;
use w_squid::resolver::ActionResolver;
use w_squid::store::{BackingResource, ToggleStateStore};

#[test]
fn known_switches_resolve_to_nonempty_paths_for_both_states() {
    for name in ["ipv6", "offload", "tcp_tuning"] {
        for desired in [true, false] {
            let path = ActionResolver::resolve(name, desired).unwrap();
            assert!(!path.is_empty());
            assert_eq!(path, ActionResolver::resolve(name, desired).unwrap());
        }
    }
}

#[test]
fn resolve_builds_the_variant_path() {
    assert_eq!(ActionResolver::resolve("ipv6", true).as_deref(), Some("backend/ipv6_enable.ps1"));
    assert_eq!(
        ActionResolver::resolve("offload", false).as_deref(),
        Some("backend/offload_disable.ps1")
    );
}

#[test]
fn unknown_switch_does_not_resolve() {
    assert!(ActionResolver::resolve("firewall", true).is_none());
    assert!(ActionResolver::resolve("", false).is_none());
}

#[test]
fn one_shot_actions_resolve_to_their_scripts() {
    assert_eq!(
        ActionResolver::resolve_action("PowerPlan").as_deref(),
        Some("backend/powerplan.ps1")
    );
    assert_eq!(ActionResolver::resolve_action("CleanUp").as_deref(), Some("backend/clean_up.ps1"));
    assert_eq!(
        ActionResolver::resolve_action("DriveOpt").as_deref(),
        Some("backend/drive_optimization.ps1")
    );
    assert!(ActionResolver::resolve_action("Defrag").is_none());
}

#[test]
fn labels_name_the_direction_and_the_switch() {
    assert_eq!(ActionResolver::label("ipv6", true), "Enable ipv6");
    assert_eq!(ActionResolver::label("ipv6", false), "Disable ipv6");
}

#[test]
fn toggling_ipv6_on_runs_the_enable_script_end_to_end() {
    let mut res = BackingResource { content: Some(String::new()), writable: true };
    let (mut store, _) = ToggleStateStore::load(&res);
    let mut runner = JobRunner::new();

    let plan = plan_toggle(&mut store, &mut res, "ipv6", true);
    let job = plan.job.unwrap();
    assert_eq!(job.label, "Enable ipv6");
    assert_eq!(job.path, "backend/ipv6_enable.ps1");

    let request = runner.start(job.label.as_str(), job.path.as_str(), true).unwrap();
    let outcome = SpawnOutcome::Completed {
        exit_success: true,
        stdout: "ok".to_string(),
        stderr: String::new(),
    };
    runner.deliver(request.job_id, job_result_from_outcome(job.label.as_str(), outcome));

    let result = ResultDispatcher::poll(&mut runner).unwrap();
    assert_eq!(result.name, "Enable ipv6");
    assert!(result.success);
    assert_eq!(result.stdout, "ok");
}

#[test]
fn toggling_an_unknown_switch_plans_no_job_but_persists_the_value() {
    let mut res = BackingResource { content: Some(String::new()), writable: true };
    let (mut store, _) = ToggleStateStore::load(&res);

    let plan = plan_toggle(&mut store, &mut res, "mystery", true);
    assert!(plan.job.is_none());
    assert!(plan.message.contains("mystery"));
    assert_eq!(plan.persist_error, None);
    assert_eq!(res.content.as_deref(), Some("mystery: true\n"));

    let (reloaded, err) = ToggleStateStore::load(&res);
    assert_eq!(err, None);
    assert_eq!(reloaded.get("mystery"), Some(true));
}

#[test]
fn toggle_message_reports_the_new_state() {
    let mut res = BackingResource { content: Some(String::new()), writable: true };
    let (mut store, _) = ToggleStateStore::load(&res);
    let plan = plan_toggle(&mut store, &mut res, "ipv6", false);
    assert_eq!(plan.message, "Toggled ipv6 = false");
}

#[test]
fn display_text_quotes_stdout_on_success_and_stderr_on_failure() {
    let ok = job_result_from_outcome(
        "Enable ipv6",
        SpawnOutcome::Completed {
            exit_success: true,
            stdout: "done".to_string(),
            stderr: String::new(),
        },
    );
    assert_eq!(ResultDispatcher::render_display(&ok), "Enable ipv6 succeeded.\nSTDOUT:\ndone");

    let bad = job_result_from_outcome(
        "Enable ipv6",
        SpawnOutcome::Completed {
            exit_success: false,
            stdout: String::new(),
            stderr: "boom".to_string(),
        },
    );
    assert_eq!(ResultDispatcher::render_display(&bad), "Enable ipv6 failed.\nSTDERR:\nboom");
}

#[test]
fn log_entry_records_timestamp_name_status_and_streams() {
    let result = job_result_from_outcome(
        "CleanUp",
        SpawnOutcome::Completed {
            exit_success: true,
            stdout: "swept".to_string(),
            stderr: String::new(),
        },
    );
    let entry = ResultDispatcher::render_log_entry("2024-01-02 03:04:05", &result);
    assert_eq!(
        entry,
        "[2024-01-02 03:04:05] [CleanUp] success\nSTDOUT:\nswept\nSTDERR:\n\n---\n"
    );
}

#[test]
fn poll_and_render_drains_exactly_one_report() {
    let mut runner = JobRunner::new();
    let request = runner.start("CleanUp", "backend/clean_up.ps1", true).unwrap();
    let outcome = SpawnOutcome::Completed {
        exit_success: true,
        stdout: "swept".to_string(),
        stderr: String::new(),
    };
    runner.deliver(request.job_id, job_result_from_outcome("CleanUp", outcome));

    let report = ResultDispatcher::poll_and_render(&mut runner).unwrap();
    assert_eq!(report.display, "CleanUp succeeded.\nSTDOUT:\nswept");
    assert!(report.log_entry.starts_with('['));
    assert!(report.log_entry.contains("[CleanUp] success"));
    assert!(report.log_entry.ends_with("\n---\n"));

    assert!(ResultDispatcher::poll_and_render(&mut runner).is_none());
}

#[test]
fn log_paths_join_the_base_directory_and_fall_back_locally() {
    let (dir, file) = log_paths(Some("/home/op/.local/share".to_string()));
    assert_eq!(dir, "/home/op/.local/share/W-Squid/logs");
    assert_eq!(file, "/home/op/.local/share/W-Squid/logs/w_squid.log");

    let (dir, file) = log_paths(None);
    assert_eq!(dir, "logs_fallback/W-Squid/logs");
    assert_eq!(file, "logs_fallback/W-Squid/logs/w_squid.log");
}

#[test]
fn default_log_paths_end_in_the_fixed_locations() {
    let (dir, file) = default_log_paths();
    assert!(dir.ends_with("/W-Squid/logs") || dir == "logs_fallback/W-Squid/logs");
    assert!(file.ends_with("/W-Squid/logs/w_squid.log"));
    assert!(file.starts_with(dir.as_str()));
}
