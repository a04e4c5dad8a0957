//! The result dispatcher and the log sink's text.
//!
//! The presentation layer calls [`ResultDispatcher::poll_and_render`] once
//! per refresh tick.  The call never blocks: it drains at most one completed
//! job result from the runner's pending slot and turns it into the text to
//! display and the line to append to the job log.  The log line carries a
//! wall-clock timestamp; the surrounding program appends it to a file under
//! the platform's data directory.

use vstd::prelude::*;
use crate::jobs::{result_view, slot_taken, JobResult, JobRunner, JobView};

verus! {

/// The text shown to the operator for one completed job.
pub open spec fn display_text(r: JobView) -> Seq<char> {
    if r.success {
        r.name + " succeeded.\nSTDOUT:\n"@ + r.stdout
    } else {
        r.name + " failed.\nSTDERR:\n"@ + r.stderr
    }
}

/// The one-word status a job's success flag is logged as.
pub open spec fn status_text(success: bool) -> Seq<char> {
    if success {
        "success"@
    } else {
        "failure"@
    }
}

/// The log line recorded for one completed job under a timestamp.
pub open spec fn log_text(ts: Seq<char>, r: JobView) -> Seq<char> {
    "["@ + ts + "] ["@ + r.name + "] "@ + status_text(r.success) + "\nSTDOUT:\n"@ + r.stdout
        + "\nSTDERR:\n"@ + r.stderr + "\n---\n"@
}

/// What one poll hands the presentation layer: the text to show and the
/// line to append to the job log.
pub struct DispatchReport {
    pub display: String,
    pub log_entry: String,
}

/// Relies on `chrono::Local::now` and `chrono::DateTime::format`: the current
/// local wall-clock time rendered as `year-month-day hour:minute:second`
/// text.  The value depends on the clock, so nothing is assumed of it.
#[verifier::external_body]
fn now_timestamp() -> (t: String) {
    chrono::Local::now().format("%Y-%m-%d %H:%M:%S").to_string()
}

/// Drains one completed job result per call and renders it for the
/// presentation layer.
pub struct ResultDispatcher {}

impl ResultDispatcher {
    /// Non-blocking: the pending result, if one is ready, and nothing
    /// otherwise.  Consumes what it returns.
    pub fn poll(runner: &mut JobRunner) -> (r: Option<JobResult>)
        ensures
            result_view(r) == old(runner)@.buffered,
            final(runner)@ == slot_taken(old(runner)@),
    {
        runner.take_result()
    }

    /// The text shown to the operator for `r`.
    pub fn render_display(r: &JobResult) -> (t: String)
        ensures
            t@ == display_text(r@),
    {
        let mut t = r.name.clone();
        if r.success {
            t.append(" succeeded.\nSTDOUT:\n");
            t.append(r.stdout.as_str());
        } else {
            t.append(" failed.\nSTDERR:\n");
            t.append(r.stderr.as_str());
        }
        t
    }

    /// The log line recorded for `r` under the given timestamp.
    pub fn render_log_entry(timestamp: &str, r: &JobResult) -> (t: String)
        ensures
            t@ == log_text(timestamp@, r@),
    {
        let mut t = String::from_str("[");
        t.append(timestamp);
        t.append("] [");
        t.append(r.name.as_str());
        t.append("] ");
        if r.success {
            t.append("success");
        } else {
            t.append("failure");
        }
        t.append("\nSTDOUT:\n");
        t.append(r.stdout.as_str());
        t.append("\nSTDERR:\n");
        t.append(r.stderr.as_str());
        t.append("\n---\n");
        t
    }

    /// One presentation tick: drain the pending result, if any, and render
    /// it as display text plus a timestamped log line.
    pub fn poll_and_render(runner: &mut JobRunner) -> (r: Option<DispatchReport>)
        ensures
            final(runner)@ == slot_taken(old(runner)@),
            match old(runner)@.buffered {
                Some(j) => r matches Some(rep) && rep.display@ == display_text(j) && (exists|
                    ts: Seq<char>,
                |
                    rep.log_entry@ == #[trigger] log_text(ts, j)),
                None => r is None,
            },
    {
        match Self::poll(runner) {
            None => None,
            Some(res) => {
                let ts = now_timestamp();
                let display = Self::render_display(&res);
                let log_entry = Self::render_log_entry(ts.as_str(), &res);
                proof {
                    assert(log_entry@ == log_text(ts@, res@));
                }
                Some(DispatchReport { display, log_entry })
            },
        }
    }
}

/// The view of an optional base directory.
pub open spec fn opt_text(base: Option<String>) -> Option<Seq<char>> {
    match base {
        Some(b) => Some(b@),
        None => None,
    }
}

/// The directory the job log lives in, under the given base directory or a
/// local fallback when the platform defines none.
pub open spec fn log_dir_text(base: Option<Seq<char>>) -> Seq<char> {
    (match base {
        Some(b) => b,
        None => "logs_fallback"@,
    }) + "/W-Squid/logs"@
}

/// The file the job log is appended to.
pub open spec fn log_file_text(base: Option<Seq<char>>) -> Seq<char> {
    log_dir_text(base) + "/w_squid.log"@
}

/// Relies on `dirs::data_dir`: the platform's data directory, if the
/// platform defines one.  The value depends on the environment, so nothing
/// is assumed of it.
#[verifier::external_body]
pub(crate) fn data_dir_string() -> (r: Option<String>) {
    dirs::data_dir().map(|p| p.to_string_lossy().into_owned())
}

/// The log directory and log file under the given base directory.
pub fn log_paths(base: Option<String>) -> (r: (String, String))
    ensures
        r.0@ == log_dir_text(opt_text(base)),
        r.1@ == log_file_text(opt_text(base)),
{
    let mut dir = match base {
        Some(b) => b,
        None => String::from_str("logs_fallback"),
    };
    dir.append("/W-Squid/logs");
    let mut file = dir.clone();
    file.append("/w_squid.log");
    (dir, file)
}

/// The log directory and log file under the platform's data directory, with
/// a local fallback when the platform defines none.
pub fn default_log_paths() -> (r: (String, String))
    ensures
        exists|b: Option<Seq<char>>|
            r.0@ == log_dir_text(b) && r.1@ == #[trigger] log_file_text(b),
{
    let base = data_dir_string();
    let ghost b = opt_text(base);
    let r = log_paths(base);
    proof {
        assert(r.0@ == log_dir_text(b) && r.1@ == log_file_text(b));
    }
    r
}

} // verus!
