//! Background-job orchestration.
//!
//! A job is one execution of an external maintenance script.  The runner
//! never runs the script itself — the surrounding program spawns the worker
//! and hands the outcome back — but every decision is made here: whether a
//! spawn happens at all, with which interpreter invocation, which result is
//! synthesized when the script is missing, and which single pending result
//! the presentation layer can still observe.
//!
//! The pending slot holds the delivery channel of at most one outstanding
//! job.  Starting a new job replaces that channel, so a result of an earlier
//! job that was never polled becomes unrecoverable — a documented tension of
//! the design, stated precisely by [`lemma_slot_overwrite`].

use vstd::prelude::*;

verus! {

/// The captured outcome of exactly one job.
pub struct JobResult {
    /// The job's display name, carried for logging.
    pub name: String,
    /// Whether the script ran and exited with status zero.
    pub success: bool,
    /// The captured standard output, lossily decoded.
    pub stdout: String,
    /// The captured standard error, or a description of the launch failure.
    pub stderr: String,
}

/// The mathematical content of a [`JobResult`].
pub struct JobView {
    pub name: Seq<char>,
    pub success: bool,
    pub stdout: Seq<char>,
    pub stderr: Seq<char>,
}

impl View for JobResult {
    type V = JobView;

    open spec fn view(&self) -> JobView {
        JobView {
            name: self.name@,
            success: self.success,
            stdout: self.stdout@,
            stderr: self.stderr@,
        }
    }
}

/// The view of an optional result.
pub open spec fn result_view(r: Option<JobResult>) -> Option<JobView> {
    match r {
        Some(x) => Some(x@),
        None => None,
    }
}

/// The mathematical content of the pending slot: the identifiers handed out
/// so far, the job whose delivery channel is currently installed, and the
/// delivered result nobody has polled yet.
pub struct SlotView {
    /// The identifier the next job will get; all smaller ones are spent.
    pub next_id: nat,
    /// The job whose delivery channel the slot holds, if any.
    pub current: Option<nat>,
    /// A result delivered on the current channel and not yet consumed.
    pub buffered: Option<JobView>,
}

/// The slot after a new job's channel is installed: the previous channel —
/// and any result buffered in it — is discarded.
pub open spec fn slot_armed(s: SlotView) -> SlotView {
    SlotView { next_id: s.next_id + 1, current: Some(s.next_id), buffered: None }
}

/// The slot after job `id` delivers `r`: the result is buffered only if the
/// slot still holds that job's channel; a stale delivery changes nothing.
pub open spec fn slot_delivered(s: SlotView, id: nat, r: JobView) -> SlotView {
    if s.current == Some(id) {
        SlotView { next_id: s.next_id, current: s.current, buffered: Some(r) }
    } else {
        s
    }
}

/// The slot after one non-blocking poll: whatever was buffered is consumed.
pub open spec fn slot_taken(s: SlotView) -> SlotView {
    SlotView { next_id: s.next_id, current: s.current, buffered: None }
}

/// The single-item holding area for an in-flight job's eventual result.
pub struct PendingSlot {
    next_id: u64,
    current: Option<u64>,
    buffered: Option<JobResult>,
}

impl View for PendingSlot {
    type V = SlotView;

    closed spec fn view(&self) -> SlotView {
        SlotView {
            next_id: self.next_id as nat,
            current: match self.current {
                Some(i) => Some(i as nat),
                None => None,
            },
            buffered: result_view(self.buffered),
        }
    }
}

impl PendingSlot {
    /// An empty slot: no job yet, nothing buffered.
    pub fn new() -> (s: Self)
        ensures
            s@ == (SlotView { next_id: 0, current: None, buffered: None }),
    {
        PendingSlot { next_id: 0, current: None, buffered: None }
    }

    /// Install a fresh delivery channel for a new job and hand out its
    /// identifier, discarding whatever the slot held before.
    pub fn arm(&mut self) -> (id: u64)
        requires
            old(self)@.next_id < u64::MAX,
        ensures
            final(self)@ == slot_armed(old(self)@),
            id as nat == old(self)@.next_id,
    {
        let id = self.next_id;
        self.next_id = self.next_id + 1;
        self.current = Some(id);
        self.buffered = None;
        id
    }

    /// Deliver job `id`'s result.  It is kept only if the slot still holds
    /// that job's channel; otherwise the delivery falls into the void.
    pub fn deliver(&mut self, id: u64, result: JobResult)
        ensures
            final(self)@ == slot_delivered(old(self)@, id as nat, result@),
    {
        match self.current {
            Some(c) => {
                if c == id {
                    self.buffered = Some(result);
                }
            },
            None => {},
        }
    }

    /// Non-blocking poll: consume and return the buffered result, if any.
    pub fn take(&mut self) -> (r: Option<JobResult>)
        ensures
            result_view(r) == old(self)@.buffered,
            final(self)@ == slot_taken(old(self)@),
    {
        self.buffered.take()
    }
}

/// The interpreter every script is run with.
pub open spec fn interpreter_name() -> Seq<char> {
    "powershell"@
}

/// The fixed, non-interactive, policy-bypassing argument set handed to the
/// interpreter, ending in the script's path.
pub open spec fn interpreter_args(path: Seq<char>) -> Seq<Seq<char>> {
    seq!["-NoProfile"@, "-ExecutionPolicy"@, "Bypass"@, "-File"@, path]
}

/// The views of an executable argument list.
pub open spec fn args_view(args: Seq<String>) -> Seq<Seq<char>> {
    args.map_values(|a: String| a@)
}

/// The synthetic standard-error text for a script that is not there.
pub open spec fn missing_script_text(path: Seq<char>) -> Seq<char> {
    "ProcessLaunchFailed: script not found: "@ + path
}

/// The result synthesized when the script's path does not exist.
pub open spec fn missing_script_result(name: Seq<char>, path: Seq<char>) -> JobView {
    JobView { name, success: false, stdout: Seq::empty(), stderr: missing_script_text(path) }
}

/// The synthetic standard-error text for a worker that could not be spawned.
pub open spec fn launch_failed_text(message: Seq<char>) -> Seq<char> {
    "ProcessLaunchFailed: "@ + message
}

/// What the surrounding program must do to run one job: spawn `program` with
/// `args` on a worker, wait, and deliver the outcome under `job_id`.
pub struct SpawnRequest {
    /// The identifier under which the outcome must be delivered.
    pub job_id: u64,
    /// The interpreter to invoke.
    pub program: String,
    /// The interpreter's full argument list, script path included.
    pub args: Vec<String>,
}

/// What became of a spawned worker, as the surrounding program reports it.
pub enum SpawnOutcome {
    /// The process ran to completion; its streams were captured lossily.
    Completed { exit_success: bool, stdout: String, stderr: String },
    /// The process could not be started at all; `message` describes why.
    LaunchFailed { message: String },
}

/// The result record a worker outcome is packaged into.
pub open spec fn outcome_result(name: Seq<char>, outcome: SpawnOutcome) -> JobView {
    match outcome {
        SpawnOutcome::Completed { exit_success, stdout, stderr } => JobView {
            name,
            success: exit_success,
            stdout: stdout@,
            stderr: stderr@,
        },
        SpawnOutcome::LaunchFailed { message } => JobView {
            name,
            success: false,
            stdout: Seq::empty(),
            stderr: launch_failed_text(message@),
        },
    }
}

/// Package what became of a worker into the job's immutable result record.
/// A launch failure carries its description in the captured standard error
/// and counts as an unsuccessful job.
pub fn job_result_from_outcome(name: &str, outcome: SpawnOutcome) -> (r: JobResult)
    ensures
        r@ == outcome_result(name@, outcome),
{
    match outcome {
        SpawnOutcome::Completed { exit_success, stdout, stderr } => JobResult {
            name: name.to_owned(),
            success: exit_success,
            stdout,
            stderr,
        },
        SpawnOutcome::LaunchFailed { message } => {
            let mut stderr = String::from_str("ProcessLaunchFailed: ");
            stderr.append(message.as_str());
            JobResult { name: name.to_owned(), success: false, stdout: String::new(), stderr }
        },
    }
}

/// Executes one external action at a time on a background worker and exposes
/// exactly one pending-result slot to the caller.
pub struct JobRunner {
    slot: PendingSlot,
}

impl View for JobRunner {
    type V = SlotView;

    closed spec fn view(&self) -> SlotView {
        self.slot@
    }
}

impl JobRunner {
    /// A runner with no job started yet.
    pub fn new() -> (r: Self)
        ensures
            r@ == (SlotView { next_id: 0, current: None, buffered: None }),
    {
        JobRunner { slot: PendingSlot::new() }
    }

    /// Start the job `name` for the script at `path`, whose existence the
    /// caller has checked.
    ///
    /// When the script exists, the slot is re-armed and the returned request
    /// says exactly what to spawn; the previous job's channel — with any
    /// undelivered result — is discarded.  When it does not exist, no process
    /// is spawned at all: a failed result is synthesized and delivered into
    /// the slot directly, and nothing is returned.
    pub fn start(&mut self, name: &str, path: &str, path_exists: bool) -> (r: Option<SpawnRequest>)
        requires
            old(self)@.next_id < u64::MAX,
        ensures
            path_exists ==> final(self)@ == slot_armed(old(self)@) && (r matches Some(req)
                && req.job_id as nat == old(self)@.next_id && req.program@ == interpreter_name()
                && args_view(req.args@) == interpreter_args(path@)),
            !path_exists ==> r is None && final(self)@ == slot_delivered(
                slot_armed(old(self)@),
                old(self)@.next_id,
                missing_script_result(name@, path@),
            ),
    {
        let id = self.slot.arm();
        if path_exists {
            let mut args: Vec<String> = Vec::new();
            args.push(String::from_str("-NoProfile"));
            args.push(String::from_str("-ExecutionPolicy"));
            args.push(String::from_str("Bypass"));
            args.push(String::from_str("-File"));
            args.push(path.to_owned());
            proof {
                assert(args_view(args@) =~= interpreter_args(path@));
            }
            Some(SpawnRequest { job_id: id, program: String::from_str("powershell"), args })
        } else {
            let mut stderr = String::from_str("ProcessLaunchFailed: script not found: ");
            stderr.append(path);
            let result = JobResult {
                name: name.to_owned(),
                success: false,
                stdout: String::new(),
                stderr,
            };
            self.slot.deliver(id, result);
            None
        }
    }

    /// How many jobs this runner has ever started; `start` needs this to
    /// stay below the identifier space's end.
    pub fn jobs_started(&self) -> (n: u64)
        ensures
            n as nat == self@.next_id,
    {
        self.slot.next_id
    }

    /// Deliver the outcome of the job `id`.  Kept only if the slot still
    /// holds that job's channel.
    pub fn deliver(&mut self, id: u64, result: JobResult)
        ensures
            final(self)@ == slot_delivered(old(self)@, id as nat, result@),
    {
        self.slot.deliver(id, result);
    }

    /// Non-blocking: consume and return the pending result, if one is ready.
    pub fn take_result(&mut self) -> (r: Option<JobResult>)
        ensures
            result_view(r) == old(self)@.buffered,
            final(self)@ == slot_taken(old(self)@),
    {
        self.slot.take()
    }
}

/// Law: the slot retains at most the latest job's result.  After job `a` and
/// then job `b` are started, `a`'s delivery leaves the slot unchanged and can
/// never be polled; only `b`'s delivery can.
pub proof fn lemma_slot_overwrite(s0: SlotView, ra: JobView, rb: JobView)
    ensures
        ({
            let a = s0.next_id;
            let s1 = slot_armed(s0);
            let b = s1.next_id;
            let s2 = slot_armed(s1);
            &&& slot_delivered(s2, a, ra) == s2
            &&& slot_delivered(s2, a, ra).buffered is None
            &&& slot_delivered(slot_delivered(s2, a, ra), b, rb).buffered == Some(rb)
        }),
{
}

} // verus!
