//! The trial step engine: the tagged-step interpreter that drives one trial
//! against an agent handle and a variable environment.
//!
//! Steps run strictly sequentially.  Between every two steps the engine
//! checks the cancellation flag; a set flag fails the trial.  Work that only
//! the surrounding process can do (sleeping, host file writes, host
//! subprocesses) goes through the [`Host`] trait; everything the engine
//! decides is verified here.

use vstd::prelude::*;
use crate::agent::AgentError;
use crate::protocol::{DirEntry, RunCommand, RunOutput, Stdio, ExitKind};
use crate::vars::{Variables, spec_expand};

verus! {

pub const SIGINT: i32 = 2;

pub const SIGKILL: i32 = 9;

/// Why a trial failed.
#[derive(Debug)]
pub enum TrialError {
    /// The cancellation flag was set; the payload is the elapsed time.
    Cancelled { elapsed_ms: u64 },
    /// A guard path already exists on the host.
    AlreadyExists { path: Vec<u8> },
    /// A `kill` step named a task key that was never spawned.
    TaskNotFound { key: Vec<u8> },
    /// A command string could not be parsed.
    BadCommand { command: Vec<u8> },
    /// A collected command ended with a non-zero exit code.
    CollectorExit { code: i32, stdout: Vec<u8>, stderr: Vec<u8> },
    /// A collected command crashed.
    CollectorCrash { stdout: Vec<u8>, stderr: Vec<u8> },
    /// A collected command overran its timeout.
    CollectorHang,
    /// A plot-data file had more malformed lines than tolerated.
    MalformedPlotData { line: Vec<u8> },
    /// A call on the agent failed.
    Agent { message: Vec<u8> },
}

/// What a cancellable sleep came back with.
pub enum SleepOutcome {
    Completed,
    Cancelled { elapsed_ms: u64 },
}

/// What one round of supervising a timed run observed.
pub enum MonitorEvent {
    /// The run's deadline has passed.
    Deadline,
    /// The cancellation channel fired.
    Cancelled { elapsed_ms: u64 },
    /// One tick elapsed; the supervised pids should be polled.
    Tick,
}

/// The host-side effects of a trial: cancellation, host file system access
/// under the process-wide lock, host subprocesses, and time.  The step
/// engine decides; a host carries out.
pub trait Host {
    /// Whether the process-wide cancellation flag is set.
    fn cancelled(&mut self) -> bool;

    /// Whether a host path exists.
    fn file_exists(&mut self, path: &[u8]) -> bool;

    /// Whether a host file is missing or empty (so a merge writes its
    /// header).
    fn file_empty(&mut self, path: &[u8]) -> bool;

    /// Reads a host file; None when it cannot be read.
    fn read_file(&mut self, path: &[u8]) -> Option<Vec<u8>>;

    /// Writes or appends bytes under the host file-system lock, creating
    /// parent directories.  False on failure.
    fn write_file(&mut self, path: &[u8], bytes: &[u8], append: bool) -> bool;

    /// Stores a directory tree pulled from the guest as a plain folder,
    /// preserving the relative layout, under the host file-system lock.
    fn write_tree(&mut self, dst: &[u8], entries: &Vec<TreeEntry>) -> bool;

    /// Runs a command on the host itself.
    fn run_host(&mut self, cmd: &RunCommand) -> Option<RunOutput>;

    /// Sleeps, racing the cancellation channel.
    fn sleep(&mut self, ms: u64) -> SleepOutcome;

    /// One round of the supervision select: deadline, cancellation, or a
    /// tick of at most `tick_ms`.
    fn monitor_select(&mut self, deadline_ms: u64, tick_ms: u64) -> MonitorEvent;
}

/// The typed surface a worker drives a guest through.
pub trait Agent {
    /// Runs `task` in the background on the guest, returning its pid.
    fn spawn_task(&mut self, task: RunCommand) -> Result<u32, AgentError>;

    /// Runs `task` to completion, returning its captured output.
    fn run_task(&mut self, task: RunCommand) -> Result<RunOutput, AgentError>;

    /// Waits for a pid to exit, returning its status (None when unknown).
    fn wait_pid(&mut self, pid: u32) -> Result<Option<i64>, AgentError>;

    /// Non-blocking liveness check of a pid.
    fn get_status(&mut self, pid: u32) -> Result<Option<i64>, AgentError>;

    /// Sends a POSIX signal; the result says whether the pid was known.
    fn kill_process(&mut self, pid: u32, signal: i32) -> Result<bool, AgentError>;

    /// Reads a whole file from the guest.
    fn read_file(&mut self, path: Vec<u8>) -> Result<Vec<u8>, AgentError>;

    /// Reads metadata of one guest path.
    fn stat(&mut self, path: Vec<u8>) -> Result<DirEntry, AgentError>;

    /// Lists one directory level of the guest.
    fn read_dir(&mut self, path: Vec<u8>) -> Result<Vec<DirEntry>, AgentError>;

    /// Asks the guest to reboot.
    fn shutdown_vm(&mut self) -> Result<(), AgentError>;

    /// Tells the agent to exit.
    fn exit(&mut self) -> Result<(), AgentError>;
}

/// One file or directory pulled out of the guest, with its path relative to
/// the copied root.
pub struct TreeEntry {
    pub rel_path: Vec<u8>,
    pub is_file: bool,
    pub content: Vec<u8>,
}

/// One step of a trial.
pub enum DynamicTask {
    /// Fails the trial when the host path exists already: a guardrail
    /// against overwriting prior results.
    ExitIfExisting { path: Vec<u8> },
    /// Saves all current variables to a guest file as `KEY=VALUE` lines.
    SaveEnv { path: Vec<u8> },
    /// Runs a command in the guest; with a duration it is supervised and
    /// stopped at the deadline, else it is waited for.
    Run { command: Vec<u8>, stdout: Option<Vec<u8>>, stderr: Option<Vec<u8>>, duration_ms: Option<u64> },
    /// Spawns a command and records its pid under `key`.
    SpawnTask { key: Vec<u8>, command: Vec<u8>, stdout: Option<Vec<u8>>, stderr: Option<Vec<u8>> },
    /// Runs a command synchronously and writes its stdout to a host path.
    ResultCollector { command: Vec<u8>, dst: Vec<u8> },
    /// Sleeps, racing cancellation.
    Sleep { time_ms: u64 },
    /// Signals previously spawned tasks by key; an unknown key fails the
    /// trial.
    Kill { signal: i32, tasks: Vec<Vec<u8>> },
    /// Copies one guest file to a host path.
    CopyFile { src: Vec<u8>, dst: Vec<u8>, append: bool },
    /// Copies a guest directory tree to the host, plain or as an archive.
    CopyDir { src: Vec<u8>, dst: Vec<u8>, archive: bool },
    /// Appends guest data to a host file under a per-trial prefix line,
    /// writing a header when the file is empty.
    MergeWithPrefix { prefix: Vec<u8>, header: Vec<u8>, src: Vec<u8>, dst: Vec<u8> },
    /// Merges a guest JSON file into a host JSON object under `tag`.
    MergeJson { tag: Vec<u8>, src: Vec<u8>, dst: Vec<u8> },
    /// Runs a command on the host.
    RunHost { command: Vec<u8>, stdout: Option<Vec<u8>>, stderr: Option<Vec<u8>> },
    /// Triages crash inputs against byte patterns into a CSV table.
    InputPatternVerifier(crate::afl::InputPatternVerifier),
    /// Tags and appends AFL++ v4 plot data to a host CSV.
    SaveTaggedAflPlotDataV4(crate::afl::SaveTaggedAflPlotDataV4),
    /// A nested sequence sharing this trial's variables.
    TaskList { tasks: Vec<DynamicTask> },
}

/// The static duration estimate of one step, in milliseconds: supervised
/// runs contribute their duration, sleeps their time, nested lists their
/// sum; everything else counts zero.  Sums saturate.
pub open spec fn spec_estimate_ms(step: DynamicTask) -> nat
    decreases step, 0int,
{
    match step {
        DynamicTask::Run { duration_ms, .. } => match duration_ms {
            Some(d) => d as nat,
            None => 0,
        },
        DynamicTask::Sleep { time_ms } => time_ms as nat,
        DynamicTask::TaskList { tasks } => spec_estimate_sum_from(tasks@, 0),
        _ => 0,
    }
}

/// The summed estimate of the steps at or after `i`.
pub open spec fn spec_estimate_sum_from(steps: Seq<DynamicTask>, i: int) -> nat
    decreases steps, steps.len() - i,
{
    if i < 0 || i >= steps.len() {
        0
    } else {
        spec_estimate_ms(steps[i]) + spec_estimate_sum_from(steps, i + 1)
    }
}

pub open spec fn spec_estimate_sum_ms(steps: Seq<DynamicTask>) -> nat {
    spec_estimate_sum_from(steps, 0)
}

/// `x + y`, saturating at `u64::MAX`.
pub fn sat_add(x: u64, y: u64) -> (r: u64)
    ensures
        r == if x + y <= u64::MAX {
            x + y
        } else {
            u64::MAX as int
        },
{
    if x <= u64::MAX - y {
        x + y
    } else {
        u64::MAX
    }
}

impl DynamicTask {
    /// The static duration estimate of this step, saturating at `u64::MAX`
    /// milliseconds.
    pub fn estimate_duration_ms(&self) -> (r: u64)
        ensures
            r == if spec_estimate_ms(*self) <= u64::MAX {
                spec_estimate_ms(*self) as int
            } else {
                u64::MAX as int
            },
        decreases *self, 0int,
    {
        match self {
            DynamicTask::Run { duration_ms, .. } => match duration_ms {
                Some(d) => *d,
                None => 0,
            },
            DynamicTask::Sleep { time_ms } => *time_ms,
            DynamicTask::TaskList { tasks } => estimate_list_ms(tasks),
            _ => 0,
        }
    }
}

/// Extending a step list by one extends its summed estimate.
pub proof fn lemma_estimate_push(s: Seq<DynamicTask>, x: DynamicTask, i: int)
    requires
        0 <= i <= s.len(),
    ensures
        spec_estimate_sum_from(s.push(x), i) == spec_estimate_sum_from(s, i) + spec_estimate_ms(x),
    decreases s.len() - i,
{
    let s2 = s.push(x);
    assert(s2.len() == s.len() + 1);
    if i < s.len() {
        assert(s2[i] == s[i]);
        assert(spec_estimate_sum_from(s2, i) == spec_estimate_ms(s2[i]) + spec_estimate_sum_from(
            s2,
            i + 1,
        ));
        assert(spec_estimate_sum_from(s, i) == spec_estimate_ms(s[i]) + spec_estimate_sum_from(
            s,
            i + 1,
        ));
        lemma_estimate_push(s, x, i + 1);
    } else {
        assert(s2[i] == x);
        assert(spec_estimate_sum_from(s2, i) == spec_estimate_ms(x) + spec_estimate_sum_from(
            s2,
            i + 1,
        ));
        assert(spec_estimate_sum_from(s2, i + 1) == 0);
        assert(spec_estimate_sum_from(s, i) == 0);
    }
}

/// The summed estimate of a step list, saturating at `u64::MAX`.
#[verifier::loop_isolation(false)]
pub fn estimate_list_ms(tasks: &Vec<DynamicTask>) -> (r: u64)
    ensures
        r == if spec_estimate_sum_ms(tasks@) <= u64::MAX {
            spec_estimate_sum_ms(tasks@) as int
        } else {
            u64::MAX as int
        },
    decreases tasks@, tasks@.len() as int,
{
    let mut total: u64 = 0;
    let n = tasks.len();
    let mut i: usize = 0;
    while i < n
        invariant
            0 <= i <= n,
            total == if spec_estimate_sum_ms(tasks@.subrange(0, i as int)) <= u64::MAX {
                spec_estimate_sum_ms(tasks@.subrange(0, i as int)) as int
            } else {
                u64::MAX as int
            },
        decreases n - i,
    {
        proof {
            assert(tasks@.subrange(0, i + 1) =~= tasks@.subrange(0, i as int).push(
                tasks@[i as int],
            ));
            lemma_estimate_push(tasks@.subrange(0, i as int), tasks@[i as int], 0);
        }
        let d = tasks[i].estimate_duration_ms();
        total = sat_add(total, d);
        i += 1;
    }
    proof {
        assert(tasks@.subrange(0, n as int) =~= tasks@);
    }
    total
}

/// The redirection a step field asks for: a named file (with variables
/// expanded), or inheriting the agent's own stream.
pub fn get_stdio(value: &Option<Vec<u8>>, vars: &Variables) -> (r: Stdio)
    ensures
        match value {
            Some(p) => r matches Stdio::File(f) && f@ == spec_expand(vars@, p@),
            None => r is Inherit,
        },
{
    match value {
        Some(p) => Stdio::File(vars.expand_vars(p.as_slice())),
        None => Stdio::Inherit,
    }
}

/// What a `result_collector` step does with the finished command: on success
/// the stdout bytes are written; any other exit fails the trial with the
/// captured output attached.
pub fn collector_outcome(out: RunOutput) -> (r: Result<Vec<u8>, TrialError>)
    ensures
        match out.exit {
            ExitKind::Success => r matches Ok(bytes) && bytes@ == out.stdout@,
            ExitKind::Exit(code) => r == Result::<Vec<u8>, TrialError>::Err(
                TrialError::CollectorExit { code, stdout: out.stdout, stderr: out.stderr },
            ),
            ExitKind::Crash => r == Result::<Vec<u8>, TrialError>::Err(
                TrialError::CollectorCrash { stdout: out.stdout, stderr: out.stderr },
            ),
            ExitKind::Hang => r == Result::<Vec<u8>, TrialError>::Err(TrialError::CollectorHang),
        },
{
    match out.exit {
        ExitKind::Success => Ok(out.stdout),
        ExitKind::Exit(code) => Err(
            TrialError::CollectorExit { code, stdout: out.stdout, stderr: out.stderr },
        ),
        ExitKind::Crash => Err(TrialError::CollectorCrash { stdout: out.stdout, stderr: out.stderr }),
        ExitKind::Hang => Err(TrialError::CollectorHang),
    }
}

/// The bytes a `merge_with_prefix` step appends to its destination: the
/// header line first when the file is empty, then the prefix line, then the
/// data as it came.
pub open spec fn spec_merged_with_prefix(
    dst_empty: bool,
    header: Seq<u8>,
    prefix: Seq<u8>,
    data: Seq<u8>,
) -> Seq<u8> {
    (if dst_empty {
        header + seq![0x0au8]
    } else {
        Seq::empty()
    }) + prefix + seq![0x0au8] + data
}

pub fn merge_with_prefix_bytes(dst_empty: bool, header: &[u8], prefix: &[u8], data: &[u8]) -> (r:
    Vec<u8>)
    ensures
        r@ == spec_merged_with_prefix(dst_empty, header@, prefix@, data@),
{
    let mut out: Vec<u8> = Vec::new();
    if dst_empty {
        out.extend_from_slice(header);
        out.push(0x0a);
    }
    out.extend_from_slice(prefix);
    out.push(0x0a);
    out.extend_from_slice(data);
    proof {
        assert(out@ =~= spec_merged_with_prefix(dst_empty, header@, prefix@, data@));
    }
    out
}

/// The lines a `save_env` step writes: one `KEY=VALUE` line per variable,
/// in insertion order.
pub open spec fn spec_env_lines(m: Seq<(Seq<u8>, Seq<u8>)>) -> Seq<u8>
    decreases m.len(),
{
    if m.len() == 0 {
        Seq::empty()
    } else {
        spec_env_lines(m.drop_last()) + m.last().0 + seq![0x3du8] + m.last().1 + seq![0x0au8]
    }
}

#[verifier::loop_isolation(false)]
pub fn env_lines(vars: &Variables) -> (r: Vec<u8>)
    ensures
        r@ == spec_env_lines(vars@),
{
    let entries = vars.entries();
    let mut out: Vec<u8> = Vec::new();
    let n = entries.len();
    let mut i: usize = 0;
    while i < n
        invariant
            0 <= i <= n == entries@.len(),
            vars@ == crate::vars::pairs_view(entries@),
            out@ == spec_env_lines(vars@.subrange(0, i as int)),
        decreases n - i,
    {
        out.extend_from_slice(entries[i].0.as_slice());
        out.push(0x3d);
        out.extend_from_slice(entries[i].1.as_slice());
        out.push(0x0a);
        proof {
            assert(vars@.subrange(0, i + 1).drop_last() =~= vars@.subrange(0, i as int));
            assert(vars@.subrange(0, i + 1).last() == vars@[i as int]);
            assert(out@ =~= spec_env_lines(vars@.subrange(0, i + 1)));
        }
        i += 1;
    }
    proof {
        assert(vars@.subrange(0, n as int) =~= vars@);
    }
    out
}

/// The pid recorded for `key`, first match.
pub open spec fn spec_find_pid(pids: Seq<(Seq<u8>, u32)>, key: Seq<u8>) -> Option<u32>
    decreases pids.len(),
{
    if pids.len() == 0 {
        None
    } else if pids[0].0 == key {
        Some(pids[0].1)
    } else {
        spec_find_pid(pids.drop_first(), key)
    }
}

/// The per-trial table of spawned tasks: step key to guest pid.
pub struct PidTable {
    pub entries: Vec<(Vec<u8>, u32)>,
}

impl PidTable {
    pub open spec fn view(&self) -> Seq<(Seq<u8>, u32)> {
        self.entries@.map_values(|p: (Vec<u8>, u32)| (p.0@, p.1))
    }

    pub fn new() -> (r: Self)
        ensures
            r@.len() == 0,
    {
        let r = PidTable { entries: Vec::new() };
        proof {
            assert(r@ =~= Seq::<(Seq<u8>, u32)>::empty());
        }
        r
    }

    /// Records `pid` under `key`.
    pub fn record(&mut self, key: Vec<u8>, pid: u32)
        ensures
            final(self)@ == old(self)@.push((key@, pid)),
    {
        self.entries.push((key, pid));
        proof {
            assert(self@ =~= old(self)@.push((key@, pid)));
        }
    }

    /// The pid recorded for `key`, if any.
    #[verifier::loop_isolation(false)]
    pub fn find(&self, key: &[u8]) -> (r: Option<u32>)
        ensures
            r == spec_find_pid(self@, key@),
    {
        let n = self.entries.len();
        proof {
            assert(self@.subrange(0, n as int) =~= self@);
        }
        let mut i: usize = 0;
        while i < n
            invariant
                0 <= i <= n == self.entries@.len(),
                spec_find_pid(self@, key@) == spec_find_pid(
                    self@.subrange(i as int, n as int),
                    key@,
                ),
            decreases n - i,
        {
            proof {
                let sub = self@.subrange(i as int, n as int);
                assert(sub[0] == self@[i as int]);
                assert(sub.drop_first() =~= self@.subrange(i + 1, n as int));
            }
            if crate::vars::bytes_eq(self.entries[i].0.as_slice(), key) {
                return Some(self.entries[i].1);
            }
            i += 1;
        }
        proof {
            assert(self@.subrange(n as int, n as int) =~= Seq::<(Seq<u8>, u32)>::empty());
        }
        None
    }
}

/// Maps an agent failure into a trial failure.
pub fn agent_error(e: AgentError) -> (r: TrialError)
    ensures
        (r == TrialError::Agent { message: e.message }),
{
    TrialError::Agent { message: e.message }
}

/// Builds the guest command of a step: the command string is expanded, then
/// parsed shell-style, and the trial's variables are appended to the
/// command's environment so that they dominate the step-declared pairs.
#[verifier::loop_isolation(false)]
pub fn command_with_vars(command: &[u8], vars: &Variables) -> (r: Result<RunCommand, TrialError>)
    ensures
        match r {
            Ok(c) => {
                let expanded = spec_expand(vars@, command@);
                match crate::protocol::shell_words_of(expanded) {
                    Some(ws) => {
                        let parts = crate::protocol::spec_peel_vars(ws);
                        parts matches Some((pvars, bin, args)) && c.program@ == bin
                            && crate::protocol::vecs_view(c.args@) == args
                            && crate::protocol::pairs_view(c.vars@) == pvars + vars@
                    },
                    None => false,
                }
            },
            Err(e) => e matches TrialError::BadCommand { command: c } && c@ == spec_expand(
                vars@,
                command@,
            ) && !spec_command_splits(vars@, command@),
        },
{
    let expanded = vars.expand_vars(command);
    let (mut allvars, bin, args) = match crate::protocol::split_command(expanded.as_slice()) {
        Some(t) => t,
        None => {
            return Err(TrialError::BadCommand { command: expanded });
        },
    };
    let ghost pvars0 = crate::protocol::pairs_view(allvars@);
    let entries = vars.entries();
    let n = entries.len();
    proof {
        assert(crate::protocol::pairs_view(allvars@) =~= pvars0 + vars@.subrange(0, 0));
    }
    let mut i: usize = 0;
    while i < n
        invariant
            0 <= i <= n == entries@.len(),
            crate::protocol::pairs_view(allvars@) == pvars0 + vars@.subrange(0, i as int),
        decreases n - i,
    {
        let k = vstd::slice::slice_to_vec(entries[i].0.as_slice());
        let v = vstd::slice::slice_to_vec(entries[i].1.as_slice());
        let ghost prev = allvars@;
        allvars.push((k, v));
        proof {
            let target = pvars0 + vars@.subrange(0, i + 1);
            assert(vars@[i as int] == (entries@[i as int].0@, entries@[i as int].1@));
            assert forall|t: int| 0 <= t < allvars@.len() implies crate::vars::pairs_view(
                allvars@,
            )[t] == target[t] by {
                if t < prev.len() {
                    assert(allvars@[t] == prev[t]);
                    assert(crate::vars::pairs_view(prev)[t] == (pvars0 + vars@.subrange(
                        0,
                        i as int,
                    ))[t]);
                } else {
                    assert(allvars@[t] == (k, v));
                }
            }
            assert(crate::vars::pairs_view(allvars@) =~= target);
        }
        i += 1;
    }
    proof {
        assert(vars@.subrange(0, n as int) =~= vars@);
    }
    Ok(RunCommand::new(bin).args(args).vars(allvars))
}

/// Whether a step's command string, expanded against the environment,
/// splits into a program word (after any `KEY=VALUE` prefix).
pub open spec fn spec_command_splits(m: Seq<(Seq<u8>, Seq<u8>)>, command: Seq<u8>) -> bool {
    match crate::protocol::shell_words_of(spec_expand(m, command)) {
        Some(ws) => crate::protocol::spec_peel_vars(ws) is Some,
        None => false,
    }
}

/// A command-parse failure of a step: the error carries exactly the
/// expanded command, and that command indeed does not split.
pub open spec fn spec_bad_command(m: Seq<(Seq<u8>, Seq<u8>)>, command: Seq<u8>, e: TrialError) -> bool {
    e matches TrialError::BadCommand { command: c } && c@ == spec_expand(m, command)
        && !spec_command_splits(m, command)
}

/// The failures one step can produce, with their payloads: every step may
/// fail with a cancellation; beyond that each arm admits only its own
/// errors (the guard arm only the expanded path that exists, a command arm
/// only agent failures or its own unsplittable command, a kill arm only a
/// key it was asked to signal, artifact copies nothing at all, a nested
/// list whatever one of its steps admits).
pub open spec fn spec_step_error(step: DynamicTask, m: Seq<(Seq<u8>, Seq<u8>)>, e: TrialError) -> bool
    decreases step,
{
    e is Cancelled || match step {
        DynamicTask::ExitIfExisting { path } => e matches TrialError::AlreadyExists {
            path: p,
        } && p@ == spec_expand(m, path@),
        DynamicTask::SaveEnv { .. } => e is Agent,
        DynamicTask::Run { command, .. } => e is Agent || spec_bad_command(m, command@, e),
        DynamicTask::SpawnTask { command, .. } => e is Agent || spec_bad_command(m, command@, e),
        DynamicTask::ResultCollector { command, .. } => e is Agent || spec_bad_command(
            m,
            command@,
            e,
        ) || e is CollectorExit || e is CollectorCrash || e is CollectorHang,
        DynamicTask::Sleep { .. } => false,
        DynamicTask::Kill { tasks, .. } => e is Agent || (e matches TrialError::TaskNotFound {
            key,
        } && exists|t: int| 0 <= t < tasks@.len() && (#[trigger] tasks@[t])@ == key@),
        DynamicTask::CopyFile { .. } => false,
        DynamicTask::CopyDir { .. } => false,
        DynamicTask::MergeWithPrefix { .. } => e is Agent,
        DynamicTask::MergeJson { .. } => e is Agent,
        DynamicTask::RunHost { command, .. } => spec_bad_command(m, command@, e),
        DynamicTask::InputPatternVerifier(_) => e is Agent,
        DynamicTask::SaveTaggedAflPlotDataV4(_) => e is Agent || e is MalformedPlotData,
        DynamicTask::TaskList { tasks } => exists|i: int|
            0 <= i < tasks@.len() && spec_step_error(#[trigger] tasks@[i], m, e),
    }
}

/// What a finished step guarantees: a step that parsed a command string
/// only succeeds when the expanded command split; a nested list only when
/// each of its steps did.
pub open spec fn spec_step_ok(step: DynamicTask, m: Seq<(Seq<u8>, Seq<u8>)>) -> bool
    decreases step,
{
    match step {
        DynamicTask::Run { command, .. } => spec_command_splits(m, command@),
        DynamicTask::SpawnTask { command, .. } => spec_command_splits(m, command@),
        DynamicTask::ResultCollector { command, .. } => spec_command_splits(m, command@),
        DynamicTask::RunHost { command, .. } => spec_command_splits(m, command@),
        DynamicTask::TaskList { tasks } => forall|i: int|
            0 <= i < tasks@.len() ==> spec_step_ok(#[trigger] tasks@[i], m),
        _ => true,
    }
}

/// The step-boundary cancellation rule: a set flag fails the step before
/// it does anything.
pub fn cancel_guard(cancelled: bool) -> (r: Result<(), TrialError>)
    ensures
        cancelled <==> (r == Result::<(), TrialError>::Err(
            TrialError::Cancelled { elapsed_ms: 0 },
        )),
        !cancelled <==> r is Ok,
{
    if cancelled {
        Err(TrialError::Cancelled { elapsed_ms: 0 })
    } else {
        Ok(())
    }
}

/// What a sleep's outcome means for the trial: completion succeeds, a
/// cancellation fails the trial carrying the elapsed time.
pub fn sleep_result(outcome: SleepOutcome) -> (r: Result<(), TrialError>)
    ensures
        match outcome {
            SleepOutcome::Completed => r is Ok,
            SleepOutcome::Cancelled { elapsed_ms } => (r == Result::<(), TrialError>::Err(
                TrialError::Cancelled { elapsed_ms },
            )),
        },
{
    match outcome {
        SleepOutcome::Completed => Ok(()),
        SleepOutcome::Cancelled { elapsed_ms } => Err(TrialError::Cancelled { elapsed_ms }),
    }
}

/// The overwrite guardrail: an existing destination fails the trial with
/// that path; an absent one lets it proceed.
pub fn exists_guard(exists: bool, path: Vec<u8>) -> (r: Result<(), TrialError>)
    ensures
        exists <==> (r == Result::<(), TrialError>::Err(TrialError::AlreadyExists { path })),
        !exists <==> r is Ok,
{
    if exists {
        Err(TrialError::AlreadyExists { path })
    } else {
        Ok(())
    }
}

/// What one round of the supervision select decides.
pub enum MonitorAction {
    /// The deadline passed: stop the supervised run.
    Finish,
    /// Cancellation fired: fail the trial at once.
    Fail(TrialError),
    /// One tick elapsed: poll the supervised pids.
    Poll,
}

/// The event-to-action rule of the supervision loop: a deadline finishes,
/// a cancellation fails immediately with its elapsed time, a tick polls.
pub fn monitor_event_action(ev: MonitorEvent) -> (r: MonitorAction)
    ensures
        match ev {
            MonitorEvent::Deadline => r is Finish,
            MonitorEvent::Cancelled { elapsed_ms } => (r == MonitorAction::Fail(
                TrialError::Cancelled { elapsed_ms },
            )),
            MonitorEvent::Tick => r is Poll,
        },
{
    match ev {
        MonitorEvent::Deadline => MonitorAction::Finish,
        MonitorEvent::Cancelled { elapsed_ms } => MonitorAction::Fail(
            TrialError::Cancelled { elapsed_ms },
        ),
        MonitorEvent::Tick => MonitorAction::Poll,
    }
}

/// A supervised pid reported gone ends the supervision early.
pub fn status_stops_monitor(status: &Option<i64>) -> (r: bool)
    ensures
        r == (status is None),
{
    status.is_none()
}

/// Spawns the command of a `run` step and waits for it to exit.
fn run_plain_task<A: Agent>(
    agent: &mut A,
    command: &[u8],
    vars: &Variables,
    stdout: &Option<Vec<u8>>,
    stderr: &Option<Vec<u8>>,
) -> (r: Result<(), TrialError>)
    ensures
        r matches Err(e) ==> e is Agent || spec_bad_command(vars@, command@, e),
        r is Ok ==> spec_command_splits(vars@, command@),
{
    let cmd = match command_with_vars(command, vars) {
        Ok(c) => c,
        Err(e) => {
            return Err(e);
        },
    };
    let cmd = cmd.stdin(Stdio::Null).stdout(get_stdio(stdout, vars)).stderr(
        get_stdio(stderr, vars),
    );
    let pid = match agent.spawn_task(cmd) {
        Ok(p) => p,
        Err(e) => {
            return Err(agent_error(e));
        },
    };
    match agent.wait_pid(pid) {
        Ok(_) => Ok(()),
        Err(e) => Err(agent_error(e)),
    }
}

/// How often the supervision loop polls its pids, in milliseconds.
pub const MONITOR_TICK_MS: u64 = 5000;

/// Supervises spawned pids until the deadline: every tick each pid is
/// polled, and a dead pid ends the supervision early.  A cancellation event
/// fails the trial at once, within one tick of the flag being set.  A host
/// that keeps ticking is trusted for at most one tick beyond the deadline's
/// worth of rounds; after that the deadline is taken as reached.
fn monitor_pids<A: Agent, H: Host>(
    agent: &mut A,
    host: &mut H,
    pids: &Vec<u32>,
    duration_ms: u64,
) -> (r: Result<(), TrialError>)
    ensures
        r matches Err(e) ==> (e is Cancelled || e is Agent),
{
    let mut rounds: u64 = duration_ms / MONITOR_TICK_MS + 2;
    while rounds > 0
        invariant
            true,
        decreases rounds,
    {
        match monitor_event_action(host.monitor_select(duration_ms, MONITOR_TICK_MS)) {
            MonitorAction::Finish => {
                return Ok(());
            },
            MonitorAction::Fail(e) => {
                return Err(e);
            },
            MonitorAction::Poll => {
                let n = pids.len();
                let mut i: usize = 0;
                while i < n
                    invariant
                        0 <= i <= n == pids@.len(),
                    decreases n - i,
                {
                    match agent.get_status(pids[i]) {
                        Ok(status) => {
                            if status_stops_monitor(&status) {
                                return Ok(());
                            }
                        },
                        Err(e) => {
                            return Err(agent_error(e));
                        },
                    }
                    i += 1;
                }
            },
        }
        rounds -= 1;
    }
    Ok(())
}

/// Runs a supervised command: spawn, monitor until the deadline or an early
/// exit, then stop it with SIGINT, and with SIGKILL only when the SIGINT
/// call itself failed.
fn run_timed_task<A: Agent, H: Host>(
    agent: &mut A,
    host: &mut H,
    command: &[u8],
    vars: &Variables,
    stdout: &Option<Vec<u8>>,
    stderr: &Option<Vec<u8>>,
    duration_ms: u64,
) -> (r: Result<(), TrialError>)
    ensures
        r matches Err(e) ==> e is Cancelled || e is Agent || spec_bad_command(vars@, command@, e),
        r is Ok ==> spec_command_splits(vars@, command@),
{
    let cmd = match command_with_vars(command, vars) {
        Ok(c) => c,
        Err(e) => {
            return Err(e);
        },
    };
    let cmd = cmd.stdin(Stdio::Null).stdout(get_stdio(stdout, vars)).stderr(
        get_stdio(stderr, vars),
    );
    let pid = match agent.spawn_task(cmd) {
        Ok(p) => p,
        Err(e) => {
            return Err(agent_error(e));
        },
    };
    let watched: Vec<u32> = vec![pid];
    match monitor_pids(agent, host, &watched, duration_ms) {
        Ok(()) => {},
        Err(e) => {
            return Err(e);
        },
    }
    match agent.kill_process(pid, SIGINT) {
        Ok(_) => Ok(()),
        Err(_) => match agent.kill_process(pid, SIGKILL) {
            Ok(_) => Ok(()),
            Err(e) => Err(agent_error(e)),
        },
    }
}

/// Whether `s` starts with `prefix`.
pub open spec fn spec_starts_with(s: Seq<u8>, prefix: Seq<u8>) -> bool {
    s.len() >= prefix.len() && s.subrange(0, prefix.len() as int) == prefix
}

/// The path of `entry` relative to `root`: the remainder after the root and
/// any separator slash, or nothing when the entry does not sit under the
/// root.
pub fn strip_path_prefix(path: &[u8], root: &[u8]) -> (r: Option<Vec<u8>>)
    ensures
        r matches Some(rel) ==> spec_starts_with(path@, root@) && (rel@ == path@.subrange(
            root@.len() + if root@.len() < path@.len() && path@[root@.len() as int] == 0x2f {
                1int
            } else {
                0int
            },
            path@.len() as int,
        )),
        r is None ==> !spec_starts_with(path@, root@),
{
    if root.len() > path.len() {
        return None;
    }
    let head = vstd::slice::slice_subrange(path, 0, root.len());
    if !crate::vars::bytes_eq(head, root) {
        return None;
    }
    let skip: usize = if root.len() < path.len() && path[root.len()] == 0x2f {
        1
    } else {
        0
    };
    Some(vstd::slice::slice_to_vec(vstd::slice::slice_subrange(path, root.len() + skip, path.len())))
}

/// Walks a guest directory tree through the agent with an explicit stack of
/// one-level listings, pulling each file's content.  Entries that fail to
/// read or list, or fall outside the root, are skipped, as artifact errors
/// do not abort a campaign.  The walk visits at most `fuel` entries, which
/// bounds a guest that keeps inventing directories.
pub fn collect_dir_entries<A: Agent>(agent: &mut A, from: &[u8], fuel: usize) -> (r: Result<
    Vec<TreeEntry>,
    TrialError,
>)
    ensures
        r matches Err(e) ==> e is Agent,
        r matches Ok(entries) ==> forall|i: int|
            0 <= i < entries@.len() ==> (!(#[trigger] entries@[i]).is_file
                ==> entries@[i].content@.len() == 0),
{
    let first = match agent.read_dir(vstd::slice::slice_to_vec(from)) {
        Ok(d) => d,
        Err(e) => {
            return Err(agent_error(e));
        },
    };
    let mut stack: Vec<DirEntry> = first;
    let mut out: Vec<TreeEntry> = Vec::new();
    let mut remaining = fuel;
    #[verifier::loop_isolation(false)]
    while remaining > 0
        invariant
            forall|l: int|
                0 <= l < out@.len() ==> (!(#[trigger] out@[l]).is_file ==> out@[l].content@.len()
                    == 0),
        decreases remaining,
    {
        remaining -= 1;
        let entry = match stack.pop() {
            Some(e) => e,
            None => {
                break ;
            },
        };
        let rel = match strip_path_prefix(entry.path.as_slice(), from) {
            Some(rel) => rel,
            None => {
                continue ;
            },
        };
        if entry.is_file {
            match agent.read_file(entry.path) {
                Ok(content) => {
                    out.push(TreeEntry { rel_path: rel, is_file: true, content });
                },
                Err(_) => {},
            }
        } else {
            out.push(TreeEntry { rel_path: rel, is_file: false, content: Vec::new() });
            match agent.read_dir(entry.path) {
                Ok(mut more) => {
                    stack.append(&mut more);
                },
                Err(_) => {},
            }
        }
    }
    Ok(out)
}

/// How many guest entries one directory copy will follow at most.
pub const COPY_DIR_FUEL: usize = 1000000;

impl DynamicTask {
    /// Runs one step against an agent and a host.  The recorded pid table
    /// only ever grows, a `spawn_task` step records exactly its key, and a
    /// `kill` step fails rather than ignore an unknown key.  Every failure
    /// is one the step admits ([`spec_step_error`], so an overwrite guard
    /// fails only on its own expanded path, a cancelled sleep fails only
    /// with the cancellation, and a parse failure carries exactly the
    /// expanded command that did not split); success on a command-carrying
    /// step means its expanded command did split ([`spec_step_ok`]).
    #[verifier::loop_isolation(false)]
    pub fn run<A: Agent, H: Host>(
        &self,
        vars: &Variables,
        pids: &mut PidTable,
        agent: &mut A,
        host: &mut H,
    ) -> (r: Result<(), TrialError>)
        ensures
            old(pids)@.is_prefix_of(final(pids)@),
            r matches Err(e) ==> spec_step_error(*self, vars@, e),
            r is Ok ==> spec_step_ok(*self, vars@),
            self matches DynamicTask::SpawnTask { key, .. } ==> (r is Ok ==> exists|p: u32|
                final(pids)@ == old(pids)@.push((key@, p))),
            self matches DynamicTask::Kill { tasks, .. } ==> final(pids)@ == old(pids)@ && (r is Ok
                ==> forall|t: int|
                    0 <= t < tasks@.len() ==> spec_find_pid(old(pids)@, #[trigger] tasks@[t]@) is Some)
                && ((exists|t: int|
                    0 <= t < tasks@.len() && spec_find_pid(old(pids)@, #[trigger] tasks@[t]@) is None)
                    ==> r is Err),
        decreases *self,
    {
        match cancel_guard(host.cancelled()) {
            Ok(()) => {},
            Err(e) => {
                return Err(e);
            },
        }
        match self {
            DynamicTask::ExitIfExisting { path } => {
                let path = vars.expand_vars(path.as_slice());
                let exists = host.file_exists(path.as_slice());
                exists_guard(exists, path)
            },
            DynamicTask::SaveEnv { path } => {
                let path = vars.expand_vars(path.as_slice());
                let lines = env_lines(vars);
                let mut echo = RunCommand::new(vec![0x65u8, 0x63u8, 0x68u8, 0x6fu8]);
                echo.args.push(lines);
                let echo = echo.stdout(Stdio::File(path));
                let pid = match agent.spawn_task(echo) {
                    Ok(p) => p,
                    Err(e) => {
                        return Err(agent_error(e));
                    },
                };
                match agent.wait_pid(pid) {
                    Ok(_) => Ok(()),
                    Err(e) => Err(agent_error(e)),
                }
            },
            DynamicTask::Run { command, stdout, stderr, duration_ms } => match duration_ms {
                Some(d) => run_timed_task(agent, host, command.as_slice(), vars, stdout, stderr, *d),
                None => run_plain_task(agent, command.as_slice(), vars, stdout, stderr),
            },
            DynamicTask::SpawnTask { key, command, stdout, stderr } => {
                let cmd = match command_with_vars(command.as_slice(), vars) {
                    Ok(c) => c,
                    Err(e) => {
                        return Err(e);
                    },
                };
                let cmd = cmd.stdin(Stdio::Null).stdout(get_stdio(stdout, vars)).stderr(
                    get_stdio(stderr, vars),
                );
                let pid = match agent.spawn_task(cmd) {
                    Ok(p) => p,
                    Err(e) => {
                        return Err(agent_error(e));
                    },
                };
                pids.record(vstd::slice::slice_to_vec(key.as_slice()), pid);
                proof {
                    assert(pids@ == old(pids)@.push((key@, pid)));
                }
                Ok(())
            },
            DynamicTask::ResultCollector { command, dst } => {
                let dst = vars.expand_vars(dst.as_slice());
                let cmd = match command_with_vars(command.as_slice(), vars) {
                    Ok(c) => c,
                    Err(e) => {
                        return Err(e);
                    },
                };
                let out = match agent.run_task(cmd) {
                    Ok(o) => o,
                    Err(e) => {
                        return Err(agent_error(e));
                    },
                };
                let bytes = match collector_outcome(out) {
                    Ok(b) => b,
                    Err(e) => {
                        return Err(e);
                    },
                };
                host.write_file(dst.as_slice(), bytes.as_slice(), false);
                Ok(())
            },
            DynamicTask::Sleep { time_ms } => sleep_result(host.sleep(*time_ms)),
            DynamicTask::Kill { signal, tasks } => {
                let n = tasks.len();
                let mut i: usize = 0;
                while i < n
                    invariant
                        0 <= i <= n == tasks@.len(),
                        pids@ == old(pids)@,
                        forall|t: int|
                            0 <= t < i ==> spec_find_pid(old(pids)@, #[trigger] tasks@[t]@) is Some,
                    decreases n - i,
                {
                    let pid = match pids.find(tasks[i].as_slice()) {
                        Some(p) => p,
                        None => {
                            return Err(
                                TrialError::TaskNotFound {
                                    key: vstd::slice::slice_to_vec(tasks[i].as_slice()),
                                },
                            );
                        },
                    };
                    match agent.kill_process(pid, *signal) {
                        Ok(_) => {},
                        Err(e) => {
                            return Err(agent_error(e));
                        },
                    }
                    i += 1;
                }
                Ok(())
            },
            DynamicTask::CopyFile { src, dst, append } => {
                let src = vars.expand_vars(src.as_slice());
                let dst = vars.expand_vars(dst.as_slice());
                match agent.read_file(src) {
                    Ok(data) => {
                        host.write_file(dst.as_slice(), data.as_slice(), *append);
                    },
                    Err(_) => {},
                }
                Ok(())
            },
            DynamicTask::CopyDir { src, dst, archive } => {
                let src = vars.expand_vars(src.as_slice());
                let dst = vars.expand_vars(dst.as_slice());
                match collect_dir_entries(agent, src.as_slice(), COPY_DIR_FUEL) {
                    Ok(entries) => {
                        if *archive {
                            match crate::archive::build_targz(&entries) {
                                Some(bytes) => {
                                    host.write_file(dst.as_slice(), bytes.as_slice(), false);
                                },
                                None => {},
                            }
                        } else {
                            host.write_tree(dst.as_slice(), &entries);
                        }
                    },
                    Err(_) => {},
                }
                Ok(())
            },
            DynamicTask::MergeWithPrefix { prefix, header, src, dst } => {
                let prefix = vars.expand_vars(prefix.as_slice());
                let src = vars.expand_vars(src.as_slice());
                let dst = vars.expand_vars(dst.as_slice());
                match agent.read_file(src) {
                    Ok(data) => {
                        let empty = host.file_empty(dst.as_slice());
                        let bytes = merge_with_prefix_bytes(
                            empty,
                            header.as_slice(),
                            prefix.as_slice(),
                            data.as_slice(),
                        );
                        host.write_file(dst.as_slice(), bytes.as_slice(), true);
                        Ok(())
                    },
                    Err(e) => Err(agent_error(e)),
                }
            },
            DynamicTask::MergeJson { tag, src, dst } => {
                let tag = vars.expand_vars(tag.as_slice());
                let src = vars.expand_vars(src.as_slice());
                let dst = vars.expand_vars(dst.as_slice());
                match agent.read_file(src) {
                    Ok(data) => {
                        let existing = host.read_file(dst.as_slice());
                        match crate::json::merge_json_bytes(&existing, tag.as_slice(), data.as_slice()) {
                            Some(bytes) => {
                                host.write_file(dst.as_slice(), bytes.as_slice(), false);
                            },
                            None => {},
                        }
                        Ok(())
                    },
                    Err(e) => Err(agent_error(e)),
                }
            },
            DynamicTask::RunHost { command, stdout, stderr } => {
                let cmd = match command_with_vars(command.as_slice(), vars) {
                    Ok(c) => c,
                    Err(e) => {
                        return Err(e);
                    },
                };
                let cmd = cmd.stdin(Stdio::Null).stdout(get_stdio(stdout, vars)).stderr(
                    get_stdio(stderr, vars),
                );
                host.run_host(&cmd);
                Ok(())
            },
            DynamicTask::InputPatternVerifier(inner) => inner.run(agent, host, vars),
            DynamicTask::SaveTaggedAflPlotDataV4(inner) => inner.run(agent, host, vars),
            DynamicTask::TaskList { tasks } => {
                let n = tasks.len();
                let mut i: usize = 0;
                while i < n
                    invariant
                        0 <= i <= n == tasks@.len(),
                        old(pids)@.is_prefix_of(pids@),
                        forall|l: int| 0 <= l < i ==> spec_step_ok(#[trigger] tasks@[l], vars@),
                    decreases n - i,
                {
                    proof {
                        assert(decreases_to!(*self => tasks@[i as int]));
                    }
                    match tasks[i].run(vars, pids, agent, host) {
                        Ok(()) => {},
                        Err(e) => {
                            proof {
                                assert(old(pids)@.is_prefix_of(pids@));
                                assert(spec_step_error(tasks@[i as int], vars@, e));
                            }
                            return Err(e);
                        },
                    }
                    i += 1;
                }
                Ok(())
            },
        }
    }
}

/// One trial handed to a worker: a name, the instance blueprint it runs on,
/// its variables, and the steps to interpret.
pub struct Task {
    pub name: Vec<u8>,
    pub instance: Vec<u8>,
    pub vars: Vec<(Vec<u8>, Vec<u8>)>,
    pub steps: Vec<DynamicTask>,
}

/// The key the worker's own id is bound under.
pub open spec fn spec_worker_id_key() -> Seq<u8> {
    seq![0x57u8, 0x4fu8, 0x52u8, 0x4bu8, 0x45u8, 0x52u8, 0x5fu8, 0x49u8, 0x44u8]
}

/// The variable environment a trial runs under: `WORKER_ID` bound to the
/// worker's id first, then the trial's own pairs in order, each expanded
/// against what is already bound.
pub open spec fn spec_trial_env(worker_id: u64, pairs: Seq<(Vec<u8>, Vec<u8>)>) -> Seq<
    (Seq<u8>, Seq<u8>),
> {
    crate::vars::spec_insert_all(
        crate::vars::spec_insert(
            Seq::empty(),
            spec_worker_id_key(),
            crate::numfmt::dec_of(worker_id as nat),
        ),
        crate::vars::pairs_view(pairs),
    )
}

/// Builds the trial environment.
pub fn trial_env(worker_id: u64, pairs: &Vec<(Vec<u8>, Vec<u8>)>) -> (v: Variables)
    ensures
        v@ == spec_trial_env(worker_id, pairs@),
        v.wf(),
{
    let mut globals = Variables::new();
    let wk: Vec<u8> = vec![0x57u8, 0x4fu8, 0x52u8, 0x4bu8, 0x45u8, 0x52u8, 0x5fu8, 0x49u8, 0x44u8];
    let digits = crate::numfmt::to_decimal(worker_id);
    proof {
        assert(wk@ =~= spec_worker_id_key());
        crate::numfmt::lemma_dec_of_digits(worker_id as nat);
        crate::vars::lemma_find_from_none(digits@, crate::vars::OPEN_BRACE, 0);
        assert(spec_expand(Seq::empty(), digits@) == digits@);
    }
    globals.insert(wk, digits);
    globals.insert_all(pairs);
    globals
}

impl Task {
    /// Runs the whole trial on worker `worker_id`: `WORKER_ID` is bound
    /// first, then the task's own variables in order (so they may reference
    /// it), then the steps are interpreted sequentially, stopping at the
    /// first failure.  A failure is one some step admits against the
    /// trial's environment; success means every command-carrying step's
    /// expanded command split.
    pub fn run<A: Agent, H: Host>(&self, worker_id: u64, agent: &mut A, host: &mut H) -> (r: Result<
        (),
        TrialError,
    >)
        ensures
            r matches Err(e) ==> exists|i: int|
                0 <= i < self.steps@.len() && spec_step_error(
                    #[trigger] self.steps@[i],
                    spec_trial_env(worker_id, self.vars@),
                    e,
                ),
            r is Ok ==> forall|i: int|
                0 <= i < self.steps@.len() ==> spec_step_ok(
                    #[trigger] self.steps@[i],
                    spec_trial_env(worker_id, self.vars@),
                ),
    {
        let globals = trial_env(worker_id, &self.vars);
        let mut pids = PidTable::new();
        let n = self.steps.len();
        let mut i: usize = 0;
        #[verifier::loop_isolation(false)]
        while i < n
            invariant
                0 <= i <= n == self.steps@.len(),
                globals.wf(),
                globals@ == spec_trial_env(worker_id, self.vars@),
                forall|l: int| 0 <= l < i ==> spec_step_ok(#[trigger] self.steps@[l], globals@),
            decreases n - i,
        {
            match self.steps[i].run(&globals, &mut pids, agent, host) {
                Ok(()) => {},
                Err(e) => {
                    return Err(e);
                },
            }
            i += 1;
        }
        Ok(())
    }
}

} // verus!
