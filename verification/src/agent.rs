//! The guest agent: a table of supervised subprocesses, one request handled
//! at a time, dead children reaped between requests, and everything killed
//! when the connection ends.
//!
//! The decisions of the agent are verified here as transitions on the
//! subprocess table; the actual process spawning, waiting and file reading
//! are performed by the caller and handed in as plain values.

use vstd::prelude::*;
use crate::protocol::{DirEntry, RunCommand, RunOutput};

verus! {

/// An error reported over the RPC channel.
pub struct AgentError {
    pub message: Vec<u8>,
}

/// One request of the agent, as carried by the wire envelope.
pub enum Request {
    Reboot,
    RestartAgent,
    GetStats,
    SpawnProcess(RunCommand),
    RunProcess(RunCommand),
    WaitPid(u32),
    GetStatus(u32),
    KillProcess { pid: u32, signal: i32 },
    ReadFile { path: Vec<u8>, offset: u64, len: Option<u64> },
    StatFile(Vec<u8>),
    ReadDir(Vec<u8>),
    AddEntropy(Vec<u32>),
    Bulk(Vec<Request>),
}

/// A successful result of one request.
pub enum RespValue {
    Null,
    Pid(u32),
    ExitCode(Option<i64>),
    Known(bool),
    Bytes(Vec<u8>),
    Entry(DirEntry),
    Entries(Vec<DirEntry>),
    Output(RunOutput),
    Many(Vec<Response>),
}

/// One response of the agent: a value on success, a message on failure.
pub enum Response {
    Error { error: Vec<u8> },
    Value(RespValue),
}

/// Why the agent leaves its request loop.
pub enum Exit {
    RestartAgent,
    Shutdown,
}

/// How a wait request proceeds.
pub enum WaitAction {
    /// The pid is a child of this agent: block on it.
    WaitForChild,
    /// The pid is unknown: reply null without blocking.
    ReplyNull,
}

/// The entries of `s` that are not listed in `dead`, in order.
pub open spec fn keep_not_in(s: Seq<u32>, dead: Seq<u32>) -> Seq<u32>
    decreases s.len(),
{
    if s.len() == 0 {
        Seq::empty()
    } else {
        let rest = keep_not_in(s.drop_last(), dead);
        if dead.contains(s.last()) {
            rest
        } else {
            rest.push(s.last())
        }
    }
}

/// The subprocess table and exit flag of one agent.  Child handles live with
/// the caller; the table records which pids the agent owns.
pub struct AgentState {
    pub pids: Vec<u32>,
    pub exit: Option<Exit>,
}

impl AgentState {
    pub open spec fn table(&self) -> Seq<u32> {
        self.pids@
    }

    pub fn new() -> (r: Self)
        ensures
            r.table().len() == 0,
            r.exit is None,
    {
        let r = AgentState { pids: Vec::new(), exit: None };
        r
    }

    /// Whether `pid` is a child this agent owns.
    pub fn is_known(&self, pid: u32) -> (r: bool)
        ensures
            r <==> self.table().contains(pid),
    {
        let n = self.pids.len();
        let mut i: usize = 0;
        while i < n
            invariant
                0 <= i <= n == self.pids@.len(),
                forall|k: int| 0 <= k < i ==> self.pids@[k] != pid,
        decreases n - i,
        {
            if self.pids[i] == pid {
                return true;
            }
            i += 1;
        }
        false
    }

    /// A reboot request: the agent will kill its children and shut the guest
    /// down after replying.
    pub fn handle_reboot(&mut self) -> (r: Response)
        ensures
            final(self).exit == Some(Exit::Shutdown),
            final(self).table() == old(self).table(),
            r is Value,
    {
        self.exit = Some(Exit::Shutdown);
        Response::Value(RespValue::Null)
    }

    /// A restart request: the agent exits and relies on init to restart it.
    pub fn handle_restart(&mut self) -> (r: Response)
        ensures
            final(self).exit == Some(Exit::RestartAgent),
            final(self).table() == old(self).table(),
            r is Value,
    {
        self.exit = Some(Exit::RestartAgent);
        Response::Value(RespValue::Null)
    }

    /// Records a child spawned with pid `pid`; the pid of a live child is
    /// unique, so a duplicate is left as it is.
    pub fn handle_spawned(&mut self, pid: u32) -> (r: Response)
        ensures
            old(self).table().contains(pid) ==> final(self).table() == old(self).table(),
            !old(self).table().contains(pid) ==> final(self).table() == old(self).table().push(
                pid,
            ),
            final(self).exit == old(self).exit,
            r == Response::Value(RespValue::Pid(pid)),
    {
        if !self.is_known(pid) {
            self.pids.push(pid);
        }
        Response::Value(RespValue::Pid(pid))
    }

    /// What a wait request does: a known pid is blocked on (its exit code
    /// is collected and the child leaves the table); an unknown pid gets a
    /// null reply at once, with nothing removed and nothing blocked on.
    pub fn wait_action(&self, pid: u32) -> (r: WaitAction)
        ensures
            self.table().contains(pid) <==> r is WaitForChild,
            !self.table().contains(pid) <==> r is ReplyNull,
    {
        if self.is_known(pid) {
            WaitAction::WaitForChild
        } else {
            WaitAction::ReplyNull
        }
    }

    /// A known pid was waited for and its exit code collected: the child
    /// leaves the table.
    pub fn handle_waited(&mut self, pid: u32, code: Option<i64>) -> (r: Response)
        ensures
            final(self).table() == keep_not_in(old(self).table(), seq![pid]),
            final(self).exit == old(self).exit,
            r == Response::Value(RespValue::ExitCode(code)),
    {
        self.remove_pid(pid);
        Response::Value(RespValue::ExitCode(code))
    }

    /// A status request: the pid itself when the child is known, null
    /// otherwise.  Non-blocking; the table is untouched.
    pub fn handle_get_status(&self, pid: u32) -> (r: Response)
        ensures
            self.table().contains(pid) ==> r == Response::Value(
                RespValue::ExitCode(Some(pid as i64)),
            ),
            !self.table().contains(pid) ==> r == Response::Value(RespValue::ExitCode(None)),
    {
        if self.is_known(pid) {
            Response::Value(RespValue::ExitCode(Some(pid as i64)))
        } else {
            Response::Value(RespValue::ExitCode(None))
        }
    }

    /// A kill request was carried out (or the pid was unknown): a known pid
    /// leaves the table and the response says whether it was known.
    pub fn handle_killed(&mut self, pid: u32) -> (r: Response)
        ensures
            final(self).table() == keep_not_in(old(self).table(), seq![pid]),
            final(self).exit == old(self).exit,
            r == Response::Value(RespValue::Known(old(self).table().contains(pid))),
    {
        let known = self.is_known(pid);
        self.remove_pid(pid);
        Response::Value(RespValue::Known(known))
    }

    /// Children observed dead are dropped from the table; this runs between
    /// every two requests.
    pub fn reap_dead(&mut self, dead: &Vec<u32>)
        ensures
            final(self).table() == keep_not_in(old(self).table(), dead@),
            final(self).exit == old(self).exit,
    {
        let mut kept: Vec<u32> = Vec::new();
        let n = self.pids.len();
        let mut i: usize = 0;
        while i < n
            invariant
                0 <= i <= n == self.pids@.len(),
                kept@ == keep_not_in(self.pids@.subrange(0, i as int), dead@),
                self.pids@ == old(self).pids@,
                self.exit == old(self).exit,
            decreases n - i,
        {
            let ghost prefix = self.pids@.subrange(0, i as int);
            let p = self.pids[i];
            if !contains_pid(dead, p) {
                kept.push(p);
            }
            proof {
                assert(self.pids@.subrange(0, i + 1).drop_last() =~= prefix);
                assert(self.pids@.subrange(0, i + 1).last() == p);
            }
            i += 1;
        }
        proof {
            assert(self.pids@.subrange(0, n as int) =~= self.pids@);
        }
        self.pids = kept;
    }

    fn remove_pid(&mut self, pid: u32)
        ensures
            final(self).pids@ == keep_not_in(old(self).pids@, seq![pid]),
            final(self).exit == old(self).exit,
    {
        let dead: Vec<u32> = vec![pid];
        proof {
            assert(dead@ =~= seq![pid]);
        }
        self.reap_dead(&dead);
    }

    /// Kills every remaining child: the table is empty afterwards.  Running
    /// at every end of a connection, this is what guarantees that the
    /// subprocess table of a guest is empty once its trial has returned.
    pub fn kill_all(&mut self) -> (dead: Vec<u32>)
        ensures
            final(self).table().len() == 0,
            dead@ == old(self).table(),
            final(self).exit == old(self).exit,
    {
        let mut dead: Vec<u32> = Vec::new();
        std::mem::swap(&mut dead, &mut self.pids);
        dead
    }

    /// The end of one client connection: whatever the exit flag says, every
    /// child is killed and the table is left empty.  Returns the pids to
    /// kill and the exit reason, if one was requested.
    pub fn end_connection(&mut self) -> (r: (Vec<u32>, Option<Exit>))
        ensures
            final(self).table().len() == 0,
            r.0@ == old(self).table(),
            r.1 == old(self).exit,
    {
        let dead = self.kill_all();
        let exit = match &self.exit {
            Some(Exit::RestartAgent) => Some(Exit::RestartAgent),
            Some(Exit::Shutdown) => Some(Exit::Shutdown),
            None => None,
        };
        (dead, exit)
    }
}

/// Whether `pids` holds `pid`.
pub fn contains_pid(pids: &Vec<u32>, pid: u32) -> (r: bool)
    ensures
        r <==> pids@.contains(pid),
{
    let n = pids.len();
    let mut i: usize = 0;
    while i < n
        invariant
            0 <= i <= n == pids@.len(),
            forall|k: int| 0 <= k < i ==> pids@[k] != pid,
        decreases n - i,
    {
        if pids[i] == pid {
            return true;
        }
        i += 1;
    }
    false
}

/// What serving one request needs from the outside world, once the
/// agent's own decisions are made.  Every request maps to exactly one
/// action; a bulk request maps to serving its sub-requests in order, one
/// response each.
pub enum RequestAction {
    /// The reply is already decided; nothing outside is needed.
    Reply(Response),
    /// Spawn the command detached; report the pid through `handle_spawned`.
    Spawn(RunCommand),
    /// Run the command to completion under its own timeout.
    RunToCompletion(RunCommand),
    /// Block on this known child; report through `handle_waited`.
    Wait(u32),
    /// Signal this known child; report through `handle_killed`.
    Kill { pid: u32, signal: i32 },
    /// Read the clamped file slice; the clamp is `read_file_range`.
    ReadSlice { path: Vec<u8>, offset: u64, len: Option<u64> },
    /// Read the path's metadata.
    Stat(Vec<u8>),
    /// List one directory level.
    ListDir(Vec<u8>),
    /// Feed the words to the kernel entropy pool.
    Entropy(Vec<u32>),
    /// Drain the telemetry ring.
    DrainStats,
    /// Serve each sub-request in order, collecting exactly one response
    /// per sub-request.
    Bulk(Vec<Request>),
}

impl AgentState {
    /// Decides one request: reboot and restart requests flip the exit flag
    /// and reply at once; a status request replies from the table; a wait
    /// or kill of an unknown pid replies at once without touching the
    /// table; everything else becomes the one outside action it needs,
    /// with a bulk request handing back its sub-requests in order.
    pub fn request_action(&mut self, req: Request) -> (r: RequestAction)
        ensures
            final(self).table() == old(self).table(),
            match req {
                Request::Reboot => r matches RequestAction::Reply(resp) && resp is Value && final(self).exit == Some(Exit::Shutdown),
                Request::RestartAgent => r matches RequestAction::Reply(resp) && resp is Value
                    && final(self).exit == Some(Exit::RestartAgent),
                Request::GetStats => r is DrainStats && final(self).exit == old(self).exit,
                Request::SpawnProcess(c) => (r == RequestAction::Spawn(c)) && final(self).exit
                    == old(self).exit,
                Request::RunProcess(c) => (r == RequestAction::RunToCompletion(c)) && final(self).exit == old(self).exit,
                Request::WaitPid(pid) => (old(self).table().contains(pid) ==> r
                    == RequestAction::Wait(pid)) && (!old(self).table().contains(pid) ==> r
                    == RequestAction::Reply(Response::Value(RespValue::ExitCode(None)))) && final(self).exit == old(self).exit,
                Request::GetStatus(pid) => (old(self).table().contains(pid) ==> r
                    == RequestAction::Reply(
                    Response::Value(RespValue::ExitCode(Some(pid as i64))),
                )) && (!old(self).table().contains(pid) ==> r == RequestAction::Reply(
                    Response::Value(RespValue::ExitCode(None)),
                )) && final(self).exit == old(self).exit,
                Request::KillProcess { pid, signal } => (old(self).table().contains(pid) ==> (r
                    == RequestAction::Kill { pid, signal })) && (!old(self).table().contains(pid)
                    ==> r == RequestAction::Reply(Response::Value(RespValue::Known(false))))
                    && final(self).exit == old(self).exit,
                Request::ReadFile { path, offset, len } => (r == RequestAction::ReadSlice {
                    path,
                    offset,
                    len,
                }) && final(self).exit == old(self).exit,
                Request::StatFile(p) => (r == RequestAction::Stat(p)) && final(self).exit == old(self).exit,
                Request::ReadDir(p) => (r == RequestAction::ListDir(p)) && final(self).exit == old(self).exit,
                Request::AddEntropy(words) => (r == RequestAction::Entropy(words)) && final(self).exit == old(self).exit,
                Request::Bulk(reqs) => (r == RequestAction::Bulk(reqs)) && final(self).exit == old(self).exit,
            },
    {
        match req {
            Request::Reboot => RequestAction::Reply(self.handle_reboot()),
            Request::RestartAgent => RequestAction::Reply(self.handle_restart()),
            Request::GetStats => RequestAction::DrainStats,
            Request::SpawnProcess(c) => RequestAction::Spawn(c),
            Request::RunProcess(c) => RequestAction::RunToCompletion(c),
            Request::WaitPid(pid) => match self.wait_action(pid) {
                WaitAction::WaitForChild => RequestAction::Wait(pid),
                WaitAction::ReplyNull => RequestAction::Reply(
                    Response::Value(RespValue::ExitCode(None)),
                ),
            },
            Request::GetStatus(pid) => RequestAction::Reply(self.handle_get_status(pid)),
            Request::KillProcess { pid, signal } => {
                if self.is_known(pid) {
                    RequestAction::Kill { pid, signal }
                } else {
                    RequestAction::Reply(Response::Value(RespValue::Known(false)))
                }
            },
            Request::ReadFile { path, offset, len } => RequestAction::ReadSlice {
                path,
                offset,
                len,
            },
            Request::StatFile(p) => RequestAction::Stat(p),
            Request::ReadDir(p) => RequestAction::ListDir(p),
            Request::AddEntropy(words) => RequestAction::Entropy(words),
            Request::Bulk(reqs) => RequestAction::Bulk(reqs),
        }
    }
}

/// How a supervised child's ending is classified: a run that overran its
/// deadline is a hang whatever the waited status says; a zero exit is a
/// success; a non-zero exit code is reported as that exit; an exit without
/// a code (killed by a signal) is a crash.
pub fn supervise_outcome(timed_out: bool, success: bool, code: Option<i32>) -> (r:
    crate::protocol::ExitKind)
    ensures
        timed_out ==> r is Hang,
        !timed_out && success ==> r is Success,
        !timed_out && !success ==> match code {
            Some(c) => (r == crate::protocol::ExitKind::Exit(c)),
            None => r is Crash,
        },
{
    if timed_out {
        crate::protocol::ExitKind::Hang
    } else if success {
        crate::protocol::ExitKind::Success
    } else {
        match code {
            Some(c) => crate::protocol::ExitKind::Exit(c),
            None => crate::protocol::ExitKind::Crash,
        }
    }
}

/// The slice of a file that a read request yields, clamped to the file:
/// reading at or past the end yields the empty range, and a length running
/// past the end is cut at the end.
pub fn read_slice_bounds(file_len: u64, offset: u64, len: Option<u64>) -> (r: (u64, u64))
    ensures
        r.0 <= r.1 <= file_len,
        offset >= file_len ==> r.0 == r.1,
        offset < file_len ==> r.0 == offset,
        offset < file_len ==> match len {
            Some(l) => r.1 - r.0 == if l <= file_len - offset {
                l as int
            } else {
                file_len - offset
            },
            None => r.1 == file_len,
        },
{
    if offset >= file_len {
        return (file_len, file_len);
    }
    let remaining = file_len - offset;
    let take = match len {
        Some(l) =>
            if l <= remaining {
                l
            } else {
                remaining
            },
        None => remaining,
    };
    (offset, offset + take)
}

/// Applies a read request to in-memory contents: exactly the clamped range
/// comes back.
pub fn read_file_range(content: &[u8], offset: u64, len: Option<u64>) -> (r: Vec<u8>)
    requires
        content@.len() <= u64::MAX,
    ensures
        ({
            let file_len = content@.len() as u64;
            let start = if offset >= file_len {
                file_len
            } else {
                offset
            };
            r@ == content@.subrange(
                start as int,
                start as int + spec_read_len(file_len, offset, len),
            )
        }),
{
    let file_len = content.len() as u64;
    let (start, end) = read_slice_bounds(file_len, offset, len);
    let out = vstd::slice::slice_to_vec(
        vstd::slice::slice_subrange(content, start as usize, end as usize),
    );
    out
}

/// How many bytes a clamped read yields.
pub open spec fn spec_read_len(file_len: u64, offset: u64, len: Option<u64>) -> int {
    if offset >= file_len {
        0
    } else {
        match len {
            Some(l) =>
                if l <= file_len - offset {
                    l as int
                } else {
                    file_len - offset
                },
            None => file_len - offset,
        }
    }
}

/// The stub agent of the dummy backend: accepts every request and returns a
/// canned response; spawns hand out consecutive fake pids.
pub struct DummyAgent {
    pub next_pid: u32,
}

/// The stub's canned reply shape for one request: spawns hand back a pid,
/// runs a captured output, waits exit code zero, status checks null, and a
/// bulk request one canned reply per sub-request in order; everything else
/// gets null.
pub open spec fn spec_canned(req: Request, resp: Response) -> bool
    decreases req,
{
    match req {
        Request::SpawnProcess(_) => resp matches Response::Value(v) && v is Pid,
        Request::RunProcess(_) => resp matches Response::Value(v) && v is Output,
        Request::WaitPid(_) => resp == Response::Value(RespValue::ExitCode(Some(0i64))),
        Request::GetStatus(_) => resp == Response::Value(RespValue::ExitCode(None)),
        Request::Bulk(reqs) => resp matches Response::Value(RespValue::Many(rs)) && rs@.len()
            == reqs@.len() && forall|i: int|
            0 <= i < reqs@.len() ==> spec_canned(#[trigger] reqs@[i], rs@[i]),
        _ => resp matches Response::Value(v) && v is Null,
    }
}

impl DummyAgent {
    pub fn new() -> (r: Self)
        ensures
            r.next_pid == 2,
    {
        DummyAgent { next_pid: 2 }
    }

    /// Answers one request with a canned response of the request's shape:
    /// a bulk request yields exactly one canned response per sub-request,
    /// in order, never short.
    #[verifier::loop_isolation(false)]
    pub fn handle_request(&mut self, req: &Request) -> (r: Response)
        ensures
            spec_canned(*req, r),
            req matches Request::SpawnProcess(_) ==> r == Response::Value(
                RespValue::Pid(old(self).next_pid),
            ),
        decreases *req,
    {
        match req {
            Request::SpawnProcess(_) => {
                let pid = self.next_pid;
                self.next_pid = if pid < u32::MAX {
                    pid + 1
                } else {
                    2
                };
                Response::Value(RespValue::Pid(pid))
            },
            Request::RunProcess(_) => Response::Value(
                RespValue::Output(
                    RunOutput {
                        exit: crate::protocol::ExitKind::Success,
                        stdout: Vec::new(),
                        stderr: Vec::new(),
                    },
                ),
            ),
            Request::WaitPid(_) => Response::Value(RespValue::ExitCode(Some(0))),
            Request::GetStatus(_) => Response::Value(RespValue::ExitCode(None)),
            Request::Bulk(reqs) => {
                let mut out: Vec<Response> = Vec::new();
                let n = reqs.len();
                let mut i: usize = 0;
                while i < n
                    invariant
                        0 <= i <= n == reqs@.len(),
                        out@.len() == i,
                        forall|l: int| 0 <= l < i ==> spec_canned(#[trigger] reqs@[l], out@[l]),
                    decreases n - i,
                {
                    proof {
                        assert(decreases_to!(*req => reqs@[i as int]));
                    }
                    let child = self.handle_request(&reqs[i]);
                    out.push(child);
                    i += 1;
                }
                Response::Value(RespValue::Many(out))
            },
            _ => Response::Value(RespValue::Null),
        }
    }
}

/// The telemetry ring of the agent: a fixed set of buffers filled round
/// robin by incoming datagrams and drained whole on a stats request.
pub struct StatsdData {
    pub bufs: Vec<Vec<u8>>,
    pub offset: usize,
    pub is_overflow: bool,
}

impl StatsdData {
    /// The next free slot stays inside the ring.
    pub open spec fn wf(&self) -> bool {
        self.bufs@.len() == 0 ==> self.offset == 0
    }

    pub fn new(capacity: usize) -> (r: Self)
        ensures
            r.bufs@.len() == capacity,
            forall|i: int| 0 <= i < capacity ==> (#[trigger] r.bufs@[i])@.len() == 0,
            r.offset == 0,
            r.is_overflow == true,
            r.wf(),
    {
        let mut bufs: Vec<Vec<u8>> = Vec::new();
        let mut i: usize = 0;
        while i < capacity
            invariant
                0 <= i <= capacity,
                bufs@.len() == i,
                forall|l: int| 0 <= l < i ==> (#[trigger] bufs@[l])@.len() == 0,
            decreases capacity - i,
        {
            bufs.push(Vec::new());
            i += 1;
        }
        StatsdData { bufs, offset: 0, is_overflow: true }
    }

    /// Stores one datagram in the next slot; when the ring wraps, the
    /// oldest entries start being overwritten and the overflow flag is set.
    pub fn push(&mut self, data: &[u8])
        requires
            old(self).bufs@.len() > 0,
            old(self).offset < old(self).bufs@.len(),
        ensures
            final(self).bufs@.len() == old(self).bufs@.len(),
            final(self).bufs@[old(self).offset as int]@ == data@,
            forall|i: int|
                0 <= i < old(self).bufs@.len() && i != old(self).offset ==> final(self).bufs@[i]
                    == old(self).bufs@[i],
            old(self).offset + 1 == old(self).bufs@.len() ==> final(self).offset == 0
                && final(self).is_overflow == true,
            old(self).offset + 1 < old(self).bufs@.len() ==> final(self).offset == old(self).offset
                + 1 && final(self).is_overflow == old(self).is_overflow,
    {
        let n = self.bufs.len();
        let off = self.offset;
        self.bufs[off] = vstd::slice::slice_to_vec(data);
        if self.offset + 1 == n {
            self.is_overflow = true;
            self.offset = 0;
        } else {
            self.offset += 1;
        }
    }

    /// Takes every pending entry, oldest first: after an overflow the ring
    /// is returned starting at the next slot to be overwritten, else only
    /// the filled prefix.  The ring is reset.
    pub fn drain_all(&mut self) -> (r: Vec<Vec<u8>>)
        requires
            old(self).offset <= old(self).bufs@.len(),
        ensures
            old(self).is_overflow ==> crate::vars::vecs_view(r@) == crate::vars::vecs_view(
                old(self).bufs@.subrange(old(self).offset as int, old(self).bufs@.len() as int),
            ) + crate::vars::vecs_view(old(self).bufs@.subrange(0, old(self).offset as int)),
            !old(self).is_overflow ==> crate::vars::vecs_view(r@) == crate::vars::vecs_view(
                old(self).bufs@.subrange(0, old(self).offset as int),
            ),
            final(self).bufs@ == old(self).bufs@,
            final(self).offset == 0,
            final(self).is_overflow == false,
    {
        let mut out: Vec<Vec<u8>> = Vec::new();
        let n = self.bufs.len();
        if self.is_overflow {
            let mut i = self.offset;
            #[verifier::loop_isolation(false)]
            while i < n
                invariant
                    old(self).offset <= i <= n == self.bufs@.len(),
                    self.bufs@ == old(self).bufs@,
                    self.offset == old(self).offset,
                    crate::vars::vecs_view(out@) == crate::vars::vecs_view(
                        self.bufs@.subrange(self.offset as int, i as int),
                    ),
                decreases n - i,
            {
                let ghost prev = out@;
                out.push(vstd::slice::slice_to_vec(self.bufs[i].as_slice()));
                proof {
                    let target = crate::vars::vecs_view(
                        self.bufs@.subrange(self.offset as int, i + 1),
                    );
                    assert forall|t: int| 0 <= t < out@.len() implies crate::vars::vecs_view(
                        out@,
                    )[t] == target[t] by {
                        if t < prev.len() {
                            assert(out@[t] == prev[t]);
                            assert(crate::vars::vecs_view(prev)[t] == crate::vars::vecs_view(
                                self.bufs@.subrange(self.offset as int, i as int),
                            )[t]);
                        } else {
                            assert(out@[t] == out@.last());
                        }
                    }
                    assert(crate::vars::vecs_view(out@) =~= target);
                }
                i += 1;
            }
        }
        let stop = self.offset;
        let mut i: usize = 0;
        let ghost mid = out@;
        #[verifier::loop_isolation(false)]
        while i < stop
            invariant
                0 <= i <= stop == self.offset,
                self.offset <= self.bufs@.len(),
                self.bufs@ == old(self).bufs@,
                crate::vars::vecs_view(out@) == crate::vars::vecs_view(mid) + crate::vars::vecs_view(
                    self.bufs@.subrange(0, i as int),
                ),
            decreases stop - i,
        {
            let ghost prev = out@;
            out.push(vstd::slice::slice_to_vec(self.bufs[i].as_slice()));
            proof {
                let target = crate::vars::vecs_view(mid) + crate::vars::vecs_view(
                    self.bufs@.subrange(0, i + 1),
                );
                assert forall|t: int| 0 <= t < out@.len() implies crate::vars::vecs_view(
                    out@,
                )[t] == target[t] by {
                    if t < prev.len() {
                        assert(out@[t] == prev[t]);
                        assert(crate::vars::vecs_view(prev)[t] == (crate::vars::vecs_view(mid)
                            + crate::vars::vecs_view(self.bufs@.subrange(0, i as int)))[t]);
                    } else {
                        assert(out@[t] == out@.last());
                    }
                }
                assert(crate::vars::vecs_view(out@) =~= target);
            }
            i += 1;
        }
        self.offset = 0;
        self.is_overflow = false;
        proof {
            assert(crate::vars::vecs_view(out@) =~= crate::vars::vecs_view(mid)
                + crate::vars::vecs_view(old(self).bufs@.subrange(0, old(self).offset as int)));
            if !old(self).is_overflow {
                assert(crate::vars::vecs_view(mid) =~= Seq::<Seq<u8>>::empty());
                assert(crate::vars::vecs_view(out@) =~= crate::vars::vecs_view(
                    old(self).bufs@.subrange(0, old(self).offset as int),
                ));
            }
        }
        out
    }
}

} // verus!
