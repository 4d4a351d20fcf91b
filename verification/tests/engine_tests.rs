//! End-to-end scenarios of the trial step engine against an in-memory
//! agent and host.

use bench_harness::agent::AgentError;
use bench_harness::engine::{
    Agent, DynamicTask, Host, MonitorEvent, PidTable, SleepOutcome, TreeEntry, TrialError,
};
use bench_harness::protocol::{DirEntry, ExitKind, RunCommand, RunOutput};
use bench_harness::vars::Variables;
use std::io::Read;

/// A guest whose file system is a list of (path, content, mtime) triples.
struct MemAgent {
    files: Vec<(Vec<u8>, Vec<u8>, u64)>,
    dir_mtime: u64,
    next_pid: u32,
    spawned: Vec<Vec<u8>>,
    killed: Vec<(u32, i32)>,
}

impl MemAgent {
    fn new(files: Vec<(Vec<u8>, Vec<u8>, u64)>) -> Self {
        MemAgent { files, dir_mtime: 0, next_pid: 100, spawned: Vec::new(), killed: Vec::new() }
    }
}

fn err(msg: &str) -> AgentError {
    AgentError { message: msg.as_bytes().to_vec() }
}

impl Agent for MemAgent {
    fn spawn_task(&mut self, task: RunCommand) -> Result<u32, AgentError> {
        let pid = self.next_pid;
        self.next_pid += 1;
        self.spawned.push(task.program.clone());
        Ok(pid)
    }

    fn run_task(&mut self, _task: RunCommand) -> Result<RunOutput, AgentError> {
        Ok(RunOutput { exit: ExitKind::Success, stdout: b"collected".to_vec(), stderr: Vec::new() })
    }

    fn wait_pid(&mut self, _pid: u32) -> Result<Option<i64>, AgentError> {
        Ok(Some(0))
    }

    fn get_status(&mut self, _pid: u32) -> Result<Option<i64>, AgentError> {
        Ok(None)
    }

    fn kill_process(&mut self, pid: u32, signal: i32) -> Result<bool, AgentError> {
        self.killed.push((pid, signal));
        Ok(true)
    }

    fn read_file(&mut self, path: Vec<u8>) -> Result<Vec<u8>, AgentError> {
        for (p, c, _) in &self.files {
            if *p == path {
                return Ok(c.clone());
            }
        }
        Err(err("no such file"))
    }

    fn stat(&mut self, path: Vec<u8>) -> Result<DirEntry, AgentError> {
        for (p, c, m) in &self.files {
            if *p == path {
                return Ok(DirEntry {
                    path: p.clone(),
                    is_file: true,
                    len: c.len() as u64,
                    modified_ms: *m,
                });
            }
        }
        Ok(DirEntry { path, is_file: false, len: 0, modified_ms: self.dir_mtime })
    }

    fn read_dir(&mut self, path: Vec<u8>) -> Result<Vec<DirEntry>, AgentError> {
        let mut prefix = path.clone();
        prefix.push(b'/');
        let mut out = Vec::new();
        for (p, c, m) in &self.files {
            if p.starts_with(&prefix) && !p[prefix.len()..].contains(&b'/') {
                out.push(DirEntry {
                    path: p.clone(),
                    is_file: true,
                    len: c.len() as u64,
                    modified_ms: *m,
                });
            }
        }
        Ok(out)
    }

    fn shutdown_vm(&mut self) -> Result<(), AgentError> {
        Ok(())
    }

    fn exit(&mut self) -> Result<(), AgentError> {
        Ok(())
    }
}

/// A host that records every write and can play a cancellation.
struct MemHost {
    cancelled: bool,
    cancel_sleeps: bool,
    files: Vec<(Vec<u8>, Vec<u8>)>,
    trees: Vec<(Vec<u8>, Vec<TreeEntry>)>,
}

impl MemHost {
    fn new() -> Self {
        MemHost { cancelled: false, cancel_sleeps: false, files: Vec::new(), trees: Vec::new() }
    }

    fn file(&self, path: &[u8]) -> Option<&Vec<u8>> {
        self.files.iter().find(|(p, _)| p == path).map(|(_, c)| c)
    }
}

impl Host for MemHost {
    fn cancelled(&mut self) -> bool {
        self.cancelled
    }

    fn file_exists(&mut self, path: &[u8]) -> bool {
        self.file(path).is_some()
    }

    fn file_empty(&mut self, path: &[u8]) -> bool {
        match self.file(path) {
            Some(c) => c.is_empty(),
            None => true,
        }
    }

    fn read_file(&mut self, path: &[u8]) -> Option<Vec<u8>> {
        self.file(path).cloned()
    }

    fn write_file(&mut self, path: &[u8], bytes: &[u8], append: bool) -> bool {
        if let Some(pos) = self.files.iter().position(|(p, _)| p == path) {
            if append {
                self.files[pos].1.extend_from_slice(bytes);
            } else {
                self.files[pos].1 = bytes.to_vec();
            }
        } else {
            self.files.push((path.to_vec(), bytes.to_vec()));
        }
        true
    }

    fn write_tree(&mut self, dst: &[u8], entries: &Vec<TreeEntry>) -> bool {
        let copied = entries
            .iter()
            .map(|e| TreeEntry {
                rel_path: e.rel_path.clone(),
                is_file: e.is_file,
                content: e.content.clone(),
            })
            .collect();
        self.trees.push((dst.to_vec(), copied));
        true
    }

    fn run_host(&mut self, _cmd: &RunCommand) -> Option<RunOutput> {
        Some(RunOutput { exit: ExitKind::Success, stdout: Vec::new(), stderr: Vec::new() })
    }

    fn sleep(&mut self, _ms: u64) -> SleepOutcome {
        if self.cancel_sleeps {
            SleepOutcome::Cancelled { elapsed_ms: 1000 }
        } else {
            SleepOutcome::Completed
        }
    }

    fn monitor_select(&mut self, _deadline_ms: u64, _tick_ms: u64) -> MonitorEvent {
        if self.cancel_sleeps {
            MonitorEvent::Cancelled { elapsed_ms: 1000 }
        } else {
            MonitorEvent::Deadline
        }
    }
}

fn base_vars(pairs: &[(&str, &str)]) -> Variables {
    let mut v = Variables::new();
    for (k, val) in pairs {
        v.insert(k.as_bytes().to_vec(), val.as_bytes().to_vec());
    }
    v
}

#[test]
fn kill_unknown_key_fails_trial() {
    let mut agent = MemAgent::new(Vec::new());
    let mut host = MemHost::new();
    let vars = base_vars(&[]);
    let mut pids = PidTable::new();
    let step = DynamicTask::Kill { signal: 9, tasks: vec![b"missing".to_vec()] };
    let r = step.run(&vars, &mut pids, &mut agent, &mut host);
    match r {
        Err(TrialError::TaskNotFound { key }) => assert_eq!(key, b"missing".to_vec()),
        _ => panic!("unknown kill key must fail the trial"),
    }
}

#[test]
fn kill_known_key_signals_recorded_pid() {
    let mut agent = MemAgent::new(Vec::new());
    let mut host = MemHost::new();
    let vars = base_vars(&[]);
    let mut pids = PidTable::new();
    let spawn = DynamicTask::SpawnTask {
        key: b"fuzzer".to_vec(),
        command: b"run --fast".to_vec(),
        stdout: None,
        stderr: None,
    };
    assert!(spawn.run(&vars, &mut pids, &mut agent, &mut host).is_ok());
    let kill = DynamicTask::Kill { signal: 2, tasks: vec![b"fuzzer".to_vec()] };
    assert!(kill.run(&vars, &mut pids, &mut agent, &mut host).is_ok());
    assert_eq!(agent.killed, vec![(100, 2)]);
}

#[test]
fn sleep_under_cancellation_fails_with_elapsed() {
    let mut agent = MemAgent::new(Vec::new());
    let mut host = MemHost::new();
    host.cancel_sleeps = true;
    let vars = base_vars(&[]);
    let mut pids = PidTable::new();
    let step = DynamicTask::Sleep { time_ms: 86_400_000 };
    match step.run(&vars, &mut pids, &mut agent, &mut host) {
        Err(TrialError::Cancelled { elapsed_ms }) => assert_eq!(elapsed_ms, 1000),
        _ => panic!("a cancelled sleep must fail the trial"),
    }
}

#[test]
fn cancelled_flag_checked_before_each_step() {
    let mut agent = MemAgent::new(Vec::new());
    let mut host = MemHost::new();
    host.cancelled = true;
    let vars = base_vars(&[]);
    let mut pids = PidTable::new();
    let step = DynamicTask::RunHost { command: b"echo hello".to_vec(), stdout: None, stderr: None };
    assert!(matches!(
        step.run(&vars, &mut pids, &mut agent, &mut host),
        Err(TrialError::Cancelled { .. })
    ));
}

#[test]
fn copy_file_writes_guest_bytes_to_host() {
    let mut agent =
        MemAgent::new(vec![(b"/out/data.txt".to_vec(), b"payload-bytes".to_vec(), 0)]);
    let mut host = MemHost::new();
    let vars = base_vars(&[]);
    let mut pids = PidTable::new();
    let step = DynamicTask::CopyFile {
        src: b"/out/data.txt".to_vec(),
        dst: b"/host/data.txt".to_vec(),
        append: false,
    };
    assert!(step.run(&vars, &mut pids, &mut agent, &mut host).is_ok());
    assert_eq!(host.file(b"/host/data.txt").unwrap(), &b"payload-bytes".to_vec());
}

#[test]
fn copy_dir_archive_extracts_to_the_same_tree() {
    let files = vec![
        (b"/work/a.txt".to_vec(), b"alpha".to_vec(), 0),
        (b"/work/b.txt".to_vec(), b"beta".to_vec(), 0),
    ];
    let mut agent = MemAgent::new(files.clone());
    let mut host = MemHost::new();
    let vars = base_vars(&[]);
    let mut pids = PidTable::new();
    let plain_step = DynamicTask::CopyDir {
        src: b"/work".to_vec(),
        dst: b"/host/tree".to_vec(),
        archive: false,
    };
    assert!(plain_step.run(&vars, &mut pids, &mut agent, &mut host).is_ok());
    let archive_step = DynamicTask::CopyDir {
        src: b"/work".to_vec(),
        dst: b"/host/tree.tar.gz".to_vec(),
        archive: true,
    };
    assert!(archive_step.run(&vars, &mut pids, &mut agent, &mut host).is_ok());

    // The plain copy recorded the pulled tree directly.
    assert_eq!(host.trees.len(), 1);
    let mut plain: Vec<(Vec<u8>, Vec<u8>)> = host.trees[0]
        .1
        .iter()
        .filter(|e| e.is_file)
        .map(|e| (e.rel_path.clone(), e.content.clone()))
        .collect();
    plain.sort();

    // Extracting the archive yields the same file tree.
    let bytes = host.file(b"/host/tree.tar.gz").unwrap().clone();
    let decoder = flate2::read::GzDecoder::new(std::io::Cursor::new(bytes));
    let mut tar = tar::Archive::new(decoder);
    let mut extracted: Vec<(Vec<u8>, Vec<u8>)> = Vec::new();
    for entry in tar.entries().unwrap() {
        let mut entry = entry.unwrap();
        if entry.header().entry_type().is_file() {
            let path = entry.path().unwrap().to_string_lossy().into_owned().into_bytes();
            let mut content = Vec::new();
            entry.read_to_end(&mut content).unwrap();
            extracted.push((path, content));
        }
    }
    extracted.sort();
    assert_eq!(plain, extracted);
}

#[test]
fn merge_json_accumulates_tags_in_order() {
    let mut agent = MemAgent::new(vec![
        (b"/g/a.json".to_vec(), b"{\"x\":1}".to_vec(), 0),
        (b"/g/b.json".to_vec(), b"{\"x\":2}".to_vec(), 0),
    ]);
    let mut host = MemHost::new();
    let vars = base_vars(&[]);
    let mut pids = PidTable::new();
    let first = DynamicTask::MergeJson {
        tag: b"A".to_vec(),
        src: b"/g/a.json".to_vec(),
        dst: b"/host/merged.json".to_vec(),
    };
    let second = DynamicTask::MergeJson {
        tag: b"B".to_vec(),
        src: b"/g/b.json".to_vec(),
        dst: b"/host/merged.json".to_vec(),
    };
    assert!(first.run(&vars, &mut pids, &mut agent, &mut host).is_ok());
    assert!(second.run(&vars, &mut pids, &mut agent, &mut host).is_ok());
    assert_eq!(
        host.file(b"/host/merged.json").unwrap(),
        &b"{\"A\":{\"x\":1},\"B\":{\"x\":2}}".to_vec()
    );
}

#[test]
fn merge_with_prefix_writes_header_once() {
    let mut agent = MemAgent::new(vec![(b"/g/stats".to_vec(), b"1,2,3\n".to_vec(), 0)]);
    let mut host = MemHost::new();
    let vars = base_vars(&[]);
    let mut pids = PidTable::new();
    let step = DynamicTask::MergeWithPrefix {
        prefix: b"# trial 0".to_vec(),
        header: b"col_a,col_b,col_c".to_vec(),
        src: b"/g/stats".to_vec(),
        dst: b"/host/stats.csv".to_vec(),
    };
    assert!(step.run(&vars, &mut pids, &mut agent, &mut host).is_ok());
    assert!(step.run(&vars, &mut pids, &mut agent, &mut host).is_ok());
    assert_eq!(
        host.file(b"/host/stats.csv").unwrap(),
        &b"col_a,col_b,col_c\n# trial 0\n1,2,3\n# trial 0\n1,2,3\n".to_vec()
    );
}

#[test]
fn result_collector_writes_stdout_on_success() {
    let mut agent = MemAgent::new(Vec::new());
    let mut host = MemHost::new();
    let vars = base_vars(&[]);
    let mut pids = PidTable::new();
    let step = DynamicTask::ResultCollector {
        command: b"stats --dump".to_vec(),
        dst: b"/host/result".to_vec(),
    };
    assert!(step.run(&vars, &mut pids, &mut agent, &mut host).is_ok());
    assert_eq!(host.file(b"/host/result").unwrap(), &b"collected".to_vec());
}

#[test]
fn exit_if_existing_guards_prior_results() {
    let mut agent = MemAgent::new(Vec::new());
    let mut host = MemHost::new();
    host.write_file(b"/host/old", b"x", false);
    let vars = base_vars(&[]);
    let mut pids = PidTable::new();
    let step = DynamicTask::ExitIfExisting { path: b"/host/old".to_vec() };
    assert!(matches!(
        step.run(&vars, &mut pids, &mut agent, &mut host),
        Err(TrialError::AlreadyExists { .. })
    ));
    let fresh = DynamicTask::ExitIfExisting { path: b"/host/new".to_vec() };
    assert!(fresh.run(&vars, &mut pids, &mut agent, &mut host).is_ok());
}

#[test]
fn input_pattern_verifier_scenario() {
    let crash_a = b"/crash/id:000001,time1234,sig:06".to_vec();
    let crash_b = b"/crash/id:000002,time2345,src:000001".to_vec();
    let mut agent = MemAgent::new(vec![
        (crash_a, b"AAAArest".to_vec(), 0),
        (crash_b, b"BBBBrest".to_vec(), 0),
    ]);
    let mut host = MemHost::new();
    let vars = base_vars(&[("TAG", "TAG0")]);
    let mut pids = PidTable::new();
    let step = DynamicTask::InputPatternVerifier(bench_harness::afl::InputPatternVerifier {
        crash_dir: b"/crash".to_vec(),
        dst: b"/host/bugs.csv".to_vec(),
        patterns: vec![
            bench_harness::afl::Pattern { key: b"crash-A".to_vec(), offset: 0, bytes: b"AAAA".to_vec() },
            bench_harness::afl::Pattern { key: b"crash-B".to_vec(), offset: 0, bytes: b"BBBB".to_vec() },
        ],
    });
    assert!(step.run(&vars, &mut pids, &mut agent, &mut host).is_ok());
    assert_eq!(
        host.file(b"/host/bugs.csv").unwrap(),
        &b"tag,bug_id,time\nTAG0,none,0\nTAG0,crash-A,1234\nTAG0,crash-B,2345\n".to_vec()
    );
}

#[test]
fn tagged_plot_data_is_reshaped_with_tag_column() {
    let plot = b"# comment\nrelative_time, cycles_done, cur_item, corpus_count, pending_total, pending_favs, map_size, saved_crashes, saved_hangs, max_depth, execs_per_sec, total_execs, edges_found\n5, 1, 2, 3, 4, 0, 12.3%, 1, 0, 2, 100.5, 5000, 77\n".to_vec();
    let mut agent = MemAgent::new(vec![(b"/w/default/plot_data".to_vec(), plot, 0)]);
    let mut host = MemHost::new();
    let vars = base_vars(&[("TAG", "T1")]);
    let mut pids = PidTable::new();
    let step = DynamicTask::SaveTaggedAflPlotDataV4(bench_harness::afl::SaveTaggedAflPlotDataV4 {
        workdir: b"/w".to_vec(),
        dst: b"/host/plot.csv".to_vec(),
    });
    assert!(step.run(&vars, &mut pids, &mut agent, &mut host).is_ok());
    let written = String::from_utf8(host.file(b"/host/plot.csv").unwrap().clone()).unwrap();
    let mut lines = written.lines();
    assert_eq!(
        lines.next().unwrap(),
        "tag,relative_time,cycles_done,cur_item,corpus_count,pending_total,pending_favs,map_size,saved_crashes,saved_hangs,max_depth,execs_per_sec,total_execs,edges_found"
    );
    // The fuzzer's own header line has thirteen fields and is carried
    // through tagged, like every well-formed line.
    assert!(lines.next().unwrap().starts_with("T1,relative_time,"));
    assert_eq!(lines.next().unwrap(), "T1,5,1,2,3,4,0,12.3%,1,0,2,100.5,5000,77");
}

#[test]
fn task_list_runs_steps_sequentially_and_stops_on_error() {
    let mut agent = MemAgent::new(Vec::new());
    let mut host = MemHost::new();
    let vars = base_vars(&[]);
    let mut pids = PidTable::new();
    let steps = DynamicTask::TaskList {
        tasks: vec![
            DynamicTask::SpawnTask {
                key: b"one".to_vec(),
                command: b"first".to_vec(),
                stdout: None,
                stderr: None,
            },
            DynamicTask::Kill { signal: 9, tasks: vec![b"absent".to_vec()] },
            DynamicTask::SpawnTask {
                key: b"two".to_vec(),
                command: b"second".to_vec(),
                stdout: None,
                stderr: None,
            },
        ],
    };
    assert!(matches!(
        steps.run(&vars, &mut pids, &mut agent, &mut host),
        Err(TrialError::TaskNotFound { .. })
    ));
    assert_eq!(agent.spawned, vec![b"first".to_vec()]);
}

#[test]
fn worker_id_and_task_vars_reach_the_steps() {
    let mut agent = MemAgent::new(vec![(b"/out/7".to_vec(), b"ok".to_vec(), 0)]);
    let mut host = MemHost::new();
    let task = bench_harness::engine::Task {
        name: b"t".to_vec(),
        instance: b"i".to_vec(),
        vars: vec![(b"OUT".to_vec(), b"/out/{WORKER_ID}".to_vec())],
        steps: vec![DynamicTask::CopyFile {
            src: b"{OUT}".to_vec(),
            dst: b"/host/w".to_vec(),
            append: false,
        }],
    };
    assert!(task.run(7, &mut agent, &mut host).is_ok());
    assert_eq!(host.file(b"/host/w").unwrap(), &b"ok".to_vec());
}

#[test]
fn estimate_counts_runs_sleeps_and_nested_lists() {
    let step = DynamicTask::TaskList {
        tasks: vec![
            DynamicTask::Run {
                command: b"x".to_vec(),
                stdout: None,
                stderr: None,
                duration_ms: Some(3_600_000),
            },
            DynamicTask::Sleep { time_ms: 400 },
            DynamicTask::TaskList {
                tasks: vec![DynamicTask::Sleep { time_ms: 100 }],
            },
            DynamicTask::Kill { signal: 9, tasks: Vec::new() },
        ],
    };
    assert_eq!(step.estimate_duration_ms(), 3_600_500);
}
