//! Unit scenarios: variable expansion, the wire session, the agent table,
//! JSON, the estimator, and the image cache.

use bench_harness::agent::{
    supervise_outcome, AgentState, DummyAgent, Request, RequestAction, RespValue, Response,
    StatsdData,
};
use bench_harness::protocol::ExitKind;
use bench_harness::client::{classify_reply, frame_line, take_line, ReplyCheck, RpcAgent};
use bench_harness::image;
use bench_harness::json::{encode, merge_json_bytes, parse_json, Json};
use bench_harness::sched;
use bench_harness::vars::Variables;

#[test]
fn expand_substitutes_known_and_keeps_unknown() {
    let mut v = Variables::new();
    v.insert(b"A".to_vec(), b"1".to_vec());
    assert_eq!(v.expand_vars(b"x{A}y{Z}"), b"x1y{Z}".to_vec());
}

#[test]
fn expand_is_idempotent_once_settled() {
    let mut v = Variables::new();
    v.insert(b"A".to_vec(), b"alpha".to_vec());
    v.insert(b"B".to_vec(), b"{A}-beta".to_vec());
    let once = v.expand_vars(b"{B}/{MISSING}/end");
    let twice = v.expand_vars(&once);
    assert_eq!(once, twice);
    assert_eq!(once, b"alpha-beta/{MISSING}/end".to_vec());
}

#[test]
fn insert_resolves_against_earlier_variables() {
    let mut v = Variables::new();
    v.insert(b"K".to_vec(), b"one".to_vec());
    v.insert(b"L".to_vec(), b"{K}-two".to_vec());
    v.insert(b"K".to_vec(), b"rebound-{L}".to_vec());
    assert_eq!(v.get(b"L").unwrap(), &b"one-two".to_vec());
    assert_eq!(v.get(b"K").unwrap(), &b"rebound-one-two".to_vec());
    let keys: Vec<Vec<u8>> = v.entries().iter().map(|(k, _)| k.clone()).collect();
    assert_eq!(keys, vec![b"K".to_vec(), b"L".to_vec()]);
}

#[test]
fn stale_reply_is_discarded_and_matching_accepted() {
    let mut session = RpcAgent::new();
    for _ in 0..6 {
        session.begin_request();
    }
    let id7 = session.begin_request();
    assert_eq!(id7, 7);
    // The read for id 7 timed out; the client moved on to request 8.
    let id8 = session.begin_request();
    assert_eq!(id8, 8);
    // The late reply for 7 arrives first: discard; then 8: accept.
    assert_eq!(session.check_reply(7), ReplyCheck::Stale);
    assert_eq!(session.check_reply(8), ReplyCheck::Accept);
    assert_eq!(session.check_reply(9), ReplyCheck::Fatal);
    assert_eq!(classify_reply(3, 2), ReplyCheck::Stale);
}

#[test]
fn framing_round_trips_one_line() {
    let framed = frame_line(b"{\"id\":1}");
    assert_eq!(framed, b"{\"id\":1}\n".to_vec());
    let mut buf = framed.clone();
    buf.extend_from_slice(b"partial");
    let (line, rest) = take_line(&buf).unwrap();
    assert_eq!(line, b"{\"id\":1}".to_vec());
    assert_eq!(rest, b"partial".to_vec());
    assert!(take_line(b"no newline yet").is_none());
}

#[test]
fn wire_envelope_round_trips() {
    let body = Json::Obj(vec![(b"wait_pid".to_vec(), Json::Num(b"3".to_vec()))]);
    let line = bench_harness::client::encode_envelope(7, body);
    assert_eq!(line, b"{\"id\":7,\"body\":{\"wait_pid\":3}}\n".to_vec());
    let (payload, rest) = take_line(&line).unwrap();
    assert!(rest.is_empty());
    let (id, decoded) = bench_harness::client::decode_envelope(&payload).unwrap();
    assert_eq!(id, 7);
    assert_eq!(encode(&decoded), b"{\"wait_pid\":3}".to_vec());
    assert!(bench_harness::client::decode_envelope(b"{\"id\":1}").is_none());
    assert!(bench_harness::client::decode_envelope(b"[]").is_none());
}

#[test]
fn vsock_handshake_line_and_reply() {
    assert_eq!(bench_harness::client::handshake_request(52), b"CONNECT 52\n".to_vec());
    assert!(bench_harness::client::handshake_reply_ok(b"OK 1073741824\n"));
    assert!(bench_harness::client::handshake_reply_ok(b"OK"));
    assert!(!bench_harness::client::handshake_reply_ok(b"O"));
    assert!(!bench_harness::client::handshake_reply_ok(b"NO"));
    assert!(!bench_harness::client::handshake_reply_ok(b""));
}

#[test]
fn subprocess_table_is_empty_after_connection_ends() {
    let mut state = AgentState::new();
    state.handle_spawned(41);
    state.handle_spawned(42);
    state.handle_spawned(43);
    state.handle_waited(42, Some(0));
    let (to_kill, _) = state.end_connection();
    assert_eq!(to_kill, vec![41, 43]);
    assert_eq!(state.pids.len(), 0);
}

#[test]
fn kill_reports_whether_pid_was_known() {
    let mut state = AgentState::new();
    state.handle_spawned(10);
    match state.handle_killed(10) {
        Response::Value(RespValue::Known(known)) => assert!(known),
        _ => panic!("kill must report a known pid"),
    }
    match state.handle_killed(10) {
        Response::Value(RespValue::Known(known)) => assert!(!known),
        _ => panic!("kill must report an unknown pid"),
    }
}

#[test]
fn reaping_drops_only_the_dead() {
    let mut state = AgentState::new();
    state.handle_spawned(1);
    state.handle_spawned(2);
    state.handle_spawned(3);
    state.reap_dead(&vec![2]);
    assert_eq!(state.pids, vec![1, 3]);
}

#[test]
fn dispatcher_decides_wait_kill_and_status() {
    let mut state = AgentState::new();
    state.handle_spawned(7);
    assert!(matches!(state.request_action(Request::WaitPid(7)), RequestAction::Wait(7)));
    assert!(matches!(
        state.request_action(Request::WaitPid(8)),
        RequestAction::Reply(Response::Value(RespValue::ExitCode(None)))
    ));
    assert!(matches!(
        state.request_action(Request::KillProcess { pid: 7, signal: 9 }),
        RequestAction::Kill { pid: 7, signal: 9 }
    ));
    assert!(matches!(
        state.request_action(Request::KillProcess { pid: 8, signal: 9 }),
        RequestAction::Reply(Response::Value(RespValue::Known(false)))
    ));
    // The dispatcher itself never mutates the table.
    assert_eq!(state.pids, vec![7]);
    match state.request_action(Request::Bulk(vec![Request::GetStats, Request::WaitPid(7)])) {
        RequestAction::Bulk(reqs) => assert_eq!(reqs.len(), 2),
        _ => panic!("a bulk request must hand back its sub-requests"),
    }
}

#[test]
fn supervision_classifies_exits() {
    assert!(matches!(supervise_outcome(true, false, Some(0)), ExitKind::Hang));
    assert!(matches!(supervise_outcome(false, true, Some(0)), ExitKind::Success));
    assert!(matches!(supervise_outcome(false, false, Some(3)), ExitKind::Exit(3)));
    assert!(matches!(supervise_outcome(false, false, None), ExitKind::Crash));
}

#[test]
fn bulk_returns_one_response_per_subrequest() {
    let mut dummy = DummyAgent::new();
    let bulk = Request::Bulk(vec![
        Request::GetStats,
        Request::WaitPid(5),
        Request::Bulk(vec![Request::Reboot]),
    ]);
    match dummy.handle_request(&bulk) {
        Response::Value(RespValue::Many(rs)) => assert_eq!(rs.len(), 3),
        _ => panic!("bulk must yield a response list"),
    }
}

#[test]
fn read_file_clamps_to_remaining_length() {
    let content = b"0123456789";
    assert_eq!(bench_harness::agent::read_file_range(content, 10, None), Vec::<u8>::new());
    assert_eq!(bench_harness::agent::read_file_range(content, 12, Some(4)), Vec::<u8>::new());
    assert_eq!(bench_harness::agent::read_file_range(content, 7, Some(9)), b"789".to_vec());
    assert_eq!(bench_harness::agent::read_file_range(content, 2, Some(3)), b"234".to_vec());
    assert_eq!(bench_harness::agent::read_file_range(content, 0, None), content.to_vec());
}

#[test]
fn json_parse_then_encode_is_canonical() {
    let text = b" {\"id\": 7, \"body\": {\"wait_pid\": 3}, \"ok\": true} ";
    let v = parse_json(text).unwrap();
    assert_eq!(encode(&v), b"{\"id\":7,\"body\":{\"wait_pid\":3},\"ok\":true}".to_vec());
}

#[test]
fn json_encode_then_parse_preserves_value() {
    let v = Json::Obj(vec![
        (b"name".to_vec(), Json::Str(b"a\"b\\c\nd".to_vec())),
        (b"nums".to_vec(), Json::Arr(vec![Json::Num(b"1".to_vec()), Json::Num(b"-2.5e3".to_vec())])),
        (b"none".to_vec(), Json::Null),
        (b"flag".to_vec(), Json::Bool(false)),
    ]);
    let bytes = encode(&v);
    let back = parse_json(&bytes).unwrap();
    assert_eq!(encode(&back), bytes);
}

#[test]
fn json_parser_rejects_unicode_escapes_and_trailing_text() {
    assert!(parse_json(b"\"a\\u0041b\"").is_none());
    assert!(parse_json(b"{\"a\":1} x").is_none());
    assert!(parse_json(b"").is_none());
    assert!(parse_json(b"[1,]").is_none());
}

#[test]
fn merge_json_bytes_accumulates() {
    let first = merge_json_bytes(&None, b"A", b"{\"x\":1}").unwrap();
    assert_eq!(first, b"{\"A\":{\"x\":1}}".to_vec());
    let second = merge_json_bytes(&Some(first), b"B", b"{\"x\":2}").unwrap();
    assert_eq!(second, b"{\"A\":{\"x\":1},\"B\":{\"x\":2}}".to_vec());
    let replaced = merge_json_bytes(&Some(second.clone()), b"A", b"3").unwrap();
    assert_eq!(replaced, b"{\"A\":3,\"B\":{\"x\":2}}".to_vec());
    assert!(merge_json_bytes(&Some(b"not json".to_vec()), b"A", b"1").is_none());
}

#[test]
fn estimator_two_trials_one_worker() {
    let durations = vec![3_600_000u64, 3_600_000u64];
    assert_eq!(sched::estimate_total_duration_ms(&durations, 1), Ok(7_200_000));
}

#[test]
fn estimator_zero_workers_is_a_configuration_error() {
    assert_eq!(
        sched::estimate_total_duration_ms(&vec![1000], 0),
        Err(sched::ScheduleError::NoWorkers)
    );
}

#[test]
fn estimator_extra_workers_add_only_staggered_starts() {
    // Three workers, one trial: the answer is the busiest worker, and the
    // idle ones only contribute their 100 ms staggered start.
    assert_eq!(sched::estimate_total_duration_ms(&vec![1000], 3), Ok(1000));
    assert_eq!(sched::estimate_total_duration_ms(&Vec::new(), 3), Ok(200));
}

#[test]
fn pool_never_exceeds_worker_count() {
    let mut pool = sched::PoolModel::new(2);
    assert!(pool.try_dispatch());
    assert!(pool.try_dispatch());
    assert!(!pool.try_dispatch());
    pool.complete();
    assert!(pool.try_dispatch());
    assert_eq!(pool.in_flight, 2);
}

#[test]
fn cache_hit_scenario() {
    // source_mtime = 100, source_size = 1000, no explicit target.
    assert_eq!(image::target_image_size(0, 1000), Ok(2048));
    let absent =
        image::CacheProbe { cached_exists: false, cached_mtime_ms: 0, cached_size: 0 };
    assert_eq!(
        image::build_image_plan(0, 1000, &absent, 100, false, false),
        Ok(image::ImagePlan::Rebuild { size: 2048 })
    );
    let cached =
        image::CacheProbe { cached_exists: true, cached_mtime_ms: 150, cached_size: 2048 };
    assert_eq!(
        image::build_image_plan(0, 1000, &cached, 100, false, false),
        Ok(image::ImagePlan::Reuse)
    );
}

#[test]
fn too_small_target_is_rejected_before_any_work() {
    assert_eq!(
        image::target_image_size(500, 1000),
        Err(image::ImageError::TargetTooSmall { target: 500, measured: 1000 })
    );
    let cached =
        image::CacheProbe { cached_exists: true, cached_mtime_ms: 150, cached_size: 2048 };
    assert!(image::build_image_plan(500, 1000, &cached, 100, false, false).is_err());
}

#[test]
fn cache_decision_is_deterministic_and_sensitive_to_each_input() {
    let probe =
        image::CacheProbe { cached_exists: true, cached_mtime_ms: 100, cached_size: 2048 };
    let a = image::image_cache_decision(&probe, 100, 2048, false, false);
    let b = image::image_cache_decision(&probe, 100, 2048, false, false);
    assert_eq!(a, b);
    assert!(a);
    assert!(!image::image_cache_decision(&probe, 101, 2048, false, false));
    assert!(!image::image_cache_decision(&probe, 100, 4096, false, false));
    assert!(!image::image_cache_decision(&probe, 100, 2048, true, false));
    assert!(image::image_cache_decision(&probe, 101, 4096, false, true));
}

#[test]
fn sha256_digest_matches_known_vector() {
    assert!(image::verify_sha256(
        b"",
        b"e3b0c44298fc1c149afbf4c8996fb92427ae41e4649b934ca495991b7852b855"
    ));
    assert!(!image::verify_sha256(b"x", b"e3b0c44298fc1c149afbf4c8996fb92427ae41e4649b934ca495991b7852b855"));
}

#[test]
fn hex_renders_lower_case_pairs() {
    assert_eq!(image::hex_bytes(&[0xde, 0xad, 0x00, 0x0f]), b"dead000f".to_vec());
    assert_eq!(image::hex(&[0xde, 0xad]), "dead".to_string());
}

#[test]
fn statsd_ring_drains_in_arrival_order_and_wraps() {
    let mut ring = StatsdData::new(3);
    // A fresh ring drains its (empty) slots once: the overflow flag starts
    // set so preallocated buffers are flushed.
    let initial = ring.drain_all();
    assert_eq!(initial.len(), 3);
    ring.push(b"one");
    ring.push(b"two");
    let drained = ring.drain_all();
    assert_eq!(drained, vec![b"one".to_vec(), b"two".to_vec()]);
    ring.push(b"a");
    ring.push(b"b");
    ring.push(b"c");
    ring.push(b"d");
    let wrapped = ring.drain_all();
    // Four pushes into three slots: the oldest entry was overwritten and
    // the ring comes back oldest-first.
    assert_eq!(wrapped, vec![b"b".to_vec(), b"c".to_vec(), b"d".to_vec()]);
}

#[test]
fn zero_buffer_is_all_zeros() {
    let z = image::zero_buffer(2048);
    assert_eq!(z.len(), 2048);
    assert!(z.iter().all(|b| *b == 0));
    assert_eq!(image::image_file_name(b"rootfs"), b"rootfs.ext4".to_vec());
}
