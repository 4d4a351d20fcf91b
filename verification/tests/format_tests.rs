//! Format scenarios: command splitting, durations, AFL helpers, CSV
//! quoting, block maps, and benchmark tags.

use bench_harness::afl;
use bench_harness::blockmap;
use bench_harness::config::KeyValue;
use bench_harness::durations::{parse_duration_str, HumanReadableDuration};
use bench_harness::numfmt;
use bench_harness::plotcfg;
use bench_harness::protocol::{split_command, RunCommand};
use bench_harness::config::{build_instance, DriveSpec, Kernel, MachineConfig, MountKind};
use bench_harness::config::{drive_mount_plan, merge_unique, ConfigError, MountAction};
use bench_harness::config::{
    boot_source_json, drive_json, instance_start_json, machine_config_json, vsock_json, BootSource,
};
use bench_harness::sched::{expand_campaign, BenchGroup};
use bench_harness::json::encode;
use bench_harness::afl::tag_plot_data;

#[test]
fn split_command_peels_env_pairs() {
    let (vars, bin, args) = split_command(b"FOO=1 BAR=two ./fuzz -i in \"a b\"").unwrap();
    assert_eq!(vars, vec![(b"FOO".to_vec(), b"1".to_vec()), (b"BAR".to_vec(), b"two".to_vec())]);
    assert_eq!(bin, b"./fuzz".to_vec());
    assert_eq!(args, vec![b"-i".to_vec(), b"in".to_vec(), b"a b".to_vec()]);
    // An unterminated quote is erroneous input.
    assert!(split_command(b"prog \"unclosed").is_none());
    // A line of nothing but KEY=VALUE pairs has no program word.
    assert!(split_command(b"A=1 B=2").is_none());
}

#[test]
fn from_cmd_string_builds_a_command() {
    let cmd = RunCommand::from_cmd_string(b"K=V prog arg1").unwrap();
    assert_eq!(cmd.program, b"prog".to_vec());
    assert_eq!(cmd.args, vec![b"arg1".to_vec()]);
    assert_eq!(cmd.vars, vec![(b"K".to_vec(), b"V".to_vec())]);
}

#[test]
fn durations_parse_units_and_fractions() {
    assert_eq!(parse_duration_str(b"24h"), Some(86_400_000));
    assert_eq!(parse_duration_str(b"1.5hours"), Some(5_400_000));
    assert_eq!(parse_duration_str(b"0.5h"), Some(1_800_000));
    assert_eq!(parse_duration_str(b"90min"), Some(5_400_000));
    assert_eq!(parse_duration_str(b"30secs"), Some(30_000));
    assert_eq!(parse_duration_str(b"2m"), Some(120_000));
    assert_eq!(parse_duration_str(b"7"), None);
    assert_eq!(parse_duration_str(b"h"), None);
}

#[test]
fn human_readable_duration_renders_nonzero_parts() {
    assert_eq!(
        HumanReadableDuration::new(90061).render(),
        b"1 days 1 hours 1 mins 1 seconds".to_vec()
    );
    assert_eq!(HumanReadableDuration::new(3600).render(), b"1 hours ".to_vec());
    assert_eq!(HumanReadableDuration::new(0).render(), Vec::<u8>::new());
}

#[test]
fn relative_time_prefers_the_tagged_name() {
    assert_eq!(afl::get_relative_time(b"id:000001,time1234,sig:06", 900, 400), 1234);
    assert_eq!(afl::get_relative_time(b"id:000001,time:1234,sig:06", 900, 400), 1234);
    // Without a tag the file's age relative to the directory is used,
    // clamped at zero.
    assert_eq!(afl::get_relative_time(b"plain-name", 900, 400), 500);
    assert_eq!(afl::get_relative_time(b"plain-name", 300, 400), 0);
}

#[test]
fn input_id_is_read_from_the_name() {
    assert_eq!(afl::get_input_id(b"id:000042,time9,x"), Some(42));
    assert_eq!(afl::get_input_id(b"noid"), None);
}

#[test]
fn csv_fields_are_quoted_when_needed() {
    let rows = vec![vec![b"plain".to_vec(), b"with,comma".to_vec(), b"say \"hi\"".to_vec()]];
    let out = afl::append_csv_bytes(true, b"a,b,c", &rows);
    assert_eq!(out, b"a,b,c\nplain,\"with,comma\",\"say \"\"hi\"\"\"\n".to_vec());
    let appended = afl::append_csv_bytes(false, b"a,b,c", &rows);
    assert!(!appended.starts_with(b"a,b,c"));
}

#[test]
fn lines_fields_and_trim_behave() {
    let lines = afl::split_lines(b"a\nb\n\nc");
    assert_eq!(lines, vec![b"a".to_vec(), b"b".to_vec(), b"".to_vec(), b"c".to_vec()]);
    let fields = afl::split_fields(b"a,,b");
    assert_eq!(fields, vec![b"a".to_vec(), b"".to_vec(), b"b".to_vec()]);
    assert_eq!(afl::trim_bytes(b"  x y\t"), b"x y".to_vec());
    assert_eq!(afl::base_name(b"/a/b/c.txt"), b"c.txt".to_vec());
    assert_eq!(afl::base_name(b"plain"), b"plain".to_vec());
}

#[test]
fn key_value_parses_and_trims() {
    let kv = KeyValue::from_str(b" KEY = some value ").unwrap();
    assert_eq!(kv.key, b"KEY".to_vec());
    assert_eq!(kv.value, b"some value".to_vec());
    assert!(KeyValue::from_str(b"no equals").is_none());
}

#[test]
fn decimal_render_and_parse_round_trip() {
    assert_eq!(numfmt::to_decimal(0), b"0".to_vec());
    assert_eq!(numfmt::to_decimal(90061), b"90061".to_vec());
    assert_eq!(numfmt::parse_u64(b"90061"), Some(90061));
    assert_eq!(numfmt::parse_u64(b"18446744073709551615"), Some(u64::MAX));
    assert_eq!(numfmt::parse_u64(b"18446744073709551616"), None);
    assert_eq!(numfmt::parse_u64(b"12x"), None);
    assert_eq!(numfmt::parse_u64(b""), None);
}

#[test]
fn block_map_lookups_follow_the_text() {
    let text = b"# comment\n1000 10ff 1100\n1100 11ff\n2000 20ff\n";
    let map = blockmap::parse_block_map(text).unwrap();
    assert_eq!(map.block_count(), 3);
    let containing = map.get_containing_block(0x1050).unwrap();
    assert_eq!(containing.start, 0x1000);
    assert_eq!(containing.end, 0x10ff);
    assert_eq!(containing.fallthrough, Some(0x1100));
    assert!(map.is_valid_block(0x1100));
    assert!(!map.is_valid_block(0x1101));
    assert!(map.get_containing_block(0x1fff).is_none());
    let chain = map.get_reachable_blocks(0x1000, 16);
    assert_eq!(chain.len(), 2);
    assert_eq!(chain[1].start, 0x1100);
}

#[test]
fn block_map_relocation_shifts_every_address() {
    let text = b"1000 10ff\n2000 20ff\n";
    let map = blockmap::parse_block_map(text).unwrap();
    let moved = map.relocate(0x10000);
    assert_eq!(moved.blocks()[0].start, 0x11000);
    assert_eq!(moved.blocks()[1].end, 0x120ff);
    assert!(moved.get_containing_block(0x1050).is_none());
    assert!(moved.get_containing_block(0x11050).is_some());
}

#[test]
fn functions_are_found_by_address_and_name() {
    let mut map = blockmap::BlockMap::new();
    map.functions.push(blockmap::Function::with_name(0x400, b"main".to_vec()));
    map.functions.push(blockmap::Function::with_name(0x800, b"helper".to_vec()));
    assert_eq!(map.get_function(0x800).unwrap().name, b"helper".to_vec());
    assert!(map.get_function(0x801).is_none());
    assert_eq!(map.find_function_by_name(b"main").unwrap().addr, 0x400);
    assert!(map.find_function_by_name(b"absent").is_none());
}

#[test]
fn block_names_use_function_and_offset() {
    let text = b"1000 10ff\n1100 11ff\n";
    let mut map = blockmap::parse_block_map(text).unwrap();
    map.functions.push(blockmap::Function::with_name(0x1000, b"main".to_vec()));
    map.blocks[0].function = Some(0x1000);
    map.blocks[1].function = Some(0x1000);
    assert_eq!(map.get_block_name(0x1000), b"main".to_vec());
    assert_eq!(map.get_block_name(0x1100), b"main+0x100".to_vec());
    assert_eq!(map.get_block_name(0x5000), b"0x5000".to_vec());
}

#[test]
fn edge_kinds_classify_calls_and_conditionals() {
    assert!(blockmap::EdgeKind::UnconditionalCall.is_call());
    assert!(blockmap::EdgeKind::ComputedCallTerminator.is_call());
    assert!(!blockmap::EdgeKind::FallThrough.is_call());
    assert!(blockmap::EdgeKind::ConditionalJump.is_conditional());
    assert!(blockmap::EdgeKind::ComputedJump.is_conditional());
    assert!(!blockmap::EdgeKind::UnconditionalJump.is_conditional());
}

#[test]
fn hex_parsing_accepts_both_cases() {
    assert_eq!(blockmap::parse_hex_u64(b"10ff"), Some(0x10ff));
    assert_eq!(blockmap::parse_hex_u64(b"DEADbeef"), Some(0xdead_beef));
    assert_eq!(blockmap::parse_hex_u64(b"xyz"), None);
    assert_eq!(blockmap::parse_hex_u64(b""), None);
}

#[test]
fn bench_tags_read_both_path_layouts() {
    // Deepest component first: [trial, binary, group, fuzzer, bench].
    let comps: Vec<Vec<u8>> = vec![
        b"3".to_vec(),
        b"zlib".to_vec(),
        b"g1".to_vec(),
        b"afl".to_vec(),
        b"bench1".to_vec(),
    ];
    assert_eq!(
        plotcfg::bench_tags_from_hail_fuzz_path(&comps, false),
        b"v1;bench=bench1;fuzzer=afl;binary=zlib;trial=3".to_vec()
    );
    let legacy: Vec<Vec<u8>> =
        vec![b"0".to_vec(), b"afl-zlib".to_vec(), b"bench1".to_vec()];
    assert_eq!(
        plotcfg::bench_tags_from_hail_fuzz_path(&legacy, true),
        b"v1;bench=bench1;fuzzer=afl;binary=zlib;trial=0".to_vec()
    );
    let short: Vec<Vec<u8>> = vec![b"only".to_vec()];
    assert_eq!(
        plotcfg::bench_tags_from_hail_fuzz_path(&short, false),
        b"v1;bench=unknown;fuzzer=unknown;binary=unknown;trial=0".to_vec()
    );
}

#[test]
fn bench_tags_parse_back_to_pairs() {
    let pairs = plotcfg::parse_bench_tags(b"v1;bench=b;fuzzer=f;;binary=z;trial=0").unwrap();
    assert_eq!(
        pairs,
        vec![
            (b"bench".to_vec(), b"b".to_vec()),
            (b"fuzzer".to_vec(), b"f".to_vec()),
            (b"binary".to_vec(), b"z".to_vec()),
            (b"trial".to_vec(), b"0".to_vec()),
        ]
    );
    assert!(plotcfg::parse_bench_tags(b"v2;bench=b").is_none());
}

#[test]
fn plot_layout_formula() {
    let layout = plotcfg::PlotLayout {
        cell_size: plotcfg::Size { width: 160, height: 180 },
        max_columns: 5,
        min_size: plotcfg::Size { width: 800, height: 500 },
    };
    let (cols, size) = layout.get_layout(7);
    assert_eq!(cols, 5);
    assert_eq!(size.width, 855);
    assert_eq!(size.height, 500);
    let (one_col, small) = layout.get_layout(1);
    assert_eq!(one_col, 1);
    assert_eq!(small.width, 800);
    assert_eq!(small.height, 500);
}

#[test]
fn mount_arguments_render_for_docker() {
    let m = bench_harness::config::Mount {
        type_: bench_harness::config::MountType::Bind,
        source: b"/host/dir".to_vec(),
        destination: b"/var".to_vec(),
    };
    assert_eq!(m.to_arg(), b"type=bind,source=/host/dir,destination=/var".to_vec());
}

#[test]
fn build_instance_resolves_images_or_fails() {
    let instance = bench_harness::config::Instance {
        boot_delay_sec: 5,
        machine: MachineConfig { smt: false, mem_size_mib: 512, vcpu_count: 1 },
        rootfs: DriveSpec {
            name: b"root".to_vec(),
            image: b"base".to_vec(),
            mount_as: MountKind::ReadOnly,
        },
        drives: vec![DriveSpec {
            name: b"data".to_vec(),
            image: b"scratch".to_vec(),
            mount_as: MountKind::Duplicate,
        }],
        recreate_workdir: true,
    };
    let kernel = Kernel {
        url: None,
        sha256: None,
        path: None,
        boot_args: b"console=ttyS0".to_vec(),
        entropy: None,
    };
    let paths = vec![
        (b"base".to_vec(), b"/cache/base.ext4".to_vec()),
        (b"scratch".to_vec(), b"/cache/scratch.ext4".to_vec()),
    ];
    let vm = build_instance(b"/cache/firecracker", &instance, &kernel, b"/cache/vmlinux", &paths)
        .unwrap();
    assert_eq!(vm.rootfs.path, b"/cache/base.ext4".to_vec());
    assert_eq!(vm.drives.len(), 1);
    assert_eq!(vm.boot.boot_args, b"console=ttyS0".to_vec());
    let missing = build_instance(b"/f", &instance, &kernel, b"/k", &Vec::new());
    assert!(missing.is_err());
}

#[test]
fn drive_mount_plans_follow_the_mode() {
    assert!(matches!(
        drive_mount_plan(MountKind::ReadOnly, false),
        Ok(MountAction::UseSourceReadOnly)
    ));
    assert!(matches!(
        drive_mount_plan(MountKind::InPlace, true),
        Ok(MountAction::UseSourceWritable)
    ));
    assert!(matches!(
        drive_mount_plan(MountKind::Duplicate, false),
        Ok(MountAction::MakeCopyThenUse)
    ));
    assert!(matches!(drive_mount_plan(MountKind::Duplicate, true), Ok(MountAction::UseCopy)));
    assert!(matches!(
        drive_mount_plan(MountKind::ReuseDuplicate, true),
        Ok(MountAction::UseCopy)
    ));
    assert!(drive_mount_plan(MountKind::ReuseDuplicate, false).is_err());
}

#[test]
fn config_merge_refuses_redefinitions() {
    let dst = vec![(b"base".to_vec(), 1u32)];
    let src = vec![(b"extra".to_vec(), 2u32)];
    let merged = merge_unique(dst.clone(), src).unwrap();
    assert_eq!(merged.len(), 2);
    assert_eq!(merged[1].0, b"extra".to_vec());
    match merge_unique(dst, vec![(b"base".to_vec(), 3u32)]) {
        Err(ConfigError::Redefinition { key }) => assert_eq!(key, b"base".to_vec()),
        _ => panic!("a redefined key must be refused"),
    }
}

#[test]
fn campaign_expansion_orders_groups_and_trials() {
    let groups = vec![
        BenchGroup {
            template: b"afl".to_vec(),
            trials: vec![0, 1],
            config: vec![(b"binary".to_vec(), b"zlib".to_vec())],
        },
        BenchGroup { template: b"honggfuzz".to_vec(), trials: vec![5], config: Vec::new() },
    ];
    let requests = expand_campaign(&groups);
    assert_eq!(requests.len(), 3);
    assert_eq!(requests[0].template, b"afl".to_vec());
    assert_eq!(
        requests[0].config,
        vec![(b"binary".to_vec(), b"zlib".to_vec()), (b"trial".to_vec(), b"0".to_vec())]
    );
    assert_eq!(
        requests[1].config,
        vec![(b"binary".to_vec(), b"zlib".to_vec()), (b"trial".to_vec(), b"1".to_vec())]
    );
    assert_eq!(requests[2].template, b"honggfuzz".to_vec());
    assert_eq!(requests[2].config, vec![(b"trial".to_vec(), b"5".to_vec())]);
}

#[test]
fn vm_payloads_encode_canonically() {
    let boot = BootSource {
        kernel_image_path: b"/cache/vmlinux".to_vec(),
        boot_args: b"console=ttyS0".to_vec(),
    };
    assert_eq!(
        encode(&boot_source_json(&boot)),
        b"{\"kernel_image_path\":\"/cache/vmlinux\",\"boot_args\":\"console=ttyS0\"}".to_vec()
    );
    let machine = MachineConfig { smt: false, mem_size_mib: 512, vcpu_count: 1 };
    assert_eq!(
        encode(&machine_config_json(&machine)),
        b"{\"smt\":false,\"mem_size_mib\":512,\"vcpu_count\":1}".to_vec()
    );
    assert_eq!(
        encode(&drive_json(b"root", b"/cache/base.ext4", true, true)),
        b"{\"drive_id\":\"root\",\"path_on_host\":\"/cache/base.ext4\",\"is_root_device\":true,\"is_read_only\":true}"
            .to_vec()
    );
    assert_eq!(
        encode(&vsock_json(3, b"/tmp/vm.vsock")),
        b"{\"guest_cid\":3,\"uds_path\":\"/tmp/vm.vsock\"}".to_vec()
    );
    assert_eq!(
        encode(&instance_start_json()),
        b"{\"action_type\":\"InstanceStart\"}".to_vec()
    );
}

#[test]
fn plot_data_reshaping_tags_rows_and_caps_errors() {
    let good = b"# header comment\n1, 2, 3, 4, 5, 6, 7%, 8, 9, 10, 11.5, 12, 13\n";
    let rows = tag_plot_data(b"T", good).unwrap();
    assert_eq!(rows.len(), 1);
    assert_eq!(rows[0][0], b"T".to_vec());
    assert_eq!(rows[0][7], b"7%".to_vec());
    assert_eq!(rows[0][8], b"8".to_vec());
    let mut bad = Vec::new();
    for _ in 0..11 {
        bad.extend_from_slice(b"only,three,fields\n");
    }
    assert!(tag_plot_data(b"T", &bad).is_err());
    let mut tolerated = Vec::new();
    for _ in 0..10 {
        tolerated.extend_from_slice(b"only,three,fields\n");
    }
    assert_eq!(tag_plot_data(b"T", &tolerated).unwrap().len(), 0);
}
