use honeybeepf::events::{dns_type_name, format_ipv4, get_gpu_type, op_type_name, reason_name, tcp_state_name, NcclOpType, OffCpuReason};
use honeybeepf::gpu_device::{get_gpu_index, nccl_datatype_to_bytes, parse_number_at, starts_with};
use honeybeepf::lifecycle::{
    drainer_step, find_all_targets, find_targets_for_pids, record_active_probe, request_shutdown,
    shutdown_flag, ActiveProbes, DrainAction, ExecQueue, ProcessMaps, ShutdownState,
    MAX_EXEC_QUEUE_SIZE,
};
use honeybeepf::pending::Session;
use honeybeepf::targets::{resolve_host_path, select_libraries, ssl_probe_plan, KnownTargets, SSL_PATTERN};

#[test]
fn exec_driven_discovery_attaches_once() {
    let mut known = KnownTargets::new();
    let libs = vec!["/usr/lib/libssl.so.3".to_string(), "/usr/lib/libcrypto.so.3".to_string()];
    let plan = known.new_targets(&libs);
    assert_eq!(plan, vec!["/usr/lib/libssl.so.3".to_string()]);
    let probes = ssl_probe_plan();
    assert_eq!(probes.len() * plan.len(), 6);
    let symbols: Vec<&str> = probes.iter().map(|(_, s)| s.as_str()).collect();
    assert_eq!(symbols, vec!["SSL_read", "SSL_read", "SSL_write", "SSL_write", "SSL_do_handshake", "SSL_do_handshake"]);
    for p in &plan {
        known.record(p);
    }
    assert!(known.new_targets(&libs).is_empty());
    assert_eq!(known.len(), 1);
}

#[test]
fn failed_attach_is_retried() {
    let known = KnownTargets::new();
    let libs = vec!["/a/libssl.so.1".to_string(), "/a/libssl.so.1".to_string()];
    assert_eq!(known.new_targets(&libs).len(), 1);
    assert_eq!(known.new_targets(&libs).len(), 1);
}

#[test]
fn host_paths() {
    assert_eq!(resolve_host_path(42, "/usr/lib/libssl.so.3"), "/proc/42/root/usr/lib/libssl.so.3");
    assert_eq!(resolve_host_path(7, "/proc/self/exe"), "/proc/self/exe");
    assert_eq!(resolve_host_path(7, "/procfs/x"), "/proc/7/root/procfs/x");
    assert_eq!(resolve_host_path(0, "lib.so"), "/proc/0/root/lib.so");
}

#[test]
fn library_selection() {
    let mapped = vec![
        "/usr/lib/libssl.so.3".to_string(),
        "/usr/lib/libc.so.6".to_string(),
        "/usr/lib/libssl.so.3".to_string(),
        "/opt/libcrypto.so.1.1".to_string(),
    ];
    let libs = select_libraries(9, &mapped, SSL_PATTERN);
    assert_eq!(libs, vec!["/proc/9/root/usr/lib/libssl.so.3".to_string(), "/proc/9/root/opt/libcrypto.so.1.1".to_string()]);
    let procs = vec![
        ProcessMaps { pid: 9, mapped: mapped.clone() },
        ProcessMaps { pid: 9, mapped },
    ];
    assert_eq!(find_targets_for_pids(&procs).len(), 2);
    let sys = vec!["/lib/libssl.so.3".to_string()];
    assert_eq!(find_all_targets(&sys, &procs).len(), 3);
}

#[test]
fn pending_entries_cleared_on_exit() {
    let mut s = Session::new();
    s.start(7, 100, 0xdead, Some(0xbeef));
    s.start(8, 200, 0xf00d, None);
    assert_eq!(s.get_info(7), (100, 0xdead, Some(0xbeef)));
    // The exit probe takes the entry whether or not it then emits.
    assert_eq!(s.finish(7), (100, 0xdead, Some(0xbeef)));
    assert_eq!(s.get_info(7), (0, 0, None));
    assert_eq!(s.get_info(8), (200, 0xf00d, None));
    s.clear(8);
    assert_eq!(s.get_info(8), (0, 0, None));
}

#[test]
fn shutdown_runs_hook_once_and_stops_drainers() {
    let mut st = ShutdownState::new();
    assert!(!shutdown_flag(&st));
    assert_eq!(drainer_step(false, true), DrainAction::Continue);
    assert_eq!(drainer_step(false, false), DrainAction::Sleep);
    assert!(request_shutdown(&mut st));
    assert!(!request_shutdown(&mut st));
    assert!(shutdown_flag(&st));
    assert_eq!(drainer_step(true, true), DrainAction::Exit);
}

#[test]
fn exec_queue_is_bounded() {
    let mut q = ExecQueue::new();
    for pid in 0..MAX_EXEC_QUEUE_SIZE as u32 {
        assert!(q.push(pid));
    }
    assert!(!q.push(99_999));
    let pids = q.drain();
    assert_eq!(pids.len(), MAX_EXEC_QUEUE_SIZE);
    assert_eq!(pids[0], 0);
    assert!(q.drain().is_empty());
}

#[test]
fn active_probe_counts() {
    let mut t = ActiveProbes::new();
    record_active_probe(&mut t, "llm", 2);
    record_active_probe(&mut t, "dns", 1);
    record_active_probe(&mut t, "llm", 6);
    assert_eq!(t.get("llm"), Some(6));
    assert_eq!(t.get("gpu"), None);
    let snap = t.snapshot();
    assert_eq!(snap.len(), 2);
    assert!(snap.contains(&("llm".to_string(), 6)));
}

#[test]
fn gpu_device_indices() {
    assert_eq!(get_gpu_index(b"/dev/nvidia0"), 0);
    assert_eq!(get_gpu_index(b"/dev/nvidia12\0\0"), 12);
    assert_eq!(get_gpu_index(b"/dev/nvidiactl"), -1);
    assert_eq!(get_gpu_index(b"/dev/nvidia-uvm"), -1);
    assert_eq!(get_gpu_index(b"/dev/dri/renderD129"), 1);
    assert_eq!(get_gpu_index(b"/dev/dri/card2"), 2);
    assert_eq!(get_gpu_index(b"/dev/sda"), -1);
    assert!(starts_with(b"/dev/nvidia0", b"/dev/"));
    assert_eq!(parse_number_at(b"ab123c", 2), Some((123, 5)));
    assert_eq!(parse_number_at(b"ab", 2), None);
    assert_eq!(get_gpu_type("/dev/nvidia0"), "NVIDIA");
    assert_eq!(get_gpu_type("/dev/dri/card0"), "DRI");
    assert_eq!(get_gpu_type("/dev/null"), "Unknown");
}

#[test]
fn labels() {
    assert_eq!(nccl_datatype_to_bytes(6), 2);
    assert_eq!(nccl_datatype_to_bytes(8), 8);
    assert_eq!(nccl_datatype_to_bytes(77), 4);
    assert_eq!(format_ipv4(0x0A00_0001), "10.0.0.1");
    assert_eq!(format_ipv4(0xC0A8_01FF), "192.168.1.255");
    assert_eq!(dns_type_name(28), "AAAA");
    assert_eq!(dns_type_name(99), "OTHER");
    assert_eq!(tcp_state_name(1), "ESTABLISHED");
    assert_eq!(tcp_state_name(0), "UNKNOWN");
    assert_eq!(reason_name(OffCpuReason::from_raw(2)), "disk_io");
    assert_eq!(reason_name(OffCpuReason::from_raw(200)), "unknown");
    assert_eq!(op_type_name(NcclOpType::AllReduce), "AllReduce");
}

use honeybeepf::fs_labels::{categorize_file, categorize_lowercase, format_open_flags};

#[test]
fn open_flag_names() {
    assert_eq!(format_open_flags(0), "O_RDONLY");
    assert_eq!(format_open_flags(0o1101), "O_WRONLY|O_CREAT|O_TRUNC");
    assert_eq!(format_open_flags(0o2002), "O_RDWR|O_APPEND");
    assert_eq!(format_open_flags(3), "");
}

#[test]
fn file_categories() {
    assert_eq!(categorize_file("/models/Llama.SafeTensors"), "model");
    assert_eq!(categorize_file("/data/pytorch_model.BIN"), "model");
    assert_eq!(categorize_file("/data/x.bin"), "other");
    assert_eq!(categorize_file("/data/train.parquet"), "dataset");
    assert_eq!(categorize_lowercase("/runs/ckpt-100/state"), "checkpoint");
    assert_eq!(categorize_lowercase("/etc/hosts"), "other");
}

use honeybeepf::pending::{timed_exit, PendingMap, MAX_PENDING_ENTRIES};

#[test]
fn timed_exit_always_cleans_up() {
    let mut m = PendingMap::new();
    assert!(m.insert(5, 1_000));
    assert!(m.insert(6, 2_000));
    // Below the threshold: nothing reported, entry still removed.
    assert_eq!(timed_exit(&mut m, 5, 1_500, 10_000), None);
    assert_eq!(m.get(5), None);
    assert_eq!(timed_exit(&mut m, 6, 20_000, 10_000), Some(18_000));
    assert_eq!(m.get(6), None);
    assert_eq!(timed_exit(&mut m, 7, 20_000, 0), None);
}

#[test]
fn pending_map_is_bounded() {
    let mut m = PendingMap::new();
    for t in 0..MAX_PENDING_ENTRIES as u32 {
        assert!(m.insert(t, 1));
    }
    assert!(!m.insert(u32::MAX, 1));
    assert!(m.insert(0, 9));
    assert_eq!(m.take(0), Some(9));
    assert_eq!(m.get(0), None);
}

#[test]
fn session_start_records_each_field() {
    let mut s = Session::new();
    s.start(3, 10, 20, None);
    assert_eq!(s.get_info(3), (10, 20, None));
    s.start(3, 11, 21, Some(31));
    assert_eq!(s.get_info(3), (11, 21, Some(31)));
    assert_eq!(s.get_info(4), (0, 0, None));
}

#[test]
fn snapshot_lists_every_probe_once() {
    let mut t = ActiveProbes::new();
    record_active_probe(&mut t, "a", 1);
    record_active_probe(&mut t, "b", 2);
    record_active_probe(&mut t, "a", 3);
    record_active_probe(&mut t, "c", 4);
    let mut snap = t.snapshot();
    snap.sort();
    assert_eq!(snap, vec![("a".to_string(), 3), ("b".to_string(), 2), ("c".to_string(), 4)]);
}

#[test]
fn nccl_op_bytes() {
    assert_eq!(NcclOpType::from_raw(0), NcclOpType::AllReduce);
    assert_eq!(NcclOpType::from_raw(10), NcclOpType::GetVersion);
    assert_eq!(NcclOpType::from_raw(11), NcclOpType::Unknown);
}

#[test]
fn partial_attach_is_not_retried() {
    let mut known = KnownTargets::new();
    let path = "/usr/lib/libssl.so.3".to_string();
    known.record_attempt(&path, &vec![false; 6]);
    assert_eq!(known.new_targets(&vec![path.clone()]).len(), 1);
    known.record_attempt(&path, &vec![true, false, false, false, false, false]);
    assert!(known.new_targets(&vec![path]).is_empty());
}
