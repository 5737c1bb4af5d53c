//! The built-in probes as configured values, and the tracepoints they need.

use vstd::prelude::*;
use vstd::string::*;
use crate::settings::{BuiltinProbes, Settings, DEFAULT_THRESHOLD_MS};
use crate::identity::str_views;

verus! {

/// A tracepoint program and the event it attaches to.
pub struct TracepointConfig {
    pub program_name: String,
    pub category: String,
    pub name: String,
}

impl TracepointConfig {
    /// A tracepoint attachment.
    pub fn new(program_name: &str, category: &str, name: &str) -> (r: TracepointConfig)
        ensures
            r.program_name@ == program_name@,
            r.category@ == category@,
            r.name@ == name@,
    {
        TracepointConfig {
            program_name: String::from_str(program_name),
            category: String::from_str(category),
            name: String::from_str(name),
        }
    }
}

/// Connection latency from `connect` syscalls.
pub struct NetworkLatencyProbe;

/// DNS query latency.
pub struct DnsProbe;

/// TCP connect outcomes and latency.
pub struct TcpConnectProbe;

/// TCP retransmissions.
pub struct TcpRetransProbe;

/// GPU device opens and closes.
pub struct GpuUsageProbe;

/// NCCL collective and point-to-point calls.
pub struct NcclCommProbe;

/// TLS traffic of LLM clients, re-attached on every exec batch.
pub struct LlmProbe;

/// Run-queue waits longer than a threshold.
pub struct RunqueueLatencyProbe {
    pub threshold_ns: u64,
}

/// Off-CPU spans longer than a threshold.
pub struct OffCpuProbe {
    pub threshold_ns: u64,
    pub capture_stack: bool,
}

impl RunqueueLatencyProbe {
    /// A probe with a threshold in milliseconds.
    pub fn new(threshold_ms: u32) -> (r: RunqueueLatencyProbe)
        ensures
            r.threshold_ns == threshold_ms as nat * 1_000_000,
    {
        RunqueueLatencyProbe { threshold_ns: (threshold_ms as u64) * 1_000_000 }
    }
}

impl Default for RunqueueLatencyProbe {
    fn default() -> (r: RunqueueLatencyProbe)
        ensures
            r.threshold_ns == DEFAULT_THRESHOLD_MS as nat * 1_000_000,
    {
        RunqueueLatencyProbe { threshold_ns: (DEFAULT_THRESHOLD_MS as u64) * 1_000_000 }
    }
}

impl OffCpuProbe {
    /// A probe with a threshold in milliseconds.
    pub fn new(threshold_ms: u32, capture_stack: bool) -> (r: OffCpuProbe)
        ensures
            r.threshold_ns == threshold_ms as nat * 1_000_000,
            r.capture_stack == capture_stack,
    {
        OffCpuProbe { threshold_ns: (threshold_ms as u64) * 1_000_000, capture_stack }
    }
}

/// Off-CPU threshold used when none is configured, in nanoseconds.
pub const DEFAULT_OFFCPU_THRESHOLD_NS: u64 = 1_000_000;

impl Default for OffCpuProbe {
    fn default() -> (r: OffCpuProbe)
        ensures
            r.threshold_ns == DEFAULT_OFFCPU_THRESHOLD_NS,
            !r.capture_stack,
    {
        OffCpuProbe { threshold_ns: DEFAULT_OFFCPU_THRESHOLD_NS, capture_stack: false }
    }
}

/// A built-in probe to attach, with its parameters.
pub enum PlannedProbe {
    TcpConnect,
    TcpRetrans,
    Dns,
    VfsLatency { threshold_ns: u64 },
    FileAccess { watched_paths: Vec<String> },
    Runqueue { threshold_ns: u64 },
    OffCpu { threshold_ns: u64 },
    Llm,
}

/// A configured threshold in nanoseconds, or the default.
pub open spec fn threshold_or(ms: Option<u32>, default_ns: u64) -> u64 {
    match ms {
        Some(m) => (m as nat * 1_000_000) as u64,
        None => default_ns,
    }
}

fn threshold_or_exec(ms: Option<u32>, default_ns: u64) -> (r: u64)
    ensures
        r == threshold_or(ms, default_ns),
{
    match ms {
        Some(m) => (m as u64) * 1_000_000,
        None => default_ns,
    }
}

/// The kind of a planned probe, with its numeric parameter (0 where it has none).
pub open spec fn plan_kind(p: PlannedProbe) -> (int, u64) {
    match p {
        PlannedProbe::TcpConnect => (0, 0),
        PlannedProbe::TcpRetrans => (1, 0),
        PlannedProbe::Dns => (2, 0),
        PlannedProbe::VfsLatency { threshold_ns } => (3, threshold_ns),
        PlannedProbe::FileAccess { .. } => (4, 0),
        PlannedProbe::Runqueue { threshold_ns } => (5, threshold_ns),
        PlannedProbe::OffCpu { threshold_ns } => (6, threshold_ns),
        PlannedProbe::Llm => (7, 0),
    }
}

/// The probes that the configuration enables, in attach order, with their
/// thresholds.
pub open spec fn probe_plan_spec(b: BuiltinProbes) -> Seq<(int, u64)> {
    let s0: Seq<(int, u64)> = Seq::empty();
    let s1 = if b.network.tcp_connect == Some(true) { s0.push((0, 0)) } else { s0 };
    let s2 = if b.network.tcp_retrans == Some(true) { s1.push((1, 0)) } else { s1 };
    let s3 = if b.network.dns == Some(true) { s2.push((2, 0)) } else { s2 };
    let s4 = if b.filesystem.vfs_latency == Some(true) {
        s3.push((3, threshold_or(b.filesystem.vfs_latency_threshold_ms, 10_000_000)))
    } else {
        s3
    };
    let s5 = if b.filesystem.file_access == Some(true) { s4.push((4, 0)) } else { s4 };
    let s6 = if b.scheduler.runqueue == Some(true) {
        s5.push((5, threshold_or(b.scheduler.runqueue_threshold_ms, 10_000_000)))
    } else {
        s5
    };
    let s7 = if b.scheduler.offcpu == Some(true) {
        s6.push((6, threshold_or(b.scheduler.offcpu_threshold_ms, DEFAULT_OFFCPU_THRESHOLD_NS)))
    } else {
        s6
    };
    if b.llm == Some(true) { s7.push((7, 0)) } else { s7 }
}

fn copy_strings(v: &Vec<String>) -> (r: Vec<String>)
    ensures
        str_views(r@) == str_views(v@),
{
    let mut out: Vec<String> = Vec::new();
    let mut i: usize = 0;
    while i < v.len()
        invariant
            i <= v@.len(),
            str_views(out@) == str_views(v@).take(i as int),
        decreases v@.len() - i,
    {
        let ghost before = str_views(out@);
        let c = v[i].clone();
        assert(c@ == v@[i as int]@);
        out.push(c);
        assert(str_views(out@) =~= before.push(c@));
        assert(str_views(v@).take(i + 1) =~= str_views(v@).take(i as int).push(v@[i as int]@));
        i += 1;
    }
    assert(str_views(v@).take(i as int) =~= str_views(v@));
    out
}

fn push_probe(out: &mut Vec<PlannedProbe>, p: PlannedProbe)
    ensures
        final(out)@ == old(out)@.push(p),
        final(out)@.map_values(|q: PlannedProbe| plan_kind(q)) == old(out)@.map_values(|q: PlannedProbe| plan_kind(q)).push(plan_kind(p)),
{
    let ghost before = out@.map_values(|q: PlannedProbe| plan_kind(q));
    out.push(p);
    assert(out@.map_values(|q: PlannedProbe| plan_kind(q)) =~= before.push(plan_kind(p)));
}

/// The built-in probes that the configuration enables, in the order they
/// are attached: a switch that is unset counts as off.
pub fn probe_plan(settings: &Settings) -> (r: Vec<PlannedProbe>)
    ensures
        r@.map_values(|q: PlannedProbe| plan_kind(q)) == probe_plan_spec(settings.builtin_probes),
        forall|i: int| 0 <= i < r@.len() ==> match #[trigger] r@[i] {
            PlannedProbe::FileAccess { watched_paths } => str_views(watched_paths@) == match settings.builtin_probes.filesystem.watched_paths {
                Some(ps) => str_views(ps@),
                None => Seq::empty(),
            },
            _ => true,
        },
{
    let b = &settings.builtin_probes;
    let mut out: Vec<PlannedProbe> = Vec::new();
    assert(out@.map_values(|q: PlannedProbe| plan_kind(q)) =~= Seq::<(int, u64)>::empty());
    if b.network.tcp_connect == Some(true) {
        push_probe(&mut out, PlannedProbe::TcpConnect);
    }
    if b.network.tcp_retrans == Some(true) {
        push_probe(&mut out, PlannedProbe::TcpRetrans);
    }
    if b.network.dns == Some(true) {
        push_probe(&mut out, PlannedProbe::Dns);
    }
    if b.filesystem.vfs_latency == Some(true) {
        push_probe(&mut out, PlannedProbe::VfsLatency {
            threshold_ns: threshold_or_exec(b.filesystem.vfs_latency_threshold_ms, 10_000_000),
        });
    }
    if b.filesystem.file_access == Some(true) {
        let watched_paths = match &b.filesystem.watched_paths {
            Some(ps) => copy_strings(ps),
            None => {
                let v: Vec<String> = Vec::new();
                assert(str_views(v@) =~= Seq::<Seq<char>>::empty());
                v
            },
        };
        push_probe(&mut out, PlannedProbe::FileAccess { watched_paths });
    }
    if b.scheduler.runqueue == Some(true) {
        push_probe(&mut out, PlannedProbe::Runqueue {
            threshold_ns: threshold_or_exec(b.scheduler.runqueue_threshold_ms, 10_000_000),
        });
    }
    if b.scheduler.offcpu == Some(true) {
        push_probe(&mut out, PlannedProbe::OffCpu {
            threshold_ns: threshold_or_exec(b.scheduler.offcpu_threshold_ms, DEFAULT_OFFCPU_THRESHOLD_NS),
        });
    }
    if b.llm == Some(true) {
        push_probe(&mut out, PlannedProbe::Llm);
    }
    out
}

/// The NCCL calls that are probed: (symbol, entry program, exit program).
pub open spec fn nccl_probe_plan_spec() -> Seq<(Seq<char>, Seq<char>, Seq<char>)> {
    seq![
        ("ncclAllReduce"@, "nccl_allreduce_enter"@, "nccl_allreduce_exit"@),
        ("ncclBroadcast"@, "nccl_broadcast_enter"@, "nccl_broadcast_exit"@),
        ("ncclAllGather"@, "nccl_allgather_enter"@, "nccl_allgather_exit"@),
        ("ncclReduceScatter"@, "nccl_reducescatter_enter"@, "nccl_reducescatter_exit"@),
        ("ncclSend"@, "nccl_send_enter"@, "nccl_send_exit"@),
        ("ncclRecv"@, "nccl_recv_enter"@, "nccl_recv_exit"@),
        ("ncclGroupStart"@, "nccl_group_start_enter"@, "nccl_group_start_exit"@),
        ("ncclGroupEnd"@, "nccl_group_end_enter"@, "nccl_group_end_exit"@),
        ("ncclGetVersion"@, "nccl_get_version_enter"@, "nccl_get_version_exit"@),
    ]
}

fn nccl_entry(sym: &str, enter: &str, exit: &str) -> (r: (String, String, String))
    ensures
        r.0@ == sym@,
        r.1@ == enter@,
        r.2@ == exit@,
{
    (String::from_str(sym), String::from_str(enter), String::from_str(exit))
}

/// The NCCL calls that are probed, with their entry and exit programs.
pub fn nccl_probe_plan() -> (r: Vec<(String, String, String)>)
    ensures
        r@.map_values(|e: (String, String, String)| (e.0@, e.1@, e.2@)) == nccl_probe_plan_spec(),
{
    let mut v: Vec<(String, String, String)> = Vec::new();
    v.push(nccl_entry("ncclAllReduce", "nccl_allreduce_enter", "nccl_allreduce_exit"));
    v.push(nccl_entry("ncclBroadcast", "nccl_broadcast_enter", "nccl_broadcast_exit"));
    v.push(nccl_entry("ncclAllGather", "nccl_allgather_enter", "nccl_allgather_exit"));
    v.push(nccl_entry("ncclReduceScatter", "nccl_reducescatter_enter", "nccl_reducescatter_exit"));
    v.push(nccl_entry("ncclSend", "nccl_send_enter", "nccl_send_exit"));
    v.push(nccl_entry("ncclRecv", "nccl_recv_enter", "nccl_recv_exit"));
    v.push(nccl_entry("ncclGroupStart", "nccl_group_start_enter", "nccl_group_start_exit"));
    v.push(nccl_entry("ncclGroupEnd", "nccl_group_end_enter", "nccl_group_end_exit"));
    v.push(nccl_entry("ncclGetVersion", "nccl_get_version_enter", "nccl_get_version_exit"));
    assert(v@.map_values(|e: (String, String, String)| (e.0@, e.1@, e.2@)) =~= nccl_probe_plan_spec());
    v
}

} // verus!
