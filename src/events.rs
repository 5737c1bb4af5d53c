//! The event records that the kernel probes produce, and the names their
//! small enumerations carry.

use vstd::prelude::*;
use vstd::string::*;
use crate::targets::{decimal, format_decimal};

verus! {

/// An outbound connection attempt.
pub struct ConnectionEvent {
    pub pid: u32,
    pub cgroup_id: u64,
    pub timestamp: u64,
    /// IPv4 address, network byte order.
    pub dest_addr: u32,
    /// Port, network byte order.
    pub dest_port: u16,
    pub address_family: u16,
}

/// A block I/O request issue.
pub struct BlockIoStart {
    pub pid: u32,
    pub dev: u32,
    pub sector: u64,
    pub nr_sector: u32,
    pub bytes: u32,
    pub rwbs: [u8; 8],
    pub comm: [u8; 16],
}

/// A block I/O request completion.
pub struct BlockIoDone {
    pub pid: u32,
    pub dev: u32,
    pub sector: u64,
    pub nr_sector: u32,
    pub bytes: u32,
    pub rwbs: [u8; 8],
    pub comm: [u8; 16],
}

/// Common header of syscall tracepoint records.
pub struct SyscallTraceHeader {
    pub common_type: u16,
    pub common_flags: u8,
    pub common_preempt_count: u8,
    pub common_pid: i32,
    pub syscall_nr: i32,
    pub pad: i32,
}

/// The `sys_enter_openat` tracepoint record.
pub struct SysEnterOpenat {
    pub header: SyscallTraceHeader,
    pub dfd: i64,
    pub filename: u64,
    pub flags: i64,
    pub mode: i64,
}

/// The `sys_exit_openat` tracepoint record.
pub struct SysExitOpenat {
    pub header: SyscallTraceHeader,
    pub ret: i64,
}

/// The `sys_enter_close` tracepoint record.
pub struct SysEnterClose {
    pub header: SyscallTraceHeader,
    pub fd: i64,
}

/// A DNS query and its latency.
pub struct DnsEvent {
    pub pid: u32,
    pub tid: u32,
    pub query_type: u16,
    pub latency_ns: u64,
    pub cgroup_id: u64,
    pub comm: [u8; 16],
    pub query_name: [u8; 256],
}

/// A TCP connect and its outcome.
pub struct TcpConnectEvent {
    pub pid: u32,
    pub tid: u32,
    pub saddr: u32,
    pub daddr: u32,
    pub sport: u16,
    pub dport: u16,
    pub latency_ns: u64,
    pub ret_code: i32,
    pub cgroup_id: u64,
    pub comm: [u8; 16],
}

/// A TCP retransmission.
pub struct TcpRetransEvent {
    pub pid: u32,
    pub saddr: u32,
    pub daddr: u32,
    pub sport: u16,
    pub dport: u16,
    pub state: u8,
    pub retrans_count: u32,
    pub cgroup_id: u64,
    pub comm: [u8; 16],
}

/// Why a task was off the CPU, as the kernel probe classifies it.
#[derive(Clone, Copy, Debug, PartialEq, Eq, Structural)]
pub enum OffCpuReason {
    Unknown,
    Sleeping,
    DiskIO,
    NetworkIO,
    Lock,
    PageFault,
    Preempted,
}

impl OffCpuReason {
    /// Decode the kernel's reason byte; unknown values are `Unknown`.
    pub fn from_raw(v: u8) -> (r: OffCpuReason)
        ensures
            r == (if v == 1 {
                OffCpuReason::Sleeping
            } else if v == 2 {
                OffCpuReason::DiskIO
            } else if v == 3 {
                OffCpuReason::NetworkIO
            } else if v == 4 {
                OffCpuReason::Lock
            } else if v == 5 {
                OffCpuReason::PageFault
            } else if v == 6 {
                OffCpuReason::Preempted
            } else {
                OffCpuReason::Unknown
            }),
    {
        match v {
            1 => OffCpuReason::Sleeping,
            2 => OffCpuReason::DiskIO,
            3 => OffCpuReason::NetworkIO,
            4 => OffCpuReason::Lock,
            5 => OffCpuReason::PageFault,
            6 => OffCpuReason::Preempted,
            _ => OffCpuReason::Unknown,
        }
    }
}

/// The metric label of an off-CPU reason.
pub fn reason_name(reason: OffCpuReason) -> (r: &'static str)
    ensures
        r@ == match reason {
            OffCpuReason::Unknown => "unknown"@,
            OffCpuReason::Sleeping => "sleeping"@,
            OffCpuReason::DiskIO => "disk_io"@,
            OffCpuReason::NetworkIO => "network_io"@,
            OffCpuReason::Lock => "lock"@,
            OffCpuReason::PageFault => "page_fault"@,
            OffCpuReason::Preempted => "preempted"@,
        },
{
    match reason {
        OffCpuReason::Unknown => "unknown",
        OffCpuReason::Sleeping => "sleeping",
        OffCpuReason::DiskIO => "disk_io",
        OffCpuReason::NetworkIO => "network_io",
        OffCpuReason::Lock => "lock",
        OffCpuReason::PageFault => "page_fault",
        OffCpuReason::Preempted => "preempted",
    }
}

/// A task's time off the CPU.
pub struct OffCpuEvent {
    pub pid: u32,
    pub tid: u32,
    pub cpu: u32,
    pub reason: u8,
    pub duration_ns: u64,
    pub waker_pid: u32,
    pub cgroup_id: u64,
    pub comm: [u8; 16],
    pub waker_comm: [u8; 16],
}

/// A task's wait in the run queue.
pub struct RunqueueEvent {
    pub pid: u32,
    pub tid: u32,
    pub cpu: u32,
    pub latency_ns: u64,
    pub cgroup_id: u64,
    pub comm: [u8; 16],
}

/// The metric label of a DNS query type.
pub fn dns_type_name(qtype: u16) -> (r: &'static str)
    ensures
        r@ == (if qtype == 1 {
            "A"@
        } else if qtype == 28 {
            "AAAA"@
        } else if qtype == 5 {
            "CNAME"@
        } else if qtype == 15 {
            "MX"@
        } else if qtype == 2 {
            "NS"@
        } else if qtype == 12 {
            "PTR"@
        } else if qtype == 6 {
            "SOA"@
        } else if qtype == 16 {
            "TXT"@
        } else if qtype == 33 {
            "SRV"@
        } else {
            "OTHER"@
        }),
{
    match qtype {
        1 => "A",
        28 => "AAAA",
        5 => "CNAME",
        15 => "MX",
        2 => "NS",
        12 => "PTR",
        6 => "SOA",
        16 => "TXT",
        33 => "SRV",
        _ => "OTHER",
    }
}

/// The metric label of a TCP state.
pub fn tcp_state_name(state: u8) -> (r: &'static str)
    ensures
        r@ == (if state == 1 {
            "ESTABLISHED"@
        } else if state == 2 {
            "SYN_SENT"@
        } else if state == 3 {
            "SYN_RECV"@
        } else if state == 4 {
            "FIN_WAIT1"@
        } else if state == 5 {
            "FIN_WAIT2"@
        } else if state == 6 {
            "TIME_WAIT"@
        } else if state == 7 {
            "CLOSE"@
        } else if state == 8 {
            "CLOSE_WAIT"@
        } else if state == 9 {
            "LAST_ACK"@
        } else if state == 10 {
            "LISTEN"@
        } else if state == 11 {
            "CLOSING"@
        } else {
            "UNKNOWN"@
        }),
{
    match state {
        1 => "ESTABLISHED",
        2 => "SYN_SENT",
        3 => "SYN_RECV",
        4 => "FIN_WAIT1",
        5 => "FIN_WAIT2",
        6 => "TIME_WAIT",
        7 => "CLOSE",
        8 => "CLOSE_WAIT",
        9 => "LAST_ACK",
        10 => "LISTEN",
        11 => "CLOSING",
        _ => "UNKNOWN",
    }
}

/// The dotted-quad text of an IPv4 address held in a `u32` whose
/// big-endian bytes are the address.
pub open spec fn ipv4_text(addr: u32) -> Seq<char> {
    decimal((addr / 0x100_0000) as nat) + "."@ + decimal((addr / 0x1_0000 % 256) as nat) + "."@
        + decimal((addr / 0x100 % 256) as nat) + "."@ + decimal((addr % 256) as nat)
}

/// The dotted-quad text of an IPv4 address.
pub fn format_ipv4(addr: u32) -> (r: String)
    ensures
        r@ == ipv4_text(addr),
{
    let mut s = format_decimal(addr / 0x100_0000);
    s.append(".");
    s.append(format_decimal(addr / 0x1_0000 % 256).as_str());
    s.append(".");
    s.append(format_decimal(addr / 0x100 % 256).as_str());
    s.append(".");
    s.append(format_decimal(addr % 256).as_str());
    s
}

/// The vendor of a GPU device path.
pub fn get_gpu_type(filename: &str) -> (r: &'static str)
    ensures
        r@ == (if crate::text::has_prefix(filename@, "/dev/nvidia"@) {
            "NVIDIA"@
        } else if crate::text::has_prefix(filename@, "/dev/dri/"@) {
            "DRI"@
        } else {
            "Unknown"@
        }),
{
    if crate::text::starts_with_str(filename, "/dev/nvidia") {
        "NVIDIA"
    } else if crate::text::starts_with_str(filename, "/dev/dri/") {
        "DRI"
    } else {
        "Unknown"
    }
}

/// The NCCL operations that the probes distinguish.
#[derive(Clone, Copy, Debug, PartialEq, Eq, Structural)]
pub enum NcclOpType {
    AllReduce,
    Broadcast,
    AllGather,
    ReduceScatter,
    AllToAll,
    Send,
    Recv,
    GroupStart,
    GroupEnd,
    CommInitRank,
    GetVersion,
    Unknown,
}

impl NcclOpType {
    /// Decode the kernel's operation byte, numbered in the order of the
    /// variants; unknown values are `Unknown`.
    pub fn from_raw(op: u8) -> (r: NcclOpType)
        ensures
            r == (if op == 0 { NcclOpType::AllReduce } else if op == 1 { NcclOpType::Broadcast }
            else if op == 2 { NcclOpType::AllGather } else if op == 3 { NcclOpType::ReduceScatter }
            else if op == 4 { NcclOpType::AllToAll } else if op == 5 { NcclOpType::Send }
            else if op == 6 { NcclOpType::Recv } else if op == 7 { NcclOpType::GroupStart }
            else if op == 8 { NcclOpType::GroupEnd } else if op == 9 { NcclOpType::CommInitRank }
            else if op == 10 { NcclOpType::GetVersion } else { NcclOpType::Unknown }),
    {
        match op {
            0 => NcclOpType::AllReduce,
            1 => NcclOpType::Broadcast,
            2 => NcclOpType::AllGather,
            3 => NcclOpType::ReduceScatter,
            4 => NcclOpType::AllToAll,
            5 => NcclOpType::Send,
            6 => NcclOpType::Recv,
            7 => NcclOpType::GroupStart,
            8 => NcclOpType::GroupEnd,
            9 => NcclOpType::CommInitRank,
            10 => NcclOpType::GetVersion,
            _ => NcclOpType::Unknown,
        }
    }
}

/// The metric label of an NCCL operation: its name.
pub fn op_type_name(op: NcclOpType) -> (r: &'static str)
    ensures
        r@ == match op {
            NcclOpType::AllReduce => "AllReduce"@,
            NcclOpType::Broadcast => "Broadcast"@,
            NcclOpType::AllGather => "AllGather"@,
            NcclOpType::ReduceScatter => "ReduceScatter"@,
            NcclOpType::AllToAll => "AllToAll"@,
            NcclOpType::Send => "Send"@,
            NcclOpType::Recv => "Recv"@,
            NcclOpType::GroupStart => "GroupStart"@,
            NcclOpType::GroupEnd => "GroupEnd"@,
            NcclOpType::CommInitRank => "CommInitRank"@,
            NcclOpType::GetVersion => "GetVersion"@,
            NcclOpType::Unknown => "Unknown"@,
        },
{
    match op {
        NcclOpType::AllReduce => "AllReduce",
        NcclOpType::Broadcast => "Broadcast",
        NcclOpType::AllGather => "AllGather",
        NcclOpType::ReduceScatter => "ReduceScatter",
        NcclOpType::AllToAll => "AllToAll",
        NcclOpType::Send => "Send",
        NcclOpType::Recv => "Recv",
        NcclOpType::GroupStart => "GroupStart",
        NcclOpType::GroupEnd => "GroupEnd",
        NcclOpType::CommInitRank => "CommInitRank",
        NcclOpType::GetVersion => "GetVersion",
        NcclOpType::Unknown => "Unknown",
    }
}

} // verus!
