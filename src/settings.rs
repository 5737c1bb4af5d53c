//! Typed configuration, and the flags block that the kernel programs read.

use vstd::prelude::*;
use vstd::utf8::encode_utf8;
use crate::fnv::{fnv1a, hashed_prefix, simple_hash};
use vstd::string::*;
use crate::text::{has_prefix, starts_with_str, str_eq, trim, trim_str, index_of, find_char, lemma_index_range};
use crate::targets::decimal;
use crate::identity::str_views;

verus! {

/// Reporting interval used when none is configured, in seconds.
pub const DEFAULT_PROBE_INTERVAL_SECONDS: u32 = 60;

/// Threshold used when none is configured, in milliseconds.
pub const DEFAULT_THRESHOLD_MS: u32 = 10;

/// Network probe switches.
pub struct NetworkProbes {
    pub tcp_connect: Option<bool>,
    pub tcp_retrans: Option<bool>,
    pub dns: Option<bool>,
}

/// Filesystem probe switches and parameters.
pub struct FilesystemProbes {
    pub vfs_latency: Option<bool>,
    pub vfs_latency_threshold_ms: Option<u32>,
    pub file_access: Option<bool>,
    pub watched_paths: Option<Vec<String>>,
}

/// Scheduler probe switches and parameters.
pub struct SchedulerProbes {
    pub runqueue: Option<bool>,
    pub runqueue_threshold_ms: Option<u32>,
    pub offcpu: Option<bool>,
    pub offcpu_threshold_ms: Option<u32>,
}

/// The built-in probes' configuration.
pub struct BuiltinProbes {
    pub network: NetworkProbes,
    pub filesystem: FilesystemProbes,
    pub scheduler: SchedulerProbes,
    pub llm: Option<bool>,
    pub interval: Option<u32>,
}

/// The agent's configuration.
pub struct Settings {
    pub otel_exporter_otlp_endpoint: Option<String>,
    pub otel_exporter_otlp_protocol: Option<String>,
    pub builtin_probes: BuiltinProbes,
    pub custom_probe_config: Option<String>,
}

/// The flags block shared with the kernel programs: 1 for an enabled
/// probe, 0 otherwise, and the reporting interval.
pub struct CommonConfig {
    pub probe_tcp_connect: u8,
    pub probe_tcp_retrans: u8,
    pub probe_dns: u8,
    pub probe_vfs_latency: u8,
    pub probe_file_access: u8,
    pub probe_runqueue: u8,
    pub probe_offcpu: u8,
    pub probe_llm: u8,
    pub probe_interval: u32,
}

/// 1 for a switch that is set to true, else 0.
pub open spec fn flag(o: Option<bool>) -> u8 {
    if o == Some(true) { 1 } else { 0 }
}

fn flag_exec(o: Option<bool>) -> (r: u8)
    ensures
        r == flag(o),
{
    match o {
        Some(true) => 1,
        _ => 0,
    }
}

impl Settings {
    /// The flags block for the kernel programs.
    pub fn to_common_config(&self) -> (r: CommonConfig)
        ensures
            r.probe_tcp_connect == flag(self.builtin_probes.network.tcp_connect),
            r.probe_tcp_retrans == flag(self.builtin_probes.network.tcp_retrans),
            r.probe_dns == flag(self.builtin_probes.network.dns),
            r.probe_vfs_latency == flag(self.builtin_probes.filesystem.vfs_latency),
            r.probe_file_access == flag(self.builtin_probes.filesystem.file_access),
            r.probe_runqueue == flag(self.builtin_probes.scheduler.runqueue),
            r.probe_offcpu == flag(self.builtin_probes.scheduler.offcpu),
            r.probe_llm == flag(self.builtin_probes.llm),
            r.probe_interval == match self.builtin_probes.interval {
                Some(i) => i,
                None => DEFAULT_PROBE_INTERVAL_SECONDS,
            },
    {
        let b = &self.builtin_probes;
        CommonConfig {
            probe_tcp_connect: flag_exec(b.network.tcp_connect),
            probe_tcp_retrans: flag_exec(b.network.tcp_retrans),
            probe_dns: flag_exec(b.network.dns),
            probe_vfs_latency: flag_exec(b.filesystem.vfs_latency),
            probe_file_access: flag_exec(b.filesystem.file_access),
            probe_runqueue: flag_exec(b.scheduler.runqueue),
            probe_offcpu: flag_exec(b.scheduler.offcpu),
            probe_llm: flag_exec(b.llm),
            probe_interval: match b.interval {
                Some(i) => i,
                None => DEFAULT_PROBE_INTERVAL_SECONDS,
            },
        }
    }
}

/// A threshold in milliseconds as nanoseconds, the unit of the kernel's
/// threshold maps.
pub fn threshold_ns(threshold_ms: Option<u32>) -> (r: u64)
    ensures
        r == match threshold_ms {
            Some(ms) => ms as nat * 1_000_000,
            None => DEFAULT_THRESHOLD_MS as nat * 1_000_000,
        },
{
    let ms: u32 = match threshold_ms {
        Some(ms) => ms,
        None => DEFAULT_THRESHOLD_MS,
    };
    (ms as u64) * 1_000_000
}

/// The VFS latency probe: emits operations slower than its threshold.
pub struct VfsLatencyProbe {
    pub threshold_ns: u64,
}

impl VfsLatencyProbe {
    /// A probe with a threshold in milliseconds.
    pub fn new(threshold_ms: u32) -> (r: VfsLatencyProbe)
        ensures
            r.threshold_ns == threshold_ms as nat * 1_000_000,
    {
        VfsLatencyProbe { threshold_ns: (threshold_ms as u64) * 1_000_000 }
    }
}

/// The file access probe: reports opens of watched paths.
pub struct FileAccessProbe {
    pub watched_paths: Vec<String>,
}

impl FileAccessProbe {
    /// A probe watching the given absolute paths.
    pub fn new(watched_paths: Vec<String>) -> (r: FileAccessProbe)
        ensures
            r.watched_paths == watched_paths,
    {
        FileAccessProbe { watched_paths }
    }

    /// The keys written to the watched-paths map: the FNV-1a hash of each
    /// watched path's bytes up to any NUL and at most 256 of them, in order.
    pub fn watched_hashes(&self) -> (r: Vec<u64>)
        ensures
            r@.len() == self.watched_paths@.len(),
            forall|i: int| 0 <= i < r@.len() ==> #[trigger] r@[i] == fnv1a(
                hashed_prefix(encode_utf8(self.watched_paths@[i]@)),
            ),
    {
        let mut out: Vec<u64> = Vec::new();
        let mut i: usize = 0;
        while i < self.watched_paths.len()
            invariant
                i <= self.watched_paths@.len(),
                out@.len() == i,
                forall|j: int| 0 <= j < i ==> #[trigger] out@[j] == fnv1a(
                    hashed_prefix(encode_utf8(self.watched_paths@[j]@)),
                ),
            decreases self.watched_paths@.len() - i,
        {
            let h = simple_hash(self.watched_paths[i].as_str().as_bytes());
            out.push(h);
            i += 1;
        }
        out
    }
}

/// The OTLP endpoint that a configured value names: none when unset or
/// empty; `http://` is put in front of a value without a scheme.
pub open spec fn otlp_endpoint(value: Option<Seq<char>>) -> Option<Seq<char>> {
    match value {
        None => None,
        Some(v) => if v.len() == 0 {
            None
        } else if has_prefix(v, "http://"@) || has_prefix(v, "https://"@) {
            Some(v)
        } else {
            Some("http://"@ + v)
        },
    }
}

/// The OTLP endpoint named by the value of `OTEL_EXPORTER_OTLP_ENDPOINT`.
pub fn get_otlp_endpoint(value: Option<&str>) -> (r: Option<String>)
    ensures
        match r {
            Some(e) => otlp_endpoint(match value { Some(v) => Some(v@), None => None }) == Some(e@),
            None => otlp_endpoint(match value { Some(v) => Some(v@), None => None }).is_none(),
        },
{
    match value {
        None => None,
        Some(v) => {
            if v.unicode_len() == 0 {
                None
            } else if starts_with_str(v, "http://") || starts_with_str(v, "https://") {
                Some(String::from_str(v))
            } else {
                let mut e = String::from_str("http://");
                e.append(v);
                Some(e)
            }
        },
    }
}

/// A switch value: `true` or `1` sets it, `false` or `0` clears it,
/// surrounding whitespace aside; anything else is not a switch value.
pub open spec fn bool_value(v: Seq<char>) -> Option<bool> {
    let t = trim(v);
    if t == "true"@ || t == "1"@ {
        Some(true)
    } else if t == "false"@ || t == "0"@ {
        Some(false)
    } else {
        None
    }
}

/// Read a switch value.
pub fn parse_bool_value(v: &str) -> (r: Option<bool>)
    ensures
        r == bool_value(v@),
{
    let t = trim_str(v);
    if str_eq(t, "true") || str_eq(t, "1") {
        Some(true)
    } else if str_eq(t, "false") || str_eq(t, "0") {
        Some(false)
    } else {
        None
    }
}

/// The number that a run of decimal digits spells.
pub open spec fn digits_number(s: Seq<char>) -> nat
    decreases s.len(),
{
    if s.len() == 0 {
        0
    } else {
        (digits_number(s.drop_last()) * 10 + ((s.last() as int) - ('0' as int))) as nat
    }
}

/// A count value: decimal digits, surrounding whitespace aside, that fit in a `u32`.
pub open spec fn u32_value(v: Seq<char>) -> Option<u32> {
    let t = trim(v);
    if t.len() > 0 && (forall|i: int| 0 <= i < t.len() ==> '0' <= #[trigger] t[i] && t[i] <= '9')
        && digits_number(t) <= u32::MAX {
        Some(digits_number(t) as u32)
    } else {
        None
    }
}

proof fn lemma_digits_prefix(s: Seq<char>, j: int)
    requires
        0 <= j <= s.len(),
        forall|i: int| 0 <= i < s.len() ==> '0' <= #[trigger] s[i] && s[i] <= '9',
    ensures
        digits_number(s.take(j)) <= digits_number(s),
    decreases s.len(),
{
    if j < s.len() {
        assert(s.drop_last().take(j) =~= s.take(j));
        lemma_digits_prefix(s.drop_last(), j);
    } else {
        assert(s.take(j) =~= s);
    }
}

/// Read a count value.
pub fn parse_u32_value(v: &str) -> (r: Option<u32>)
    ensures
        r == u32_value(v@),
{
    let t = trim_str(v);
    let n = t.unicode_len();
    if n == 0 {
        return None;
    }
    let mut acc: u64 = 0;
    let mut i: usize = 0;
    while i < n
        invariant
            n == t@.len(),
            t@ == trim(v@),
            n > 0,
            i <= n,
            acc == digits_number(t@.take(i as int)),
            acc <= u32::MAX,
            forall|j: int| 0 <= j < i ==> '0' <= #[trigger] t@[j] && t@[j] <= '9',
        decreases n - i,
    {
        let c = t.get_char(i);
        if !('0' <= c && c <= '9') {
            return None;
        }
        assert(t@.take(i + 1).drop_last() =~= t@.take(i as int));
        let d = (c as u32 - '0' as u32) as u64;
        acc = acc * 10 + d;
        i += 1;
        if acc > 0xffff_ffff {
            proof {
                if forall|j: int| 0 <= j < t@.len() ==> '0' <= #[trigger] t@[j] && t@[j] <= '9' {
                    lemma_digits_prefix(t@, i as int);
                }
            }
            return None;
        }
    }
    assert(t@.take(n as int) =~= t@);
    Some(acc as u32)
}

/// The items of a `,`-separated list value, trimmed, empty ones left out.
pub open spec fn list_items(v: Seq<char>) -> Seq<Seq<char>>
    decreases v.len(),
{
    match index_of(v, ',', 0) {
        Some(k) => if 0 <= k < v.len() {
            let item = trim(v.take(k));
            let rest = list_items(v.subrange(k + 1, v.len() as int));
            if item.len() == 0 { rest } else { seq![item] + rest }
        } else {
            Seq::empty()
        },
        None => if trim(v).len() == 0 { Seq::empty() } else { seq![trim(v)] },
    }
}

/// Read a `,`-separated list value.
pub fn parse_list_value(v: &str) -> (r: Vec<String>)
    ensures
        str_views(r@) == list_items(v@),
{
    let mut out: Vec<String> = Vec::new();
    let mut rest: &str = v;
    assert(str_views(out@) + list_items(v@) =~= list_items(v@));
    loop
        invariant
            str_views(out@) + list_items(rest@) == list_items(v@),
        decreases rest@.len(),
    {
        let n = rest.unicode_len();
        match find_char(rest, ',', 0) {
            Some(k) => {
                proof {
                    lemma_index_range(rest@, ',', 0);
                }
                let item = trim_str(rest.substring_char(0, k));
                let ghost before = str_views(out@);
                let ghost tail = list_items(rest@.subrange(k + 1, n as int));
                if item.unicode_len() > 0 {
                    out.push(String::from_str(item));
                    assert(str_views(out@) =~= before.push(item@));
                    assert(before + (seq![item@] + tail) =~= before.push(item@) + tail);
                }
                rest = rest.substring_char(k + 1, n);
            },
            None => {
                let item = trim_str(rest);
                let ghost before = str_views(out@);
                if item.unicode_len() > 0 {
                    out.push(String::from_str(item));
                    assert(str_views(out@) =~= before + seq![item@]);
                } else {
                    assert(before + Seq::<Seq<char>>::empty() =~= before);
                }
                return out;
            },
        }
    }
}

} // verus!
