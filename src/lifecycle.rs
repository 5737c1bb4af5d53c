//! Decisions of the probe lifecycle: shutdown, ring-buffer drainers, the
//! exec-pid queue, the active-probes table and target discovery.

use vstd::prelude::*;
use vstd::string::*;
use crate::identity::{contains_string, str_views};
use crate::targets::{SSL_PATTERN, select_libraries, selected_libs};

verus! {

/// Milliseconds a drainer sleeps when its ring buffer is empty.
pub const POLL_INTERVAL_MS: u64 = 10;

/// Pending exec pids kept at most; later ones are dropped.
pub const MAX_EXEC_QUEUE_SIZE: usize = 1024;

/// Process-wide shutdown: whether it was requested, and whether the
/// metrics shutdown hook has run.
pub struct ShutdownState {
    requested: bool,
    hook_ran: bool,
}

impl ShutdownState {
    /// Whether shutdown was requested.
    pub closed spec fn is_requested(&self) -> bool {
        self.requested
    }

    /// Whether the metrics hook has run.
    pub closed spec fn hook_has_run(&self) -> bool {
        self.hook_ran
    }

    /// Nothing requested yet.
    pub fn new() -> (r: ShutdownState)
        ensures
            !r.is_requested(),
            !r.hook_has_run(),
    {
        ShutdownState { requested: false, hook_ran: false }
    }
}

/// Whether shutdown was requested.
pub fn shutdown_flag(state: &ShutdownState) -> (r: bool)
    ensures
        r == state.is_requested(),
{
    state.requested
}

/// One shutdown request, from whether the hook has run: afterwards it has,
/// and the request runs it when it had not.
pub open spec fn shutdown_step(hook_ran: bool) -> (bool, bool) {
    (true, !hook_ran)
}

/// Request shutdown. The result says whether the caller must now run the
/// metrics shutdown hook: true on the first request only.
pub fn request_shutdown(state: &mut ShutdownState) -> (run_hook: bool)
    ensures
        final(state).is_requested(),
        (final(state).hook_has_run(), run_hook) == shutdown_step(old(state).hook_has_run()),
{
    let first = !state.hook_ran;
    state.requested = true;
    state.hook_ran = true;
    first
}

/// What a ring-buffer drainer does next.
#[derive(Clone, Copy, Debug, PartialEq, Eq, Structural)]
pub enum DrainAction {
    /// Stop the worker.
    Exit,
    /// Drain again at once.
    Continue,
    /// Sleep one poll interval, then drain again.
    Sleep,
}

/// A drainer's decision after a pass: exit once shutdown is requested;
/// otherwise drain again, after a poll interval when the pass found nothing.
pub open spec fn drainer_action_spec(shutdown: bool, had_work: bool) -> DrainAction {
    if shutdown {
        DrainAction::Exit
    } else if had_work {
        DrainAction::Continue
    } else {
        DrainAction::Sleep
    }
}

/// A drainer's decision after a pass.
pub fn drainer_step(shutdown: bool, had_work: bool) -> (r: DrainAction)
    ensures
        r == drainer_action_spec(shutdown, had_work),
{
    if shutdown {
        DrainAction::Exit
    } else if had_work {
        DrainAction::Continue
    } else {
        DrainAction::Sleep
    }
}

/// How many of `n` successive shutdown requests run the hook, starting
/// from whether it has run.
pub open spec fn hook_runs(hook_ran: bool, n: nat) -> nat
    decreases n,
{
    if n == 0 {
        0
    } else {
        (if shutdown_step(hook_ran).1 { 1nat } else { 0nat }) + hook_runs(shutdown_step(hook_ran).0, (n - 1) as nat)
    }
}

/// Shutdown drains: once the flag is set, every drainer's next decision is
/// to exit, so it sleeps at most one poll interval more; and however many
/// times shutdown is requested, the metrics hook runs exactly once.
pub proof fn lemma_shutdown_drains(requests: nat)
    requires
        requests >= 1,
    ensures
        forall|w: bool| #[trigger] drainer_action_spec(true, w) == DrainAction::Exit,
        hook_runs(false, requests) == 1,
{
    lemma_hook_runs_after((requests - 1) as nat);
}

/// Once the hook has run, no request runs it again.
proof fn lemma_hook_runs_after(n: nat)
    ensures
        hook_runs(true, n) == 0,
    decreases n,
{
    if n > 0 {
        lemma_hook_runs_after((n - 1) as nat);
    }
}

/// The pids of exec events waiting for the discovery task.
pub struct ExecQueue {
    pids: Vec<u32>,
}

impl ExecQueue {
    /// The waiting pids, oldest first.
    pub closed spec fn view(&self) -> Seq<u32> {
        self.pids@
    }

    /// An empty queue.
    pub fn new() -> (r: ExecQueue)
        ensures
            r.view().len() == 0,
    {
        ExecQueue { pids: Vec::new() }
    }

    /// Enqueue a pid; a full queue drops it. The result says whether it was kept.
    pub fn push(&mut self, pid: u32) -> (r: bool)
        requires
            old(self).view().len() <= MAX_EXEC_QUEUE_SIZE,
        ensures
            final(self).view().len() <= MAX_EXEC_QUEUE_SIZE,
            r == (old(self).view().len() < MAX_EXEC_QUEUE_SIZE),
            r ==> final(self).view() == old(self).view().push(pid),
            !r ==> final(self).view() == old(self).view(),
    {
        if self.pids.len() < MAX_EXEC_QUEUE_SIZE {
            self.pids.push(pid);
            true
        } else {
            false
        }
    }

    /// Take all waiting pids, oldest first, leaving the queue empty.
    pub fn drain(&mut self) -> (r: Vec<u32>)
        ensures
            r@ == old(self).view(),
            final(self).view().len() == 0,
    {
        let mut out: Vec<u32> = Vec::new();
        std::mem::swap(&mut out, &mut self.pids);
        out
    }
}

/// The active-probes table that the "active probes" gauge reads.
pub struct ActiveProbes {
    entries: Vec<(String, u64)>,
}

/// The count recorded for a probe name, the last recorded first.
pub open spec fn probe_count(s: Seq<(Seq<char>, u64)>, name: Seq<char>) -> Option<u64>
    decreases s.len(),
{
    if s.len() == 0 {
        None
    } else if s.last().0 == name {
        Some(s.last().1)
    } else {
        probe_count(s.drop_last(), name)
    }
}

impl ActiveProbes {
    /// The recorded (name, count) pairs, in order of recording.
    pub closed spec fn view(&self) -> Seq<(Seq<char>, u64)> {
        self.entries@.map_values(|e: (String, u64)| (e.0@, e.1))
    }

    /// An empty table.
    pub fn new() -> (r: ActiveProbes)
        ensures
            forall|n: Seq<char>| #[trigger] probe_count(r.view(), n).is_none(),
    {
        let r = ActiveProbes { entries: Vec::new() };
        assert(r.view() =~= Seq::<(Seq<char>, u64)>::empty());
        r
    }

    /// The count recorded for a probe.
    pub fn get(&self, name: &str) -> (r: Option<u64>)
        ensures
            r == probe_count(self.view(), name@),
    {
        let mut i: usize = self.entries.len();
        assert(self.view().take(i as int) =~= self.view());
        while i > 0
            invariant
                i <= self.entries@.len(),
                self.view().len() == self.entries@.len(),
                probe_count(self.view(), name@) == probe_count(self.view().take(i as int), name@),
            decreases i,
        {
            assert(self.view().take(i as int).last() == (self.entries@[i - 1].0@, self.entries@[i - 1].1));
            assert(self.view().take(i as int).drop_last() =~= self.view().take(i - 1));
            if crate::text::str_eq(self.entries[i - 1].0.as_str(), name) {
                return Some(self.entries[i - 1].1);
            }
            i -= 1;
        }
        None
    }

    /// The (name, count) pairs for the gauge: every recorded name once,
    /// with its latest count.
    pub fn snapshot(&self) -> (r: Vec<(String, u64)>)
        ensures
            forall|i: int| 0 <= i < r@.len() ==> probe_count(self.view(), #[trigger] r@[i].0@) == Some(r@[i].1),
            forall|a: int, b: int| 0 <= a < r@.len() && 0 <= b < r@.len() && a != b ==> r@[a].0@ != r@[b].0@,
            forall|n: Seq<char>| #[trigger] probe_count(self.view(), n).is_some() ==> exists|i: int|
                0 <= i < r@.len() && r@[i].0@ == n,
    {
        let mut out: Vec<(String, u64)> = Vec::new();
        let mut i: usize = 0;
        while i < self.entries.len()
            invariant
                i <= self.entries@.len(),
                self.view().len() == self.entries@.len(),
                forall|j: int| 0 <= j < out@.len() ==> probe_count(self.view(), #[trigger] out@[j].0@) == Some(out@[j].1),
                forall|a: int, b: int| 0 <= a < out@.len() && 0 <= b < out@.len() && a != b ==> out@[a].0@ != out@[b].0@,
                forall|k: int| 0 <= k < i ==> exists|j: int| 0 <= j < out@.len() && out@[j].0@ == #[trigger] self.view()[k].0,
            decreases self.entries@.len() - i,
        {
            let name = self.entries[i].0.as_str();
            assert(self.view()[i as int].0 == name@);
            let mut seen = false;
            let mut j: usize = 0;
            while j < out.len()
                invariant
                    j <= out@.len(),
                    seen == exists|q: int| 0 <= q < j && out@[q].0@ == name@,
                decreases out@.len() - j,
            {
                if crate::text::str_eq(out[j].0.as_str(), name) {
                    seen = true;
                }
                j += 1;
            }
            if !seen {
                proof {
                    lemma_probe_count_some(self.view(), name@, i as int);
                }
                match self.get(name) {
                    Some(c) => {
                        let ghost before = out@;
                        out.push((self.entries[i].0.clone(), c));
                        assert forall|k: int| 0 <= k <= i implies exists|q: int| 0 <= q < out@.len() && out@[q].0@ == #[trigger] self.view()[k].0 by {
                            if k < i {
                                let q = choose|q: int| 0 <= q < before.len() && before[q].0@ == self.view()[k].0;
                                assert(out@[q] == before[q]);
                            } else {
                                assert(out@[before.len() as int].0@ == name@);
                            }
                        }
                        assert forall|x: int, y: int| 0 <= x < out@.len() && 0 <= y < out@.len() && x != y implies out@[x].0@ != out@[y].0@ by {
                            if x < before.len() && y < before.len() {
                                assert(out@[x] == before[x] && out@[y] == before[y]);
                            } else if x < before.len() {
                                assert(out@[x] == before[x]);
                            } else {
                                assert(out@[y] == before[y]);
                            }
                        }
                        assert forall|q: int| 0 <= q < out@.len() implies probe_count(self.view(), #[trigger] out@[q].0@) == Some(out@[q].1) by {
                            if q < before.len() {
                                assert(out@[q] == before[q]);
                            }
                        }
                    },
                    None => {},
                }
            }
            i += 1;
        }
        proof {
            assert forall|n: Seq<char>| #[trigger] probe_count(self.view(), n).is_some() implies exists|q: int|
                0 <= q < out@.len() && out@[q].0@ == n by {
                let k = lemma_probe_count_witness(self.view(), n);
                assert(self.view()[k].0 == n);
            }
        }
        out
    }
}

/// A name has a count exactly when some recorded pair carries it.
pub proof fn lemma_probe_count_some(s: Seq<(Seq<char>, u64)>, n: Seq<char>, k: int)
    requires
        0 <= k < s.len(),
        s[k].0 == n,
    ensures
        probe_count(s, n).is_some(),
    decreases s.len(),
{
    if s.last().0 != n {
        assert(s.drop_last()[k] == s[k]);
        lemma_probe_count_some(s.drop_last(), n, k);
    }
}

/// A name with a count is carried by some recorded pair.
pub proof fn lemma_probe_count_witness(s: Seq<(Seq<char>, u64)>, n: Seq<char>) -> (k: int)
    requires
        probe_count(s, n).is_some(),
    ensures
        0 <= k < s.len(),
        s[k].0 == n,
    decreases s.len(),
{
    if s.last().0 == n {
        s.len() - 1
    } else {
        let k = lemma_probe_count_witness(s.drop_last(), n);
        assert(s.drop_last()[k] == s[k]);
        k
    }
}

/// Record the number of attachments of a probe for the gauge.
pub fn record_active_probe(table: &mut ActiveProbes, probe_name: &str, count: u64)
    ensures
        probe_count(final(table).view(), probe_name@) == Some(count),
        forall|n: Seq<char>| n != probe_name@ ==> #[trigger] probe_count(final(table).view(), n)
            == probe_count(old(table).view(), n),
{
    let ghost before = table.view();
    table.entries.push((String::from_str(probe_name), count));
    assert(table.view() =~= before.push((probe_name@, count)));
    assert(table.view().drop_last() =~= before);
}

/// A process's mapped file paths, as read from its memory map.
pub struct ProcessMaps {
    pub pid: u32,
    pub mapped: Vec<String>,
}

/// `acc` followed by the items of `add` that it does not hold yet, in order.
pub open spec fn merged(acc: Seq<Seq<char>>, add: Seq<Seq<char>>) -> Seq<Seq<char>>
    decreases add.len(),
{
    if add.len() == 0 {
        acc
    } else {
        let prev = merged(acc, add.drop_last());
        if prev.contains(add.last()) {
            prev
        } else {
            prev.push(add.last())
        }
    }
}

/// The TLS library candidates of one process.
pub open spec fn proc_libs(p: ProcessMaps) -> Seq<Seq<char>> {
    selected_libs(p.pid as nat, str_views(p.mapped@), SSL_PATTERN@)
}

/// The TLS library candidates of the first `k` processes, each path once.
pub open spec fn targets_of(procs: Seq<ProcessMaps>, k: int) -> Seq<Seq<char>>
    decreases k,
{
    if k <= 0 || k > procs.len() {
        Seq::empty()
    } else {
        merged(targets_of(procs, k - 1), proc_libs(procs[k - 1]))
    }
}

fn merge_into(out: &mut Vec<String>, add: &Vec<String>)
    ensures
        str_views(final(out)@) == merged(str_views(old(out)@), str_views(add@)),
{
    let mut m: usize = 0;
    assert(str_views(add@).take(0) =~= Seq::<Seq<char>>::empty());
    while m < add.len()
        invariant
            m <= add@.len(),
            str_views(out@) == merged(str_views(old(out)@), str_views(add@).take(m as int)),
        decreases add@.len() - m,
    {
        let ghost before = str_views(out@);
        assert(str_views(add@).take(m + 1).drop_last() =~= str_views(add@).take(m as int));
        assert(str_views(add@).take(m + 1).last() == add@[m as int]@);
        if !contains_string(out, &add[m]) {
            out.push(add[m].clone());
            assert(str_views(out@) =~= before.push(add@[m as int]@));
        }
        m += 1;
    }
    assert(str_views(add@).take(m as int) =~= str_views(add@));
}

/// The TLS library candidates of a set of processes: for each, the host
/// paths of its mapped libraries whose file name matches the TLS pattern;
/// each path once. Whether each exists on the host is for the caller to
/// check.
pub fn find_targets_for_pids(procs: &Vec<ProcessMaps>) -> (r: Vec<String>)
    ensures
        str_views(r@) == targets_of(procs@, procs@.len() as int),
{
    let mut out: Vec<String> = Vec::new();
    let mut k: usize = 0;
    assert(str_views(out@) =~= Seq::<Seq<char>>::empty());
    while k < procs.len()
        invariant
            k <= procs@.len(),
            str_views(out@) == targets_of(procs@, k as int),
        decreases procs@.len() - k,
    {
        let libs = select_libraries(procs[k].pid, &procs[k].mapped, SSL_PATTERN);
        merge_into(&mut out, &libs);
        k += 1;
    }
    out
}

/// The TLS library candidates of the whole host at startup: the system
/// libraries that the dynamic-linker cache reports, then those of every
/// process, each path once.
pub fn find_all_targets(system_libs: &Vec<String>, procs: &Vec<ProcessMaps>) -> (r: Vec<String>)
    ensures
        str_views(r@) == merged(merged(Seq::empty(), str_views(system_libs@)), targets_of(procs@, procs@.len() as int)),
{
    let mut out: Vec<String> = Vec::new();
    assert(str_views(out@) =~= Seq::<Seq<char>>::empty());
    merge_into(&mut out, system_libs);
    let scanned = find_targets_for_pids(procs);
    merge_into(&mut out, &scanned);
    out
}

} // verus!
