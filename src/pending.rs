//! Pending-operation maps keyed by thread id, as the kernel probes keep
//! them between an entry probe and its exit probe, and the TLS session
//! record built on them.

use vstd::prelude::*;
use crate::assoc::{keys_unique, lemma_lookup_none, lemma_lookup_push, lemma_lookup_at, lemma_lookup_update, lookup};

verus! {

/// Entries a pending map holds at most.
pub const MAX_PENDING_ENTRIES: usize = 10240;

/// A bounded map from thread id to a pending value.
pub struct PendingMap {
    entries: Vec<(u32, u64)>,
}

impl PendingMap {
    /// The entries, by thread id.
    pub closed spec fn view(&self) -> Seq<(u32, u64)> {
        self.entries@
    }

    /// No thread id twice, and within capacity.
    pub open spec fn wf(&self) -> bool {
        keys_unique(self.view()) && self.view().len() <= MAX_PENDING_ENTRIES
    }

    /// An empty map.
    pub fn new() -> (r: PendingMap)
        ensures
            r.wf(),
            forall|t: u32| #[trigger] lookup(r.view(), t).is_none(),
    {
        let r = PendingMap { entries: Vec::new() };
        assert forall|t: u32| #[trigger] lookup(r.view(), t).is_none() by {
            lemma_lookup_none(r.view(), t);
        }
        r
    }

    fn find(&self, tid: u32) -> (r: Option<usize>)
        requires
            self.wf(),
        ensures
            match r {
                Some(i) => i < self.view().len() && self.view()[i as int].0 == tid,
                None => lookup(self.view(), tid).is_none(),
            },
    {
        let mut i: usize = 0;
        while i < self.entries.len()
            invariant
                i <= self.entries@.len(),
                forall|j: int| 0 <= j < i ==> self.entries@[j].0 != tid,
            decreases self.entries@.len() - i,
        {
            if self.entries[i].0 == tid {
                return Some(i);
            }
            i += 1;
        }
        proof {
            lemma_lookup_none(self.view(), tid);
        }
        None
    }

    /// The value pending for a thread.
    pub fn get(&self, tid: u32) -> (r: Option<u64>)
        requires
            self.wf(),
        ensures
            r == lookup(self.view(), tid),
    {
        match self.find(tid) {
            Some(i) => {
                proof {
                    lemma_lookup_at(self.view(), i as int);
                }
                Some(self.entries[i].1)
            },
            None => None,
        }
    }

    /// Record a value for a thread. A full map refuses a new thread, as
    /// the kernel's hash maps do; the result says whether it was stored.
    pub fn insert(&mut self, tid: u32, v: u64) -> (r: bool)
        requires
            old(self).wf(),
        ensures
            final(self).wf(),
            r == (lookup(old(self).view(), tid).is_some() || old(self).view().len() < MAX_PENDING_ENTRIES),
            forall|t: u32| #[trigger] lookup(final(self).view(), t) == if t == tid && r {
                Some(v)
            } else {
                lookup(old(self).view(), t)
            },
    {
        match self.find(tid) {
            Some(i) => {
                let ghost s = self.view();
                proof {
                    lemma_lookup_at(s, i as int);
                }
                self.entries.set(i, (tid, v));
                assert(self.view() =~= s.update(i as int, (s[i as int].0, v)));
                assert forall|t: u32| #[trigger] lookup(self.view(), t) == if t == tid { Some(v) } else { lookup(s, t) } by {
                    lemma_lookup_update(s, i as int, v, t);
                }
                proof {
                    lemma_lookup_update(s, i as int, v, tid);
                }
                true
            },
            None => {
                if self.entries.len() >= MAX_PENDING_ENTRIES {
                    return false;
                }
                let ghost s = self.view();
                self.entries.push((tid, v));
                assert(self.view() =~= s.push((tid, v)));
                assert forall|t: u32| #[trigger] lookup(self.view(), t) == if t == tid { Some(v) } else { lookup(s, t) } by {
                    lemma_lookup_push(s, (tid, v), t);
                }
                proof {
                    lemma_lookup_none(s, tid);
                    assert forall|a: int, b: int| 0 <= a < self.view().len() && 0 <= b < self.view().len() && a != b implies self.view()[a].0 != self.view()[b].0 by {
                        if a < s.len() && b < s.len() {
                        } else if a < s.len() {
                            assert(self.view()[a] == s[a]);
                        } else {
                            assert(self.view()[b] == s[b]);
                        }
                    }
                }
                true
            },
        }
    }

    /// Forget the value pending for a thread.
    pub fn remove(&mut self, tid: u32)
        requires
            old(self).wf(),
        ensures
            final(self).wf(),
            forall|t: u32| #[trigger] lookup(final(self).view(), t) == if t == tid {
                None
            } else {
                lookup(old(self).view(), t)
            },
    {
        match self.find(tid) {
            Some(i) => {
                let ghost s = self.view();
                self.entries.remove(i);
                proof {
                    lemma_remove_unique(s, i as int, tid);
                }
                assert(self.view() == s.filter(|e: (u32, u64)| e.0 != tid));
                assert forall|t: u32| #[trigger] lookup(self.view(), t) == if t == tid { None } else { lookup(s, t) } by {
                    lemma_lookup_without_tid(s, tid, t);
                }
                proof {
                    assert forall|a: int, b: int| 0 <= a < self.view().len() && 0 <= b < self.view().len() && a != b implies self.view()[a].0 != self.view()[b].0 by {
                        let a2 = if a < i { a } else { a + 1 };
                        let b2 = if b < i { b } else { b + 1 };
                        assert(self.view()[a] == s[a2] && self.view()[b] == s[b2]);
                    }
                }
            },
            None => {
                assert forall|t: u32| #[trigger] lookup(self.view(), t) == if t == tid { None } else { lookup(old(self).view(), t) } by {}
            },
        }
    }
}

impl PendingMap {
    /// The exit side of a pending operation: take the value recorded for a
    /// thread and remove it, whatever the caller then does with it.
    pub fn take(&mut self, tid: u32) -> (r: Option<u64>)
        requires
            old(self).wf(),
        ensures
            final(self).wf(),
            r == lookup(old(self).view(), tid),
            lookup(final(self).view(), tid).is_none(),
            forall|t: u32| t != tid ==> #[trigger] lookup(final(self).view(), t) == lookup(old(self).view(), t),
    {
        let r = self.get(tid);
        self.remove(tid);
        r
    }
}

/// The latency that a timed exit probe reports: the time since the entry
/// recorded for the thread, when there is one and it reaches the threshold.
pub open spec fn timed_exit_report(start: Option<u64>, now: u64, threshold_ns: u64) -> Option<u64> {
    match start {
        None => None,
        Some(t) => {
            let latency = if now >= t { (now - t) as u64 } else { 0 };
            if latency < threshold_ns { None } else { Some(latency) }
        },
    }
}

/// A timed exit probe (VFS, openat, NCCL): the entry's start time is taken
/// out of the map in every case, and a latency is reported only when it
/// reaches the threshold. No pending entry outlives its operation.
pub fn timed_exit(map: &mut PendingMap, tid: u32, now: u64, threshold_ns: u64) -> (r: Option<u64>)
    requires
        old(map).wf(),
    ensures
        final(map).wf(),
        r == timed_exit_report(lookup(old(map).view(), tid), now, threshold_ns),
        lookup(final(map).view(), tid).is_none(),
        forall|t: u32| t != tid ==> #[trigger] lookup(final(map).view(), t) == lookup(old(map).view(), t),
{
    let start = match map.take(tid) {
        Some(t) => t,
        None => return None,
    };
    let latency = if now >= start { now - start } else { 0 };
    if latency < threshold_ns {
        None
    } else {
        Some(latency)
    }
}

/// In a list without repeated keys, removing the pair at `i` is dropping
/// every pair with its key.
pub proof fn lemma_remove_unique(s: Seq<(u32, u64)>, i: int, k: u32)
    requires
        keys_unique(s),
        0 <= i < s.len(),
        s[i].0 == k,
    ensures
        s.remove(i) == s.filter(|e: (u32, u64)| e.0 != k),
    decreases s.len(),
{
    let f = |e: (u32, u64)| e.0 != k;
    let t = s.drop_first();
    assert(s =~= seq![s[0]] + t);
    t.lemma_filter_prepend(s[0], f);
    if i == 0 {
        assert(s.remove(0) =~= t);
        assert forall|j: int| 0 <= j < t.len() implies f(t[j]) by {
            assert(t[j] == s[j + 1]);
        }
        lemma_filter_all(t, f);
        assert(Seq::<(u32, u64)>::empty() + t.filter(f) =~= t.filter(f));
    } else {
        assert(keys_unique(t)) by {
            assert forall|a: int, b: int| 0 <= a < t.len() && 0 <= b < t.len() && a != b implies t[a].0 != t[b].0 by {
                assert(t[a] == s[a + 1] && t[b] == s[b + 1]);
            }
        }
        assert(t[i - 1] == s[i]);
        lemma_remove_unique(t, i - 1, k);
        assert(s.remove(i) =~= seq![s[0]] + t.remove(i - 1));
        assert(f(s[0]));
    }
}

/// Dropping the entries of one thread forgets that thread and nothing else.
pub proof fn lemma_lookup_without_tid(s: Seq<(u32, u64)>, c: u32, k: u32)
    ensures
        lookup(s.filter(|e: (u32, u64)| e.0 != c), k) == if k == c { None } else { lookup(s, k) },
    decreases s.len(),
{
    let f = |e: (u32, u64)| e.0 != c;
    if s.len() > 0 {
        let t = s.drop_first();
        lemma_lookup_without_tid(t, c, k);
        assert(s =~= seq![s[0]] + t);
        t.lemma_filter_prepend(s[0], f);
        if f(s[0]) {
            assert((seq![s[0]] + t.filter(f)).drop_first() =~= t.filter(f));
        } else {
            assert(Seq::<(u32, u64)>::empty() + t.filter(f) =~= t.filter(f));
        }
    } else {
        reveal(Seq::filter);
    }
}

/// A filter that keeps every item keeps the sequence.
pub proof fn lemma_filter_all(t: Seq<(u32, u64)>, f: spec_fn((u32, u64)) -> bool)
    requires
        forall|j: int| 0 <= j < t.len() ==> f(t[j]),
    ensures
        t.filter(f) == t,
    decreases t.len(),
{
    reveal(Seq::filter);
    if t.len() > 0 {
        lemma_filter_all(t.drop_last(), f);
    }
}

/// A map can take a value for `tid`: it holds one already, or is not full.
pub open spec fn has_room(m: Seq<(u32, u64)>, tid: u32) -> bool {
    lookup(m, tid).is_some() || m.len() < MAX_PENDING_ENTRIES
}

/// The record of one TLS library call in flight, per thread: its start
/// time, its buffer address, and where the byte count will be written.
pub struct Session {
    start_ns: PendingMap,
    bufs: PendingMap,
    len_ptrs: PendingMap,
}

impl Session {
    /// Start times, by thread id.
    pub closed spec fn starts(&self) -> Seq<(u32, u64)> {
        self.start_ns.view()
    }

    /// Buffer addresses, by thread id.
    pub closed spec fn buffers(&self) -> Seq<(u32, u64)> {
        self.bufs.view()
    }

    /// Byte-count addresses, by thread id.
    pub closed spec fn count_ptrs(&self) -> Seq<(u32, u64)> {
        self.len_ptrs.view()
    }

    /// The three maps are well formed.
    pub closed spec fn wf(&self) -> bool {
        self.start_ns.wf() && self.bufs.wf() && self.len_ptrs.wf()
    }

    /// No call is in flight.
    pub fn new() -> (r: Session)
        ensures
            r.wf(),
            forall|t: u32| #[trigger] lookup(r.starts(), t).is_none() && lookup(r.buffers(), t).is_none()
                && lookup(r.count_ptrs(), t).is_none(),
    {
        let r = Session { start_ns: PendingMap::new(), bufs: PendingMap::new(), len_ptrs: PendingMap::new() };
        r
    }

    /// The entry probe of a call: record its start, buffer and count
    /// address. A full map refuses a new thread, as the kernel's maps do.
    pub fn start(&mut self, tid: u32, ts: u64, buf_addr: u64, len_ptr: Option<u64>)
        requires
            old(self).wf(),
        ensures
            final(self).wf(),
            lookup(final(self).starts(), tid) == if has_room(old(self).starts(), tid) {
                Some(ts)
            } else {
                lookup(old(self).starts(), tid)
            },
            lookup(final(self).buffers(), tid) == if has_room(old(self).buffers(), tid) {
                Some(buf_addr)
            } else {
                lookup(old(self).buffers(), tid)
            },
            lookup(final(self).count_ptrs(), tid) == match len_ptr {
                Some(lp) => if has_room(old(self).count_ptrs(), tid) {
                    Some(lp)
                } else {
                    lookup(old(self).count_ptrs(), tid)
                },
                None => lookup(old(self).count_ptrs(), tid),
            },
            forall|t: u32| t != tid ==> #[trigger] lookup(final(self).starts(), t) == lookup(old(self).starts(), t),
            forall|t: u32| t != tid ==> #[trigger] lookup(final(self).buffers(), t) == lookup(old(self).buffers(), t),
            forall|t: u32| t != tid ==> #[trigger] lookup(final(self).count_ptrs(), t) == lookup(old(self).count_ptrs(), t),
    {
        let _ = self.start_ns.insert(tid, ts);
        let _ = self.bufs.insert(tid, buf_addr);
        match len_ptr {
            Some(lp) => {
                let _ = self.len_ptrs.insert(tid, lp);
            },
            None => {},
        }
    }

    /// What the entry probe recorded for a thread; zero where nothing was.
    pub fn get_info(&self, tid: u32) -> (r: (u64, u64, Option<u64>))
        requires
            self.wf(),
        ensures
            r.0 == match lookup(self.starts(), tid) { Some(v) => v, None => 0 },
            r.1 == match lookup(self.buffers(), tid) { Some(v) => v, None => 0 },
            r.2 == lookup(self.count_ptrs(), tid),
    {
        let ts = match self.start_ns.get(tid) { Some(v) => v, None => 0 };
        let buf = match self.bufs.get(tid) { Some(v) => v, None => 0 };
        (ts, buf, self.len_ptrs.get(tid))
    }

    /// Forget what was recorded for a thread.
    pub fn clear(&mut self, tid: u32)
        requires
            old(self).wf(),
        ensures
            final(self).wf(),
            forall|t: u32| #[trigger] lookup(final(self).starts(), t) == if t == tid { None } else { lookup(old(self).starts(), t) },
            forall|t: u32| #[trigger] lookup(final(self).buffers(), t) == if t == tid { None } else { lookup(old(self).buffers(), t) },
            forall|t: u32| #[trigger] lookup(final(self).count_ptrs(), t) == if t == tid { None } else { lookup(old(self).count_ptrs(), t) },
    {
        self.start_ns.remove(tid);
        self.bufs.remove(tid);
        self.len_ptrs.remove(tid);
    }

    /// The exit probe of a call: take what the entry probe recorded and
    /// remove it, whether or not an event is then emitted, so that no
    /// entry outlives its call.
    pub fn finish(&mut self, tid: u32) -> (r: (u64, u64, Option<u64>))
        requires
            old(self).wf(),
        ensures
            final(self).wf(),
            r.0 == match lookup(old(self).starts(), tid) { Some(v) => v, None => 0 },
            r.1 == match lookup(old(self).buffers(), tid) { Some(v) => v, None => 0 },
            r.2 == lookup(old(self).count_ptrs(), tid),
            lookup(final(self).starts(), tid).is_none(),
            lookup(final(self).buffers(), tid).is_none(),
            lookup(final(self).count_ptrs(), tid).is_none(),
            forall|t: u32| t != tid ==> #[trigger] lookup(final(self).starts(), t) == lookup(old(self).starts(), t),
            forall|t: u32| t != tid ==> #[trigger] lookup(final(self).buffers(), t) == lookup(old(self).buffers(), t),
            forall|t: u32| t != tid ==> #[trigger] lookup(final(self).count_ptrs(), t) == lookup(old(self).count_ptrs(), t),
    {
        let info = self.get_info(tid);
        self.clear(tid);
        info
    }
}

} // verus!
