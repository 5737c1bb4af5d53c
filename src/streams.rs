//! The table of TLS streams, keyed by (pid, tid): each captured buffer
//! advances its own stream only, and idle streams are swept away.

use vstd::prelude::*;
use crate::assoc::{
    keys_unique, lemma_lookup_at, lemma_lookup_keep, lemma_lookup_none, lemma_lookup_push,
    lemma_lookup_update, lookup,
};
use crate::processor::{direction_of, SummaryView, LlmDirection, LlmSummary, StreamProcessor, StreamView, ProcessorState, opt_summary, step};
use crate::providers::{ProviderRegistry, ProviderView};

verus! {

/// Seconds of inactivity after which a stream is evicted, in nanoseconds.
pub const CONNECTION_RETENTION_NS: u64 = 300_000_000_000;

/// Seconds between sweeps of the stream table.
pub const CLEANUP_INTERVAL_SECS: u64 = 30;

/// A stream key: process id and thread id.
pub type StreamKey = (u32, u32);

/// A stream as it is first seen.
pub open spec fn fresh_stream() -> StreamView {
    StreamView { state: ProcessorState::Detecting, write_buf: Seq::empty(), read_buf: Seq::empty(), last_activity: 0 }
}

/// One captured buffer: direction, bytes, and the time it was seen.
pub type CapturedEvent = (LlmDirection, Seq<u8>, u64);

/// A stream after a sequence of its own buffers, from first sight.
pub open spec fn replay(ps: Seq<ProviderView>, evs: Seq<CapturedEvent>) -> StreamView
    decreases evs.len(),
{
    if evs.len() == 0 {
        fresh_stream()
    } else {
        let e = evs.last();
        step(replay(ps, evs.drop_last()), ps, e.0, e.1, e.2).0
    }
}

/// The stream of key `k` after a sequence of buffers of all streams, when
/// it has been seen.
pub open spec fn table_replay(ps: Seq<ProviderView>, evs: Seq<(StreamKey, CapturedEvent)>, k: StreamKey) -> Option<StreamView>
    decreases evs.len(),
{
    if evs.len() == 0 {
        None
    } else {
        let prev = table_replay(ps, evs.drop_last(), k);
        let (key, e) = evs.last();
        if key == k {
            Some(step(match prev { Some(s) => s, None => fresh_stream() }, ps, e.0, e.1, e.2).0)
        } else {
            prev
        }
    }
}

/// The buffers of one stream, in order.
pub open spec fn events_of(evs: Seq<(StreamKey, CapturedEvent)>, k: StreamKey) -> Seq<CapturedEvent>
    decreases evs.len(),
{
    if evs.len() == 0 {
        Seq::empty()
    } else {
        let prev = events_of(evs.drop_last(), k);
        if evs.last().0 == k { prev.push(evs.last().1) } else { prev }
    }
}

/// Streams are isolated: whatever the buffers of other streams and however
/// they interleave, the stream of `k` is the replay of its own buffers
/// alone, and it exists once one of them was seen.
pub proof fn lemma_stream_isolation(ps: Seq<ProviderView>, evs: Seq<(StreamKey, CapturedEvent)>, k: StreamKey)
    ensures
        table_replay(ps, evs, k) == if events_of(evs, k).len() == 0 {
            None
        } else {
            Some(replay(ps, events_of(evs, k)))
        },
    decreases evs.len(),
{
    if evs.len() > 0 {
        lemma_stream_isolation(ps, evs.drop_last(), k);
        let prev = events_of(evs.drop_last(), k);
        if evs.last().0 == k {
            assert(events_of(evs, k).drop_last() =~= prev);
        }
    }
}

/// The streams of a table, by key.
pub struct StreamTable {
    entries: Vec<(StreamKey, StreamProcessor)>,
    handshakes: u64,
}

/// Payload bytes a captured TLS record carries at most.
pub const MAX_SSL_BUF_SIZE: usize = 4096;

/// The payload of a captured TLS record that reaches its stream: none for a
/// handshake, an unfilled buffer or an empty call; otherwise the first
/// `len` bytes, no more than the record holds.
pub open spec fn capture_payload(is_handshake: u8, buf_filled: u8, len: u32, buf: Seq<u8>) -> Option<Seq<u8>> {
    if is_handshake == 1 || buf_filled == 0 || len == 0 {
        None
    } else {
        let n = if (len as int) < buf.len() { len as int } else { buf.len() as int };
        let n = if n < MAX_SSL_BUF_SIZE { n } else { MAX_SSL_BUF_SIZE as int };
        Some(buf.take(n))
    }
}

impl StreamTable {
    /// The streams as plain values.
    pub closed spec fn view(&self) -> Seq<(StreamKey, StreamView)> {
        self.entries@.map_values(|e: (StreamKey, StreamProcessor)| (e.0, e.1.view()))
    }

    /// Keys are unique and every stream keeps its buffers within their caps.
    pub closed spec fn wf(&self) -> bool {
        keys_unique(self.view()) && forall|i: int| 0 <= i < self.entries@.len() ==> (#[trigger] self.entries@[i]).1.wf()
    }

    /// An empty table.
    pub fn new() -> (r: StreamTable)
        ensures
            r.wf(),
            r.view().len() == 0,
            r.handshake_count() == 0,
    {
        let r = StreamTable { entries: Vec::new(), handshakes: 0 };
        assert(r.view() =~= Seq::<(StreamKey, StreamView)>::empty());
        r
    }

    /// Handshake records seen, saturating at the largest count.
    pub closed spec fn handshake_count(&self) -> u64 {
        self.handshakes
    }

    /// Handshake records seen.
    pub fn handshakes(&self) -> (r: u64)
        ensures
            r == self.handshake_count(),
    {
        self.handshakes
    }

    /// A captured TLS record: handshakes are counted, unfilled and empty
    /// records are dropped, and any other record's payload (cut to `len`
    /// and to the buffer size) goes to the stream of (pid, tid) in the
    /// direction its byte names.
    pub fn handle_capture(
        &mut self,
        reg: &ProviderRegistry,
        pid: u32,
        tid: u32,
        rw: u8,
        is_handshake: u8,
        buf_filled: u8,
        len: u32,
        buf: &[u8],
        now: u64,
    ) -> (r: Option<LlmSummary>)
        requires
            old(self).wf(),
        ensures
            final(self).wf(),
            final(self).handshake_count() == if is_handshake == 1 && old(self).handshake_count() < u64::MAX {
                (old(self).handshake_count() + 1) as u64
            } else {
                old(self).handshake_count()
            },
            match capture_payload(is_handshake, buf_filled, len, buf@) {
                None => r.is_none() && final(self).view() == old(self).view(),
                Some(d) => {
                    let before = match old(self).stream((pid, tid)) {
                        Some(s) => s,
                        None => fresh_stream(),
                    };
                    &&& final(self).stream((pid, tid)) == Some(step(before, reg@, direction_of(rw), d, now).0)
                    &&& opt_summary(r) == step(before, reg@, direction_of(rw), d, now).1
                    &&& forall|k: StreamKey| k != (pid, tid) ==> #[trigger] final(self).stream(k) == old(self).stream(k)
                },
            },
    {
        if is_handshake == 1 {
            if self.handshakes < u64::MAX {
                self.handshakes = self.handshakes + 1;
            }
            return None;
        }
        if buf_filled == 0 || len == 0 {
            return None;
        }
        let mut n: usize = buf.len();
        if (len as usize) < n {
            n = len as usize;
        }
        if n > MAX_SSL_BUF_SIZE {
            n = MAX_SSL_BUF_SIZE;
        }
        let data = &buf[0..n];
        assert(data@ =~= buf@.take(n as int));
        self.handle_event(reg, (pid, tid), LlmDirection::from_raw(rw), data, now)
    }

    /// The number of streams.
    pub fn len(&self) -> (r: usize)
        ensures
            r == self.view().len(),
    {
        self.entries.len()
    }

    fn index_of(&self, key: StreamKey) -> (r: Option<usize>)
        requires
            self.wf(),
        ensures
            match r {
                Some(i) => i < self.view().len() && self.view()[i as int].0 == key,
                None => lookup(self.view(), key).is_none(),
            },
    {
        let mut i: usize = 0;
        while i < self.entries.len()
            invariant
                i <= self.entries@.len(),
                self.view().len() == self.entries@.len(),
                forall|j: int| 0 <= j < i ==> self.view()[j].0 != key,
            decreases self.entries@.len() - i,
        {
            assert(self.view()[i as int].0 == self.entries@[i as int].0);
            if self.entries[i].0.0 == key.0 && self.entries[i].0.1 == key.1 {
                return Some(i);
            }
            i += 1;
        }
        proof {
            lemma_lookup_none(self.view(), key);
        }
        None
    }

    /// The stream of a key, as plain values.
    pub open spec fn stream(&self, key: StreamKey) -> Option<StreamView> {
        lookup(self.view(), key)
    }

    /// Apply a captured buffer to the stream of `key`, which is created on
    /// first sight. No other stream changes.
    pub fn handle_event(&mut self, reg: &ProviderRegistry, key: StreamKey, direction: LlmDirection, data: &[u8], now: u64) -> (r: Option<LlmSummary>)
        requires
            old(self).wf(),
        ensures
            final(self).wf(),
            ({
                let before = match old(self).stream(key) {
                    Some(s) => s,
                    None => fresh_stream(),
                };
                &&& final(self).stream(key) == Some(step(before, reg@, direction, data@, now).0)
                &&& opt_summary(r) == step(before, reg@, direction, data@, now).1
            }),
            forall|k: StreamKey| k != key ==> #[trigger] final(self).stream(k) == old(self).stream(k),
            final(self).handshake_count() == old(self).handshake_count(),
    {
        let i = match self.index_of(key) {
            Some(i) => i,
            None => {
                let ghost v0 = self.view();
                let p = StreamProcessor::new();
                self.entries.push((key, p));
                assert(self.view() =~= v0.push((key, fresh_stream())));
                assert forall|k: StreamKey| #[trigger] lookup(self.view(), k) == if k == key { Some(fresh_stream()) } else { lookup(v0, k) } by {
                    lemma_lookup_push(v0, (key, fresh_stream()), k);
                }
                proof {
                    lemma_lookup_none(v0, key);
                    assert forall|a: int, b: int| 0 <= a < self.view().len() && 0 <= b < self.view().len() && a != b implies self.view()[a].0 != self.view()[b].0 by {
                        if a < v0.len() && b < v0.len() {
                        } else if a < v0.len() {
                            assert(self.view()[a] == v0[a]);
                        } else {
                            assert(self.view()[b] == v0[b]);
                        }
                    }
                    assert forall|j: int| 0 <= j < self.entries@.len() implies (#[trigger] self.entries@[j]).1.wf() by {
                        if j < v0.len() {
                            assert(self.entries@[j] == old(self).entries@[j]);
                        }
                    }
                }
                self.entries.len() - 1
            },
        };
        let ghost v1 = self.view();
        let ghost e1 = self.entries@;
        proof {
            lemma_lookup_at(v1, i as int);
        }
        let (k, mut p) = self.entries.remove(i);
        assert(e1[i as int].1.wf());
        let out = p.handle_event(reg, direction, data, now);
        let ghost pv = p.view();
        self.entries.insert(i, (k, p));
        assert(self.entries@ =~= e1.update(i as int, (k, p)));
        assert(self.view() =~= v1.update(i as int, (v1[i as int].0, pv)));
        proof {
            assert forall|kk: StreamKey| #[trigger] lookup(self.view(), kk) == if kk == key { Some(pv) } else { lookup(v1, kk) } by {
                lemma_lookup_update(v1, i as int, pv, kk);
            }
            lemma_lookup_update(v1, i as int, pv, key);
            assert forall|j: int| 0 <= j < self.entries@.len() implies (#[trigger] self.entries@[j]).1.wf() by {
                if j != i {
                    assert(self.entries@[j] == e1[j]);
                }
            }
        }
        out
    }

    /// Evict the streams idle for the retention period or longer at `now`.
    pub fn sweep(&mut self, now: u64)
        requires
            old(self).wf(),
        ensures
            final(self).wf(),
            final(self).handshake_count() == old(self).handshake_count(),
            forall|k: StreamKey| #[trigger] final(self).stream(k) == match old(self).stream(k) {
                Some(s) => if idle_for(s, now) < CONNECTION_RETENTION_NS { Some(s) } else { None },
                None => None,
            },
    {
        let ghost keep = |s: StreamView| idle_for(s, now) < CONNECTION_RETENTION_NS;
        let ghost f = |e: (StreamKey, StreamView)| keep(e.1);
        let ghost v0 = self.view();
        let mut kept: Vec<(StreamKey, StreamProcessor)> = Vec::new();
        let mut old_entries: Vec<(StreamKey, StreamProcessor)> = Vec::new();
        std::mem::swap(&mut old_entries, &mut self.entries);
        let ghost oe = old_entries@;
        assert(oe.map_values(|e: (StreamKey, StreamProcessor)| (e.0, e.1.view())) == v0);
        let n = old_entries.len();
        let mut i: usize = 0;
        while old_entries.len() > 0
            invariant
                i + old_entries@.len() == n,
                n == oe.len(),
                old_entries@ == oe.subrange(i as int, n as int),
                f == (|e: (StreamKey, StreamView)| keep(e.1)),
                keep == (|s: StreamView| idle_for(s, now) < CONNECTION_RETENTION_NS),
                v0 == oe.map_values(|e: (StreamKey, StreamProcessor)| (e.0, e.1.view())),
                kept@.map_values(|e: (StreamKey, StreamProcessor)| (e.0, e.1.view())) == v0.take(i as int).filter(f),
                forall|j: int| 0 <= j < kept@.len() ==> (#[trigger] kept@[j]).1.wf(),
                forall|j: int| 0 <= j < oe.len() ==> (#[trigger] oe[j]).1.wf(),
            decreases old_entries@.len(),
        {
            let ghost kv = kept@.map_values(|e: (StreamKey, StreamProcessor)| (e.0, e.1.view()));
            let (k, p) = old_entries.remove(0);
            assert(oe[i as int] == (k, p));
            assert(v0[i as int] == (k, p.view()));
            assert(v0.take(i + 1) =~= v0.take(i as int).push(v0[i as int]));
            proof {
                v0.take(i as int).lemma_filter_push(v0[i as int], f);
            }
            let last = p.last_activity();
            let idle: u64 = if now >= last { now - last } else { 0 };
            if idle < CONNECTION_RETENTION_NS {
                kept.push((k, p));
                assert(kept@.map_values(|e: (StreamKey, StreamProcessor)| (e.0, e.1.view())) =~= kv.push(v0[i as int]));
            }
            assert(old_entries@ =~= oe.subrange(i + 1, n as int));
            i += 1;
        }
        assert(v0.take(n as int) =~= v0);
        self.entries = kept;
        proof {
            assert forall|k: StreamKey| #[trigger] lookup(self.view(), k) == match lookup(v0, k) {
                Some(s) => if keep(s) { Some(s) } else { None },
                None => None,
            } by {
                lemma_lookup_keep(v0, keep, k);
            }
            lemma_lookup_keep(v0, keep, (0, 0));
        }
    }
}

/// How long a stream has been idle at `now`, in nanoseconds.
pub open spec fn idle_for(s: StreamView, now: u64) -> u64 {
    if now >= s.last_activity { (now - s.last_activity) as u64 } else { 0 }
}

/// A stream state with its clock readings left out.
pub open spec fn untimed_state(st: ProcessorState) -> ProcessorState {
    match st {
        ProcessorState::ProcessingRequest { parser, .. } => ProcessorState::ProcessingRequest { start_time: 0, parser },
        ProcessorState::ProcessingResponse { parser, est_input_tokens, .. } => ProcessorState::ProcessingResponse {
            start_time: 0,
            parser,
            est_input_tokens,
        },
        _ => st,
    }
}

/// A stream with its clock readings left out.
pub open spec fn untimed(s: StreamView) -> StreamView {
    StreamView { state: untimed_state(s.state), last_activity: 0, ..s }
}

/// A summary with its latency left out.
pub open spec fn untimed_summary(o: Option<SummaryView>) -> Option<SummaryView> {
    match o {
        Some(v) => Some(SummaryView { latency_ns: 0, ..v }),
        None => None,
    }
}

/// Reassembly depends on a stream's own bytes alone: two streams that agree
/// but for their clock readings, fed the same buffer at any times, still
/// agree but for their clocks, and report the same usage and estimate.
pub proof fn lemma_step_untimed(s1: StreamView, s2: StreamView, ps: Seq<ProviderView>, dir: LlmDirection, data: Seq<u8>, t1: u64, t2: u64)
    requires
        untimed(s1) == untimed(s2),
    ensures
        untimed(step(s1, ps, dir, data, t1).0) == untimed(step(s2, ps, dir, data, t2).0),
        untimed_summary(step(s1, ps, dir, data, t1).1) == untimed_summary(step(s2, ps, dir, data, t2).1),
{
    assert(s1.write_buf == s2.write_buf && s1.read_buf == s2.read_buf);
    assert(untimed_state(s1.state) == untimed_state(s2.state));
    assert((s1.state == ProcessorState::Finished) == (s2.state == ProcessorState::Finished));
}

/// Replaying the same buffers at any times gives streams that agree but
/// for their clocks.
pub proof fn lemma_replay_untimed(ps: Seq<ProviderView>, e1: Seq<CapturedEvent>, e2: Seq<CapturedEvent>)
    requires
        e1.len() == e2.len(),
        forall|i: int| 0 <= i < e1.len() ==> (#[trigger] e1[i]).0 == e2[i].0 && e1[i].1 == e2[i].1,
    ensures
        untimed(replay(ps, e1)) == untimed(replay(ps, e2)),
    decreases e1.len(),
{
    if e1.len() > 0 {
        assert forall|i: int| 0 <= i < e1.drop_last().len() implies (#[trigger] e1.drop_last()[i]).0 == e2.drop_last()[i].0
            && e1.drop_last()[i].1 == e2.drop_last()[i].1 by {
            assert(e1.drop_last()[i] == e1[i] && e2.drop_last()[i] == e2[i]);
        }
        lemma_replay_untimed(ps, e1.drop_last(), e2.drop_last());
        let a = e1.last();
        let b = e2.last();
        assert(a == e1[e1.len() - 1] && b == e2[e2.len() - 1]);
        lemma_step_untimed(replay(ps, e1.drop_last()), replay(ps, e2.drop_last()), ps, a.0, a.1, a.2, b.2);
    }
}

} // verus!
