//! Per-stream reassembly of decrypted TLS traffic into LLM exchanges: a
//! state machine over the request and response buffers of one (pid, tid).

use vstd::prelude::*;
use vstd::string::*;
use crate::protocol::{
    Http11Parser, Http2Parser, ProtocolParser, h1_detect, h2_detect, h1_text, h2_text, h1_response,
    h2_response,
};
use crate::providers::{ProviderRegistry, ProviderView};
use crate::usage::{UsageInfo, UsageView};

verus! {

/// Initial capacity of each stream buffer.
pub const INITIAL_BUFFER_CAPACITY: usize = 8192;

/// Largest request buffer kept; beyond it the stream is reset.
pub const MAX_REQUEST_BUFFER_SIZE: usize = 8388608;

/// Largest response buffer kept; beyond it the stream is reset.
pub const MAX_RESPONSE_BUFFER_SIZE: usize = 16777216;

/// Request bytes after which an undetected stream is given up.
pub const DETECTION_BUFFER_THRESHOLD: usize = 4096;

/// Direction of a captured TLS buffer.
#[derive(Clone, Copy, Debug, PartialEq, Eq, Structural)]
pub enum LlmDirection {
    Read,
    Write,
    Handshake,
    Unknown,
}

/// The direction that the kernel's direction byte names.
pub open spec fn direction_of(rw: u8) -> LlmDirection {
    if rw == 0 {
        LlmDirection::Read
    } else if rw == 1 {
        LlmDirection::Write
    } else if rw == 2 {
        LlmDirection::Handshake
    } else {
        LlmDirection::Unknown
    }
}

impl LlmDirection {
    /// Decode the kernel's direction byte.
    pub fn from_raw(rw: u8) -> (r: LlmDirection)
        ensures
            r == direction_of(rw),
    {
        if rw == 0 {
            LlmDirection::Read
        } else if rw == 1 {
            LlmDirection::Write
        } else if rw == 2 {
            LlmDirection::Handshake
        } else {
            LlmDirection::Unknown
        }
    }
}

/// Which dissector recognised the stream.
#[derive(Clone, Copy, Debug, PartialEq, Eq, Structural)]
pub enum ParserKind {
    Http11,
    Http2,
}

/// Where a stream stands.
#[derive(Clone, Copy, Debug, PartialEq, Eq, Structural)]
pub enum ProcessorState {
    /// Looking for an LLM request in the written bytes.
    Detecting,
    /// Buffering the request.
    ProcessingRequest { start_time: u64, parser: ParserKind },
    /// Buffering the response.
    ProcessingResponse { start_time: u64, parser: ParserKind, est_input_tokens: u64 },
    /// Done, or not an LLM conversation.
    Finished,
}

/// Name for the number of `cl100k_base` tokens in `text`, as `tiktoken-rs`
/// counts them with special tokens allowed; absent when encoding fails.
pub uninterp spec fn bpe_token_count(text: Seq<char>) -> Option<u64>;

/// Relies on `tiktoken_rs::cl100k_base_singleton` and `CoreBPE::encode`
/// with all special tokens allowed: the number of tokens.
#[verifier::external_body]
fn count_tokens(text: &str) -> (r: Option<u64>)
    ensures
        r == bpe_token_count(text@),
{
    let bpe = tiktoken_rs::cl100k_base_singleton();
    bpe.encode(text, &bpe.special_tokens()).ok().map(|(tokens, _)| tokens.len() as u64)
}

/// The estimated prompt tokens of a request text.
pub open spec fn token_estimate(text: Seq<char>) -> u64 {
    match bpe_token_count(text) {
        Some(n) => n,
        None => 0,
    }
}

/// One completed exchange.
pub struct LlmSummary {
    pub usage: UsageInfo,
    /// Nanoseconds from request detection to the complete response.
    pub latency_ns: u64,
    pub est_input_tokens: u64,
}

/// What an `LlmSummary` holds.
pub struct SummaryView {
    pub usage: UsageView,
    pub latency_ns: u64,
    pub est_input_tokens: u64,
}

/// An optional summary as plain values.
pub open spec fn opt_summary(r: Option<LlmSummary>) -> Option<SummaryView> {
    match r {
        Some(s) => Some(SummaryView { usage: s.usage@, latency_ns: s.latency_ns, est_input_tokens: s.est_input_tokens }),
        None => None,
    }
}

/// A stream as plain values.
pub struct StreamView {
    pub state: ProcessorState,
    pub write_buf: Seq<u8>,
    pub read_buf: Seq<u8>,
    pub last_activity: u64,
}

/// Per-stream reassembly state.
pub struct StreamProcessor {
    state: ProcessorState,
    write_buf: Vec<u8>,
    read_buf: Vec<u8>,
    last_activity: u64,
}

/// What a dissector detects in a request buffer.
pub open spec fn detect_with(p: ParserKind, ps: Seq<ProviderView>, b: Seq<u8>) -> Option<Seq<char>> {
    match p {
        ParserKind::Http11 => h1_detect(ps, b),
        ParserKind::Http2 => h2_detect(ps, b),
    }
}

/// The user text that a dissector recovers from a request buffer.
pub open spec fn text_with(p: ParserKind, ps: Seq<ProviderView>, b: Seq<u8>) -> Seq<char> {
    match p {
        ParserKind::Http11 => h1_text(ps, b),
        ParserKind::Http2 => h2_text(ps, b),
    }
}

/// The usage that a dissector reads from a response buffer.
pub open spec fn response_with(p: ParserKind, ps: Seq<ProviderView>, b: Seq<u8>) -> Option<UsageView> {
    match p {
        ParserKind::Http11 => h1_response(ps, b),
        ParserKind::Http2 => h2_response(ps, b),
    }
}

/// A stream with empty buffers, detecting again.
pub open spec fn reset_view(s: StreamView) -> StreamView {
    StreamView { state: ProcessorState::Detecting, write_buf: Seq::empty(), read_buf: Seq::empty(), ..s }
}

/// Reading the response buffer while the response is awaited: a usage
/// read from it completes the exchange with one summary; otherwise the
/// response keeps being awaited.
pub open spec fn respond(start_time: u64, parser: ParserKind, est_input_tokens: u64, ps: Seq<ProviderView>, r: Seq<u8>, now: u64) -> (ProcessorState, Option<SummaryView>) {
    match response_with(parser, ps, r) {
        Some(u) => (ProcessorState::Finished, Some(SummaryView {
            usage: u,
            latency_ns: if now >= start_time { (now - start_time) as u64 } else { 0 },
            est_input_tokens,
        })),
        None => (ProcessorState::ProcessingResponse { start_time, parser, est_input_tokens }, None),
    }
}

/// The state after buffering, for the state before and the buffers after.
/// The first read ends the request: its text is estimated and the response
/// buffer is parsed at once, so a response that arrives whole in that read
/// completes the exchange.
pub open spec fn transition(st: ProcessorState, ps: Seq<ProviderView>, dir: LlmDirection, w: Seq<u8>, r: Seq<u8>, now: u64) -> (ProcessorState, Option<SummaryView>) {
    match st {
        ProcessorState::Detecting => if detect_with(ParserKind::Http11, ps, w).is_some() {
            (ProcessorState::ProcessingRequest { start_time: now, parser: ParserKind::Http11 }, None)
        } else if detect_with(ParserKind::Http2, ps, w).is_some() {
            (ProcessorState::ProcessingRequest { start_time: now, parser: ParserKind::Http2 }, None)
        } else if w.len() > DETECTION_BUFFER_THRESHOLD {
            (ProcessorState::Finished, None)
        } else {
            (ProcessorState::Detecting, None)
        },
        ProcessorState::ProcessingRequest { start_time, parser } => if dir == LlmDirection::Read {
            respond(start_time, parser, token_estimate(text_with(parser, ps, w)), ps, r, now)
        } else {
            (st, None)
        },
        ProcessorState::ProcessingResponse { start_time, parser, est_input_tokens } => respond(
            start_time,
            parser,
            est_input_tokens,
            ps,
            r,
            now,
        ),
        ProcessorState::Finished => (ProcessorState::Finished, None),
    }
}

/// One captured buffer applied to a stream: a finished stream ignores reads
/// and restarts on a write; the buffer is appended in its direction (a
/// handshake or unknown direction changes nothing more); a buffer past its
/// cap resets the stream; then the state machine takes one step.
pub open spec fn step(s: StreamView, ps: Seq<ProviderView>, dir: LlmDirection, data: Seq<u8>, now: u64) -> (StreamView, Option<SummaryView>) {
    let s1 = StreamView { last_activity: now, ..s };
    if s.state == ProcessorState::Finished && dir != LlmDirection::Write {
        (s1, None)
    } else {
        let s2 = if s.state == ProcessorState::Finished { reset_view(s1) } else { s1 };
        if dir == LlmDirection::Write {
            if s2.write_buf.len() + data.len() > MAX_REQUEST_BUFFER_SIZE {
                (reset_view(s2), None)
            } else {
                let w = s2.write_buf + data;
                let (st, out) = transition(s2.state, ps, dir, w, s2.read_buf, now);
                (StreamView { state: st, write_buf: w, ..s2 }, out)
            }
        } else if dir == LlmDirection::Read {
            if s2.read_buf.len() + data.len() > MAX_RESPONSE_BUFFER_SIZE {
                (reset_view(s2), None)
            } else {
                let r = s2.read_buf + data;
                let (st, out) = transition(s2.state, ps, dir, s2.write_buf, r, now);
                (StreamView { state: st, read_buf: r, ..s2 }, out)
            }
        } else {
            (s2, None)
        }
    }
}

fn append_bytes(out: &mut Vec<u8>, src: &[u8])
    ensures
        final(out)@ == old(out)@ + src@,
{
    let mut i: usize = 0;
    while i < src.len()
        invariant
            i <= src@.len(),
            out@ == old(out)@ + src@.take(i as int),
        decreases src@.len() - i,
    {
        out.push(src[i]);
        i += 1;
        assert(out@ =~= old(out)@ + src@.take(i as int));
    }
    assert(src@.take(i as int) =~= src@);
}

impl StreamProcessor {
    /// The stream as plain values.
    pub closed spec fn view(&self) -> StreamView {
        StreamView {
            state: self.state,
            write_buf: self.write_buf@,
            read_buf: self.read_buf@,
            last_activity: self.last_activity,
        }
    }

    /// Buffers stay within their caps.
    pub open spec fn wf(&self) -> bool {
        self.view().write_buf.len() <= MAX_REQUEST_BUFFER_SIZE && self.view().read_buf.len()
            <= MAX_RESPONSE_BUFFER_SIZE
    }

    /// A new stream, detecting, with empty buffers.
    pub fn new() -> (r: StreamProcessor)
        ensures
            r.wf(),
            r.view() == (StreamView {
                state: ProcessorState::Detecting,
                write_buf: Seq::empty(),
                read_buf: Seq::empty(),
                last_activity: 0,
            }),
    {
        StreamProcessor {
            state: ProcessorState::Detecting,
            write_buf: Vec::with_capacity(INITIAL_BUFFER_CAPACITY),
            read_buf: Vec::with_capacity(INITIAL_BUFFER_CAPACITY),
            last_activity: 0,
        }
    }

    /// When the stream last saw a buffer, in nanoseconds.
    pub fn last_activity(&self) -> (r: u64)
        ensures
            r == self.view().last_activity,
    {
        self.last_activity
    }

    /// Whether an LLM request was detected and its exchange is under way.
    pub fn is_llm(&self) -> (r: bool)
        ensures
            r == !(self.view().state == ProcessorState::Detecting || self.view().state
                == ProcessorState::Finished),
    {
        !(self.state == ProcessorState::Detecting || self.state == ProcessorState::Finished)
    }

    /// The estimated prompt tokens, once the response is being read.
    pub fn est_input_tokens(&self) -> (r: u64)
        ensures
            r == match self.view().state {
                ProcessorState::ProcessingResponse { est_input_tokens, .. } => est_input_tokens,
                _ => 0,
            },
    {
        match self.state {
            ProcessorState::ProcessingResponse { est_input_tokens, .. } => est_input_tokens,
            _ => 0,
        }
    }

    /// The state of the stream.
    pub fn state(&self) -> (r: ProcessorState)
        ensures
            r == self.view().state,
    {
        self.state
    }

    fn reset(&mut self)
        ensures
            final(self).view() == reset_view(old(self).view()),
    {
        self.state = ProcessorState::Detecting;
        self.write_buf.clear();
        self.read_buf.clear();
        assert(self.write_buf@ =~= Seq::<u8>::empty());
        assert(self.read_buf@ =~= Seq::<u8>::empty());
    }

    fn respond(&mut self, reg: &ProviderRegistry, start_time: u64, parser: ParserKind, est_input_tokens: u64, now: u64) -> (r: Option<LlmSummary>)
        requires
            old(self).wf(),
        ensures
            final(self).wf(),
            final(self).view() == (StreamView {
                state: respond(start_time, parser, est_input_tokens, reg@, old(self).view().read_buf, now).0,
                ..old(self).view()
            }),
            opt_summary(r) == respond(start_time, parser, est_input_tokens, reg@, old(self).view().read_buf, now).1,
    {
        let parsed = match parser {
            ParserKind::Http11 => Http11Parser.parse_response(reg, self.read_buf.as_slice()),
            ParserKind::Http2 => Http2Parser.parse_response(reg, self.read_buf.as_slice()),
        };
        match parsed {
            Some(u) => {
                self.state = ProcessorState::Finished;
                let latency_ns: u64 = if now >= start_time { now - start_time } else { 0 };
                Some(LlmSummary { usage: u, latency_ns, est_input_tokens })
            },
            None => {
                self.state = ProcessorState::ProcessingResponse { start_time, parser, est_input_tokens };
                None
            },
        }
    }

    fn advance(&mut self, reg: &ProviderRegistry, direction: LlmDirection, now: u64) -> (r: Option<LlmSummary>)
        requires
            old(self).wf(),
        ensures
            final(self).wf(),
            final(self).view() == (StreamView {
                state: transition(old(self).view().state, reg@, direction, old(self).view().write_buf, old(self).view().read_buf, now).0,
                ..old(self).view()
            }),
            opt_summary(r) == transition(old(self).view().state, reg@, direction, old(self).view().write_buf, old(self).view().read_buf, now).1,
    {
        match self.state {
            ProcessorState::Detecting => {
                if Http11Parser.detect_request(reg, self.write_buf.as_slice()).is_some() {
                    self.state = ProcessorState::ProcessingRequest { start_time: now, parser: ParserKind::Http11 };
                } else if Http2Parser.detect_request(reg, self.write_buf.as_slice()).is_some() {
                    self.state = ProcessorState::ProcessingRequest { start_time: now, parser: ParserKind::Http2 };
                } else if self.write_buf.len() > DETECTION_BUFFER_THRESHOLD {
                    self.state = ProcessorState::Finished;
                }
                None
            },
            ProcessorState::ProcessingRequest { start_time, parser } => {
                if direction == LlmDirection::Read {
                    let text = match parser {
                        ParserKind::Http11 => Http11Parser.extract_request_text(reg, self.write_buf.as_slice()),
                        ParserKind::Http2 => Http2Parser.extract_request_text(reg, self.write_buf.as_slice()),
                    };
                    let est = match count_tokens(text.as_str()) {
                        Some(n) => n,
                        None => 0,
                    };
                    self.respond(reg, start_time, parser, est, now)
                } else {
                    None
                }
            },
            ProcessorState::ProcessingResponse { start_time, parser, est_input_tokens } => {
                self.respond(reg, start_time, parser, est_input_tokens, now)
            },
            ProcessorState::Finished => None,
        }
    }

    /// Apply one captured buffer; returns the summary of an exchange that
    /// this buffer completed.
    pub fn handle_event(&mut self, reg: &ProviderRegistry, direction: LlmDirection, data: &[u8], now: u64) -> (r: Option<LlmSummary>)
        requires
            old(self).wf(),
        ensures
            final(self).wf(),
            (final(self).view(), opt_summary(r)) == step(old(self).view(), reg@, direction, data@, now),
    {
        self.last_activity = now;
        if self.state == ProcessorState::Finished {
            if direction == LlmDirection::Write {
                self.reset();
            } else {
                return None;
            }
        }
        if direction == LlmDirection::Write {
            if data.len() > MAX_REQUEST_BUFFER_SIZE - self.write_buf.len() {
                self.reset();
                return None;
            }
            append_bytes(&mut self.write_buf, data);
        } else if direction == LlmDirection::Read {
            if data.len() > MAX_RESPONSE_BUFFER_SIZE - self.read_buf.len() {
                self.reset();
                return None;
            }
            append_bytes(&mut self.read_buf, data);
        } else {
            return None;
        }
        self.advance(reg, direction, now)
    }
}

} // verus!
