//! Byte-level helpers for HTTP payloads: pattern search, whitespace trimming,
//! chunked transfer decoding and balanced-brace JSON framing.

use vstd::prelude::*;

verus! {

/// `needle` occurs in `h` at index `i`.
pub open spec fn occurs_at(h: Seq<u8>, needle: Seq<u8>, i: int) -> bool {
    0 <= i && i + needle.len() <= h.len() && h.subrange(i, i + needle.len()) == needle
}

/// The first index at or after `i` where `needle` occurs in `h`.
pub open spec fn first_occurrence(h: Seq<u8>, needle: Seq<u8>, i: int) -> Option<int>
    decreases h.len() + 1 - i,
{
    if i < 0 || i + needle.len() > h.len() {
        None
    } else if occurs_at(h, needle, i) {
        Some(i)
    } else {
        first_occurrence(h, needle, i + 1)
    }
}

/// What `first_occurrence` finds is an occurrence, at or after `i`.
pub proof fn lemma_first_occurrence(h: Seq<u8>, needle: Seq<u8>, i: int)
    ensures
        first_occurrence(h, needle, i) matches Some(k) ==> i <= k && occurs_at(h, needle, k),
    decreases h.len() + 1 - i,
{
    if i >= 0 && i + needle.len() <= h.len() && !occurs_at(h, needle, i) {
        lemma_first_occurrence(h, needle, i + 1);
    }
}

/// An index as a mathematical integer.
pub open spec fn opt_int(r: Option<usize>) -> Option<int> {
    match r {
        Some(i) => Some(i as int),
        None => None,
    }
}

/// Whether `needle` occurs in `h` at `i`, compared byte by byte.
fn occurs_at_exec(h: &[u8], needle: &[u8], i: usize) -> (r: bool)
    requires
        i + needle@.len() <= h@.len(),
    ensures
        r == occurs_at(h@, needle@, i as int),
{
    let hl = h.len();
    let mut k: usize = 0;
    while k < needle.len()
        invariant
            hl == h@.len(),
            i + needle@.len() <= h@.len(),
            k <= needle@.len(),
            forall|j: int| 0 <= j < k ==> h@[i + j] == needle@[j],
        decreases needle.len() - k,
    {
        if h[i + k] != needle[k] {
            assert(h@.subrange(i as int, i + needle@.len())[k as int] != needle@[k as int]);
            return false;
        }
        k += 1;
    }
    assert(h@.subrange(i as int, i + needle@.len()) =~= needle@);
    true
}

/// Index of the first occurrence of a non-empty `needle` in `haystack`.
pub fn find_pattern(haystack: &[u8], needle: &[u8]) -> (r: Option<usize>)
    requires
        needle@.len() > 0,
    ensures
        opt_int(r) == first_occurrence(haystack@, needle@, 0),
{
    if needle.len() > haystack.len() {
        return None;
    }
    let last = haystack.len() - needle.len();
    let mut i: usize = 0;
    while i <= last
        invariant
            needle@.len() > 0,
            haystack.len() == haystack@.len(),
            last + needle@.len() == haystack@.len(),
            first_occurrence(haystack@, needle@, 0) == first_occurrence(haystack@, needle@, i as int),
        decreases last + 1 - i,
    {
        if occurs_at_exec(haystack, needle, i) {
            return Some(i);
        }
        i += 1;
    }
    None
}

/// Whether a non-empty `needle` occurs anywhere in `haystack`.
pub fn contains_pattern(haystack: &[u8], needle: &[u8]) -> (r: bool)
    requires
        needle@.len() > 0,
    ensures
        r == first_occurrence(haystack@, needle@, 0).is_some(),
{
    find_pattern(haystack, needle).is_some()
}

/// ASCII whitespace as `u8::is_ascii_whitespace` defines it.
pub open spec fn is_ws(b: u8) -> bool {
    b == 0x20 || b == 0x09 || b == 0x0a || b == 0x0c || b == 0x0d
}

/// Length of `s` once trailing ASCII whitespace is removed.
pub open spec fn trimmed_len(s: Seq<u8>) -> nat
    decreases s.len(),
{
    if s.len() > 0 && is_ws(s.last()) {
        trimmed_len(s.drop_last())
    } else {
        s.len()
    }
}

/// `buf` without its trailing ASCII whitespace.
pub fn trim_trailing_whitespace(buf: &[u8]) -> (r: &[u8])
    ensures
        r@ == buf@.take(trimmed_len(buf@) as int),
{
    let mut end: usize = buf.len();
    assert(buf@.take(end as int) =~= buf@);
    while end > 0 && is_ws_exec(buf[end - 1])
        invariant
            end <= buf@.len(),
            trimmed_len(buf@) == trimmed_len(buf@.take(end as int)),
        decreases end,
    {
        assert(buf@.take(end as int).drop_last() =~= buf@.take(end - 1));
        end -= 1;
    }
    assert(buf@.take(end as int).take(end as int) =~= buf@.take(end as int));
    &buf[0..end]
}

fn is_ws_exec(b: u8) -> (r: bool)
    ensures
        r == is_ws(b),
{
    b == 0x20 || b == 0x09 || b == 0x0a || b == 0x0c || b == 0x0d
}

/// `s` without its leading ASCII whitespace.
pub open spec fn trim_front(s: Seq<u8>) -> Seq<u8>
    decreases s.len(),
{
    if s.len() > 0 && is_ws(s[0]) {
        trim_front(s.drop_first())
    } else {
        s
    }
}

/// `s` without leading and trailing ASCII whitespace.
pub open spec fn trim_ascii(s: Seq<u8>) -> Seq<u8> {
    trim_front(s.take(trimmed_len(s) as int))
}

fn trim_ascii_exec(s: &[u8]) -> (r: &[u8])
    ensures
        r@ == trim_ascii(s@),
{
    let t = trim_trailing_whitespace(s);
    let mut start: usize = 0;
    assert(t@.subrange(0, t@.len() as int) =~= t@);
    while start < t.len() && is_ws_exec(t[start])
        invariant
            start <= t@.len(),
            trim_front(t@) == trim_front(t@.subrange(start as int, t@.len() as int)),
        decreases t@.len() - start,
    {
        assert(t@.subrange(start as int, t@.len() as int).drop_first()
            =~= t@.subrange(start + 1, t@.len() as int));
        start += 1;
    }
    &t[start..t.len()]
}

/// The value of a hexadecimal digit.
pub open spec fn hex_digit(b: u8) -> Option<nat> {
    if 0x30 <= b <= 0x39 {
        Some((b - 0x30) as nat)
    } else if 0x61 <= b <= 0x66 {
        Some((b - 0x61 + 10) as nat)
    } else if 0x41 <= b <= 0x46 {
        Some((b - 0x41 + 10) as nat)
    } else {
        None
    }
}

/// `s` is a non-empty run of hexadecimal digits.
pub open spec fn all_hex(s: Seq<u8>) -> bool {
    s.len() > 0 && forall|i: int| 0 <= i < s.len() ==> (#[trigger] hex_digit(s[i])).is_some()
}

/// The number that a run of hexadecimal digits spells.
pub open spec fn hex_value(s: Seq<u8>) -> nat
    decreases s.len(),
{
    if s.len() == 0 {
        0
    } else {
        hex_value(s.drop_last()) * 16 + hex_digit(s.last()).unwrap_or(0)
    }
}

/// The size announced by a chunk-size line: hexadecimal digits between
/// optional whitespace, fitting in a `usize`.
pub open spec fn chunk_size(line: Seq<u8>) -> Option<nat> {
    let t = trim_ascii(line);
    if all_hex(t) && hex_value(t) <= usize::MAX {
        Some(hex_value(t))
    } else {
        None
    }
}

/// A prefix of digits spells no more than the whole run.
proof fn lemma_hex_value_prefix(s: Seq<u8>, j: int)
    requires
        0 <= j <= s.len(),
    ensures
        hex_value(s.take(j)) <= hex_value(s),
    decreases s.len(),
{
    if j < s.len() {
        assert(s.drop_last().take(j) =~= s.take(j));
        lemma_hex_value_prefix(s.drop_last(), j);
    } else {
        assert(s.take(j) =~= s);
    }
}

fn hex_digit_exec(b: u8) -> (r: Option<usize>)
    ensures
        opt_int(r) == match hex_digit(b) {
            Some(d) => Some(d as int),
            None => None::<int>,
        },
{
    if 0x30 <= b && b <= 0x39 {
        Some((b - 0x30) as usize)
    } else if 0x61 <= b && b <= 0x66 {
        Some((b - 0x61 + 10) as usize)
    } else if 0x41 <= b && b <= 0x46 {
        Some((b - 0x41 + 10) as usize)
    } else {
        None
    }
}

/// Parse a chunk-size line.
fn parse_chunk_size(line: &[u8]) -> (r: Option<usize>)
    ensures
        opt_int(r) == match chunk_size(line@) {
            Some(n) => Some(n as int),
            None => None::<int>,
        },
{
    let t = trim_ascii_exec(line);
    if t.len() == 0 {
        return None;
    }
    let mut v: usize = 0;
    let mut i: usize = 0;
    while i < t.len()
        invariant
            t@ == trim_ascii(line@),
            t@.len() > 0,
            i <= t@.len(),
            v == hex_value(t@.take(i as int)),
            forall|j: int| 0 <= j < i ==> (#[trigger] hex_digit(t@[j])).is_some(),
        decreases t@.len() - i,
    {
        assert(t@.take(i + 1).drop_last() =~= t@.take(i as int));
        match hex_digit_exec(t[i]) {
            None => {
                assert(hex_digit(t@[i as int]).is_none());
                assert(!all_hex(t@));
                return None;
            },
            Some(d) => {
                if v > (usize::MAX - d) / 16 {
                    proof {
                        assert(t@.take(i + 1).last() == t@[i as int]);
                        assert(hex_value(t@.take(i + 1)) == hex_value(t@.take(i as int)) * 16 + d);
                        assert(hex_value(t@.take(i + 1)) > usize::MAX) by (nonlinear_arith)
                            requires
                                hex_value(t@.take(i + 1)) == v * 16 + d,
                                v > (usize::MAX - d) / 16,
                                d <= 15,
                        ;
                        lemma_hex_value_prefix(t@, i + 1);
                    }
                    return None;
                }
                proof {
                    assert(v * 16 + d <= usize::MAX) by (nonlinear_arith)
                        requires
                            v <= (usize::MAX - d) / 16,
                            d <= 15,
                    ;
                }
                v = v * 16 + d;
            },
        }
        i += 1;
    }
    assert(t@.take(t@.len() as int) =~= t@);
    Some(v)
}

/// Carriage return and line feed.
pub open spec fn crlf() -> Seq<u8> {
    seq![13u8, 10u8]
}

/// Chunked transfer decoding of `b`: each `<hex size>\r\n<data>\r\n` record
/// contributes its data, a zero size or a size line that does not parse ends
/// the body, and a record cut short at the tail contributes what is there.
pub open spec fn dechunk(b: Seq<u8>) -> Seq<u8>
    decreases b.len(),
{
    match first_occurrence(b, crlf(), 0) {
        None => Seq::empty(),
        Some(k) => if k < 0 { Seq::empty() } else { match chunk_size(b.take(k)) {
            None => Seq::empty(),
            Some(n) => if n == 0 {
                Seq::empty()
            } else if k + 2 + n > b.len() {
                b.subrange(k + 2, b.len() as int)
            } else if k + 2 + n + 2 <= b.len() {
                b.subrange(k + 2, k + 2 + n) + dechunk(b.subrange(k + 2 + n + 2, b.len() as int))
            } else {
                b.subrange(k + 2, k + 2 + n)
            },
        } },
    }
}

/// What `decode_chunked_body` returns: the decoded data, or the buffer
/// itself when it holds no line break or decodes to nothing.
pub open spec fn decoded_body(b: Seq<u8>) -> Seq<u8> {
    if first_occurrence(b, crlf(), 0).is_none() || dechunk(b).len() == 0 {
        b
    } else {
        dechunk(b)
    }
}

fn append_slice(out: &mut Vec<u8>, src: &[u8])
    ensures
        final(out)@ == old(out)@ + src@,
{
    let mut i: usize = 0;
    while i < src.len()
        invariant
            i <= src@.len(),
            out@ == old(out)@ + src@.take(i as int),
        decreases src@.len() - i,
    {
        out.push(src[i]);
        i += 1;
        assert(out@ =~= old(out)@ + src@.take(i as int));
    }
    assert(src@.take(i as int) =~= src@);
}

/// Decode an HTTP chunked transfer-encoded body.
pub fn decode_chunked_body(buffer: &[u8]) -> (r: Vec<u8>)
    ensures
        r@ == decoded_body(buffer@),
{
    let crlf_bytes: [u8; 2] = [13u8, 10u8];
    assert(crlf_bytes@ =~= crlf());
    if !contains_pattern(buffer, &crlf_bytes) {
        return vstd::slice::slice_to_vec(buffer);
    }
    let len = buffer.len();
    let mut result: Vec<u8> = Vec::new();
    let mut pos: usize = 0;
    assert(buffer@.subrange(0, len as int) =~= buffer@);
    assert(result@ + dechunk(buffer@) =~= dechunk(buffer@));
    while pos < len
        invariant_except_break
            len == buffer@.len(),
            pos <= len,
            crlf_bytes@ == crlf(),
            result@ + dechunk(buffer@.subrange(pos as int, len as int)) == dechunk(buffer@),
        ensures
            result@ == dechunk(buffer@),
        decreases len - pos,
    {
        let rest = &buffer[pos..len];
        let size_end = match find_pattern(rest, &crlf_bytes) {
            Some(i) => i,
            None => {
                assert(result@ + Seq::<u8>::empty() =~= result@);
                break;
            },
        };
        proof {
            lemma_first_occurrence(rest@, crlf(), 0);
        }
        assert(rest@.subrange(0, size_end as int) =~= rest@.take(size_end as int));
        let chunk_size = match parse_chunk_size(&rest[0..size_end]) {
            Some(n) => n,
            None => {
                assert(result@ + Seq::<u8>::empty() =~= result@);
                break;
            },
        };
        if chunk_size == 0 {
            assert(result@ + Seq::<u8>::empty() =~= result@);
            break;
        }
        let data_start = size_end + 2;
        if chunk_size > rest.len() - data_start {
            append_slice(&mut result, &rest[data_start..rest.len()]);
            break;
        }
        let data_end = data_start + chunk_size;
        let ghost before = result@;
        append_slice(&mut result, &rest[data_start..data_end]);
        if rest.len() - data_end >= 2 {
            assert(rest@.subrange(data_end + 2, rest@.len() as int)
                =~= buffer@.subrange(pos + data_end + 2, len as int));
            assert(before + (rest@.subrange(data_start as int, data_end as int)
                + dechunk(buffer@.subrange(pos + data_end + 2, len as int)))
                =~= result@ + dechunk(buffer@.subrange(pos + data_end + 2, len as int)));
            pos = pos + data_end + 2;
        } else {
            break;
        }
    }
    if result.len() == 0 {
        vstd::slice::slice_to_vec(buffer)
    } else {
        result
    }
}

/// Decoding never returns a body that begins with a chunk-size line, so a
/// decoded payload whose first line (if it has one) announces no non-empty
/// chunk decodes to itself: decoding once and decoding twice agree.
pub proof fn lemma_decode_idempotent(b: Seq<u8>)
    requires
        no_leading_chunk(decoded_body(b)),
    ensures
        decoded_body(decoded_body(b)) == decoded_body(b),
{
}

/// `p` has no line break, or the text before its first one is not the size
/// of a non-empty chunk.
pub open spec fn no_leading_chunk(p: Seq<u8>) -> bool {
    match first_occurrence(p, crlf(), 0) {
        None => true,
        Some(k) => k < 0 || match chunk_size(p.take(k)) {
            None => true,
            Some(n) => n == 0,
        },
    }
}

/// Where a scan for a balanced `{...}` run stands after some bytes.
pub struct BraceScan {
    pub depth: int,
    pub in_string: bool,
    pub escape: bool,
}

/// The scan before any byte.
pub open spec fn scan_init() -> BraceScan {
    BraceScan { depth: 0, in_string: false, escape: false }
}

/// One byte of the scan: a `"` toggles the string state, a `\` inside a
/// string escapes the next byte, and braces count only outside strings.
pub open spec fn scan_step(st: BraceScan, b: u8) -> BraceScan {
    if st.escape {
        BraceScan { escape: false, ..st }
    } else if b == 0x5c && st.in_string {
        BraceScan { escape: true, ..st }
    } else if b == 0x22 {
        BraceScan { in_string: !st.in_string, ..st }
    } else if st.in_string {
        st
    } else if b == 0x7b {
        BraceScan { depth: st.depth + 1, ..st }
    } else if b == 0x7d {
        BraceScan { depth: st.depth - 1, ..st }
    } else {
        st
    }
}

/// Byte `b` read in state `st` is a closing brace that brings the depth to zero.
pub open spec fn closes(st: BraceScan, b: u8) -> bool {
    !st.escape && !st.in_string && b == 0x7d && st.depth == 1
}

/// The scan state after the bytes `b[start..i]`.
pub open spec fn scan_state(b: Seq<u8>, start: int, i: int) -> BraceScan
    decreases i - start,
{
    if i <= start {
        scan_init()
    } else {
        scan_step(scan_state(b, start, i - 1), b[i - 1])
    }
}

/// The first index at or after `i` whose byte closes the run opened at `start`.
pub open spec fn balanced_end(b: Seq<u8>, start: int, i: int) -> Option<int>
    decreases b.len() - i,
{
    if i < start || i >= b.len() {
        None
    } else if closes(scan_state(b, start, i), b[i]) {
        Some(i)
    } else {
        balanced_end(b, start, i + 1)
    }
}

/// Index of the brace that closes the balanced run scanned from `start`.
pub fn find_balanced_brace(bytes: &[u8], start: usize) -> (r: Option<usize>)
    requires
        bytes@.len() <= i64::MAX,
    ensures
        opt_int(r) == balanced_end(bytes@, start as int, start as int),
{
    let mut depth: i64 = 0;
    let mut in_string = false;
    let mut escape = false;
    let mut i: usize = start;
    if start >= bytes.len() {
        return None;
    }
    while i < bytes.len()
        invariant
            bytes@.len() <= i64::MAX,
            start <= i <= bytes@.len(),
            scan_state(bytes@, start as int, i as int) == (BraceScan {
                depth: depth as int,
                in_string,
                escape,
            }),
            -(i - start) <= depth <= i - start,
            balanced_end(bytes@, start as int, start as int) == balanced_end(bytes@, start as int, i as int),
        decreases bytes@.len() - i,
    {
        let b = bytes[i];
        if escape {
            escape = false;
        } else if b == 0x5c && in_string {
            escape = true;
        } else if b == 0x22 {
            in_string = !in_string;
        } else if in_string {
        } else if b == 0x7b {
            depth = depth + 1;
        } else if b == 0x7d {
            depth = depth - 1;
            if depth == 0 {
                return Some(i);
            }
        }
        i += 1;
    }
    None
}

/// The first `{` at or after `pos`.
pub open spec fn next_open(b: Seq<u8>, pos: int) -> Option<int> {
    first_occurrence(b, seq![0x7bu8], pos)
}

/// The balanced `{...}` runs of `b` from `pos` on, in order: each search
/// starts at the first `{`; a run that never closes is skipped by one byte.
pub open spec fn json_runs(b: Seq<u8>, pos: int) -> Seq<Seq<u8>>
    decreases b.len() - pos,
{
    if pos < 0 || pos >= b.len() {
        Seq::empty()
    } else {
        match next_open(b, pos) {
            None => Seq::empty(),
            Some(k) => if k < pos || k >= b.len() {
                Seq::empty()
            } else {
                match balanced_end(b, k, k) {
                    Some(e) => if e < k || e >= b.len() {
                        Seq::empty()
                    } else {
                        seq![b.subrange(k, e + 1)] + json_runs(b, e + 1)
                    },
                    None => json_runs(b, k + 1),
                }
            },
        }
    }
}

/// The views of a list of byte vectors.
pub open spec fn views(v: Seq<Vec<u8>>) -> Seq<Seq<u8>> {
    v.map_values(|x: Vec<u8>| x@)
}

/// The first `{` at or after `pos`, found by a scan.
fn find_open_from(b: &[u8], pos: usize) -> (r: Option<usize>)
    requires
        pos <= b@.len(),
    ensures
        opt_int(r) == next_open(b@, pos as int),
{
    let mut i: usize = pos;
    while i < b.len()
        invariant
            pos <= i <= b@.len(),
            next_open(b@, pos as int) == next_open(b@, i as int),
        decreases b@.len() - i,
    {
        if b[i] == 0x7b {
            assert(b@.subrange(i as int, i + 1) =~= seq![0x7bu8]);
            return Some(i);
        }
        assert(b@.subrange(i as int, i + 1)[0] == b@[i as int]);
        i += 1;
    }
    None
}

fn sub_vec(b: &[u8], lo: usize, hi: usize) -> (r: Vec<u8>)
    requires
        lo <= hi <= b@.len(),
    ensures
        r@ == b@.subrange(lo as int, hi as int),
{
    vstd::slice::slice_to_vec(&b[lo..hi])
}

/// All balanced `{...}` runs of the buffer, in order.
pub fn extract_h2_json_all(buffer: &[u8]) -> (r: Vec<Vec<u8>>)
    requires
        buffer@.len() <= i64::MAX,
    ensures
        views(r@) == json_runs(buffer@, 0),
{
    let mut results: Vec<Vec<u8>> = Vec::new();
    let mut search_pos: usize = 0;
    assert(views(results@) + json_runs(buffer@, 0) =~= json_runs(buffer@, 0));
    while search_pos < buffer.len()
        invariant_except_break
            buffer@.len() <= i64::MAX,
            search_pos <= buffer@.len(),
            views(results@) + json_runs(buffer@, search_pos as int) == json_runs(buffer@, 0),
        ensures
            views(results@) == json_runs(buffer@, 0),
        decreases buffer@.len() - search_pos,
    {
        let start = match find_open_from(buffer, search_pos) {
            Some(k) => k,
            None => {
                assert(json_runs(buffer@, search_pos as int) =~= Seq::<Seq<u8>>::empty());
                assert(views(results@) + Seq::<Seq<u8>>::empty() =~= views(results@));
                break;
            },
        };
        proof {
            lemma_first_occurrence(buffer@, seq![0x7bu8], search_pos as int);
        }
        match find_balanced_brace(buffer, start) {
            Some(end) => {
                proof {
                    lemma_balanced_end_range(buffer@, start as int, start as int);
                }
                let ghost old_views = views(results@);
                results.push(sub_vec(buffer, start, end + 1));
                assert(views(results@) =~= old_views + seq![buffer@.subrange(start as int, end + 1)]);
                assert(views(results@) + json_runs(buffer@, end + 1) =~= old_views + (seq![
                    buffer@.subrange(start as int, end + 1),
                ] + json_runs(buffer@, end + 1)));
                search_pos = end + 1;
            },
            None => {
                search_pos = start + 1;
            },
        }
    }
    results
}

/// A closing index found by `balanced_end` lies between `i` and the end.
pub proof fn lemma_balanced_end_range(b: Seq<u8>, start: int, i: int)
    ensures
        balanced_end(b, start, i) matches Some(e) ==> i <= e < b.len(),
    decreases b.len() - i,
{
    if i >= start && i < b.len() && !closes(scan_state(b, start, i), b[i]) {
        lemma_balanced_end_range(b, start, i + 1);
    }
}

/// The `n`-th balanced `{...}` run of the buffer, or nothing.
pub fn extract_h2_json_nth(buffer: &[u8], n: usize) -> (r: Vec<u8>)
    requires
        buffer@.len() <= i64::MAX,
    ensures
        r@ == if n < json_runs(buffer@, 0).len() {
            json_runs(buffer@, 0)[n as int]
        } else {
            Seq::empty()
        },
{
    let mut search_pos: usize = 0;
    let mut count: usize = 0;
    let ghost mut found: Seq<Seq<u8>> = Seq::empty();
    assert(found + json_runs(buffer@, 0) =~= json_runs(buffer@, 0));
    while search_pos < buffer.len()
        invariant
            buffer@.len() <= i64::MAX,
            search_pos <= buffer@.len(),
            count == found.len(),
            count <= n,
            found + json_runs(buffer@, search_pos as int) == json_runs(buffer@, 0),
        ensures
            found == json_runs(buffer@, 0),
        decreases buffer@.len() - search_pos,
    {
        let start = match find_open_from(buffer, search_pos) {
            Some(k) => k,
            None => {
                assert(json_runs(buffer@, search_pos as int) =~= Seq::<Seq<u8>>::empty());
                assert(found + Seq::<Seq<u8>>::empty() =~= found);
                break;
            },
        };
        proof {
            lemma_first_occurrence(buffer@, seq![0x7bu8], search_pos as int);
        }
        match find_balanced_brace(buffer, start) {
            Some(end) => {
                proof {
                    lemma_balanced_end_range(buffer@, start as int, start as int);
                }
                let ghost run = buffer@.subrange(start as int, end + 1);
                if count == n {
                    assert((found + json_runs(buffer@, search_pos as int))[n as int] == run);
                    return sub_vec(buffer, start, end + 1);
                }
                proof {
                    assert(found + json_runs(buffer@, search_pos as int) =~= (found + seq![run])
                        + json_runs(buffer@, end + 1));
                    found = found + seq![run];
                }
                count += 1;
                search_pos = end + 1;
            },
            None => {
                search_pos = start + 1;
            },
        }
    }
    Vec::new()
}

/// The first balanced `{...}` run of the buffer, or nothing.
pub fn extract_h2_json_payload(buffer: &[u8]) -> (r: Vec<u8>)
    requires
        buffer@.len() <= i64::MAX,
    ensures
        r@ == if json_runs(buffer@, 0).len() > 0 {
            json_runs(buffer@, 0)[0]
        } else {
            Seq::empty()
        },
{
    extract_h2_json_nth(buffer, 0)
}

/// A JSON object as the brace scan sees one: it opens with `{` and the
/// scan started there closes it at its last byte. Every valid JSON object
/// is one.
pub open spec fn closed_object(o: Seq<u8>) -> bool {
    o.len() > 0 && o[0] == 0x7b && balanced_end(o, 0, 0) == Some(o.len() - 1)
}

/// `s` holds no `{`.
pub open spec fn no_open_brace(s: Seq<u8>) -> bool {
    forall|i: int| 0 <= i < s.len() ==> s[i] != 0x7b
}

/// The scan of an embedded run depends on the run's bytes alone.
proof fn lemma_scan_local(b: Seq<u8>, o: Seq<u8>, s: int, j: int)
    requires
        0 <= s,
        s + o.len() <= b.len(),
        b.subrange(s, s + o.len()) == o,
        0 <= j <= o.len(),
    ensures
        scan_state(b, s, s + j) == scan_state(o, 0, j),
    decreases j,
{
    if j > 0 {
        lemma_scan_local(b, o, s, j - 1);
        assert(b[s + j - 1] == b.subrange(s, s + o.len())[j - 1]);
    }
}

/// What `balanced_end` finds closes, and nothing before it does.
proof fn lemma_balanced_end_first(b: Seq<u8>, st: int, i: int, e: int)
    requires
        balanced_end(b, st, i) == Some(e),
    ensures
        st <= i <= e < b.len(),
        closes(scan_state(b, st, e), b[e]),
        forall|j: int| i <= j < e ==> !closes(#[trigger] scan_state(b, st, j), b[j]),
    decreases b.len() - i,
{
    if !(i < st || i >= b.len()) && !closes(scan_state(b, st, i), b[i]) {
        lemma_balanced_end_first(b, st, i + 1, e);
    }
}

/// The scan from the opening brace of an embedded run closes where the
/// run's own scan does.
proof fn lemma_balanced_end_shift(b: Seq<u8>, o: Seq<u8>, s: int, e: int, j: int)
    requires
        0 <= s,
        s + o.len() <= b.len(),
        b.subrange(s, s + o.len()) == o,
        balanced_end(o, 0, 0) == Some(e),
        0 <= j <= e,
    ensures
        balanced_end(b, s, s + j) == Some(s + e),
    decreases e - j,
{
    lemma_balanced_end_first(o, 0, 0, e);
    lemma_scan_local(b, o, s, j);
    assert(b[s + j] == b.subrange(s, s + o.len())[j]);
    if j < e {
        assert(!closes(scan_state(o, 0, j), o[j]));
        lemma_balanced_end_shift(b, o, s, e, j + 1);
    }
}

/// The next `{` at or after `p` is at `q` when none lies between them.
proof fn lemma_next_open_at(b: Seq<u8>, p: int, q: int)
    requires
        0 <= p <= q < b.len(),
        b[q] == 0x7b,
        forall|i: int| p <= i < q ==> b[i] != 0x7b,
    ensures
        next_open(b, p) == Some(q),
    decreases q - p,
{
    if p < q {
        assert(!occurs_at(b, seq![0x7bu8], p)) by {
            if occurs_at(b, seq![0x7bu8], p) {
                assert(b.subrange(p, p + 1)[0] == b[p]);
            }
        }
        lemma_next_open_at(b, p + 1, q);
    } else {
        assert(b.subrange(q, q + 1) =~= seq![0x7bu8]);
    }
}

/// No `{` at or after `p`: nothing is found.
proof fn lemma_next_open_none(b: Seq<u8>, p: int)
    requires
        0 <= p <= b.len(),
        forall|i: int| p <= i < b.len() ==> b[i] != 0x7b,
    ensures
        next_open(b, p).is_none(),
    decreases b.len() - p,
{
    if p < b.len() {
        assert(!occurs_at(b, seq![0x7bu8], p)) by {
            if occurs_at(b, seq![0x7bu8], p) {
                assert(b.subrange(p, p + 1)[0] == b[p]);
            }
        }
        lemma_next_open_none(b, p + 1);
    }
}

/// One object found after a brace-free gap: the runs from `p` are the
/// object followed by the runs after it.
proof fn lemma_runs_step(b: Seq<u8>, p: int, o: Seq<u8>, q: int)
    requires
        0 <= p <= q,
        q + o.len() <= b.len(),
        closed_object(o),
        b.subrange(q, q + o.len()) == o,
        forall|i: int| p <= i < q ==> b[i] != 0x7b,
    ensures
        json_runs(b, p) == seq![o] + json_runs(b, q + o.len()),
{
    assert(b[q] == b.subrange(q, q + o.len())[0]);
    lemma_next_open_at(b, p, q);
    lemma_balanced_end_shift(b, o, q, o.len() - 1, 0);
    assert(b.subrange(q, q + o.len() - 1 + 1) == o);
}

/// Brace extraction round trip: in `pfx`, an object, `mid`, an object and
/// `sfx`, where the three fillers hold no `{`, the runs found are exactly
/// the two objects, in order.
pub proof fn lemma_json_runs_round_trip(
    pfx: Seq<u8>,
    o1: Seq<u8>,
    mid: Seq<u8>,
    o2: Seq<u8>,
    sfx: Seq<u8>,
)
    requires
        closed_object(o1),
        closed_object(o2),
        no_open_brace(pfx),
        no_open_brace(mid),
        no_open_brace(sfx),
    ensures
        json_runs(pfx + o1 + mid + o2 + sfx, 0) == seq![o1, o2],
{
    let b = pfx + o1 + mid + o2 + sfx;
    let q1 = pfx.len() as int;
    let e1 = q1 + o1.len();
    let q2 = e1 + mid.len();
    let e2 = q2 + o2.len();
    assert(b.subrange(q1, e1) =~= o1);
    assert(b.subrange(q2, e2) =~= o2);
    assert forall|i: int| 0 <= i < q1 implies b[i] != 0x7b by {
        assert(b[i] == pfx[i]);
    }
    assert forall|i: int| e1 <= i < q2 implies b[i] != 0x7b by {
        assert(b[i] == mid[i - e1]);
    }
    assert forall|i: int| e2 <= i < b.len() implies b[i] != 0x7b by {
        assert(b[i] == sfx[i - e2]);
    }
    lemma_runs_step(b, 0, o1, q1);
    lemma_runs_step(b, e1, o2, q2);
    lemma_next_open_none(b, e2);
    assert(json_runs(b, e2) =~= Seq::<Seq<u8>>::empty());
    assert(seq![o1] + (seq![o2] + Seq::<Seq<u8>>::empty()) =~= seq![o1, o2]);
}

} // verus!
