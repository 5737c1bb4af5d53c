//! The two LLM protocol dissectors, HTTP/1.1 and HTTP/2: detecting a
//! request, recovering its text, and reading usage from a response.

use vstd::prelude::*;
use vstd::string::*;
use crate::http_bytes::{
    decode_chunked_body, decoded_body, find_pattern, first_occurrence, json_runs, trimmed_len,
    trim_trailing_whitespace, extract_h2_json_all, views, lemma_first_occurrence, };
use crate::json::{utf8_lossy, lossy_text, json_member, json_is_null, json_get, json_null};
use vstd::utf8::encode_utf8;
use crate::providers::{ProviderRegistry, ProviderView, first_provider};
use crate::text::{
    has_infix, has_prefix, contains_str, starts_with_str, str_eq, index_of, find_char,
    lemma_index_range, first_infix, lemma_first_infix, find_str_from, trim_start, trim_start_str,
    trim, trim_str,
};
use crate::usage::{
    UsageInfo, UsageView, opt_usage, response_usage, parse_response_json, request_text_of,
    extract_request_text,
};

verus! {

/// Name for what `httparse` reads from the head of an HTTP request: its
/// path and its headers (name, value read as UTF-8 with replacement), when
/// the request line parses and the head is complete or cut short.
pub uninterp spec fn http_request_head(b: Seq<u8>) -> Option<(Seq<char>, Seq<(Seq<char>, Seq<char>)>)>;

/// Name for what `httparse` reads from a complete HTTP response head: the
/// offset of the body and the headers.
pub uninterp spec fn http_response_head(b: Seq<u8>) -> Option<(nat, Seq<(Seq<char>, Seq<char>)>)>;

/// Name for what `flate2`'s gzip decoder makes of `b`: the decompressed
/// bytes, or nothing when `b` is not a whole gzip stream.
pub uninterp spec fn gunzip_of(b: Seq<u8>) -> Option<Seq<u8>>;

/// Headers as plain values.
pub open spec fn header_views(hs: Seq<(String, String)>) -> Seq<(Seq<char>, Seq<char>)> {
    hs.map_values(|h: (String, String)| (h.0@, h.1@))
}

/// Relies on `httparse::Request::parse` with room for 64 headers.
#[verifier::external_body]
fn parse_request_head(buf: &[u8]) -> (r: Option<(String, Vec<(String, String)>)>)
    ensures
        match r {
            Some((p, hs)) => http_request_head(buf@) == Some((p@, header_views(hs@))),
            None => http_request_head(buf@).is_none(),
        },
{
    let mut headers = [httparse::EMPTY_HEADER; 64];
    let mut req = httparse::Request::new(&mut headers);
    req.parse(buf).ok()?;
    let path = req.path?.to_string();
    let hs = req.headers.iter().map(|h| (h.name.to_string(), String::from_utf8_lossy(h.value).into_owned()));
    Some((path, hs.collect()))
}

/// Relies on `httparse::Response::parse` with room for 64 headers; only a
/// complete head counts.
#[verifier::external_body]
fn parse_response_head(buf: &[u8]) -> (r: Option<(usize, Vec<(String, String)>)>)
    ensures
        match r {
            Some((n, hs)) => http_response_head(buf@) == Some((n as nat, header_views(hs@))) && n
                <= buf@.len(),
            None => http_response_head(buf@).is_none(),
        },
{
    let mut headers = [httparse::EMPTY_HEADER; 64];
    let mut resp = httparse::Response::new(&mut headers);
    let n = match resp.parse(buf) {
        Ok(httparse::Status::Complete(n)) => n,
        _ => return None,
    };
    let hs = resp.headers.iter().map(|h| (h.name.to_string(), String::from_utf8_lossy(h.value).into_owned()));
    Some((n, hs.collect()))
}

/// Relies on `flate2::read::GzDecoder` read to the end.
#[verifier::external_body]
fn gunzip(data: &[u8]) -> (r: Option<Vec<u8>>)
    ensures
        match r {
            Some(v) => gunzip_of(data@) == Some(v@),
            None => gunzip_of(data@).is_none(),
        },
{
    let mut out = Vec::new();
    std::io::Read::read_to_end(&mut flate2::read::GzDecoder::new(data), &mut out).ok()?;
    Some(out)
}

/// A character compared without regard to ASCII case.
pub open spec fn fold_case(c: char) -> int {
    if 'A' <= c && c <= 'Z' {
        (c as int) + 32
    } else {
        c as int
    }
}

/// Two names equal without regard to ASCII case.
pub open spec fn eq_ignore_case(a: Seq<char>, b: Seq<char>) -> bool {
    a.len() == b.len() && forall|i: int| 0 <= i < a.len() ==> fold_case(#[trigger] a[i]) == fold_case(b[i])
}

fn eq_ignore_case_exec(a: &str, b: &str) -> (r: bool)
    ensures
        r == eq_ignore_case(a@, b@),
{
    let n = a.unicode_len();
    if n != b.unicode_len() {
        return false;
    }
    let mut i: usize = 0;
    while i < n
        invariant
            n == a@.len(),
            n == b@.len(),
            i <= n,
            forall|j: int| 0 <= j < i ==> fold_case(#[trigger] a@[j]) == fold_case(b@[j]),
        decreases n - i,
    {
        let x = a.get_char(i);
        let y = b.get_char(i);
        let fx: u32 = if 'A' <= x && x <= 'Z' { (x as u32) + 32 } else { x as u32 };
        let fy: u32 = if 'A' <= y && y <= 'Z' { (y as u32) + 32 } else { y as u32 };
        if fx != fy {
            return false;
        }
        i += 1;
    }
    true
}

/// Some header named `name` (in any case) has a value holding `needle`.
pub open spec fn header_has(hs: Seq<(Seq<char>, Seq<char>)>, name: Seq<char>, needle: Seq<char>) -> bool {
    exists|i: int| 0 <= i < hs.len() && eq_ignore_case(#[trigger] hs[i].0, name) && has_infix(hs[i].1, needle)
}

fn header_has_exec(hs: &Vec<(String, String)>, name: &str, needle: &str) -> (r: bool)
    ensures
        r == header_has(header_views(hs@), name@, needle@),
{
    let mut i: usize = 0;
    while i < hs.len()
        invariant
            i <= hs@.len(),
            forall|j: int| 0 <= j < i ==> !(eq_ignore_case(#[trigger] header_views(hs@)[j].0, name@)
                && has_infix(header_views(hs@)[j].1, needle@)),
        decreases hs@.len() - i,
    {
        assert(header_views(hs@)[i as int] == (hs@[i as int].0@, hs@[i as int].1@));
        if eq_ignore_case_exec(hs[i].0.as_str(), name) && contains_str(hs[i].1.as_str(), needle) {
            assert(eq_ignore_case(header_views(hs@)[i as int].0, name@) && has_infix(
                header_views(hs@)[i as int].1,
                needle@,
            ));
            return true;
        }
        i += 1;
    }
    false
}

/// The value of the first header named `name` (in any case), or nothing.
pub open spec fn header_value(hs: Seq<(Seq<char>, Seq<char>)>, name: Seq<char>, i: int) -> Seq<char>
    decreases hs.len() - i,
{
    if i < 0 || i >= hs.len() {
        Seq::empty()
    } else if eq_ignore_case(hs[i].0, name) {
        hs[i].1
    } else {
        header_value(hs, name, i + 1)
    }
}

fn header_value_exec(hs: &Vec<(String, String)>, name: &str) -> (r: String)
    ensures
        r@ == header_value(header_views(hs@), name@, 0),
{
    let mut i: usize = 0;
    while i < hs.len()
        invariant
            i <= hs@.len(),
            header_value(header_views(hs@), name@, 0) == header_value(header_views(hs@), name@, i as int),
        decreases hs@.len() - i,
    {
        assert(header_views(hs@)[i as int] == (hs@[i as int].0@, hs@[i as int].1@));
        if eq_ignore_case_exec(hs[i].0.as_str(), name) {
            return hs[i].1.clone();
        }
        i += 1;
    }
    String::new()
}

/// The path of an HTTP/1.1 request whose host and path some provider
/// claims.
pub open spec fn h1_detect(ps: Seq<ProviderView>, b: Seq<u8>) -> Option<Seq<char>> {
    match http_request_head(b) {
        Some((path, hs)) => if first_provider(ps, header_value(hs, "host"@, 0), path, 0).is_some() {
            Some(path)
        } else {
            None
        },
        None => None,
    }
}

/// A request body that opens with an HTTP/1 method.
pub open spec fn starts_with_method(b: Seq<u8>) -> bool {
    let pre = b.take(if b.len() < 10 { b.len() as int } else { 10 });
    has_prefix_bytes(pre, seq![71u8, 69, 84, 32]) || has_prefix_bytes(pre, seq![80u8, 79, 83, 84, 32])
        || has_prefix_bytes(pre, seq![80u8, 85, 84, 32]) || has_prefix_bytes(
        pre,
        seq![68u8, 69, 76, 69, 84, 69, 32],
    ) || has_prefix_bytes(pre, seq![80u8, 65, 84, 67, 72, 32]) || has_prefix_bytes(
        pre,
        seq![72u8, 69, 65, 68, 32],
    )
}

/// `b` starts with `p`.
pub open spec fn has_prefix_bytes(b: Seq<u8>, p: Seq<u8>) -> bool {
    p.len() <= b.len() && b.take(p.len() as int) == p
}

/// The JSON keys that mark an LLM request body: `"messages"`,
/// `"contents"`, `"prompt"` and `"model"`, quotes included.
pub open spec fn llm_keys() -> Seq<Seq<u8>> {
    seq![seq![34u8, 109u8, 101u8, 115u8, 115u8, 97u8, 103u8, 101u8, 115u8, 34u8], seq![34u8, 99u8, 111u8, 110u8, 116u8, 101u8, 110u8, 116u8, 115u8, 34u8], seq![34u8, 112u8, 114u8, 111u8, 109u8, 112u8, 116u8, 34u8], seq![34u8, 109u8, 111u8, 100u8, 101u8, 108u8, 34u8]]
}

/// Some LLM request key occurs in `b`.
pub open spec fn has_llm_key(b: Seq<u8>) -> bool {
    exists|i: int| 0 <= i < llm_keys().len() && first_occurrence(b, #[trigger] llm_keys()[i], 0).is_some()
}

/// The character that an escape `\c` stands for.
pub open spec fn unescape(c: char) -> char {
    if c == 'n' {
        '\n'
    } else if c == 't' {
        '\t'
    } else {
        c
    }
}

/// A JSON string body read up to its closing quote, with `\n`, `\t` and
/// `\c` escapes undone; a string cut short yields what was read, if anything.
pub open spec fn json_string_from(s: Seq<char>, i: int, acc: Seq<char>, esc: bool) -> Option<Seq<char>>
    decreases s.len() - i,
{
    if i < 0 || i >= s.len() {
        if acc.len() > 0 { Some(acc) } else { None }
    } else if esc {
        json_string_from(s, i + 1, acc.push(unescape(s[i])), false)
    } else if s[i] == '\\' {
        json_string_from(s, i + 1, acc, true)
    } else if s[i] == '"' {
        Some(acc)
    } else {
        json_string_from(s, i + 1, acc.push(s[i]), false)
    }
}

/// Read a JSON string body that starts right after its opening quote.
pub fn extract_json_string(s: &str) -> (r: Option<String>)
    ensures
        opt_chars_of(r) == json_string_from(s@, 0, Seq::empty(), false),
{
    let n = s.unicode_len();
    let mut out = String::new();
    let mut escape = false;
    let mut i: usize = 0;
    while i < n
        invariant
            n == s@.len(),
            i <= n,
            json_string_from(s@, 0, Seq::empty(), false) == json_string_from(s@, i as int, out@, escape),
        decreases n - i,
    {
        let c = s.get_char(i);
        let ghost old_out = out@;
        if escape {
            let u = if c == 'n' { "\n" } else if c == 't' { "\t" } else if c == '"' { "\"" } else if c == '\\' { "\\" } else { s.substring_char(i, i + 1) };
            proof {
                reveal_strlit("\n");
                reveal_strlit("\t");
                reveal_strlit("\"");
                reveal_strlit("\\");
            }
            assert(u@ =~= seq![unescape(c)]);
            out.append(u);
            assert(out@ =~= old_out.push(unescape(c)));
            escape = false;
        } else if c == '\\' {
            escape = true;
        } else if c == '"' {
            return Some(out);
        } else {
            out.append(s.substring_char(i, i + 1));
            assert(s@.subrange(i as int, i + 1) =~= seq![c]);
            assert(out@ =~= old_out.push(c));
        }
        i += 1;
    }
    if out.as_str().unicode_len() > 0 {
        Some(out)
    } else {
        None
    }
}

/// The characters of an optional string.
pub open spec fn opt_chars_of(r: Option<String>) -> Option<Seq<char>> {
    match r {
        Some(v) => Some(v@),
        None => None,
    }
}

/// The text after one `"key":` occurrence: a string value of more than
/// ten bytes, as a list of zero or one items.
pub open spec fn value_text(rest: Seq<char>) -> Seq<Seq<char>> {
    let r = trim_start(rest);
    if r.len() > 0 && r[0] == '"' {
        match json_string_from(r.drop_first(), 0, Seq::empty(), false) {
            Some(t) => if encode_utf8(t).len() > 10 { seq![t] } else { Seq::empty() },
            None => Seq::empty(),
        }
    } else {
        Seq::empty()
    }
}

/// The long string values after each occurrence of `pat` in `json`, from `pos` on.
pub open spec fn pattern_texts(json: Seq<char>, pat: Seq<char>, pos: int) -> Seq<Seq<char>>
    decreases json.len() + 1 - pos,
{
    if pat.len() == 0 {
        Seq::empty()
    } else {
        match first_infix(json, pat, pos) {
            None => Seq::empty(),
            Some(k) => if k < pos || k + pat.len() > json.len() {
                Seq::empty()
            } else {
                value_text(json.subrange(k + pat.len(), json.len() as int)) + pattern_texts(
                    json,
                    pat,
                    k + pat.len(),
                )
            },
        }
    }
}

/// Text recovered from a request body that is not whole JSON: the long
/// string values of every `"text":` member, then of every `"content":` one.
pub open spec fn incomplete_texts(json: Seq<char>) -> Seq<Seq<char>> {
    pattern_texts(json, "\"text\":"@, 0) + pattern_texts(json, "\"content\":"@, 0)
}

fn push_pattern_texts(out: &mut Vec<String>, json: &str, pat: &str)
    requires
        pat@.len() > 0,
    ensures
        chars_list(final(out)@) == chars_list(old(out)@) + pattern_texts(json@, pat@, 0),
{
    let n = json.unicode_len();
    let pl = pat.unicode_len();
    let mut pos: usize = 0;
    assert(chars_list(out@) =~= chars_list(old(out)@) + Seq::<Seq<char>>::empty());
    loop
        invariant
            n == json@.len(),
            pl == pat@.len(),
            pl > 0,
            pos <= n,
            chars_list(out@) + pattern_texts(json@, pat@, pos as int) == chars_list(old(out)@)
                + pattern_texts(json@, pat@, 0),
        decreases n + 1 - pos,
    {
        let idx = match find_str_from(json, pat, pos) {
            Some(k) => k,
            None => {
                assert(chars_list(out@) + Seq::<Seq<char>>::empty() =~= chars_list(out@));
                return;
            },
        };
        proof {
            lemma_first_infix(json@, pat@, pos as int);
        }
        let start = idx + pl;
        let rest = trim_start_str(json.substring_char(start, n));
        let ghost before = chars_list(out@);
        let ghost vt = value_text(json@.subrange(start as int, n as int));
        if rest.unicode_len() > 0 && rest.get_char(0) == '"' {
            let m = rest.unicode_len();
            match extract_json_string(rest.substring_char(1, m)) {
                Some(t) => {
                    assert(rest@.subrange(1, m as int) =~= rest@.drop_first());
                    assert(rest@ == trim_start(json@.subrange(start as int, n as int)));
                    let tl = t.as_str().as_bytes().len();
                    if tl > 10 {
                        assert(vt == seq![t@]);
                        out.push(t);
                        assert(chars_list(out@) =~= before + vt);
                    } else {
                        assert(encode_utf8(t@).len() <= 10);
                        assert(vt =~= Seq::<Seq<char>>::empty());
                        assert(chars_list(out@) =~= before + vt);
                    }
                },
                None => {
                    assert(rest@.subrange(1, m as int) =~= rest@.drop_first());
                    assert(chars_list(out@) =~= before + vt);
                },
            }
        } else {
            assert(chars_list(out@) =~= before + vt);
        }
        assert(chars_list(out@) + pattern_texts(json@, pat@, start as int) =~= before + (vt
            + pattern_texts(json@, pat@, start as int)));
        pos = start;
    }
}

/// The characters of a list of strings.
pub open spec fn chars_list(v: Seq<String>) -> Seq<Seq<char>> {
    v.map_values(|s: String| s@)
}

/// Text recovered from a request body that is not whole JSON, joined with spaces.
pub fn extract_text_from_incomplete_json(json: &str) -> (r: String)
    ensures
        r@ == crate::usage::join_spaced(incomplete_texts(json@)),
{
    let mut texts: Vec<String> = Vec::new();
    proof {
        reveal_strlit("\"text\":");
        reveal_strlit("\"content\":");
    }
    assert(chars_list(texts@) =~= Seq::<Seq<char>>::empty());
    push_pattern_texts(&mut texts, json, "\"text\":");
    push_pattern_texts(&mut texts, json, "\"content\":");
    assert(chars_list(texts@) =~= incomplete_texts(json@));
    assert(crate::usage::chars_of(texts@) =~= chars_list(texts@));
    crate::usage::join_with_spaces(&texts)
}

/// The request text of the first provider, from `i` on, that finds some.
pub open spec fn first_text(ps: Seq<ProviderView>, doc: Seq<u8>, i: int) -> Option<Seq<char>>
    decreases ps.len() - i,
{
    if i < 0 || i >= ps.len() {
        None
    } else if request_text_of(ps[i].request_extractor, doc).len() > 0 {
        Some(request_text_of(ps[i].request_extractor, doc))
    } else {
        first_text(ps, doc, i + 1)
    }
}

/// The user text of a request body: what the first provider's extractor
/// finds in it, or else what can be read from it as cut-short JSON.
pub open spec fn text_from_json(ps: Seq<ProviderView>, json: Seq<char>) -> Seq<char> {
    match first_text(ps, encode_utf8(json), 0) {
        Some(t) => t,
        None => crate::usage::join_spaced(incomplete_texts(json)),
    }
}

/// The user text of a request body.
pub fn extract_text_from_json(reg: &ProviderRegistry, json: &str) -> (r: String)
    ensures
        r@ == text_from_json(reg@, json@),
{
    let doc = json.as_bytes();
    let mut i: usize = 0;
    while i < reg.providers.len()
        invariant
            i <= reg.providers@.len(),
            reg@.len() == reg.providers@.len(),
            doc@ == encode_utf8(json@),
            first_text(reg@, doc@, 0) == first_text(reg@, doc@, i as int),
        decreases reg.providers@.len() - i,
    {
        assert(reg@[i as int] == reg.providers@[i as int]@);
        let t = extract_request_text(&reg.providers[i].request_extractor, doc);
        if t.as_str().unicode_len() > 0 {
            return t;
        }
        i += 1;
    }
    extract_text_from_incomplete_json(json)
}

/// Where the body of an HTTP/1.1 request starts: after its blank line, or at 0.
pub open spec fn h1_body_start(b: Seq<u8>) -> int {
    match first_occurrence(b, seq![13u8, 10, 13, 10], 0) {
        Some(i) => i + 4,
        None => 0,
    }
}

/// The user text of an HTTP/1.1 request: the text of its body.
pub open spec fn h1_text(ps: Seq<ProviderView>, b: Seq<u8>) -> Seq<char> {
    text_from_json(ps, utf8_lossy(b.subrange(h1_body_start(b), b.len() as int)))
}

/// The user text of the first JSON run that yields some, from `i` on.
pub open spec fn first_run_text(ps: Seq<ProviderView>, runs: Seq<Seq<u8>>, i: int) -> Option<Seq<char>>
    decreases runs.len() - i,
{
    if i < 0 || i >= runs.len() {
        None
    } else if text_from_json(ps, utf8_lossy(runs[i])).len() > 0 {
        Some(text_from_json(ps, utf8_lossy(runs[i])))
    } else {
        first_run_text(ps, runs, i + 1)
    }
}

/// The user text of an HTTP/2 request: that of its first JSON run that
/// yields some, or else of all of it.
pub open spec fn h2_text(ps: Seq<ProviderView>, b: Seq<u8>) -> Seq<char> {
    match first_run_text(ps, json_runs(b, 0), 0) {
        Some(t) => t,
        None => text_from_json(ps, utf8_lossy(b)),
    }
}

/// Whether a path pattern of some provider occurs in `t`.
pub open spec fn llm_path(ps: Seq<ProviderView>, t: Seq<char>) -> bool {
    exists|i: int, j: int| 0 <= i < ps.len() && 0 <= j < ps[i].paths.len() && has_infix(t, #[trigger] ps[i].paths[j])
}

/// What HTTP/2 detection reports: nothing for a buffer that opens with an
/// HTTP/1 method, else a body holding an LLM key, else a provider path.
pub open spec fn h2_detect(ps: Seq<ProviderView>, b: Seq<u8>) -> Option<Seq<char>> {
    if starts_with_method(b) {
        None
    } else if has_llm_key(b) {
        Some("h2_body_detected"@)
    } else if llm_path(ps, utf8_lossy(b)) {
        Some("h2_path_detected"@)
    } else {
        None
    }
}

fn has_prefix_bytes_exec(b: &[u8], p: &[u8]) -> (r: bool)
    ensures
        r == has_prefix_bytes(b@, p@),
{
    if p.len() > b.len() {
        return false;
    }
    let mut i: usize = 0;
    while i < p.len()
        invariant
            p@.len() <= b@.len(),
            i <= p@.len(),
            forall|j: int| 0 <= j < i ==> b@[j] == p@[j],
        decreases p@.len() - i,
    {
        if b[i] != p[i] {
            assert(b@.take(p@.len() as int)[i as int] != p@[i as int]);
            return false;
        }
        i += 1;
    }
    assert(b@.take(p@.len() as int) =~= p@);
    true
}

fn starts_with_method_exec(b: &[u8]) -> (r: bool)
    ensures
        r == starts_with_method(b@),
{
    let n: usize = if b.len() < 10 { b.len() } else { 10 };
    let pre = &b[0..n];
    assert(pre@ =~= b@.take(n as int));
    let get: [u8; 4] = [71u8, 69, 84, 32];
    let post: [u8; 5] = [80u8, 79, 83, 84, 32];
    let put: [u8; 4] = [80u8, 85, 84, 32];
    let delete: [u8; 7] = [68u8, 69, 76, 69, 84, 69, 32];
    let patch: [u8; 6] = [80u8, 65, 84, 67, 72, 32];
    let head: [u8; 5] = [72u8, 69, 65, 68, 32];
    assert(get@ =~= seq![71u8, 69, 84, 32]);
    assert(post@ =~= seq![80u8, 79, 83, 84, 32]);
    assert(put@ =~= seq![80u8, 85, 84, 32]);
    assert(delete@ =~= seq![68u8, 69, 76, 69, 84, 69, 32]);
    assert(patch@ =~= seq![80u8, 65, 84, 67, 72, 32]);
    assert(head@ =~= seq![72u8, 69, 65, 68, 32]);
    has_prefix_bytes_exec(pre, &get) || has_prefix_bytes_exec(pre, &post) || has_prefix_bytes_exec(
        pre,
        &put,
    ) || has_prefix_bytes_exec(pre, &delete) || has_prefix_bytes_exec(pre, &patch)
        || has_prefix_bytes_exec(pre, &head)
}

fn has_llm_key_exec(b: &[u8]) -> (r: bool)
    ensures
        r == has_llm_key(b@),
{
    let k0: [u8; 10] = [34u8, 109, 101, 115, 115, 97, 103, 101, 115, 34];
    let k1: [u8; 10] = [34u8, 99, 111, 110, 116, 101, 110, 116, 115, 34];
    let k2: [u8; 8] = [34u8, 112, 114, 111, 109, 112, 116, 34];
    let k3: [u8; 7] = [34u8, 109, 111, 100, 101, 108, 34];
    assert(k0@ =~= llm_keys()[0]);
    assert(k1@ =~= llm_keys()[1]);
    assert(k2@ =~= llm_keys()[2]);
    assert(k3@ =~= llm_keys()[3]);
    let r = crate::http_bytes::contains_pattern(b, &k0) || crate::http_bytes::contains_pattern(b, &k1)
        || crate::http_bytes::contains_pattern(b, &k2) || crate::http_bytes::contains_pattern(b, &k3);
    proof {
        if has_llm_key(b@) {
            let i = choose|i: int| 0 <= i < llm_keys().len() && first_occurrence(b@, #[trigger] llm_keys()[i], 0).is_some();
            assert(i == 0 || i == 1 || i == 2 || i == 3);
        }
    }
    r
}

/// A server-sent-events data line carries a non-null `usage` member.
pub open spec fn sse_has_usage(data: Seq<u8>) -> bool {
    match json_member(data, "usage"@) {
        Some(m) => !json_is_null(m),
        None => false,
    }
}

/// One line of an event stream: `Err` stops the scan with the usage so far;
/// `Ok` carries the usage on to the next line.
pub open spec fn sse_line(ps: Seq<ProviderView>, line: Seq<char>, acc: Option<UsageView>) -> Result<Option<UsageView>, Option<UsageView>> {
    let l = trim(line);
    if !has_prefix(l, "data: "@) {
        Ok(acc)
    } else {
        let d = l.subrange(6, l.len() as int);
        if d == "[DONE]"@ {
            Err(acc)
        } else if sse_has_usage(encode_utf8(d)) {
            match response_usage(ps, encode_utf8(d)) {
                Some(u) => Ok(Some(u)),
                None => Ok(acc),
            }
        } else {
            Ok(acc)
        }
    }
}

/// The usage of the last usage-bearing data line of an event stream,
/// before any `data: [DONE]`.
pub open spec fn sse_scan(ps: Seq<ProviderView>, t: Seq<char>, acc: Option<UsageView>) -> Option<UsageView>
    decreases t.len(),
{
    if t.len() == 0 {
        acc
    } else {
        match index_of(t, '\n', 0) {
            Some(k) => if 0 <= k < t.len() {
                match sse_line(ps, t.take(k), acc) {
                    Ok(a) => sse_scan(ps, t.subrange(k + 1, t.len() as int), a),
                    Err(a) => a,
                }
            } else {
                acc
            },
            None => match sse_line(ps, t, acc) {
                Ok(a) => a,
                Err(a) => a,
            },
        }
    }
}

/// The usage of an event-stream body; a stream with neither a
/// `data: [DONE]` line nor a `"finish_reason"` is not yet complete.
pub open spec fn sse_usage(ps: Seq<ProviderView>, body: Seq<u8>) -> Option<UsageView> {
    let t = utf8_lossy(body);
    if !has_infix(t, "data: [DONE]"@) && !has_infix(t, "\"finish_reason\""@) {
        None
    } else {
        sse_scan(ps, t, None)
    }
}

fn sse_line_exec(reg: &ProviderRegistry, line: &str, acc: Option<UsageInfo>) -> (r: Result<Option<UsageInfo>, Option<UsageInfo>>)
    ensures
        match r {
            Ok(a) => sse_line(reg@, line@, opt_usage(acc)) == Ok::<Option<UsageView>, Option<UsageView>>(opt_usage(a)),
            Err(a) => sse_line(reg@, line@, opt_usage(acc)) == Err::<Option<UsageView>, Option<UsageView>>(opt_usage(a)),
        },
{
    proof {
        reveal_strlit("data: ");
        reveal_strlit("[DONE]");
    }
    let l = trim_str(line);
    if !starts_with_str(l, "data: ") {
        return Ok(acc);
    }
    let n = l.unicode_len();
    let d = l.substring_char(6, n);
    if str_eq(d, "[DONE]") {
        return Err(acc);
    }
    let db = d.as_bytes();
    let has_usage = match json_get(db, "usage") {
        Some(m) => !json_null(m.as_slice()),
        None => false,
    };
    if has_usage {
        match parse_response_json(reg, db) {
            Some(u) => Ok(Some(u)),
            None => Ok(acc),
        }
    } else {
        Ok(acc)
    }
}

/// The usage of an event-stream body.
pub fn parse_sse_body(reg: &ProviderRegistry, body: &[u8]) -> (r: Option<UsageInfo>)
    ensures
        opt_usage(r) == sse_usage(reg@, body@),
{
    let text = lossy_text(body);
    let t = text.as_str();
    if !contains_str(t, "data: [DONE]") && !contains_str(t, "\"finish_reason\"") {
        return None;
    }
    let mut usage: Option<UsageInfo> = None;
    let mut rest: &str = t;
    loop
        invariant
            t@ == utf8_lossy(body@),
            has_infix(t@, "data: [DONE]"@) || has_infix(t@, "\"finish_reason\""@),
            sse_scan(reg@, rest@, opt_usage(usage)) == sse_scan(reg@, t@, None),
        decreases rest@.len(),
    {
        let n = rest.unicode_len();
        if n == 0 {
            return usage;
        }
        match find_char(rest, '\n', 0) {
            Some(k) => {
                proof {
                    lemma_index_range(rest@, '\n', 0);
                }
                let line = rest.substring_char(0, k);
                match sse_line_exec(reg, line, usage) {
                    Ok(a) => {
                        usage = a;
                    },
                    Err(a) => {
                        return a;
                    },
                }
                rest = rest.substring_char(k + 1, n);
            },
            None => {
                return match sse_line_exec(reg, rest, usage) {
                    Ok(a) => a,
                    Err(a) => a,
                };
            },
        }
    }
}

/// The usage of an HTTP/1.1 response, once it is complete: an event
/// stream is read line by line; any other body is de-chunked, then
/// gunzipped, as its headers say, and must end with `}` once trailing
/// whitespace is trimmed; its JSON starts at the first `{`.
pub open spec fn h1_response(ps: Seq<ProviderView>, b: Seq<u8>) -> Option<UsageView> {
    match http_response_head(b) {
        None => None,
        Some((off, hs)) => {
            let body = b.subrange(off as int, b.len() as int);
            if header_has(hs, "content-type"@, "text/event-stream"@) {
                sse_usage(ps, body)
            } else {
                let d = if header_has(hs, "transfer-encoding"@, "chunked"@) {
                    decoded_body(body)
                } else {
                    body
                };
                let g = if header_has(hs, "content-encoding"@, "gzip"@) {
                    gunzip_of(d)
                } else {
                    Some(d)
                };
                match g {
                    None => None,
                    Some(g) => {
                        let t = g.take(trimmed_len(g) as int);
                        if t.len() == 0 || t.last() != 0x7d {
                            None
                        } else {
                            let s = utf8_lossy(t);
                            match index_of(s, '{', 0) {
                                None => None,
                                Some(k) => response_usage(ps, encode_utf8(s.subrange(k, s.len() as int))),
                            }
                        }
                    },
                }
            }
        },
    }
}

/// A JSON run that looks like a request and carries no usage.
pub open spec fn request_shaped(s: Seq<char>) -> bool {
    (has_infix(s, "\"messages\""@) || has_infix(s, "\"contents\""@) || has_infix(s, "\"prompt\""@))
        && !has_infix(s, "\"usage\""@) && !has_infix(s, "\"usageMetadata\""@)
}

/// The usage of the first JSON run, from `i` on, that is not request-shaped
/// and reads as a response.
pub open spec fn first_run_usage(ps: Seq<ProviderView>, runs: Seq<Seq<u8>>, i: int) -> Option<UsageView>
    decreases runs.len() - i,
{
    if i < 0 || i >= runs.len() {
        None
    } else {
        let s = utf8_lossy(runs[i]);
        if request_shaped(s) {
            first_run_usage(ps, runs, i + 1)
        } else {
            match response_usage(ps, encode_utf8(s)) {
                Some(u) => Some(u),
                None => first_run_usage(ps, runs, i + 1),
            }
        }
    }
}

/// The usage of an HTTP/2 response: that of its first response-shaped JSON run.
pub open spec fn h2_response(ps: Seq<ProviderView>, b: Seq<u8>) -> Option<UsageView> {
    first_run_usage(ps, json_runs(b, 0), 0)
}

/// The three operations that both protocol dissectors offer.
pub trait ProtocolParser {
    /// What detection reports for a request buffer.
    spec fn detect_spec(&self, ps: Seq<ProviderView>, b: Seq<u8>) -> Option<Seq<char>>;

    /// The user text of a request buffer.
    spec fn text_spec(&self, ps: Seq<ProviderView>, b: Seq<u8>) -> Seq<char>;

    /// The usage of a response buffer, once it is complete.
    spec fn response_spec(&self, ps: Seq<ProviderView>, b: Seq<u8>) -> Option<UsageView>;

    /// Detect an LLM request; the result names what was detected.
    fn detect_request(&self, reg: &ProviderRegistry, buffer: &[u8]) -> (r: Option<String>)
        requires
            buffer@.len() <= i64::MAX,
        ensures
            opt_chars_of(r) == self.detect_spec(reg@, buffer@),
    ;

    /// Recover the user text of a request.
    fn extract_request_text(&self, reg: &ProviderRegistry, buffer: &[u8]) -> (r: String)
        requires
            buffer@.len() <= i64::MAX,
        ensures
            r@ == self.text_spec(reg@, buffer@),
    ;

    /// Read the usage of a response, once it is complete.
    fn parse_response(&self, reg: &ProviderRegistry, buffer: &[u8]) -> (r: Option<UsageInfo>)
        requires
            buffer@.len() <= i64::MAX,
        ensures
            opt_usage(r) == self.response_spec(reg@, buffer@),
    ;
}

/// The HTTP/1.1 dissector.
pub struct Http11Parser;

/// The HTTP/2 dissector, working on the JSON payloads spliced across frames.
pub struct Http2Parser;

impl ProtocolParser for Http11Parser {
    open spec fn detect_spec(&self, ps: Seq<ProviderView>, b: Seq<u8>) -> Option<Seq<char>> {
        h1_detect(ps, b)
    }

    open spec fn text_spec(&self, ps: Seq<ProviderView>, b: Seq<u8>) -> Seq<char> {
        h1_text(ps, b)
    }

    open spec fn response_spec(&self, ps: Seq<ProviderView>, b: Seq<u8>) -> Option<UsageView> {
        h1_response(ps, b)
    }

    fn detect_request(&self, reg: &ProviderRegistry, buffer: &[u8]) -> (r: Option<String>) {
        match parse_request_head(buffer) {
            Some((path, hs)) => {
                let host = header_value_exec(&hs, "host");
                if reg.find_provider(host.as_str(), path.as_str()).is_some() {
                    Some(path)
                } else {
                    None
                }
            },
            None => None,
        }
    }

    fn extract_request_text(&self, reg: &ProviderRegistry, buffer: &[u8]) -> (r: String) {
        let sep: [u8; 4] = [13u8, 10, 13, 10];
        let n = buffer.len();
        assert(sep@ =~= seq![13u8, 10, 13, 10]);
        let start = match find_pattern(buffer, &sep) {
            Some(i) => {
                proof {
                    lemma_first_occurrence(buffer@, sep@, 0);
                }
                i + 4
            },
            None => 0,
        };
        let body = lossy_text(&buffer[start..n]);
        extract_text_from_json(reg, body.as_str())
    }

    fn parse_response(&self, reg: &ProviderRegistry, buffer: &[u8]) -> (r: Option<UsageInfo>) {
        let (off, hs) = match parse_response_head(buffer) {
            Some(h) => h,
            None => return None,
        };
        let body = &buffer[off..buffer.len()];
        if header_has_exec(&hs, "content-type", "text/event-stream") {
            return parse_sse_body(reg, body);
        }
        let dechunked: Vec<u8> = if header_has_exec(&hs, "transfer-encoding", "chunked") {
            decode_chunked_body(body)
        } else {
            vstd::slice::slice_to_vec(body)
        };
        let decompressed: Vec<u8> = if header_has_exec(&hs, "content-encoding", "gzip") {
            match gunzip(dechunked.as_slice()) {
                Some(d) => d,
                None => return None,
            }
        } else {
            dechunked
        };
        let trimmed = trim_trailing_whitespace(decompressed.as_slice());
        if trimmed.len() == 0 || trimmed[trimmed.len() - 1] != 0x7d {
            return None;
        }
        let text = lossy_text(trimmed);
        let t = text.as_str();
        let k = match find_char(t, '{', 0) {
            Some(k) => k,
            None => return None,
        };
        proof {
            lemma_index_range(t@, '{', 0);
        }
        let json = t.substring_char(k, t.unicode_len());
        parse_response_json(reg, json.as_bytes())
    }
}

impl ProtocolParser for Http2Parser {
    open spec fn detect_spec(&self, ps: Seq<ProviderView>, b: Seq<u8>) -> Option<Seq<char>> {
        h2_detect(ps, b)
    }

    open spec fn text_spec(&self, ps: Seq<ProviderView>, b: Seq<u8>) -> Seq<char> {
        h2_text(ps, b)
    }

    open spec fn response_spec(&self, ps: Seq<ProviderView>, b: Seq<u8>) -> Option<UsageView> {
        h2_response(ps, b)
    }

    fn detect_request(&self, reg: &ProviderRegistry, buffer: &[u8]) -> (r: Option<String>) {
        proof {
            reveal_strlit("h2_body_detected");
            reveal_strlit("h2_path_detected");
        }
        if starts_with_method_exec(buffer) {
            return None;
        }
        if has_llm_key_exec(buffer) {
            return Some(String::from_str("h2_body_detected"));
        }
        let text = lossy_text(buffer);
        if reg.is_llm_path(text.as_str()) {
            return Some(String::from_str("h2_path_detected"));
        }
        None
    }

    fn extract_request_text(&self, reg: &ProviderRegistry, buffer: &[u8]) -> (r: String) {
        let runs = extract_h2_json_all(buffer);
        let ghost rv = json_runs(buffer@, 0);
        let mut i: usize = 0;
        while i < runs.len()
            invariant
                i <= runs@.len(),
                views(runs@) == rv,
                rv == json_runs(buffer@, 0),
                first_run_text(reg@, rv, 0) == first_run_text(reg@, rv, i as int),
            decreases runs@.len() - i,
        {
            assert(rv[i as int] == runs@[i as int]@);
            let s = lossy_text(runs[i].as_slice());
            let t = extract_text_from_json(reg, s.as_str());
            if t.as_str().unicode_len() > 0 {
                return t;
            }
            i += 1;
        }
        let s = lossy_text(buffer);
        extract_text_from_json(reg, s.as_str())
    }

    fn parse_response(&self, reg: &ProviderRegistry, buffer: &[u8]) -> (r: Option<UsageInfo>) {
        let runs = extract_h2_json_all(buffer);
        let ghost rv = json_runs(buffer@, 0);
        let mut i: usize = 0;
        while i < runs.len()
            invariant
                i <= runs@.len(),
                views(runs@) == rv,
                rv == json_runs(buffer@, 0),
                first_run_usage(reg@, rv, 0) == first_run_usage(reg@, rv, i as int),
            decreases runs@.len() - i,
        {
            assert(rv[i as int] == runs@[i as int]@);
            let s = lossy_text(runs[i].as_slice());
            let t = s.as_str();
            let shaped = (contains_str(t, "\"messages\"") || contains_str(t, "\"contents\"")
                || contains_str(t, "\"prompt\"")) && !contains_str(t, "\"usage\"") && !contains_str(
                t,
                "\"usageMetadata\"",
            );
            if !shaped {
                match parse_response_json(reg, t.as_bytes()) {
                    Some(u) => {
                        return Some(u);
                    },
                    None => {},
                }
            }
            i += 1;
        }
        None
    }
}

} // verus!
