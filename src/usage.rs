//! Reading token usage out of response JSON, and request text out of
//! request JSON, as each provider's configuration directs.

use vstd::prelude::*;
use vstd::string::*;
use crate::json::{
    json_array, json_as_str, json_as_u64, json_get, json_items, json_member, json_str, json_u64,
    opt_bytes, opt_chars,
};
use crate::providers::{ProviderConfig, ProviderRegistry, ProviderView, RequestExtractorType, ResponseView};
use crate::text::{find_char, index_of, lemma_index_range};

verus! {

/// Token usage of one completed exchange.
pub struct UsageInfo {
    pub prompt_tokens: u64,
    pub completion_tokens: u64,
    pub thoughts_tokens: Option<u64>,
    pub model: Option<String>,
}

/// What a `UsageInfo` holds.
pub struct UsageView {
    pub prompt_tokens: u64,
    pub completion_tokens: u64,
    pub thoughts_tokens: Option<u64>,
    pub model: Option<Seq<char>>,
}

impl View for UsageInfo {
    type V = UsageView;

    open spec fn view(&self) -> UsageView {
        UsageView {
            prompt_tokens: self.prompt_tokens,
            completion_tokens: self.completion_tokens,
            thoughts_tokens: self.thoughts_tokens,
            model: opt_chars(self.model),
        }
    }
}

/// An optional usage record as plain values.
pub open spec fn opt_usage(r: Option<UsageInfo>) -> Option<UsageView> {
    match r {
        Some(u) => Some(u@),
        None => None,
    }
}

/// The `.`-separated segments of a path, as `str::split('.')` gives them.
pub open spec fn dot_segments(p: Seq<char>) -> Seq<Seq<char>>
    decreases p.len(),
{
    match index_of(p, '.', 0) {
        Some(k) => if 0 <= k < p.len() {
            seq![p.take(k)] + dot_segments(p.subrange(k + 1, p.len() as int))
        } else {
            seq![p]
        },
        None => seq![p],
    }
}

/// Follow a list of member names down from `doc`.
pub open spec fn walk(doc: Seq<u8>, keys: Seq<Seq<char>>) -> Option<Seq<u8>>
    decreases keys.len(),
{
    if keys.len() == 0 {
        Some(doc)
    } else {
        match json_member(doc, keys[0]) {
            Some(m) => walk(m, keys.drop_first()),
            None => None,
        }
    }
}

/// The value at a dot-separated path below `doc`.
pub open spec fn nested(doc: Seq<u8>, path: Seq<char>) -> Option<Seq<u8>> {
    walk(doc, dot_segments(path))
}

/// The value at a dot-separated path below `doc`, as JSON text.
pub fn get_nested_value(doc: &[u8], path: &str) -> (r: Option<Vec<u8>>)
    ensures
        opt_bytes(r) == nested(doc@, path@),
{
    let mut cur: Vec<u8> = vstd::slice::slice_to_vec(doc);
    let mut rest: &str = path;
    loop
        invariant
            walk(cur@, dot_segments(rest@)) == nested(doc@, path@),
        decreases rest@.len(),
    {
        let n = rest.unicode_len();
        match find_char(rest, '.', 0) {
            Some(k) => {
                proof {
                    lemma_index_range(rest@, '.', 0);
                }
                let key = rest.substring_char(0, k);
                let ghost segs = dot_segments(rest@);
                assert(segs[0] == key@);
                assert(segs.drop_first() =~= dot_segments(rest@.subrange(k + 1, n as int)));
                match json_get(cur.as_slice(), key) {
                    Some(m) => {
                        cur = m;
                    },
                    None => {
                        return None;
                    },
                }
                rest = rest.substring_char(k + 1, n);
            },
            None => {
                let ghost segs = dot_segments(rest@);
                assert(segs =~= seq![rest@]);
                assert(segs.drop_first() =~= Seq::<Seq<char>>::empty());
                let r = json_get(cur.as_slice(), rest);
                proof {
                    if let Some(m) = json_member(cur@, rest@) {
                        assert(walk(m, Seq::empty()) == Some(m));
                    }
                }
                return r;
            },
        }
    }
}

/// A value below the usage object, read as a count.
pub open spec fn count_at(doc: Seq<u8>, path: Seq<char>) -> Option<u64> {
    match nested(doc, path) {
        Some(v) => json_as_u64(v),
        None => None,
    }
}

/// The usage that a provider's configuration reads from a response: the
/// prompt and completion counts are required; the reasoning count and the
/// model name are read when present.
pub open spec fn usage_of(cfg: ResponseView, doc: Seq<u8>) -> Option<UsageView> {
    match nested(doc, cfg.usage_path) {
        None => None,
        Some(u) => match (count_at(u, cfg.prompt_tokens), count_at(u, cfg.completion_tokens)) {
            (Some(p), Some(c)) => Some(
                UsageView {
                    prompt_tokens: p,
                    completion_tokens: c,
                    thoughts_tokens: match cfg.thoughts_tokens {
                        Some(t) => count_at(u, t),
                        None => None,
                    },
                    model: match nested(doc, cfg.model_path) {
                        Some(m) => json_as_str(m),
                        None => None,
                    },
                },
            ),
            _ => None,
        },
    }
}

fn count_at_exec(doc: &[u8], path: &str) -> (r: Option<u64>)
    ensures
        r == count_at(doc@, path@),
{
    match get_nested_value(doc, path) {
        Some(v) => json_u64(v.as_slice()),
        None => None,
    }
}

impl ProviderConfig {
    /// Usage read from a response document by this provider's configuration.
    pub fn parse_usage(&self, doc: &[u8]) -> (r: Option<UsageInfo>)
        ensures
            opt_usage(r) == usage_of(self.response@, doc@),
    {
        let cfg = &self.response;
        let usage = match get_nested_value(doc, cfg.usage_path.as_str()) {
            Some(u) => u,
            None => return None,
        };
        let prompt = match count_at_exec(usage.as_slice(), cfg.prompt_tokens.as_str()) {
            Some(p) => p,
            None => return None,
        };
        let completion = match count_at_exec(usage.as_slice(), cfg.completion_tokens.as_str()) {
            Some(c) => c,
            None => return None,
        };
        let thoughts = match &cfg.thoughts_tokens {
            Some(t) => count_at_exec(usage.as_slice(), t.as_str()),
            None => None,
        };
        let model = match get_nested_value(doc, cfg.model_path.as_str()) {
            Some(m) => json_str(m.as_slice()),
            None => None,
        };
        Some(
            UsageInfo {
                prompt_tokens: prompt,
                completion_tokens: completion,
                thoughts_tokens: thoughts,
                model,
            },
        )
    }
}

/// The string under `key` in `doc`, when there is one.
pub open spec fn str_member(doc: Seq<u8>, key: Seq<char>) -> Option<Seq<char>> {
    match json_member(doc, key) {
        Some(m) => json_as_str(m),
        None => None,
    }
}

/// The items of the array under `key` in `doc`, or none.
pub open spec fn items_member(doc: Seq<u8>, key: Seq<char>) -> Seq<Seq<u8>> {
    match json_member(doc, key) {
        Some(m) => match json_items(m) {
            Some(items) => items,
            None => Seq::empty(),
        },
        None => Seq::empty(),
    }
}

/// The `text` strings of a list of objects.
pub open spec fn texts_of(items: Seq<Seq<u8>>) -> Seq<Seq<char>>
    decreases items.len(),
{
    if items.len() == 0 {
        Seq::empty()
    } else {
        let prev = texts_of(items.drop_last());
        match str_member(items.last(), "text"@) {
            Some(t) => prev.push(t),
            None => prev,
        }
    }
}

/// The texts of one chat message: its `content` string, or the `text` of
/// each block when `content` is a list.
pub open spec fn message_texts(msg: Seq<u8>) -> Seq<Seq<char>> {
    match json_member(msg, "content"@) {
        None => Seq::empty(),
        Some(c) => match json_as_str(c) {
            Some(s) => seq![s],
            None => match json_items(c) {
                Some(blocks) => texts_of(blocks),
                None => Seq::empty(),
            },
        },
    }
}

/// The texts of a list of chat messages, in order.
pub open spec fn messages_texts(msgs: Seq<Seq<u8>>) -> Seq<Seq<char>>
    decreases msgs.len(),
{
    if msgs.len() == 0 {
        Seq::empty()
    } else {
        messages_texts(msgs.drop_last()) + message_texts(msgs.last())
    }
}

/// The texts of a list of `contents` entries: the `text` of each of their `parts`.
pub open spec fn contents_texts(cs: Seq<Seq<u8>>) -> Seq<Seq<char>>
    decreases cs.len(),
{
    if cs.len() == 0 {
        Seq::empty()
    } else {
        contents_texts(cs.drop_last()) + texts_of(items_member(cs.last(), "parts"@))
    }
}

/// Strings joined with single spaces.
pub open spec fn join_spaced(ts: Seq<Seq<char>>) -> Seq<char>
    decreases ts.len(),
{
    if ts.len() == 0 {
        Seq::empty()
    } else if ts.len() == 1 {
        ts[0]
    } else {
        join_spaced(ts.drop_last()) + seq![' '] + ts.last()
    }
}

/// The request text that an extractor finds in a request document.
pub open spec fn request_text_of(kind: RequestExtractorType, doc: Seq<u8>) -> Seq<char> {
    match kind {
        RequestExtractorType::Messages => join_spaced(messages_texts(items_member(doc, "messages"@))),
        RequestExtractorType::Contents => join_spaced(contents_texts(items_member(doc, "contents"@))),
        RequestExtractorType::Prompt => match str_member(doc, "prompt"@) {
            Some(p) => p,
            None => Seq::empty(),
        },
        RequestExtractorType::Skip => Seq::empty(),
    }
}

fn str_member_exec(doc: &[u8], key: &str) -> (r: Option<String>)
    ensures
        opt_chars(r) == str_member(doc@, key@),
{
    match json_get(doc, key) {
        Some(m) => json_str(m.as_slice()),
        None => None,
    }
}

fn items_member_exec(doc: &[u8], key: &str) -> (r: Vec<Vec<u8>>)
    ensures
        r@.map_values(|x: Vec<u8>| x@) == items_member(doc@, key@),
{
    match json_get(doc, key) {
        Some(m) => match json_array(m.as_slice()) {
            Some(items) => items,
            None => {
                let v: Vec<Vec<u8>> = Vec::new();
                assert(v@.map_values(|x: Vec<u8>| x@) =~= Seq::<Seq<u8>>::empty());
                v
            },
        },
        None => {
            let v: Vec<Vec<u8>> = Vec::new();
            assert(v@.map_values(|x: Vec<u8>| x@) =~= Seq::<Seq<u8>>::empty());
            v
        },
    }
}

/// The characters of a list of strings.
pub open spec fn chars_of(v: Seq<String>) -> Seq<Seq<char>> {
    v.map_values(|s: String| s@)
}

fn push_texts_of(out: &mut Vec<String>, items: &Vec<Vec<u8>>)
    ensures
        chars_of(final(out)@) == chars_of(old(out)@) + texts_of(items@.map_values(|x: Vec<u8>| x@)),
{
    let ghost iv = items@.map_values(|x: Vec<u8>| x@);
    let mut i: usize = 0;
    assert(texts_of(iv.take(0)) =~= Seq::<Seq<char>>::empty());
    assert(chars_of(out@) =~= chars_of(old(out)@) + Seq::<Seq<char>>::empty());
    while i < items.len()
        invariant
            i <= items@.len(),
            iv == items@.map_values(|x: Vec<u8>| x@),
            chars_of(out@) == chars_of(old(out)@) + texts_of(iv.take(i as int)),
        decreases items@.len() - i,
    {
        assert(iv.take(i + 1).drop_last() =~= iv.take(i as int));
        assert(iv.take(i + 1).last() == items@[i as int]@);
        let ghost before = chars_of(out@);
        match str_member_exec(items[i].as_slice(), "text") {
            Some(t) => {
                out.push(t);
                assert(chars_of(out@) =~= before.push(chars_of(out@).last()));
            },
            None => {},
        }
        i += 1;
    }
    assert(iv.take(i as int) =~= iv);
}

fn message_texts_exec(out: &mut Vec<String>, msg: &[u8])
    ensures
        chars_of(final(out)@) == chars_of(old(out)@) + message_texts(msg@),
{
    match json_get(msg, "content") {
        None => {
            assert(chars_of(out@) =~= chars_of(out@) + Seq::<Seq<char>>::empty());
        },
        Some(c) => match json_str(c.as_slice()) {
            Some(s) => {
                let ghost before = chars_of(out@);
                out.push(s);
                assert(chars_of(out@) =~= before + seq![chars_of(out@).last()]);
            },
            None => match json_array(c.as_slice()) {
                Some(blocks) => push_texts_of(out, &blocks),
                None => {
                    assert(chars_of(out@) =~= chars_of(out@) + Seq::<Seq<char>>::empty());
                },
            },
        },
    }
}

/// Strings joined with single spaces.
pub fn join_with_spaces(ts: &Vec<String>) -> (r: String)
    ensures
        r@ == join_spaced(chars_of(ts@)),
{
    let mut out = String::new();
    let mut i: usize = 0;
    while i < ts.len()
        invariant
            i <= ts@.len(),
            out@ == join_spaced(chars_of(ts@).take(i as int)),
        decreases ts@.len() - i,
    {
        assert(chars_of(ts@).take(i + 1).drop_last() =~= chars_of(ts@).take(i as int));
        if i > 0 {
            out.append(" ");
            proof {
                reveal_strlit(" ");
            }
        } else {
            assert(chars_of(ts@).take(1)[0] == ts@[0]@);
        }
        out.append(ts[i].as_str());
        i += 1;
    }
    assert(chars_of(ts@).take(i as int) =~= chars_of(ts@));
    out
}

/// The request text that an extractor finds in a request document.
pub fn extract_request_text(kind: &RequestExtractorType, doc: &[u8]) -> (r: String)
    ensures
        r@ == request_text_of(*kind, doc@),
{
    match kind {
        RequestExtractorType::Messages => {
            let msgs = items_member_exec(doc, "messages");
            let ghost mv = msgs@.map_values(|x: Vec<u8>| x@);
            let mut texts: Vec<String> = Vec::new();
            let mut i: usize = 0;
            assert(chars_of(texts@) =~= messages_texts(mv.take(0)));
            while i < msgs.len()
                invariant
                    i <= msgs@.len(),
                    mv == msgs@.map_values(|x: Vec<u8>| x@),
                    chars_of(texts@) == messages_texts(mv.take(i as int)),
                decreases msgs@.len() - i,
            {
                assert(mv.take(i + 1).drop_last() =~= mv.take(i as int));
                assert(mv.take(i + 1).last() == msgs@[i as int]@);
                message_texts_exec(&mut texts, msgs[i].as_slice());
                i += 1;
            }
            assert(mv.take(i as int) =~= mv);
            join_with_spaces(&texts)
        },
        RequestExtractorType::Contents => {
            let cs = items_member_exec(doc, "contents");
            let ghost cv = cs@.map_values(|x: Vec<u8>| x@);
            let mut texts: Vec<String> = Vec::new();
            let mut i: usize = 0;
            assert(chars_of(texts@) =~= contents_texts(cv.take(0)));
            while i < cs.len()
                invariant
                    i <= cs@.len(),
                    cv == cs@.map_values(|x: Vec<u8>| x@),
                    chars_of(texts@) == contents_texts(cv.take(i as int)),
                decreases cs@.len() - i,
            {
                assert(cv.take(i + 1).drop_last() =~= cv.take(i as int));
                assert(cv.take(i + 1).last() == cs@[i as int]@);
                let parts = items_member_exec(cs[i].as_slice(), "parts");
                push_texts_of(&mut texts, &parts);
                i += 1;
            }
            assert(cv.take(i as int) =~= cv);
            join_with_spaces(&texts)
        },
        RequestExtractorType::Prompt => match str_member_exec(doc, "prompt") {
            Some(p) => p,
            None => String::new(),
        },
        RequestExtractorType::Skip => String::new(),
    }
}

impl ProviderConfig {
    /// Whether a request document looks like this provider's: its extractor
    /// finds some text.
    pub fn detect_request(&self, doc: &[u8]) -> (r: bool)
        ensures
            r == (request_text_of(self.request_extractor, doc@).len() > 0),
    {
        let t = extract_request_text(&self.request_extractor, doc);
        t.as_str().unicode_len() > 0
    }
}

/// The usage record of a response document: a document with an `error`
/// member records a failed exchange with no tokens; otherwise the first
/// provider whose configuration reads a usage from it gives it.
pub open spec fn response_usage(ps: Seq<ProviderView>, doc: Seq<u8>) -> Option<UsageView> {
    if json_member(doc, "error"@).is_some() {
        Some(UsageView { prompt_tokens: 0, completion_tokens: 0, thoughts_tokens: None, model: None })
    } else {
        first_usage(ps, doc, 0)
    }
}

/// The usage read by the first provider at or after `i` that reads one.
pub open spec fn first_usage(ps: Seq<ProviderView>, doc: Seq<u8>, i: int) -> Option<UsageView>
    decreases ps.len() - i,
{
    if i < 0 || i >= ps.len() {
        None
    } else {
        match usage_of(ps[i].response, doc) {
            Some(u) => Some(u),
            None => first_usage(ps, doc, i + 1),
        }
    }
}

/// The usage record of a response document.
pub fn parse_response_json(reg: &ProviderRegistry, doc: &[u8]) -> (r: Option<UsageInfo>)
    ensures
        opt_usage(r) == response_usage(reg@, doc@),
{
    if json_get(doc, "error").is_some() {
        return Some(
            UsageInfo { prompt_tokens: 0, completion_tokens: 0, thoughts_tokens: None, model: None },
        );
    }
    let mut i: usize = 0;
    while i < reg.providers.len()
        invariant
            i <= reg.providers@.len(),
            reg@.len() == reg.providers@.len(),
            json_member(doc@, "error"@).is_none(),
            first_usage(reg@, doc@, 0) == first_usage(reg@, doc@, i as int),
        decreases reg.providers@.len() - i,
    {
        assert(reg@[i as int] == reg.providers@[i as int]@);
        match reg.providers[i].parse_usage(doc) {
            Some(u) => {
                return Some(u);
            },
            None => {},
        }
        i += 1;
    }
    None
}

} // verus!
