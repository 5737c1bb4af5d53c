//! Labels for filesystem events: the names of open flags and the kind of
//! file that an operation touched.

use vstd::prelude::*;
use vstd::string::*;
use crate::text::{contains_str, ends_with_str, has_infix, has_suffix};

verus! {

/// The names of the access mode and of the creation flags that `flags` sets.
pub open spec fn open_flag_names(flags: u32) -> Seq<Seq<char>> {
    let mode: Seq<Seq<char>> = if flags & 3 == 0 {
        seq!["O_RDONLY"@]
    } else if flags & 3 == 1 {
        seq!["O_WRONLY"@]
    } else if flags & 3 == 2 {
        seq!["O_RDWR"@]
    } else {
        Seq::empty()
    };
    let creat: Seq<Seq<char>> = if flags & 0o100 != 0 { seq!["O_CREAT"@] } else { Seq::empty() };
    let trunc: Seq<Seq<char>> = if flags & 0o1000 != 0 { seq!["O_TRUNC"@] } else { Seq::empty() };
    let append: Seq<Seq<char>> = if flags & 0o2000 != 0 { seq!["O_APPEND"@] } else { Seq::empty() };
    mode + creat + trunc + append
}

/// Names joined with `|`.
pub open spec fn bar_joined(ts: Seq<Seq<char>>) -> Seq<char>
    decreases ts.len(),
{
    if ts.len() == 0 {
        Seq::empty()
    } else if ts.len() == 1 {
        ts[0]
    } else {
        bar_joined(ts.drop_last()) + "|"@ + ts.last()
    }
}

fn push_name(out: &mut String, names: Ghost<Seq<Seq<char>>>, first: bool, name: &str)
    requires
        old(out)@ == bar_joined(names@),
        first == (names@.len() == 0),
    ensures
        final(out)@ == bar_joined(names@.push(name@)),
{
    let ghost ns = names@.push(name@);
    assert(ns.drop_last() =~= names@);
    if first {
        out.append(name);
        assert(out@ =~= name@);
    } else {
        out.append("|");
        out.append(name);
    }
}

/// The open flags as `|`-joined names.
pub fn format_open_flags(flags: u32) -> (r: String)
    ensures
        r@ == bar_joined(open_flag_names(flags)),
{
    let mut out = String::new();
    let ghost mut names: Seq<Seq<char>> = Seq::empty();
    let mut first = true;
    let mode = flags & 3;
    if mode == 0 {
        push_name(&mut out, Ghost(names), first, "O_RDONLY");
        proof { names = names.push("O_RDONLY"@); }
        first = false;
    } else if mode == 1 {
        push_name(&mut out, Ghost(names), first, "O_WRONLY");
        proof { names = names.push("O_WRONLY"@); }
        first = false;
    } else if mode == 2 {
        push_name(&mut out, Ghost(names), first, "O_RDWR");
        proof { names = names.push("O_RDWR"@); }
        first = false;
    }
    if flags & 0o100 != 0 {
        push_name(&mut out, Ghost(names), first, "O_CREAT");
        proof { names = names.push("O_CREAT"@); }
        first = false;
    }
    if flags & 0o1000 != 0 {
        push_name(&mut out, Ghost(names), first, "O_TRUNC");
        proof { names = names.push("O_TRUNC"@); }
        first = false;
    }
    if flags & 0o2000 != 0 {
        push_name(&mut out, Ghost(names), first, "O_APPEND");
        proof { names = names.push("O_APPEND"@); }
        first = false;
    }
    assert(names =~= open_flag_names(flags));
    out
}

/// Name for `str::to_lowercase` of `s`.
pub uninterp spec fn lower_of(s: Seq<char>) -> Seq<char>;

/// Relies on `str::to_lowercase`: the result depends on the characters alone.
#[verifier::external_body]
fn lowercase(s: &str) -> (r: String)
    ensures
        r@ == lower_of(s@),
{
    s.to_lowercase()
}

/// The kind of file that a lower-cased file name names: model weights,
/// a dataset, a checkpoint, or other.
pub open spec fn file_category(lower: Seq<char>) -> Seq<char> {
    if has_suffix(lower, ".safetensors"@) || has_suffix(lower, ".gguf"@) || has_suffix(lower, ".ggml"@)
        || has_suffix(lower, ".pt"@) || has_suffix(lower, ".pth"@) || (has_suffix(lower, ".bin"@)
        && (has_infix(lower, "model"@) || has_infix(lower, "pytorch"@))) {
        "model"@
    } else if has_suffix(lower, ".parquet"@) || has_suffix(lower, ".arrow"@) || has_suffix(lower, ".csv"@)
        || has_suffix(lower, ".jsonl"@) {
        "dataset"@
    } else if has_infix(lower, "checkpoint"@) || has_infix(lower, "ckpt"@) {
        "checkpoint"@
    } else {
        "other"@
    }
}

/// The kind of file that an already lower-cased file name names.
pub fn categorize_lowercase(lower: &str) -> (r: &'static str)
    ensures
        r@ == file_category(lower@),
{
    if ends_with_str(lower, ".safetensors") || ends_with_str(lower, ".gguf") || ends_with_str(lower, ".ggml")
        || ends_with_str(lower, ".pt") || ends_with_str(lower, ".pth") || (ends_with_str(lower, ".bin")
        && (contains_str(lower, "model") || contains_str(lower, "pytorch"))) {
        "model"
    } else if ends_with_str(lower, ".parquet") || ends_with_str(lower, ".arrow") || ends_with_str(lower, ".csv")
        || ends_with_str(lower, ".jsonl") {
        "dataset"
    } else if contains_str(lower, "checkpoint") || contains_str(lower, "ckpt") {
        "checkpoint"
    } else {
        "other"
    }
}

/// The kind of file that a file name names, whatever its case.
pub fn categorize_file(filename: &str) -> (r: &'static str)
    ensures
        r@ == file_category(lower_of(filename@)),
{
    let lower = lowercase(filename);
    categorize_lowercase(lower.as_str())
}

} // verus!
