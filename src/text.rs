//! Character-level helpers over strings: searching, splitting and slicing,
//! each stated over the string's view as a sequence of characters.

use vstd::prelude::*;
use vstd::string::*;

verus! {

/// The first index at or after `from` that holds `c`.
pub open spec fn index_of(s: Seq<char>, c: char, from: int) -> Option<int>
    decreases s.len() - from,
{
    if from < 0 || from >= s.len() {
        None
    } else if s[from] == c {
        Some(from)
    } else {
        index_of(s, c, from + 1)
    }
}

/// The last index below `upto` that holds `c`.
pub open spec fn last_index_of(s: Seq<char>, c: char, upto: int) -> Option<int>
    decreases upto,
{
    if upto <= 0 || upto > s.len() {
        None
    } else if s[upto - 1] == c {
        Some(upto - 1)
    } else {
        last_index_of(s, c, upto - 1)
    }
}

/// What follows the last `c` in `s`, or all of `s` when it holds none.
pub open spec fn after_last(s: Seq<char>, c: char) -> Seq<char> {
    match last_index_of(s, c, s.len() as int) {
        Some(k) => s.subrange(k + 1, s.len() as int),
        None => s,
    }
}

/// `n` occurs in `h` at `i`.
pub open spec fn infix_at(h: Seq<char>, n: Seq<char>, i: int) -> bool {
    0 <= i && i + n.len() <= h.len() && h.subrange(i, i + n.len()) == n
}

/// `n` occurs somewhere in `h`.
pub open spec fn has_infix(h: Seq<char>, n: Seq<char>) -> bool {
    exists|i: int| infix_at(h, n, i)
}

/// `h` ends with `n`.
pub open spec fn has_suffix(h: Seq<char>, n: Seq<char>) -> bool {
    n.len() <= h.len() && h.subrange(h.len() - n.len(), h.len() as int) == n
}

/// `h` starts with `n`.
pub open spec fn has_prefix(h: Seq<char>, n: Seq<char>) -> bool {
    n.len() <= h.len() && h.take(n.len() as int) == n
}

/// The first index at or after `from` that holds `c`.
pub fn find_char(s: &str, c: char, from: usize) -> (r: Option<usize>)
    ensures
        opt_index(r) == index_of(s@, c, from as int),
{
    let n = s.unicode_len();
    let mut i: usize = from;
    while i < n
        invariant
            n == s@.len(),
            from <= i,
            index_of(s@, c, from as int) == index_of(s@, c, i as int),
        decreases n - i,
    {
        if s.get_char(i) == c {
            return Some(i);
        }
        i += 1;
    }
    None
}

/// The last index of `c` in `s`.
pub fn rfind_char(s: &str, c: char) -> (r: Option<usize>)
    ensures
        opt_index(r) == last_index_of(s@, c, s@.len() as int),
{
    let mut i: usize = s.unicode_len();
    while i > 0
        invariant
            i <= s@.len(),
            last_index_of(s@, c, s@.len() as int) == last_index_of(s@, c, i as int),
        decreases i,
    {
        if s.get_char(i - 1) == c {
            return Some(i - 1);
        }
        i -= 1;
    }
    None
}

/// An index as a mathematical integer.
pub open spec fn opt_index(r: Option<usize>) -> Option<int> {
    match r {
        Some(i) => Some(i as int),
        None => None,
    }
}

/// Whether `n` occurs in `h` at `i`.
fn infix_at_exec(h: &str, n: &str, i: usize) -> (r: bool)
    requires
        i + n@.len() <= h@.len(),
    ensures
        r == infix_at(h@, n@, i as int),
{
    let nl = n.unicode_len();
    let hl = h.unicode_len();
    let mut k: usize = 0;
    while k < nl
        invariant
            nl == n@.len(),
            hl == h@.len(),
            i + n@.len() <= h@.len(),
            k <= nl,
            forall|j: int| 0 <= j < k ==> h@[i + j] == n@[j],
        decreases nl - k,
    {
        if h.get_char(i + k) != n.get_char(k) {
            assert(h@.subrange(i as int, i + n@.len())[k as int] != n@[k as int]);
            return false;
        }
        k += 1;
    }
    assert(h@.subrange(i as int, i + n@.len()) =~= n@);
    true
}

/// Whether `n` occurs anywhere in `h`.
pub fn contains_str(h: &str, n: &str) -> (r: bool)
    ensures
        r == has_infix(h@, n@),
{
    let hl = h.unicode_len();
    let nl = n.unicode_len();
    if nl > hl {
        return false;
    }
    let mut i: usize = 0;
    while i <= hl - nl
        invariant
            hl == h@.len(),
            nl == n@.len(),
            nl <= hl,
            forall|j: int| 0 <= j < i ==> !infix_at(h@, n@, j),
        decreases hl - nl + 1 - i,
    {
        if infix_at_exec(h, n, i) {
            return true;
        }
        if i == hl - nl {
            assert(forall|j: int| infix_at(h@, n@, j) ==> 0 <= j <= i);
            return false;
        }
        i += 1;
    }
    false
}

/// Whether `h` ends with `n`.
pub fn ends_with_str(h: &str, n: &str) -> (r: bool)
    ensures
        r == has_suffix(h@, n@),
{
    let hl = h.unicode_len();
    let nl = n.unicode_len();
    if nl > hl {
        return false;
    }
    let r = infix_at_exec(h, n, hl - nl);
    r
}

/// Whether `h` starts with `n`.
pub fn starts_with_str(h: &str, n: &str) -> (r: bool)
    ensures
        r == has_prefix(h@, n@),
{
    let hl = h.unicode_len();
    let nl = n.unicode_len();
    if nl > hl {
        return false;
    }
    let r = infix_at_exec(h, n, 0);
    assert(h@.subrange(0, n@.len() as int) =~= h@.take(n@.len() as int));
    r
}

/// What follows the last `c` in `s`, or all of `s`.
pub fn split_after_last(s: &str, c: char) -> (r: &str)
    ensures
        r@ == after_last(s@, c),
{
    let n = s.unicode_len();
    match rfind_char(s, c) {
        Some(k) => {
            proof {
                lemma_last_index_range(s@, c, s@.len() as int);
            }
            s.substring_char(k + 1, n)
        },
        None => s,
    }
}

/// A found index lies below `upto`.
pub proof fn lemma_last_index_range(s: Seq<char>, c: char, upto: int)
    ensures
        last_index_of(s, c, upto) matches Some(k) ==> 0 <= k < upto && k < s.len() && s[k] == c,
    decreases upto,
{
    if upto > 0 && upto <= s.len() && s[upto - 1] != c {
        lemma_last_index_range(s, c, upto - 1);
    }
}

/// A found index lies at or after `from`.
pub proof fn lemma_index_range(s: Seq<char>, c: char, from: int)
    ensures
        index_of(s, c, from) matches Some(k) ==> from <= k < s.len() && s[k] == c,
    decreases s.len() - from,
{
    if from >= 0 && from < s.len() && s[from] != c {
        lemma_index_range(s, c, from + 1);
    }
}

/// The last index at or below `upto` where `n` occurs in `h`.
pub open spec fn last_infix(h: Seq<char>, n: Seq<char>, upto: int) -> Option<int>
    decreases upto + 1,
{
    if upto < 0 {
        None
    } else if infix_at(h, n, upto) {
        Some(upto)
    } else {
        last_infix(h, n, upto - 1)
    }
}

/// What follows the last occurrence of `n` in `h`, or all of `h`.
pub open spec fn after_last_str(h: Seq<char>, n: Seq<char>) -> Seq<char> {
    match last_infix(h, n, h.len() - n.len()) {
        Some(k) => h.subrange(k + n.len(), h.len() as int),
        None => h,
    }
}

/// What follows the last occurrence of `n` in `h`, or all of `h`.
pub fn split_after_last_str<'a>(h: &'a str, n: &str) -> (r: &'a str)
    requires
        n@.len() > 0,
    ensures
        r@ == after_last_str(h@, n@),
{
    let hl = h.unicode_len();
    let nl = n.unicode_len();
    if nl > hl {
        assert(last_infix(h@, n@, h@.len() - n@.len()).is_none());
        return h;
    }
    let mut i: usize = hl - nl + 1;
    while i > 0
        invariant
            hl == h@.len(),
            nl == n@.len(),
            0 < nl <= hl,
            i <= hl - nl + 1,
            last_infix(h@, n@, h@.len() - n@.len()) == last_infix(h@, n@, i - 1),
        decreases i,
    {
        if infix_at_exec(h, n, i - 1) {
            return h.substring_char(i - 1 + nl, hl);
        }
        i -= 1;
    }
    h
}

/// Whether two strings hold the same characters.
pub fn str_eq(a: &str, b: &str) -> (r: bool)
    ensures
        r == (a@ == b@),
{
    let al = a.unicode_len();
    let bl = b.unicode_len();
    if al != bl {
        return false;
    }
    let r = infix_at_exec(a, b, 0);
    assert(a@.subrange(0, b@.len() as int) =~= a@);
    r
}

/// The first index at or after `i` where `n` occurs in `h`.
pub open spec fn first_infix(h: Seq<char>, n: Seq<char>, i: int) -> Option<int>
    decreases h.len() + 1 - i,
{
    if i < 0 || i + n.len() > h.len() {
        None
    } else if infix_at(h, n, i) {
        Some(i)
    } else {
        first_infix(h, n, i + 1)
    }
}

/// A found occurrence is one, at or after `i`.
pub proof fn lemma_first_infix(h: Seq<char>, n: Seq<char>, i: int)
    ensures
        first_infix(h, n, i) matches Some(k) ==> i <= k && infix_at(h, n, k),
    decreases h.len() + 1 - i,
{
    if i >= 0 && i + n.len() <= h.len() && !infix_at(h, n, i) {
        lemma_first_infix(h, n, i + 1);
    }
}

/// The first occurrence of `n` in `h` at or after `from`.
pub fn find_str_from(h: &str, n: &str, from: usize) -> (r: Option<usize>)
    ensures
        opt_index(r) == first_infix(h@, n@, from as int),
{
    let hl = h.unicode_len();
    let nl = n.unicode_len();
    if nl > hl {
        return None;
    }
    let mut i: usize = from;
    while i <= hl - nl
        invariant
            hl == h@.len(),
            nl == n@.len(),
            nl <= hl,
            from <= i,
            first_infix(h@, n@, from as int) == first_infix(h@, n@, i as int),
        decreases hl - nl + 1 - i,
    {
        if infix_at_exec(h, n, i) {
            return Some(i);
        }
        if i == hl - nl {
            assert(first_infix(h@, n@, i + 1).is_none());
            return None;
        }
        i += 1;
    }
    None
}

/// ASCII whitespace, as `char::is_ascii_whitespace` and the vertical tab.
pub open spec fn is_space(c: char) -> bool {
    c == ' ' || c == '\t' || c == '\n' || c == '\r' || c == '\x0b' || c == '\x0c'
}

fn is_space_exec(c: char) -> (r: bool)
    ensures
        r == is_space(c),
{
    c == ' ' || c == '\t' || c == '\n' || c == '\r' || c == '\x0b' || c == '\x0c'
}

/// `s` without leading whitespace.
pub open spec fn trim_start(s: Seq<char>) -> Seq<char>
    decreases s.len(),
{
    if s.len() > 0 && is_space(s[0]) {
        trim_start(s.drop_first())
    } else {
        s
    }
}

/// `s` without trailing whitespace.
pub open spec fn trim_end(s: Seq<char>) -> Seq<char>
    decreases s.len(),
{
    if s.len() > 0 && is_space(s.last()) {
        trim_end(s.drop_last())
    } else {
        s
    }
}

/// `s` without leading or trailing whitespace.
pub open spec fn trim(s: Seq<char>) -> Seq<char> {
    trim_start(trim_end(s))
}

/// `s` without leading whitespace.
pub fn trim_start_str(s: &str) -> (r: &str)
    ensures
        r@ == trim_start(s@),
{
    let mut cur = s;
    while cur.unicode_len() > 0 && is_space_exec(cur.get_char(0))
        invariant
            trim_start(cur@) == trim_start(s@),
        decreases cur@.len(),
    {
        let n = cur.unicode_len();
        let ghost prev = cur@;
        cur = cur.substring_char(1, n);
        assert(cur@ =~= prev.drop_first());
    }
    cur
}

/// `s` without leading or trailing whitespace.
pub fn trim_str(s: &str) -> (r: &str)
    ensures
        r@ == trim(s@),
{
    let mut cur = s;
    loop
        invariant
            trim_end(cur@) == trim_end(s@),
        ensures
            cur@ == trim_end(s@),
        decreases cur@.len(),
    {
        let n = cur.unicode_len();
        if n == 0 || !is_space_exec(cur.get_char(n - 1)) {
            assert(trim_end(cur@) == cur@);
            break;
        }
        let ghost prev = cur@;
        cur = cur.substring_char(0, n - 1);
        assert(cur@ =~= prev.drop_last());
    }
    trim_start_str(cur)
}

} // verus!
