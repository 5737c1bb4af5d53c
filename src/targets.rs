//! Dynamic target discovery: which libraries a process maps, where they are
//! on the host, and which still need uprobes. The known-targets set makes
//! attaching idempotent per library.

use vstd::prelude::*;
use vstd::string::*;
use crate::identity::contains_string;
use crate::identity::str_views;
use crate::text::{
    after_last, contains_str, has_infix, has_prefix, split_after_last, starts_with_str, str_eq,
    index_of, find_char, lemma_index_range, first_infix, find_str_from, lemma_first_infix, trim,
    trim_str,
};

verus! {

/// Shared information about a process, gathered once per exec batch.
pub struct ProcessInfo {
    pub pid: u32,
    /// Host paths of the libraries that the process maps.
    pub libs: Vec<String>,
}

/// A `libcrypto` build carries none of the TLS symbols that are probed.
pub open spec fn is_crypto_lib(p: Seq<char>) -> bool {
    has_infix(p, "libcrypto"@)
}

/// The candidates that still need probes, in order and each once: not a
/// `libcrypto` build, and not already known.
pub open spec fn planned(known: Seq<Seq<char>>, cands: Seq<Seq<char>>) -> Seq<Seq<char>>
    decreases cands.len(),
{
    if cands.len() == 0 {
        Seq::empty()
    } else {
        let prev = planned(known, cands.drop_last());
        let p = cands.last();
        if is_crypto_lib(p) || known.contains(p) || prev.contains(p) {
            prev
        } else {
            prev.push(p)
        }
    }
}

/// The libraries already instrumented by a dynamic probe.
pub struct KnownTargets {
    paths: Vec<String>,
}

impl KnownTargets {
    /// The instrumented library paths.
    pub closed spec fn known(&self) -> Seq<Seq<char>> {
        str_views(self.paths@)
    }

    /// No library is known yet.
    pub fn new() -> (r: KnownTargets)
        ensures
            r.known().len() == 0,
    {
        let r = KnownTargets { paths: Vec::new() };
        assert(r.known() =~= Seq::<Seq<char>>::empty());
        r
    }

    /// Whether a library is known.
    pub fn contains(&self, path: &String) -> (r: bool)
        ensures
            r == self.known().contains(path@),
    {
        contains_string(&self.paths, path)
    }

    /// The number of known libraries.
    pub fn len(&self) -> (r: usize)
        ensures
            r == self.known().len(),
    {
        self.paths.len()
    }

    /// The candidate libraries that still need probes.
    pub fn new_targets(&self, cands: &Vec<String>) -> (r: Vec<String>)
        ensures
            str_views(r@) == planned(self.known(), str_views(cands@)),
    {
        let mut out: Vec<String> = Vec::new();
        let mut i: usize = 0;
        while i < cands.len()
            invariant
                i <= cands@.len(),
                str_views(out@) == planned(self.known(), str_views(cands@).take(i as int)),
            decreases cands@.len() - i,
        {
            let ghost before = str_views(out@);
            assert(str_views(cands@).take(i + 1).drop_last() =~= str_views(cands@).take(i as int));
            assert(str_views(cands@).take(i + 1).last() == cands@[i as int]@);
            let p = &cands[i];
            if !contains_str(p.as_str(), "libcrypto") && !self.contains(p) && !contains_string(
                &out,
                p,
            ) {
                out.push(p.clone());
                assert(str_views(out@) =~= before.push(p@));
            }
            i += 1;
        }
        assert(str_views(cands@).take(i as int) =~= str_views(cands@));
        out
    }

    /// Record the outcome of attaching a library's uprobes, one flag per
    /// uprobe of the plan: the library becomes known once any of them took,
    /// so none of its (symbol, program) uprobes is attached a second time;
    /// one where none took stays unknown and is tried again.
    pub fn record_attempt(&mut self, path: &String, attached: &Vec<bool>)
        ensures
            forall|q: Seq<char>|
                #[trigger] final(self).known().contains(q) <==> old(self).known().contains(q) || (q == path@
                    && attached@.contains(true)),
    {
        let mut any = false;
        let mut i: usize = 0;
        while i < attached.len()
            invariant
                i <= attached@.len(),
                any == exists|j: int| 0 <= j < i && attached@[j],
            decreases attached@.len() - i,
        {
            if attached[i] {
                any = true;
            }
            i += 1;
        }
        proof {
            if attached@.contains(true) {
                let j = choose|j: int| 0 <= j < attached@.len() && attached@[j] == true;
                assert(attached@[j]);
            }
            if any {
                let j = choose|j: int| 0 <= j < i && attached@[j];
                assert(attached@[j] == true);
            }
        }
        if any {
            self.record(path);
        }
    }

    /// Record a library whose probes were attached.
    pub fn record(&mut self, path: &String)
        ensures
            final(self).known().contains(path@),
            forall|q: Seq<char>|
                #[trigger] final(self).known().contains(q) <==> old(self).known().contains(q) || q
                    == path@,
    {
        if !self.contains(path) {
            let ghost before = self.known();
            self.paths.push(path.clone());
            assert(self.known() =~= before.push(path@));
            assert(self.known().last() == path@);
            assert forall|q: Seq<char>|
                #[trigger] self.known().contains(q) <==> before.contains(q) || q == path@ by {
                if self.known().contains(q) && q != path@ {
                    let j = choose|j: int| 0 <= j < self.known().len() && #[trigger] self.known()[j] == q;
                    assert(before[j] == q);
                }
                if before.contains(q) {
                    let j = choose|j: int| 0 <= j < before.len() && #[trigger] before[j] == q;
                    assert(self.known()[j] == q);
                }
            }
        }
    }
}

/// A planned path is a candidate that was neither known nor a crypto build,
/// and the plan names no path twice.
pub proof fn lemma_planned(known: Seq<Seq<char>>, cands: Seq<Seq<char>>)
    ensures
        forall|p: Seq<char>| #[trigger] planned(known, cands).contains(p) ==> cands.contains(p)
            && !known.contains(p) && !is_crypto_lib(p),
        planned(known, cands).no_duplicates(),
    decreases cands.len(),
{
    if cands.len() > 0 {
        let prev = planned(known, cands.drop_last());
        lemma_planned(known, cands.drop_last());
        assert forall|p: Seq<char>| #[trigger] planned(known, cands).contains(p) implies cands.contains(p)
            && !known.contains(p) && !is_crypto_lib(p) by {
            if prev.contains(p) {
                let j = choose|j: int| 0 <= j < cands.drop_last().len() && #[trigger] cands.drop_last()[j] == p;
                assert(cands[j] == p);
            } else {
                assert(planned(known, cands) == prev.push(cands.last()));
                let j = choose|j: int| 0 <= j < prev.push(cands.last()).len() && #[trigger] prev.push(cands.last())[j] == p;
                assert(j == prev.len());
                assert(cands[cands.len() - 1] == p);
            }
        }
    }
}

/// Attaching is idempotent: after the libraries planned for a process were
/// attached and the successful ones recorded, planning again for the same
/// process names none of those libraries, and no plan names a library twice.
/// So each (library, symbol) uprobe is attached at most once.
pub proof fn lemma_on_exec_idempotent(
    known: Seq<Seq<char>>,
    cands: Seq<Seq<char>>,
    attached: Seq<Seq<char>>,
    known_after: Seq<Seq<char>>,
)
    requires
        forall|p: Seq<char>| #[trigger] attached.contains(p) ==> planned(known, cands).contains(p),
        forall|p: Seq<char>| #[trigger] known_after.contains(p) <==> known.contains(p) || attached.contains(p),
    ensures
        planned(known, cands).no_duplicates(),
        forall|p: Seq<char>| #[trigger] attached.contains(p) ==> !planned(known_after, cands).contains(p),
        forall|p: Seq<char>| #[trigger] planned(known_after, cands).contains(p) ==> planned(known, cands).contains(p)
            && !attached.contains(p),
{
    lemma_planned(known, cands);
    lemma_planned(known_after, cands);
    lemma_planned_monotone(known, known_after, cands);
}

/// Knowing more plans no more.
pub proof fn lemma_planned_monotone(k1: Seq<Seq<char>>, k2: Seq<Seq<char>>, cands: Seq<Seq<char>>)
    requires
        forall|p: Seq<char>| #[trigger] k1.contains(p) ==> k2.contains(p),
    ensures
        forall|p: Seq<char>| #[trigger] planned(k2, cands).contains(p) ==> planned(k1, cands).contains(p),
    decreases cands.len(),
{
    if cands.len() > 0 {
        lemma_planned_monotone(k1, k2, cands.drop_last());
        let plan_k1 = planned(k1, cands.drop_last());
        let plan_k2 = planned(k2, cands.drop_last());
        let c = cands.last();
        assert forall|p: Seq<char>| #[trigger] planned(k2, cands).contains(p) implies planned(k1, cands).contains(p) by {
            if plan_k2.contains(p) {
                assert(plan_k1.contains(p));
                let j = choose|j: int| 0 <= j < plan_k1.len() && #[trigger] plan_k1[j] == p;
                if !(is_crypto_lib(c) || k1.contains(c) || plan_k1.contains(c)) {
                    assert(plan_k1.push(c)[j] == p);
                }
            } else {
                assert(planned(k2, cands) == plan_k2.push(c));
                let j = choose|j: int| 0 <= j < plan_k2.push(c).len() && #[trigger] plan_k2.push(c)[j] == p;
                assert(j == plan_k2.len());
                assert(p == c);
                if !(is_crypto_lib(c) || k1.contains(c) || plan_k1.contains(c)) {
                    assert(plan_k1.push(c)[plan_k1.len() as int] == c);
                }
            }
        }
    }
}

/// The uprobes that instrument one TLS library: entry and return of
/// `SSL_read`, `SSL_write` and `SSL_do_handshake`, as (program, symbol).
pub open spec fn ssl_probe_plan_spec() -> Seq<(Seq<char>, Seq<char>)> {
    seq![
        ("probe_ssl_rw_enter"@, "SSL_read"@),
        ("probe_ssl_read_exit"@, "SSL_read"@),
        ("probe_ssl_rw_enter"@, "SSL_write"@),
        ("probe_ssl_write_exit"@, "SSL_write"@),
        ("probe_ssl_do_handshake_enter"@, "SSL_do_handshake"@),
        ("probe_ssl_do_handshake_exit"@, "SSL_do_handshake"@),
    ]
}

/// The (program, symbol) uprobes to attach to each new TLS library.
pub fn ssl_probe_plan() -> (r: Vec<(String, String)>)
    ensures
        r@.map_values(|e: (String, String)| (e.0@, e.1@)) == ssl_probe_plan_spec(),
{
    let mut v: Vec<(String, String)> = Vec::new();
    v.push((String::from_str("probe_ssl_rw_enter"), String::from_str("SSL_read")));
    v.push((String::from_str("probe_ssl_read_exit"), String::from_str("SSL_read")));
    v.push((String::from_str("probe_ssl_rw_enter"), String::from_str("SSL_write")));
    v.push((String::from_str("probe_ssl_write_exit"), String::from_str("SSL_write")));
    v.push((String::from_str("probe_ssl_do_handshake_enter"), String::from_str("SSL_do_handshake")));
    v.push((String::from_str("probe_ssl_do_handshake_exit"), String::from_str("SSL_do_handshake")));
    assert(v@.map_values(|e: (String, String)| (e.0@, e.1@)) =~= ssl_probe_plan_spec());
    v
}

/// The decimal digits of `n`.
pub open spec fn decimal(n: nat) -> Seq<char>
    decreases n,
{
    if n < 10 {
        seq![digit_char(n)]
    } else {
        decimal(n / 10).push(digit_char(n % 10))
    }
}

/// The character of a decimal digit.
pub open spec fn digit_char(d: nat) -> char {
    if d == 0 { '0' } else if d == 1 { '1' } else if d == 2 { '2' } else if d == 3 { '3' }
    else if d == 4 { '4' } else if d == 5 { '5' } else if d == 6 { '6' } else if d == 7 { '7' }
    else if d == 8 { '8' } else { '9' }
}

fn digit_str(d: u32) -> (r: &'static str)
    requires
        d < 10,
    ensures
        r@ == seq![digit_char(d as nat)],
{
    proof {
        reveal_strlit("0");
        reveal_strlit("1");
        reveal_strlit("2");
        reveal_strlit("3");
        reveal_strlit("4");
        reveal_strlit("5");
        reveal_strlit("6");
        reveal_strlit("7");
        reveal_strlit("8");
        reveal_strlit("9");
    }
    if d == 0 { "0" } else if d == 1 { "1" } else if d == 2 { "2" } else if d == 3 { "3" }
    else if d == 4 { "4" } else if d == 5 { "5" } else if d == 6 { "6" } else if d == 7 { "7" }
    else if d == 8 { "8" } else { "9" }
}

/// `n` in decimal.
pub fn format_decimal(n: u32) -> (r: String)
    ensures
        r@ == decimal(n as nat),
    decreases n,
{
    if n < 10 {
        String::from_str(digit_str(n))
    } else {
        let mut s = format_decimal(n / 10);
        s.append(digit_str(n % 10));
        s
    }
}

/// `s` without its leading `/` characters.
pub open spec fn drop_slashes(s: Seq<char>) -> Seq<char>
    decreases s.len(),
{
    if s.len() > 0 && s[0] == '/' {
        drop_slashes(s.drop_first())
    } else {
        s
    }
}

/// The host path of a path seen by process `pid`: paths under `/proc` are
/// kept; any other is looked up under `/proc/<pid>/root/`.
pub open spec fn host_path(pid: nat, p: Seq<char>) -> Seq<char> {
    if p == "/proc"@ || has_prefix(p, "/proc/"@) {
        p
    } else {
        "/proc/"@ + decimal(pid) + "/root/"@ + drop_slashes(p)
    }
}

/// The host path of a library path seen by process `pid`.
pub fn resolve_host_path(pid: u32, container_path: &str) -> (r: String)
    ensures
        r@ == host_path(pid as nat, container_path@),
{
    if str_eq(container_path, "/proc") || starts_with_str(container_path, "/proc/") {
        return String::from_str(container_path);
    }
    let mut rel = container_path;
    while rel.unicode_len() > 0 && rel.get_char(0) == '/'
        invariant
            drop_slashes(rel@) == drop_slashes(container_path@),
        decreases rel@.len(),
    {
        let n = rel.unicode_len();
        let ghost prev = rel@;
        rel = rel.substring_char(1, n);
        assert(rel@ =~= prev.drop_first());
    }
    let mut out = String::from_str("/proc/");
    out.append(format_decimal(pid).as_str());
    out.append("/root/");
    out.append(rel);
    out
}

/// Name for what `regex` finds: whether `pattern`, compiled as a regular
/// expression, matches somewhere in `text` (false when it does not compile).
pub uninterp spec fn regex_finds(pattern: Seq<char>, text: Seq<char>) -> bool;

/// Relies on `regex::Regex::new` and `Regex::is_match`: the answer depends
/// on the pattern and the text alone.
#[verifier::external_body]
fn pattern_matches(pattern: &str, text: &str) -> (r: bool)
    ensures
        r == regex_finds(pattern@, text@),
{
    match regex::Regex::new(pattern) {
        Ok(re) => re.is_match(text),
        Err(_) => false,
    }
}

/// The library file names that carry TLS: `libssl.so.*` and `libcrypto.so.*`.
pub const SSL_PATTERN: &'static str = "libssl\\.so\\..*|libcrypto\\.so\\..*";

/// The host paths of the libraries, among the paths that process `pid`
/// maps, whose file name matches `pattern`; each path once, first first.
pub open spec fn selected_libs(pid: nat, mapped: Seq<Seq<char>>, pattern: Seq<char>) -> Seq<Seq<char>>
    decreases mapped.len(),
{
    if mapped.len() == 0 {
        Seq::empty()
    } else {
        let prev = selected_libs(pid, mapped.drop_last(), pattern);
        let p = mapped.last();
        let h = host_path(pid, p);
        if regex_finds(pattern, after_last(p, '/')) && !prev.contains(h) {
            prev.push(h)
        } else {
            prev
        }
    }
}

/// Select, among the paths a process maps, the libraries whose file name
/// matches `pattern`, as host paths.
pub fn select_libraries(pid: u32, mapped: &Vec<String>, pattern: &str) -> (r: Vec<String>)
    ensures
        str_views(r@) == selected_libs(pid as nat, str_views(mapped@), pattern@),
{
    let mut out: Vec<String> = Vec::new();
    let mut i: usize = 0;
    while i < mapped.len()
        invariant
            i <= mapped@.len(),
            str_views(out@) == selected_libs(pid as nat, str_views(mapped@).take(i as int), pattern@),
        decreases mapped@.len() - i,
    {
        let ghost before = str_views(out@);
        assert(str_views(mapped@).take(i + 1).drop_last() =~= str_views(mapped@).take(i as int));
        assert(str_views(mapped@).take(i + 1).last() == mapped@[i as int]@);
        let p = mapped[i].as_str();
        let name = split_after_last(p, '/');
        if pattern_matches(pattern, name) {
            let h = resolve_host_path(pid, p);
            if !contains_string(&out, &h) {
                out.push(h);
                assert(str_views(out@) =~= before.push(str_views(out@).last()));
            }
        }
        i += 1;
    }
    assert(str_views(mapped@).take(i as int) =~= str_views(mapped@));
    out
}

/// The library path of one line of the dynamic-linker cache listing
/// (`name (flags) => path`): the text after the first `=>`, up to any
/// next one, trimmed.
pub open spec fn ldconfig_field(line: Seq<char>) -> Option<Seq<char>> {
    match first_infix(line, "=>"@, 0) {
        None => None,
        Some(k) => if k < 0 || k + 2 > line.len() {
            None
        } else {
            let rest = line.subrange(k + 2, line.len() as int);
            match first_infix(rest, "=>"@, 0) {
                Some(j) => if 0 <= j <= rest.len() { Some(trim(rest.take(j))) } else { None },
                None => Some(trim(rest)),
            }
        },
    }
}

/// One line of the listing folded into the paths found so far.
pub open spec fn ldconfig_line(acc: Seq<Seq<char>>, line: Seq<char>, sub: Seq<char>) -> Seq<Seq<char>> {
    if !has_infix(line, sub) {
        acc
    } else {
        match ldconfig_field(line) {
            Some(p) => if acc.contains(p) { acc } else { acc.push(p) },
            None => acc,
        }
    }
}

/// The paths of the lines of the listing that mention `sub`, each once, in order.
pub open spec fn ldconfig_paths(acc: Seq<Seq<char>>, t: Seq<char>, sub: Seq<char>) -> Seq<Seq<char>>
    decreases t.len(),
{
    if t.len() == 0 {
        acc
    } else {
        match index_of(t, '\n', 0) {
            Some(k) => if 0 <= k < t.len() {
                ldconfig_paths(ldconfig_line(acc, t.take(k), sub), t.subrange(k + 1, t.len() as int), sub)
            } else {
                acc
            },
            None => ldconfig_line(acc, t, sub),
        }
    }
}

fn ldconfig_line_exec(acc: &mut Vec<String>, line: &str, sub: &str)
    ensures
        str_views(final(acc)@) == ldconfig_line(str_views(old(acc)@), line@, sub@),
{
    proof {
        reveal_strlit("=>");
    }
    if !contains_str(line, sub) {
        return;
    }
    let n = line.unicode_len();
    let k = match find_str_from(line, "=>", 0) {
        Some(k) => k,
        None => return,
    };
    proof {
        lemma_first_infix(line@, "=>"@, 0);
    }
    let rest = line.substring_char(k + 2, n);
    let m = rest.unicode_len();
    let field = match find_str_from(rest, "=>", 0) {
        Some(j) => {
            proof {
                lemma_first_infix(rest@, "=>"@, 0);
            }
            let f = rest.substring_char(0, j);
            assert(f@ =~= rest@.take(j as int));
            trim_str(f)
        },
        None => trim_str(rest),
    };
    let p = String::from_str(field);
    if !contains_string(acc, &p) {
        let ghost before = str_views(acc@);
        acc.push(p);
        assert(str_views(acc@) =~= before.push(field@));
    }
}

/// The library paths that the dynamic-linker cache listing gives for the
/// lines mentioning `substring`, each once, in order.
pub fn parse_ldconfig_output(text: &str, substring: &str) -> (r: Vec<String>)
    ensures
        str_views(r@) == ldconfig_paths(Seq::empty(), text@, substring@),
{
    let mut out: Vec<String> = Vec::new();
    let mut rest: &str = text;
    assert(str_views(out@) =~= Seq::<Seq<char>>::empty());
    loop
        invariant
            ldconfig_paths(str_views(out@), rest@, substring@) == ldconfig_paths(Seq::empty(), text@, substring@),
        decreases rest@.len(),
    {
        let n = rest.unicode_len();
        if n == 0 {
            return out;
        }
        match find_char(rest, '\n', 0) {
            Some(k) => {
                proof {
                    lemma_index_range(rest@, '\n', 0);
                }
                ldconfig_line_exec(&mut out, rest.substring_char(0, k), substring);
                rest = rest.substring_char(k + 1, n);
            },
            None => {
                ldconfig_line_exec(&mut out, rest, substring);
                return out;
            },
        }
    }
}

} // verus!
