//! Container and pod identity: container ids from cgroup lines, workload
//! names from pod owners, and a resolver that caches cgroup lookups
//! (negative results included) in front of a store of known pods.

use vstd::prelude::*;
use vstd::string::*;
use crate::assoc::{
    keys_unique, lemma_lookup_keep, lemma_lookup_none, lemma_lookup_push, lemma_lookup_without,
    lookup,
};
use crate::text::{
    after_last_str, split_after_last_str, str_eq, last_index_of, rfind_char, lemma_last_index_range,
    after_last, find_char, has_infix, has_suffix, index_of, lemma_index_range, contains_str,
    ends_with_str, split_after_last,
};

verus! {

/// A hexadecimal digit, in either case.
pub open spec fn is_hex_char(c: char) -> bool {
    ('0' <= c && c <= '9') || ('a' <= c && c <= 'f') || ('A' <= c && c <= 'F')
}

/// A full container id: exactly 64 hexadecimal digits.
pub open spec fn is_container_id_spec(s: Seq<char>) -> bool {
    s.len() == 64 && forall|i: int| 0 <= i < s.len() ==> is_hex_char(#[trigger] s[i])
}

/// The path field of a cgroup line: what follows its second `:`.
pub open spec fn cgroup_path(line: Seq<char>) -> Option<Seq<char>> {
    match index_of(line, ':', 0) {
        None => None,
        Some(i) => match index_of(line, ':', i + 1) {
            None => None,
            Some(j) => Some(line.subrange(j + 1, line.len() as int)),
        },
    }
}

/// `s` with every trailing `.scope` removed.
pub open spec fn strip_scope(s: Seq<char>) -> Seq<char>
    decreases s.len(),
{
    if s.len() >= 6 && has_suffix(s, ".scope"@) {
        strip_scope(s.take(s.len() - 6))
    } else {
        s
    }
}

/// The path names a container runtime's cgroup.
pub open spec fn names_runtime(p: Seq<char>) -> bool {
    has_infix(p, "kubepods"@) || has_infix(p, "docker"@) || has_infix(p, "containerd"@)
}

/// The short (12-digit) container id that a cgroup line names, if any: the
/// path must name a container runtime, and its last segment must be a full
/// container id, or a `.scope` unit whose part after the last `-` is one.
pub open spec fn container_id_of_line(line: Seq<char>) -> Option<Seq<char>> {
    match cgroup_path(line) {
        None => None,
        Some(p) => if !names_runtime(p) {
            None
        } else {
            let seg = after_last(p, '/');
            let inner = after_last(strip_scope(seg), '-');
            if has_suffix(seg, ".scope"@) && is_container_id_spec(inner) {
                Some(inner.take(12))
            } else if is_container_id_spec(seg) {
                Some(seg.take(12))
            } else {
                None
            }
        },
    }
}

/// Whether `s` is a full container id.
pub fn is_container_id(s: &str) -> (r: bool)
    ensures
        r == is_container_id_spec(s@),
{
    let n = s.unicode_len();
    if n != 64 {
        return false;
    }
    let mut i: usize = 0;
    while i < n
        invariant
            n == s@.len(),
            i <= n,
            forall|j: int| 0 <= j < i ==> is_hex_char(#[trigger] s@[j]),
        decreases n - i,
    {
        let c = s.get_char(i);
        if !(('0' <= c && c <= '9') || ('a' <= c && c <= 'f') || ('A' <= c && c <= 'F')) {
            return false;
        }
        i += 1;
    }
    true
}

fn strip_scope_exec(s: &str) -> (r: &str)
    ensures
        r@ == strip_scope(s@),
{
    let mut cur = s;
    while ends_with_str(cur, ".scope")
        invariant
            strip_scope(cur@) == strip_scope(s@),
        decreases cur@.len(),
    {
        proof {
            reveal_strlit(".scope");
        }
        let n = cur.unicode_len();
        let ghost prev = cur@;
        cur = cur.substring_char(0, n - 6);
        assert(cur@ =~= prev.take(prev.len() - 6));
    }
    cur
}

/// The short container id named by one cgroup line.
pub fn parse_container_id_from_cgroup_line(line: &str) -> (r: Option<String>)
    ensures
        match r {
            Some(id) => container_id_of_line(line@) == Some(id@),
            None => container_id_of_line(line@).is_none(),
        },
{
    let len = line.unicode_len();
    let i = match find_char(line, ':', 0) {
        Some(i) => i,
        None => return None,
    };
    proof {
        lemma_index_range(line@, ':', 0);
    }
    let j = match find_char(line, ':', i + 1) {
        Some(j) => j,
        None => return None,
    };
    proof {
        lemma_index_range(line@, ':', i + 1);
    }
    let path = line.substring_char(j + 1, len);
    if !contains_str(path, "kubepods") && !contains_str(path, "docker") && !contains_str(
        path,
        "containerd",
    ) {
        return None;
    }
    let seg = split_after_last(path, '/');
    if ends_with_str(seg, ".scope") {
        let inner = split_after_last(strip_scope_exec(seg), '-');
        if is_container_id(inner) {
            return Some(String::from_str(inner.substring_char(0, 12)));
        }
    }
    if is_container_id(seg) {
        return Some(String::from_str(seg.substring_char(0, 12)));
    }
    None
}

/// The container ids that a text of cgroup lines names, first line first.
pub open spec fn container_id_of_text(t: Seq<char>) -> Option<Seq<char>>
    decreases t.len(),
{
    match index_of(t, '\n', 0) {
        None => container_id_of_line(t),
        Some(k) => if k < 0 || k >= t.len() {
            None
        } else {
            let line = t.take(k);
            let line = if line.len() > 0 && line.last() == '\r' { line.drop_last() } else { line };
            match container_id_of_line(line) {
                Some(id) => Some(id),
                None => container_id_of_text(t.subrange(k + 1, t.len() as int)),
            }
        },
    }
}

/// The first container id named by a `/proc/<pid>/cgroup` text.
pub fn extract_container_id(content: &str) -> (r: Option<String>)
    ensures
        match r {
            Some(id) => container_id_of_text(content@) == Some(id@),
            None => container_id_of_text(content@).is_none(),
        },
{
    let mut rest: &str = content;
    loop
        invariant
            container_id_of_text(rest@) == container_id_of_text(content@),
        decreases rest@.len(),
    {
        let n = rest.unicode_len();
        match find_char(rest, '\n', 0) {
            None => {
                return parse_container_id_from_cgroup_line(rest);
            },
            Some(k) => {
                proof {
                    lemma_index_range(rest@, '\n', 0);
                }
                let mut line = rest.substring_char(0, k);
                assert(line@ =~= rest@.take(k as int));
                if k > 0 && line.get_char(k - 1) == '\r' {
                    line = line.substring_char(0, k - 1);
                    assert(line@ =~= rest@.take(k as int).drop_last());
                }
                match parse_container_id_from_cgroup_line(line) {
                    Some(id) => {
                        return Some(id);
                    },
                    None => {},
                }
                rest = rest.substring_char(k + 1, n);
            },
        }
    }
}

/// Kubernetes pod identity.
pub struct PodInfo {
    pub pod_name: String,
    pub namespace: String,
    /// Owner kind, such as `Deployment` or `StatefulSet`.
    pub workload_kind: Option<String>,
    /// Owner name, such as the deployment's name.
    pub workload_name: Option<String>,
}

/// What a `PodInfo` holds.
pub struct PodInfoView {
    pub pod_name: Seq<char>,
    pub namespace: Seq<char>,
    pub workload_kind: Option<Seq<char>>,
    pub workload_name: Option<Seq<char>>,
}

/// The characters of an optional string.
pub open spec fn opt_view(o: Option<String>) -> Option<Seq<char>> {
    match o {
        Some(s) => Some(s@),
        None => None,
    }
}

impl View for PodInfo {
    type V = PodInfoView;

    open spec fn view(&self) -> PodInfoView {
        PodInfoView {
            pod_name: self.pod_name@,
            namespace: self.namespace@,
            workload_kind: opt_view(self.workload_kind),
            workload_name: opt_view(self.workload_name),
        }
    }
}

/// A copy of an optional string.
pub fn copy_opt(o: &Option<String>) -> (r: Option<String>)
    ensures
        opt_view(r) == opt_view(*o),
{
    match o {
        Some(s) => Some(s.clone()),
        None => None,
    }
}

impl PodInfo {
    /// The workload name when there is one, else the pod name.
    pub fn service_name(&self) -> (r: &str)
        ensures
            r@ == match self.workload_name {
                Some(n) => n@,
                None => self.pod_name@,
            },
    {
        match &self.workload_name {
            Some(n) => n.as_str(),
            None => self.pod_name.as_str(),
        }
    }

    /// A copy of this record.
    pub fn duplicate(&self) -> (r: PodInfo)
        ensures
            r@ == self@,
    {
        PodInfo {
            pod_name: self.pod_name.clone(),
            namespace: self.namespace.clone(),
            workload_kind: copy_opt(&self.workload_kind),
            workload_name: copy_opt(&self.workload_name),
        }
    }
}

/// The first owner reference of a pod.
pub struct OwnerRef {
    pub kind: String,
    pub name: String,
}

/// What `s` holds before its last `c`, or all of `s`.
pub open spec fn before_last(s: Seq<char>, c: char) -> Seq<char> {
    match last_index_of(s, c, s.len() as int) {
        Some(k) => s.take(k),
        None => s,
    }
}

/// The workload that owns a pod: a `ReplicaSet` stands for the deployment
/// named by its name without the last `-` suffix (a heuristic that
/// misattributes names carrying their own dashes); other owners are kept.
pub open spec fn workload_of(kind: Seq<char>, name: Seq<char>) -> (Seq<char>, Seq<char>) {
    if kind == "ReplicaSet"@ {
        ("Deployment"@, before_last(name, '-'))
    } else {
        (kind, name)
    }
}

/// The workload kind and name of a pod's owner.
pub fn workload_from_owner(owner: &OwnerRef) -> (r: (String, String))
    ensures
        (r.0@, r.1@) == workload_of(owner.kind@, owner.name@),
{
    if str_eq(owner.kind.as_str(), "ReplicaSet") {
        let name = owner.name.as_str();
        let n = name.unicode_len();
        let base = match rfind_char(name, '-') {
            Some(k) => {
                proof {
                    lemma_last_index_range(name@, '-', name@.len() as int);
                }
                name.substring_char(0, k)
            },
            None => name,
        };
        proof {
            assert(base@ =~= before_last(name@, '-'));
        }
        (String::from_str("Deployment"), String::from_str(base))
    } else {
        (owner.kind.clone(), owner.name.clone())
    }
}

/// The short id of a container status id such as `containerd://<hex>`: the
/// first 12 characters after the last `://`, when there are that many.
pub open spec fn short_id_of(status_id: Seq<char>) -> Option<Seq<char>> {
    let tail = after_last_str(status_id, "://"@);
    if tail.len() >= 12 {
        Some(tail.take(12))
    } else {
        None
    }
}

/// The short id of a container status id.
pub fn short_container_id(status_id: &str) -> (r: Option<String>)
    ensures
        opt_view(r) == short_id_of(status_id@),
{
    proof {
        reveal_strlit("://");
    }
    let tail = split_after_last_str(status_id, "://");
    if tail.unicode_len() >= 12 {
        Some(String::from_str(tail.substring_char(0, 12)))
    } else {
        None
    }
}

/// The short ids of a list of container status ids, in order.
pub open spec fn short_ids(ids: Seq<Seq<char>>) -> Seq<Seq<char>>
    decreases ids.len(),
{
    if ids.len() == 0 {
        Seq::empty()
    } else {
        match short_id_of(ids.last()) {
            Some(s) => short_ids(ids.drop_last()).push(s),
            None => short_ids(ids.drop_last()),
        }
    }
}

/// A pod as the pod watcher reports it.
pub struct PodEvent {
    pub name: Option<String>,
    pub namespace: Option<String>,
    pub owner: Option<OwnerRef>,
    /// Container status ids, such as `containerd://<hex>`.
    pub container_ids: Vec<String>,
}

/// The views of a list of strings.
pub open spec fn str_views(v: Seq<String>) -> Seq<Seq<char>> {
    v.map_values(|s: String| s@)
}

/// The record that a pod event stores under its containers' ids.
pub open spec fn info_of_event(ev: PodEvent) -> PodInfoView {
    PodInfoView {
        pod_name: ev.name.unwrap()@,
        namespace: match ev.namespace {
            Some(n) => n@,
            None => Seq::empty(),
        },
        workload_kind: match ev.owner {
            Some(o) => Some(workload_of(o.kind@, o.name@).0),
            None => None,
        },
        workload_name: match ev.owner {
            Some(o) => Some(workload_of(o.kind@, o.name@).1),
            None => None,
        },
    }
}

/// Resolves cgroup ids to pod identity. Cgroup lookups are cached, a
/// cgroup that names no container included, so that its file is read once.
pub struct PodResolver {
    cgroup_cache: Vec<(u64, Option<String>)>,
    pod_store: Vec<(String, PodInfo)>,
}

/// A cache entry as plain values.
pub open spec fn cache_entry_view(e: (u64, Option<String>)) -> (u64, Option<Seq<char>>) {
    (e.0, opt_view(e.1))
}

/// A store entry as plain values.
pub open spec fn store_entry_view(e: (String, PodInfo)) -> (Seq<char>, PodInfoView) {
    (e.0@, e.1@)
}

/// The answer for a cached container id: the pod stored under it.
pub open spec fn pod_of(store: Seq<(Seq<char>, PodInfoView)>, cid: Option<Seq<char>>) -> Option<
    PodInfoView,
> {
    match cid {
        Some(c) => lookup(store, c),
        None => None,
    }
}

/// An optional record as plain values.
pub open spec fn opt_info(r: Option<PodInfo>) -> Option<PodInfoView> {
    match r {
        Some(p) => Some(p@),
        None => None,
    }
}

impl PodResolver {
    /// The cgroup cache: cgroup id and the container id it names, if any.
    pub closed spec fn cache(&self) -> Seq<(u64, Option<Seq<char>>)> {
        self.cgroup_cache@.map_values(|e: (u64, Option<String>)| cache_entry_view(e))
    }

    /// The pod store: short container id and its pod.
    pub closed spec fn store(&self) -> Seq<(Seq<char>, PodInfoView)> {
        self.pod_store@.map_values(|e: (String, PodInfo)| store_entry_view(e))
    }

    /// Each cgroup id is cached at most once.
    pub open spec fn wf(&self) -> bool {
        keys_unique(self.cache())
    }

    /// An empty resolver.
    pub fn new() -> (r: PodResolver)
        ensures
            r.wf(),
            r.cache().len() == 0,
            r.store().len() == 0,
    {
        let r = PodResolver { cgroup_cache: Vec::new(), pod_store: Vec::new() };
        assert(r.cache() =~= Seq::<(u64, Option<Seq<char>>)>::empty());
        assert(r.store() =~= Seq::<(Seq<char>, PodInfoView)>::empty());
        r
    }

    /// Whether a cgroup id has been looked up before.
    pub fn is_cached(&self, cgroup_id: u64) -> (r: bool)
        ensures
            r == lookup(self.cache(), cgroup_id).is_some(),
    {
        self.cached(cgroup_id).is_some()
    }

    fn cached(&self, cgroup_id: u64) -> (r: Option<Option<String>>)
        ensures
            match r {
                Some(c) => lookup(self.cache(), cgroup_id) == Some(opt_view(c)),
                None => lookup(self.cache(), cgroup_id).is_none(),
            },
    {
        let mut i: usize = 0;
        assert(self.cache().skip(0) =~= self.cache());
        while i < self.cgroup_cache.len()
            invariant
                i <= self.cgroup_cache@.len(),
                self.cache().len() == self.cgroup_cache@.len(),
                lookup(self.cache(), cgroup_id) == lookup(self.cache().skip(i as int), cgroup_id),
            decreases self.cgroup_cache@.len() - i,
        {
            let ghost rest = self.cache().skip(i as int);
            assert(rest[0] == cache_entry_view(self.cgroup_cache@[i as int]));
            if self.cgroup_cache[i].0 == cgroup_id {
                return Some(copy_opt(&self.cgroup_cache[i].1));
            }
            assert(rest.drop_first() =~= self.cache().skip(i + 1));
            i += 1;
        }
        None
    }

    /// The pod stored under a short container id.
    pub fn pod_for_container(&self, cid: &String) -> (r: Option<PodInfo>)
        ensures
            opt_info(r) == lookup(self.store(), cid@),
    {
        let mut i: usize = 0;
        assert(self.store().skip(0) =~= self.store());
        while i < self.pod_store.len()
            invariant
                i <= self.pod_store@.len(),
                self.store().len() == self.pod_store@.len(),
                lookup(self.store(), cid@) == lookup(self.store().skip(i as int), cid@),
            decreases self.pod_store@.len() - i,
        {
            let ghost rest = self.store().skip(i as int);
            assert(rest[0] == store_entry_view(self.pod_store@[i as int]));
            if self.pod_store[i].0 == *cid {
                return Some(self.pod_store[i].1.duplicate());
            }
            assert(rest.drop_first() =~= self.store().skip(i + 1));
            i += 1;
        }
        None
    }

    /// Resolve a cgroup id to pod identity. On a cache miss the container id
    /// is taken from `cgroup_file`, the text of `/proc/<pid>/cgroup` (`None`
    /// when it could not be read), and cached, a missing id included.
    pub fn resolve(&mut self, cgroup_id: u64, cgroup_file: Option<&str>) -> (r: Option<PodInfo>)
        requires
            old(self).wf(),
        ensures
            final(self).wf(),
            final(self).store() == old(self).store(),
            match lookup(old(self).cache(), cgroup_id) {
                Some(cid) => final(self).cache() == old(self).cache() && opt_info(r) == pod_of(
                    old(self).store(),
                    cid,
                ),
                None => {
                    let cid = match cgroup_file {
                        Some(t) => container_id_of_text(t@),
                        None => None,
                    };
                    &&& final(self).cache() == old(self).cache().push((cgroup_id, cid))
                    &&& opt_info(r) == pod_of(old(self).store(), cid)
                },
            },
    {
        match self.cached(cgroup_id) {
            Some(c) => {
                return match c {
                    Some(cid) => self.pod_for_container(&cid),
                    None => None,
                };
            },
            None => {},
        }
        let cid = match cgroup_file {
            Some(t) => extract_container_id(t),
            None => None,
        };
        let ghost old_cache = self.cache();
        proof {
            lemma_lookup_none(old_cache, cgroup_id);
        }
        self.cgroup_cache.push((cgroup_id, copy_opt(&cid)));
        assert(self.cache() =~= old_cache.push((cgroup_id, opt_view(cid))));
        assert(self.store() =~= old(self).store());
        assert(keys_unique(self.cache())) by {
            assert forall|i: int, j: int|
                0 <= i < self.cache().len() && 0 <= j < self.cache().len() && i != j implies
                self.cache()[i].0 != self.cache()[j].0 by {
                if i < old_cache.len() && j < old_cache.len() {
                    assert(self.cache()[i] == old_cache[i] && self.cache()[j] == old_cache[j]);
                } else if i < old_cache.len() {
                    assert(self.cache()[i] == old_cache[i]);
                } else {
                    assert(self.cache()[j] == old_cache[j]);
                }
            }
        }
        match cid {
            Some(c) => self.pod_for_container(&c),
            None => None,
        }
    }

    /// Forget the pod stored under one short container id.
    fn remove_pod(&mut self, cid: &String)
        requires
            old(self).wf(),
        ensures
            final(self).wf(),
            final(self).cache() == old(self).cache(),
            final(self).store() == old(self).store().filter(
                |e: (Seq<char>, PodInfoView)| e.0 != cid@,
            ),
    {
        let ghost f = |e: (Seq<char>, PodInfoView)| e.0 != cid@;
        let ghost old_store = self.store();
        let mut kept: Vec<(String, PodInfo)> = Vec::new();
        let mut i: usize = 0;
        while i < self.pod_store.len()
            invariant
                i <= self.pod_store@.len(),
                self.store() == old_store,
                f == (|e: (Seq<char>, PodInfoView)| e.0 != cid@),
                old_store.len() == self.pod_store@.len(),
                kept@.map_values(|e: (String, PodInfo)| store_entry_view(e)) == old_store.take(
                    i as int,
                ).filter(f),
            decreases self.pod_store@.len() - i,
        {
            let ghost kv = kept@.map_values(|e: (String, PodInfo)| store_entry_view(e));
            assert(old_store[i as int] == store_entry_view(self.pod_store@[i as int]));
            assert(old_store.take(i + 1) =~= old_store.take(i as int).push(old_store[i as int]));
            proof { old_store.take(i as int).lemma_filter_push(old_store[i as int], f); }
            if !(self.pod_store[i].0 == *cid) {
                let k = self.pod_store[i].0.clone();
                let v = self.pod_store[i].1.duplicate();
                kept.push((k, v));
                assert(kept@.map_values(|e: (String, PodInfo)| store_entry_view(e)) =~= kv.push(
                    old_store[i as int],
                ));
            }
            i += 1;
        }
        assert(old_store.take(i as int) =~= old_store);
        self.pod_store = kept;
    }

    /// Store a pod under one short container id, replacing what was there.
    fn put_pod(&mut self, cid: &String, info: &PodInfo)
        requires
            old(self).wf(),
        ensures
            final(self).wf(),
            final(self).cache() == old(self).cache(),
            forall|k: Seq<char>|
                lookup(#[trigger] final(self).store(), k) == if k == cid@ {
                    Some(info@)
                } else {
                    lookup(old(self).store(), k)
                },
    {
        self.remove_pod(cid);
        let ghost mid = self.store();
        self.pod_store.push((cid.clone(), info.duplicate()));
        assert(self.store() =~= mid.push((cid@, info@)));
        assert forall|k: Seq<char>|
            lookup(#[trigger] self.store(), k) == if k == cid@ {
                Some(info@)
            } else {
                lookup(old(self).store(), k)
            } by {
            lemma_lookup_without(old(self).store(), cid@, k);
            lemma_lookup_push(mid, (cid@, info@), k);
        }
    }

    /// Drop the cache entries that name one of `ids`.
    fn forget_containers(&mut self, ids: &Vec<String>)
        requires
            old(self).wf(),
        ensures
            final(self).wf(),
            final(self).store() == old(self).store(),
            forall|g: u64|
                lookup(#[trigger] final(self).cache(), g) == match lookup(old(self).cache(), g) {
                    Some(Some(c)) => if str_views(ids@).contains(c) {
                        None
                    } else {
                        Some(Some(c))
                    },
                    other => other,
                },
    {
        let ghost p = |v: Option<Seq<char>>|
            match v {
                Some(c) => !str_views(ids@).contains(c),
                None => true,
            };
        self.keep_cache(ids, false, Ghost(p));
    }

    /// Keep the cache entries whose container id, when there is one, passes:
    /// with `in_store`, being held by the pod store; else, not being in `ids`.
    fn keep_cache(&mut self, ids: &Vec<String>, in_store: bool, Ghost(p): Ghost<
        spec_fn(Option<Seq<char>>) -> bool,
    >)
        requires
            old(self).wf(),
            forall|v: Option<Seq<char>>|
                #[trigger] p(v) == match v {
                    Some(c) => if in_store {
                        lookup(old(self).store(), c).is_some()
                    } else {
                        !str_views(ids@).contains(c)
                    },
                    None => true,
                },
        ensures
            final(self).wf(),
            final(self).store() == old(self).store(),
            forall|g: u64|
                lookup(#[trigger] final(self).cache(), g) == match lookup(old(self).cache(), g) {
                    Some(v) => if p(v) {
                        Some(v)
                    } else {
                        None
                    },
                    None => None,
                },
    {
        let ghost f = |e: (u64, Option<Seq<char>>)| p(e.1);
        let ghost old_cache = self.cache();
        let mut kept: Vec<(u64, Option<String>)> = Vec::new();
        let mut i: usize = 0;
        while i < self.cgroup_cache.len()
            invariant
                i <= self.cgroup_cache@.len(),
                self.cache() == old_cache,
                f == (|e: (u64, Option<Seq<char>>)| p(e.1)),
                self.store() == old(self).store(),
                old_cache.len() == self.cgroup_cache@.len(),
                forall|v: Option<Seq<char>>|
                    #[trigger] p(v) == match v {
                        Some(c) => if in_store {
                            lookup(old(self).store(), c).is_some()
                        } else {
                            !str_views(ids@).contains(c)
                        },
                        None => true,
                    },
                kept@.map_values(|e: (u64, Option<String>)| cache_entry_view(e)) == old_cache.take(
                    i as int,
                ).filter(f),
            decreases self.cgroup_cache@.len() - i,
        {
            let ghost kv = kept@.map_values(|e: (u64, Option<String>)| cache_entry_view(e));
            assert(old_cache[i as int] == cache_entry_view(self.cgroup_cache@[i as int]));
            assert(old_cache.take(i + 1) =~= old_cache.take(i as int).push(old_cache[i as int]));
            proof { old_cache.take(i as int).lemma_filter_push(old_cache[i as int], f); }
            let keep = match &self.cgroup_cache[i].1 {
                Some(c) => if in_store {
                    self.pod_for_container(c).is_some()
                } else {
                    !contains_string(ids, c)
                },
                None => true,
            };
            assert(p(old_cache[i as int].1) == keep);
            assert(f(old_cache[i as int]) == keep);
            if keep {
                let v = copy_opt(&self.cgroup_cache[i].1);
                kept.push((self.cgroup_cache[i].0, v));
                assert(kept@.map_values(|e: (u64, Option<String>)| cache_entry_view(e)) =~= kv.push(
                    old_cache[i as int],
                ));
            }
            i += 1;
        }
        assert(old_cache.take(i as int) =~= old_cache);
        self.cgroup_cache = kept;
        assert forall|g: u64|
            lookup(#[trigger] self.cache(), g) == match lookup(old_cache, g) {
                Some(v) => if p(v) {
                    Some(v)
                } else {
                    None
                },
                None => None,
            } by {
            lemma_lookup_keep(old_cache, p, g);
        }
        proof {
            lemma_lookup_keep(old_cache, p, 0);
        }
    }

    /// Evict the cached cgroups whose container is no longer in the pod store.
    pub fn sweep_cache(&mut self)
        requires
            old(self).wf(),
        ensures
            final(self).wf(),
            final(self).store() == old(self).store(),
            forall|g: u64|
                lookup(#[trigger] final(self).cache(), g) == match lookup(old(self).cache(), g) {
                    Some(Some(c)) => if lookup(old(self).store(), c).is_some() {
                        Some(Some(c))
                    } else {
                        None
                    },
                    other => other,
                },
    {
        let ghost p = |v: Option<Seq<char>>|
            match v {
                Some(c) => lookup(old(self).store(), c).is_some(),
                None => true,
            };
        let none: Vec<String> = Vec::new();
        self.keep_cache(&none, true, Ghost(p));
    }

    /// Apply a pod event from the pod watcher. A pod without a name is
    /// ignored. A deleted pod leaves the store under each of its short
    /// container ids, and cached cgroups naming them are forgotten; any other
    /// event stores the pod's record under each of them.
    pub fn apply_pod_event(&mut self, pod: &PodEvent, is_delete: bool)
        requires
            old(self).wf(),
        ensures
            final(self).wf(),
            pod.name.is_none() ==> final(self).cache() == old(self).cache() && final(self).store()
                == old(self).store(),
            pod.name.is_some() && is_delete ==> {
                let ids = short_ids(str_views(pod.container_ids@));
                &&& forall|k: Seq<char>|
                    lookup(#[trigger] final(self).store(), k) == if ids.contains(k) {
                        None
                    } else {
                        lookup(old(self).store(), k)
                    }
                &&& forall|g: u64|
                    lookup(#[trigger] final(self).cache(), g) == match lookup(
                        old(self).cache(),
                        g,
                    ) {
                        Some(Some(c)) => if ids.contains(c) {
                            None
                        } else {
                            Some(Some(c))
                        },
                        other => other,
                    }
            },
            pod.name.is_some() && !is_delete ==> {
                let ids = short_ids(str_views(pod.container_ids@));
                &&& final(self).cache() == old(self).cache()
                &&& forall|k: Seq<char>|
                    lookup(#[trigger] final(self).store(), k) == if ids.contains(k) {
                        Some(info_of_event(*pod))
                    } else {
                        lookup(old(self).store(), k)
                    }
            },
    {
        let pod_name = match &pod.name {
            Some(n) => n.clone(),
            None => return ,
        };
        let ids = short_ids_of(&pod.container_ids);
        let ghost sv = str_views(ids@);
        let ghost old_store = self.store();
        let ghost old_cache = self.cache();
        if is_delete {
            let mut i: usize = 0;
            while i < ids.len()
                invariant
                    self.wf(),
                    i <= ids@.len(),
                    sv == str_views(ids@),
                    self.cache() == old_cache,
                    forall|k: Seq<char>|
                        lookup(#[trigger] self.store(), k) == if sv.take(i as int).contains(k) {
                            None
                        } else {
                            lookup(old_store, k)
                        },
                decreases ids@.len() - i,
            {
                let ghost before = self.store();
                self.remove_pod(&ids[i]);
                assert forall|k: Seq<char>|
                    lookup(#[trigger] self.store(), k) == if sv.take(i + 1).contains(k) {
                        None
                    } else {
                        lookup(old_store, k)
                    } by {
                    lemma_lookup_without(before, ids@[i as int]@, k);
                    lemma_take_push_contains(sv, i as int, k);
                }
                i += 1;
            }
            assert(sv.take(ids@.len() as int) =~= sv);
            self.forget_containers(&ids);
        } else {
            let namespace = match &pod.namespace {
                Some(n) => n.clone(),
                None => String::new(),
            };
            let (workload_kind, workload_name) = match &pod.owner {
                Some(o) => {
                    let (k, n) = workload_from_owner(o);
                    (Some(k), Some(n))
                },
                None => (None, None),
            };
            let info = PodInfo { pod_name, namespace, workload_kind, workload_name };
            assert(info@ == info_of_event(*pod));
            let mut i: usize = 0;
            while i < ids.len()
                invariant
                    self.wf(),
                    i <= ids@.len(),
                    sv == str_views(ids@),
                    info@ == info_of_event(*pod),
                    self.cache() == old_cache,
                    forall|k: Seq<char>|
                        lookup(#[trigger] self.store(), k) == if sv.take(i as int).contains(k) {
                            Some(info@)
                        } else {
                            lookup(old_store, k)
                        },
                decreases ids@.len() - i,
            {
                let ghost before = self.store();
                self.put_pod(&ids[i], &info);
                assert forall|k: Seq<char>|
                    lookup(#[trigger] self.store(), k) == if sv.take(i + 1).contains(k) {
                        Some(info@)
                    } else {
                        lookup(old_store, k)
                    } by {
                    lemma_take_push_contains(sv, i as int, k);
                }
                i += 1;
            }
            assert(sv.take(ids@.len() as int) =~= sv);
        }
    }
}

/// Whether `v` holds a string equal to `s`.
pub fn contains_string(v: &Vec<String>, s: &String) -> (r: bool)
    ensures
        r == str_views(v@).contains(s@),
{
    let mut i: usize = 0;
    while i < v.len()
        invariant
            i <= v@.len(),
            forall|j: int| 0 <= j < i ==> v@[j]@ != s@,
        decreases v@.len() - i,
    {
        if v[i] == *s {
            assert(str_views(v@)[i as int] == s@);
            return true;
        }
        i += 1;
    }
    assert forall|j: int| 0 <= j < str_views(v@).len() implies str_views(v@)[j] != s@ by {
        assert(str_views(v@)[j] == v@[j]@);
    }
    false
}

/// A key is among the first `i + 1` items exactly when it is among the
/// first `i` or is item `i`.
pub proof fn lemma_take_push_contains<A>(s: Seq<A>, i: int, k: A)
    requires
        0 <= i < s.len(),
    ensures
        s.take(i + 1).contains(k) == (s.take(i).contains(k) || s[i] == k),
{
    assert(s.take(i + 1) =~= s.take(i).push(s[i]));
    if s.take(i + 1).contains(k) {
        let j = choose|j: int| 0 <= j < s.take(i + 1).len() && #[trigger] s.take(i + 1)[j] == k;
        if j < i {
            assert(s.take(i)[j] == k);
        }
    }
    if s.take(i).contains(k) {
        let j = choose|j: int| 0 <= j < s.take(i).len() && #[trigger] s.take(i)[j] == k;
        assert(s.take(i + 1)[j] == k);
    }
    if s[i] == k {
        assert(s.take(i + 1)[i] == k);
    }
}

/// The short ids of a list of container status ids.
pub fn short_ids_of(ids: &Vec<String>) -> (r: Vec<String>)
    ensures
        str_views(r@) == short_ids(str_views(ids@)),
{
    let mut out: Vec<String> = Vec::new();
    let mut i: usize = 0;
    while i < ids.len()
        invariant
            i <= ids@.len(),
            str_views(out@) == short_ids(str_views(ids@).take(i as int)),
        decreases ids@.len() - i,
    {
        let ghost before = str_views(out@);
        assert(str_views(ids@).take(i + 1).drop_last() =~= str_views(ids@).take(i as int));
        assert(str_views(ids@).take(i + 1).last() == ids@[i as int]@);
        match short_container_id(ids[i].as_str()) {
            Some(s) => {
                out.push(s);
                assert(str_views(out@) =~= before.push(str_views(out@).last()));
            },
            None => {},
        }
        i += 1;
    }
    assert(str_views(ids@).take(i as int) =~= str_views(ids@));
    out
}

} // verus!
