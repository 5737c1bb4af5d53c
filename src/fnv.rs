//! FNV-1a hashing of NUL-terminated paths, as written into the watched-paths map.

use vstd::prelude::*;

verus! {

/// FNV-1a 64-bit offset basis.
pub const FNV_OFFSET_BASIS: u64 = 0xcbf29ce484222325;

/// FNV-1a 64-bit prime.
pub const FNV_PRIME: u64 = 0x100000001b3;

/// One FNV-1a round: xor the byte in, then multiply modulo 2^64.
pub open spec fn fnv_step(h: u64, b: u8) -> u64 {
    (h ^ (b as u64)).wrapping_mul(FNV_PRIME)
}

/// FNV-1a of a byte sequence.
pub open spec fn fnv1a(s: Seq<u8>) -> u64
    decreases s.len(),
{
    if s.len() == 0 {
        FNV_OFFSET_BASIS
    } else {
        fnv_step(fnv1a(s.drop_last()), s.last())
    }
}

/// The bytes of `s` before its first NUL (all of `s` when it holds none).
pub open spec fn until_nul(s: Seq<u8>) -> Seq<u8>
    decreases s.len(),
{
    if s.len() == 0 || s[0] == 0 {
        Seq::empty()
    } else {
        seq![s[0]] + until_nul(s.drop_first())
    }
}

/// `until_nul` ends at the first NUL, or at the end.
pub proof fn lemma_until_nul(s: Seq<u8>, i: int)
    requires
        0 <= i <= s.len(),
        forall|j: int| 0 <= j < i ==> s[j] != 0,
        i == s.len() || s[i] == 0,
    ensures
        until_nul(s) == s.take(i),
    decreases i,
{
    if i == 0 {
        assert(s.take(0) =~= Seq::<u8>::empty());
    } else {
        let t = s.drop_first();
        assert forall|j: int| 0 <= j < i - 1 implies t[j] != 0 by {
            assert(t[j] == s[j + 1]);
        }
        if i - 1 < t.len() {
            assert(t[i - 1] == s[i]);
        }
        lemma_until_nul(t, i - 1);
        assert(seq![s[0]] + t.take(i - 1) =~= s.take(i));
    }
}

/// Bytes hashed at most: the size of the kernel's filename buffer.
pub const MAX_HASHED_LEN: usize = 256;

/// The bytes that are hashed: those before the first NUL, at most
/// `MAX_HASHED_LEN` of them.
pub open spec fn hashed_prefix(s: Seq<u8>) -> Seq<u8> {
    let u = until_nul(s);
    if u.len() > MAX_HASHED_LEN { u.take(MAX_HASHED_LEN as int) } else { u }
}

/// Before any NUL, `until_nul` keeps the bytes as they are.
pub proof fn lemma_until_nul_prefix(s: Seq<u8>, i: int)
    requires
        0 <= i <= s.len(),
        forall|j: int| 0 <= j < i ==> s[j] != 0,
    ensures
        until_nul(s).len() >= i,
        until_nul(s).take(i) == s.take(i),
    decreases i,
{
    if i > 0 {
        let t = s.drop_first();
        assert forall|j: int| 0 <= j < i - 1 implies t[j] != 0 by {
            assert(t[j] == s[j + 1]);
        }
        lemma_until_nul_prefix(t, i - 1);
        assert(until_nul(s) == seq![s[0]] + until_nul(t));
        assert(until_nul(s).take(i) =~= seq![s[0]] + until_nul(t).take(i - 1));
        assert(s.take(i) =~= seq![s[0]] + t.take(i - 1));
    } else {
        assert(until_nul(s).take(0) =~= s.take(0));
    }
}

/// FNV-1a of `data` up to its first NUL byte, and of no more than
/// `MAX_HASHED_LEN` bytes, as the kernel side hashes.
pub fn simple_hash(data: &[u8]) -> (r: u64)
    ensures
        r == fnv1a(hashed_prefix(data@)),
{
    let mut hash: u64 = FNV_OFFSET_BASIS;
    let mut i: usize = 0;
    while i < data.len() && i < MAX_HASHED_LEN && data[i] != 0
        invariant
            i <= data@.len(),
            i <= MAX_HASHED_LEN,
            forall|j: int| 0 <= j < i ==> data@[j] != 0,
            hash == fnv1a(data@.take(i as int)),
        decreases data.len() - i,
    {
        let b = data[i];
        assert(data@.take(i + 1).drop_last() =~= data@.take(i as int));
        hash = (hash ^ (b as u64)).wrapping_mul(FNV_PRIME);
        i += 1;
    }
    proof {
        if i < data@.len() && i < MAX_HASHED_LEN {
            lemma_until_nul(data@, i as int);
        } else if i == data@.len() {
            lemma_until_nul(data@, i as int);
        } else {
            lemma_until_nul_prefix(data@, i as int);
            let u = until_nul(data@);
            if u.len() == MAX_HASHED_LEN {
                assert(u.take(MAX_HASHED_LEN as int) =~= u);
            }
        }
    }
    hash
}

} // verus!
