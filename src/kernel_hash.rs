//! The kernel probes' side of path hashing: FNV-1a over a fixed-size,
//! NUL-padded filename buffer, and the law that ties it to the user side.

use vstd::prelude::*;
use crate::fnv::{fnv1a, hashed_prefix, until_nul, lemma_until_nul, FNV_OFFSET_BASIS, FNV_PRIME};

verus! {

/// Size of the filename buffer that the kernel probes copy a path into.
pub const MAX_FILENAME_LEN: usize = 256;

/// The bytes `data[start .. start + len]`, cut at the end of the buffer.
pub open spec fn window(data: Seq<u8>, start: int, len: int) -> Seq<u8> {
    let end = if start + len < data.len() { start + len } else { data.len() as int };
    data.subrange(start, end)
}

/// FNV-1a of `len` bytes of the buffer from `start`, stopping at its end.
pub fn hash_slice(data: &[u8; MAX_FILENAME_LEN], start: usize, len: usize) -> (r: u64)
    requires
        start <= MAX_FILENAME_LEN,
    ensures
        r == fnv1a(window(data@, start as int, len as int)),
{
    let mut hash: u64 = FNV_OFFSET_BASIS;
    let mut i: usize = 0;
    while i < len && (start + i) < MAX_FILENAME_LEN
        invariant
            data@.len() == MAX_FILENAME_LEN,
            start <= MAX_FILENAME_LEN,
            i <= len,
            start + i <= MAX_FILENAME_LEN,
            hash == fnv1a(data@.subrange(start as int, start + i)),
        decreases len - i,
    {
        let b = data[start + i];
        assert(data@.subrange(start as int, start + i + 1).drop_last()
            =~= data@.subrange(start as int, start + i));
        hash = (hash ^ (b as u64)).wrapping_mul(FNV_PRIME);
        i += 1;
    }
    hash
}

/// FNV-1a of the buffer up to its first NUL, or of all of it.
pub fn simple_hash(data: &[u8; MAX_FILENAME_LEN]) -> (r: u64)
    ensures
        r == fnv1a(until_nul(data@)),
{
    let mut hash: u64 = FNV_OFFSET_BASIS;
    let mut i: usize = 0;
    while i < MAX_FILENAME_LEN && data[i] != 0
        invariant
            data@.len() == MAX_FILENAME_LEN,
            i <= MAX_FILENAME_LEN,
            forall|j: int| 0 <= j < i ==> data@[j] != 0,
            hash == fnv1a(data@.take(i as int)),
        decreases MAX_FILENAME_LEN - i,
    {
        let b = data[i];
        assert(data@.take(i + 1).drop_last() =~= data@.take(i as int));
        hash = (hash ^ (b as u64)).wrapping_mul(FNV_PRIME);
        i += 1;
    }
    proof {
        lemma_until_nul(data@, i as int);
    }
    hash
}

/// Hash identity: a path without NUL bytes, whose first bytes (up to the
/// buffer's size) are copied into the kernel's filename buffer with a NUL
/// after them when they do not fill it, hashes in the kernel to the same
/// value as its bytes hash in user space; both stop at the buffer's size.
pub proof fn lemma_hash_identity(path: Seq<u8>, buf: Seq<u8>)
    requires
        buf.len() == MAX_FILENAME_LEN,
        forall|j: int| 0 <= j < path.len() ==> path[j] != 0,
        path.len() >= MAX_FILENAME_LEN ==> buf == path.take(MAX_FILENAME_LEN as int),
        path.len() < MAX_FILENAME_LEN ==> buf.take(path.len() as int) == path && buf[path.len() as int] == 0,
    ensures
        fnv1a(until_nul(buf)) == fnv1a(hashed_prefix(path)),
{
    let m: int = if path.len() < MAX_FILENAME_LEN { path.len() as int } else { MAX_FILENAME_LEN as int };
    assert forall|j: int| 0 <= j < m implies buf[j] != 0 by {
        assert(buf.take(m)[j] == buf[j]);
        if path.len() >= MAX_FILENAME_LEN {
            assert(buf[j] == path[j]);
        } else {
            assert(buf.take(path.len() as int)[j] == path[j]);
        }
    }
    lemma_until_nul(buf, m);
    lemma_until_nul(path, path.len() as int);
    assert(path.take(path.len() as int) =~= path);
    if path.len() < MAX_FILENAME_LEN {
        assert(until_nul(buf) == path);
    } else {
        assert(buf.take(m) =~= buf);
        assert(until_nul(buf) =~= path.take(MAX_FILENAME_LEN as int));
    }
}

} // verus!
