//! GPU device paths as the kernel probes read them: which paths name a
//! GPU, and its index; and the element sizes of NCCL data types.

use vstd::prelude::*;

verus! {

/// `b` begins with `p`.
pub open spec fn begins_with(b: Seq<u8>, p: Seq<u8>) -> bool {
    p.len() <= b.len() && b.take(p.len() as int) == p
}

/// Whether `filename` begins with `prefix`.
pub fn starts_with(filename: &[u8], prefix: &[u8]) -> (r: bool)
    ensures
        r == begins_with(filename@, prefix@),
{
    if filename.len() < prefix.len() {
        return false;
    }
    let mut i: usize = 0;
    while i < prefix.len()
        invariant
            prefix@.len() <= filename@.len(),
            i <= prefix@.len(),
            forall|j: int| 0 <= j < i ==> filename@[j] == prefix@[j],
        decreases prefix@.len() - i,
    {
        if filename[i] != prefix[i] {
            assert(filename@.take(prefix@.len() as int)[i as int] != prefix@[i as int]);
            return false;
        }
        i += 1;
    }
    assert(filename@.take(prefix@.len() as int) =~= prefix@);
    true
}

/// An ASCII decimal digit.
pub open spec fn is_digit(b: u8) -> bool {
    48 <= b <= 57
}

/// The end of the run of digits that starts at `i`.
pub open spec fn digits_end(b: Seq<u8>, i: int) -> int
    decreases b.len() - i,
{
    if 0 <= i < b.len() && is_digit(b[i]) {
        digits_end(b, i + 1)
    } else {
        i
    }
}

/// The number that `b[start..end]` spells, in 32-bit wrapping arithmetic.
pub open spec fn digits_value(b: Seq<u8>, start: int, end: int) -> i32
    decreases end - start,
{
    if end <= start {
        0
    } else {
        digits_value(b, start, end - 1).wrapping_mul(10).wrapping_add((b[end - 1] - 48) as i32)
    }
}

/// The number written at `start` and where it ends, when a digit is there.
pub open spec fn number_at(b: Seq<u8>, start: int) -> Option<(i32, int)> {
    if 0 <= start < b.len() && is_digit(b[start]) {
        Some((digits_value(b, start, digits_end(b, start)), digits_end(b, start)))
    } else {
        None
    }
}

/// The number written at `start`, and the index after its last digit.
pub fn parse_number_at(bytes: &[u8], start: usize) -> (r: Option<(i32, usize)>)
    ensures
        match r {
            Some((n, end)) => number_at(bytes@, start as int) == Some((n, end as int)),
            None => number_at(bytes@, start as int).is_none(),
        },
{
    if start >= bytes.len() || bytes[start] < 48 || bytes[start] > 57 {
        return None;
    }
    let mut num: i32 = 0;
    let mut pos: usize = start;
    while pos < bytes.len() && bytes[pos] >= 48 && bytes[pos] <= 57
        invariant
            start <= pos <= bytes@.len(),
            start < bytes@.len() && is_digit(bytes@[start as int]),
            digits_end(bytes@, start as int) == digits_end(bytes@, pos as int),
            num == digits_value(bytes@, start as int, pos as int),
        decreases bytes@.len() - pos,
    {
        num = num.wrapping_mul(10).wrapping_add((bytes[pos] - 48) as i32);
        pos += 1;
    }
    Some((num, pos))
}

/// `/dev/nvidia`.
pub open spec fn nvidia_prefix() -> Seq<u8> {
    seq![47u8, 100, 101, 118, 47, 110, 118, 105, 100, 105, 97]
}

/// `/dev/dri/renderD`.
pub open spec fn dri_render_prefix() -> Seq<u8> {
    seq![47u8, 100, 101, 118, 47, 100, 114, 105, 47, 114, 101, 110, 100, 101, 114, 68]
}

/// `/dev/dri/card`.
pub open spec fn dri_card_prefix() -> Seq<u8> {
    seq![47u8, 100, 101, 118, 47, 100, 114, 105, 47, 99, 97, 114, 100]
}

/// The GPU index of a NUL-padded device path, or -1: `/dev/nvidia<N>` is
/// GPU N when nothing but NUL follows the number; `/dev/dri/renderD<N>` is
/// GPU N - 128; `/dev/dri/card<N>` is GPU N.
pub open spec fn gpu_index_of(f: Seq<u8>) -> i32 {
    if begins_with(f, nvidia_prefix()) {
        match number_at(f, 11) {
            Some((n, end)) => if end < f.len() && f[end] != 0 { -1i32 } else { n },
            None => -1i32,
        }
    } else if begins_with(f, dri_render_prefix()) {
        match number_at(f, 16) {
            Some((n, _)) => n.wrapping_sub(128),
            None => -1i32,
        }
    } else if begins_with(f, dri_card_prefix()) {
        match number_at(f, 13) {
            Some((n, _)) => n,
            None => -1i32,
        }
    } else {
        -1i32
    }
}

/// The GPU index of a device path, or -1 when it names no GPU.
pub fn get_gpu_index(filename: &[u8]) -> (r: i32)
    ensures
        r == gpu_index_of(filename@),
{
    let nvidia: [u8; 11] = [47u8, 100, 101, 118, 47, 110, 118, 105, 100, 105, 97];
    let render: [u8; 16] = [47u8, 100, 101, 118, 47, 100, 114, 105, 47, 114, 101, 110, 100, 101, 114, 68];
    let card: [u8; 13] = [47u8, 100, 101, 118, 47, 100, 114, 105, 47, 99, 97, 114, 100];
    assert(nvidia@ =~= nvidia_prefix());
    assert(render@ =~= dri_render_prefix());
    assert(card@ =~= dri_card_prefix());
    if starts_with(filename, &nvidia) {
        return match parse_number_at(filename, 11) {
            Some((index, end_pos)) => if end_pos < filename.len() && filename[end_pos] != 0 {
                -1
            } else {
                index
            },
            None => -1,
        };
    }
    if starts_with(filename, &render) {
        return match parse_number_at(filename, 16) {
            Some((index, _)) => index.wrapping_sub(128),
            None => -1,
        };
    }
    if starts_with(filename, &card) {
        return match parse_number_at(filename, 13) {
            Some((index, _)) => index,
            None => -1,
        };
    }
    -1
}

/// Outcome of emitting a GPU event.
pub enum EmitGpuStatus {
    Success,
    Failure,
    NotGpuDevice,
}

/// Bytes per element of an NCCL data type; unknown types count as four.
pub open spec fn nccl_type_size(dt: u32) -> u32 {
    if dt == 0 || dt == 1 || dt == 10 || dt == 11 {
        1
    } else if dt == 6 || dt == 9 {
        2
    } else if dt == 4 || dt == 5 || dt == 8 {
        8
    } else {
        4
    }
}

/// Bytes per element of an NCCL data type.
pub fn nccl_datatype_to_bytes(dt: u32) -> (r: u32)
    ensures
        r == nccl_type_size(dt),
{
    match dt {
        0 => 1,
        1 => 1,
        2 => 4,
        3 => 4,
        4 => 8,
        5 => 8,
        6 => 2,
        7 => 4,
        8 => 8,
        9 => 2,
        10 => 1,
        11 => 1,
        _ => 4,
    }
}

} // verus!
