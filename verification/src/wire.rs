//! Wire-level building blocks: the format version, the tag bytes, and the
//! big-endian integer fields that every layout is assembled from.
use vstd::prelude::*;

verus! {

broadcast use vstd::seq::group_seq_axioms;

/// The single supported format version byte.
pub const VERSION: u8 = 131;

pub const DISTRIBUTION_HEADER: u8 = 68;

pub const NEW_FLOAT_EXT: u8 = 70;

pub const BIT_BINARY_EXT: u8 = 77;

pub const COMPRESSED_TERM: u8 = 80;

pub const ATOM_CACHE_REF: u8 = 82;

pub const NEW_PID_EXT: u8 = 88;

pub const NEW_PORT_EXT: u8 = 89;

pub const NEWER_REFERENCE_EXT: u8 = 90;

pub const SMALL_INTEGER_EXT: u8 = 97;

pub const INTEGER_EXT: u8 = 98;

pub const FLOAT_EXT: u8 = 99;

pub const ATOM_EXT: u8 = 100;

pub const REFERENCE_EXT: u8 = 101;

pub const PORT_EXT: u8 = 102;

pub const PID_EXT: u8 = 103;

pub const SMALL_TUPLE_EXT: u8 = 104;

pub const LARGE_TUPLE_EXT: u8 = 105;

pub const NIL_EXT: u8 = 106;

pub const STRING_EXT: u8 = 107;

pub const LIST_EXT: u8 = 108;

pub const BINARY_EXT: u8 = 109;

pub const SMALL_BIG_EXT: u8 = 110;

pub const LARGE_BIG_EXT: u8 = 111;

pub const NEW_FUN_EXT: u8 = 112;

pub const EXPORT_EXT: u8 = 113;

pub const NEW_REFERENCE_EXT: u8 = 114;

pub const SMALL_ATOM_EXT: u8 = 115;

pub const MAP_EXT: u8 = 116;

pub const FUN_EXT: u8 = 117;

pub const ATOM_UTF8_EXT: u8 = 118;

pub const SMALL_ATOM_UTF8_EXT: u8 = 119;

pub const V4_PORT_EXT: u8 = 120;

// ---------------------------------------------------------------------------
// Reading big-endian integer fields from a byte sequence
// ---------------------------------------------------------------------------
/// The unsigned 16-bit big-endian value at position `i`.
pub open spec fn be_u16(b: Seq<u8>, i: int) -> int
    recommends
        0 <= i,
        i + 2 <= b.len(),
{
    b[i] * 0x100 + b[i + 1]
}

/// The unsigned 32-bit big-endian value at position `i`.
pub open spec fn be_u32(b: Seq<u8>, i: int) -> int
    recommends
        0 <= i,
        i + 4 <= b.len(),
{
    b[i] * 0x100_0000 + b[i + 1] * 0x1_0000 + b[i + 2] * 0x100 + b[i + 3]
}

/// The unsigned 64-bit big-endian value at position `i`.
pub open spec fn be_u64(b: Seq<u8>, i: int) -> int
    recommends
        0 <= i,
        i + 8 <= b.len(),
{
    be_u32(b, i) * 0x1_0000_0000 + be_u32(b, i + 4)
}

/// The signed 32-bit big-endian (two's complement) value at position `i`.
pub open spec fn be_i32(b: Seq<u8>, i: int) -> int
    recommends
        0 <= i,
        i + 4 <= b.len(),
{
    if be_u32(b, i) >= 0x8000_0000 {
        be_u32(b, i) - 0x1_0000_0000
    } else {
        be_u32(b, i)
    }
}

// ---------------------------------------------------------------------------
// Writing big-endian integer fields
// ---------------------------------------------------------------------------
/// The two big-endian bytes of an unsigned 16-bit value.
pub open spec fn enc_u16(n: int) -> Seq<u8>
    recommends
        0 <= n < 0x1_0000,
{
    seq![((n / 0x100) % 0x100) as u8, (n % 0x100) as u8]
}

/// The four big-endian bytes of an unsigned 32-bit value.
pub open spec fn enc_u32(n: int) -> Seq<u8>
    recommends
        0 <= n < 0x1_0000_0000,
{
    seq![
        ((n / 0x100_0000) % 0x100) as u8,
        ((n / 0x1_0000) % 0x100) as u8,
        ((n / 0x100) % 0x100) as u8,
        (n % 0x100) as u8,
    ]
}

/// The eight big-endian bytes of an unsigned 64-bit value.
pub open spec fn enc_u64(n: int) -> Seq<u8>
    recommends
        0 <= n < 0x1_0000_0000_0000_0000,
{
    enc_u32(n / 0x1_0000_0000) + enc_u32(n % 0x1_0000_0000)
}

/// The four big-endian bytes of a signed 32-bit value, two's complement.
pub open spec fn enc_i32(n: int) -> Seq<u8>
    recommends
        -0x8000_0000 <= n < 0x8000_0000,
{
    if n < 0 {
        enc_u32(n + 0x1_0000_0000)
    } else {
        enc_u32(n)
    }
}

// ---------------------------------------------------------------------------
// The written fields read back to the written value
// ---------------------------------------------------------------------------
/// Reading two bytes written by `enc_u16` yields the written value.
pub proof fn lemma_be_enc_u16(b: Seq<u8>, i: int, n: int)
    requires
        0 <= n < 0x1_0000,
        0 <= i,
        i + 2 <= b.len(),
        b[i] == enc_u16(n)[0],
        b[i + 1] == enc_u16(n)[1],
    ensures
        be_u16(b, i) == n,
{
    assert(n / 0x100 < 0x100) by (nonlinear_arith)
        requires 0 <= n < 0x1_0000;
    assert((n / 0x100) * 0x100 + n % 0x100 == n) by (nonlinear_arith);
}

/// Reading four bytes written by `enc_u32` yields the written value.
pub proof fn lemma_be_enc_u32(b: Seq<u8>, i: int, n: int)
    requires
        0 <= n < 0x1_0000_0000,
        0 <= i,
        i + 4 <= b.len(),
        b[i] == enc_u32(n)[0],
        b[i + 1] == enc_u32(n)[1],
        b[i + 2] == enc_u32(n)[2],
        b[i + 3] == enc_u32(n)[3],
    ensures
        be_u32(b, i) == n,
{
    assert(((n / 0x100_0000) % 0x100) * 0x100_0000 + ((n / 0x1_0000) % 0x100) * 0x1_0000 + ((n
        / 0x100) % 0x100) * 0x100 + n % 0x100 == n) by (nonlinear_arith)
        requires 0 <= n < 0x1_0000_0000;
}

/// Reading eight bytes written by `enc_u64` yields the written value.
pub proof fn lemma_be_enc_u64(b: Seq<u8>, i: int, n: int)
    requires
        0 <= n < 0x1_0000_0000_0000_0000,
        0 <= i,
        i + 8 <= b.len(),
        forall|k: int| 0 <= k < 8 ==> b[i + k] == enc_u64(n)[k],
    ensures
        be_u64(b, i) == n,
{
    let hi = n / 0x1_0000_0000;
    let lo = n % 0x1_0000_0000;
    assert(0 <= hi < 0x1_0000_0000 && 0 <= lo < 0x1_0000_0000) by (nonlinear_arith)
        requires 0 <= n < 0x1_0000_0000_0000_0000, hi == n / 0x1_0000_0000, lo == n % 0x1_0000_0000;
    assert(forall|k: int| 0 <= k < 4 ==> enc_u64(n)[k] == enc_u32(hi)[k]);
    assert(forall|k: int| 0 <= k < 4 ==> enc_u64(n)[4 + k] == enc_u32(lo)[k]);
    assert(b[i + 4] == enc_u32(lo)[0] && b[i + 5] == enc_u32(lo)[1] && b[i + 6] == enc_u32(lo)[2]
        && b[i + 7] == enc_u32(lo)[3]);
    lemma_be_enc_u32(b, i, hi);
    lemma_be_enc_u32(b, i + 4, lo);
    assert(hi * 0x1_0000_0000 + lo == n) by (nonlinear_arith)
        requires hi == n / 0x1_0000_0000, lo == n % 0x1_0000_0000;
}

/// Reading four bytes written by `enc_i32` yields the written value.
pub proof fn lemma_be_enc_i32(b: Seq<u8>, i: int, n: int)
    requires
        -0x8000_0000 <= n < 0x8000_0000,
        0 <= i,
        i + 4 <= b.len(),
        b[i] == enc_i32(n)[0],
        b[i + 1] == enc_i32(n)[1],
        b[i + 2] == enc_i32(n)[2],
        b[i + 3] == enc_i32(n)[3],
    ensures
        be_i32(b, i) == n,
{
    if n < 0 {
        lemma_be_enc_u32(b, i, n + 0x1_0000_0000);
    } else {
        lemma_be_enc_u32(b, i, n);
    }
}

} // verus!
