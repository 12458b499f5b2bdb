//! Numbers as the bytes of a buffer encode them.

use vstd::prelude::*;

verus! {

/// The big-endian 16-bit number stored at `i`.
pub open spec fn be_u16(s: Seq<u8>, i: int) -> int {
    s[i] * 256 + s[i + 1]
}

/// The big-endian 24-bit number stored at `i`.
pub open spec fn be_u24(s: Seq<u8>, i: int) -> int {
    s[i] * 65536 + be_u16(s, i + 1)
}

/// The big-endian 32-bit number stored at `i`.
pub open spec fn be_u32(s: Seq<u8>, i: int) -> int {
    be_u16(s, i) * 65536 + be_u16(s, i + 2)
}

/// The big-endian 64-bit number stored at `i`.
pub open spec fn be_u64(s: Seq<u8>, i: int) -> int {
    be_u32(s, i) * 0x1_0000_0000 + be_u32(s, i + 4)
}

/// The little-endian 16-bit number stored at `i`.
pub open spec fn le_u16(s: Seq<u8>, i: int) -> int {
    s[i + 1] * 256 + s[i]
}

/// The little-endian 32-bit number stored at `i`.
pub open spec fn le_u32(s: Seq<u8>, i: int) -> int {
    le_u16(s, i + 2) * 65536 + le_u16(s, i)
}

pub broadcast proof fn lemma_be_u16_bound(s: Seq<u8>, i: int)
    ensures
        0 <= #[trigger] be_u16(s, i) <= u16::MAX,
{
}

pub broadcast proof fn lemma_be_u24_bound(s: Seq<u8>, i: int)
    ensures
        0 <= #[trigger] be_u24(s, i) < 0x100_0000,
{
    lemma_be_u16_bound(s, i + 1);
}

pub broadcast proof fn lemma_be_u32_bound(s: Seq<u8>, i: int)
    ensures
        0 <= #[trigger] be_u32(s, i) <= u32::MAX,
{
    lemma_be_u16_bound(s, i);
    lemma_be_u16_bound(s, i + 2);
}

pub broadcast proof fn lemma_be_u64_bound(s: Seq<u8>, i: int)
    ensures
        0 <= #[trigger] be_u64(s, i) <= u64::MAX,
{
    lemma_be_u32_bound(s, i);
    lemma_be_u32_bound(s, i + 4);
}

pub broadcast proof fn lemma_le_u16_bound(s: Seq<u8>, i: int)
    ensures
        0 <= #[trigger] le_u16(s, i) <= u16::MAX,
{
}

pub broadcast proof fn lemma_le_u32_bound(s: Seq<u8>, i: int)
    ensures
        0 <= #[trigger] le_u32(s, i) <= u32::MAX,
{
    lemma_le_u16_bound(s, i);
    lemma_le_u16_bound(s, i + 2);
}

/// The ranges of the numbers that the byte layouts encode.
pub broadcast group group_number_bounds {
    lemma_be_u16_bound,
    lemma_be_u24_bound,
    lemma_be_u32_bound,
    lemma_be_u64_bound,
    lemma_le_u16_bound,
    lemma_le_u32_bound,
}

} // verus!
