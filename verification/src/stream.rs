//! Readers over a byte buffer: `IStream` reads whole bytes and big-endian
//! integers, `IBitStream` reads bits most significant first.

use crate::internal_utils::{Fraction, UFraction};
pub use crate::layout::{be_u16, be_u24, be_u32, be_u64, le_u16, le_u32};
use crate::{AvifError, AvifResult};
use byteorder::{BigEndian, ByteOrder, LittleEndian};
use vstd::prelude::*;
use vstd::utf8::{decode_utf8, valid_utf8};

verus! {

broadcast use crate::layout::group_number_bounds;

// ---------------------------------------------------------------------------
// Byte-level model.
// ---------------------------------------------------------------------------

/// The bytes that follow `i` up to (not including) the first zero byte, if
/// there is a zero byte at or after `i`.
pub open spec fn c_string_len(s: Seq<u8>, i: int) -> Option<int>
    decreases s.len() - i,
{
    if i < 0 || i >= s.len() {
        None
    } else if s[i] == 0 {
        Some(0)
    } else {
        match c_string_len(s, i + 1) {
            Some(n) => Some(n + 1),
            None => None,
        }
    }
}

/// 128 to the power `k`.
pub open spec fn pow128(k: nat) -> nat
    decreases k,
{
    if k == 0 { 1 } else { 128 * pow128((k - 1) as nat) }
}

proof fn lemma_pow128_bound(k: nat)
    requires
        k < 8,
    ensures
        pow128(k) <= 0x2_0000_0000_0000,
{
    reveal_with_fuel(pow128, 9);
    if k < 7 {
        assert(pow128(k) <= pow128(7)) by {
            lemma_pow128_monotone(k, 7);
        }
    }
}

proof fn lemma_pow128_monotone(a: nat, b: nat)
    requires
        a <= b,
    ensures
        pow128(a) <= pow128(b),
    decreases b,
{
    if a < b {
        lemma_pow128_monotone(a, (b - 1) as nat);
    }
}

/// The value of the first `k` bytes of an unsigned LEB128 number at `off`
/// (seven bits per byte, least significant group first).
pub open spec fn leb128_value(s: Seq<u8>, off: int, k: nat) -> nat
    decreases k,
{
    if k == 0 {
        0
    } else {
        leb128_value(s, off, (k - 1) as nat) + (s[off + k - 1] % 128) as nat * pow128((k - 1) as nat)
    }
}

/// The index (counted from `off`) of the byte that ends an unsigned LEB128
/// number, searching from index `i` among the first eight bytes that exist.
pub open spec fn leb128_end(s: Seq<u8>, off: int, i: nat) -> Option<nat>
    decreases 8 - i,
{
    if i >= 8 || off + i >= s.len() {
        None
    } else if s[off + i] < 128 {
        Some(i)
    } else {
        leb128_end(s, off, i + 1)
    }
}

/// The reading of a 32-bit two's complement number from its unsigned bits.
pub open spec fn as_i32(v: int) -> int {
    if v < 0x8000_0000 { v } else { v - 0x1_0000_0000 }
}

// ---------------------------------------------------------------------------
// Trusted conversions that call byteorder and std.
// ---------------------------------------------------------------------------

/// byteorder's `BigEndian::read_u16`: the first two bytes, most significant
/// first. It panics on fewer than two bytes, which `requires` excludes.
#[verifier::external_body]
fn read_be_u16(buf: &[u8]) -> (r: u16)
    requires
        buf@.len() >= 2,
    ensures
        r == be_u16(buf@, 0),
{
    BigEndian::read_u16(buf)
}

/// byteorder's `BigEndian::read_u24`: the first three bytes, most
/// significant first. It panics on fewer than three bytes.
#[verifier::external_body]
fn read_be_u24(buf: &[u8]) -> (r: u32)
    requires
        buf@.len() >= 3,
    ensures
        r == be_u24(buf@, 0),
{
    BigEndian::read_u24(buf)
}

/// byteorder's `BigEndian::read_u32`: the first four bytes, most significant
/// first. It panics on fewer than four bytes.
#[verifier::external_body]
fn read_be_u32(buf: &[u8]) -> (r: u32)
    requires
        buf@.len() >= 4,
    ensures
        r == be_u32(buf@, 0),
{
    BigEndian::read_u32(buf)
}

/// byteorder's `BigEndian::read_u64`: the first eight bytes, most
/// significant first. It panics on fewer than eight bytes.
#[verifier::external_body]
fn read_be_u64(buf: &[u8]) -> (r: u64)
    requires
        buf@.len() >= 8,
    ensures
        r == be_u64(buf@, 0),
{
    BigEndian::read_u64(buf)
}

/// byteorder's `LittleEndian::read_u16`: the first two bytes, least
/// significant first. It panics on fewer than two bytes.
#[verifier::external_body]
fn read_le_u16(buf: &[u8]) -> (r: u16)
    requires
        buf@.len() >= 2,
    ensures
        r == le_u16(buf@, 0),
{
    LittleEndian::read_u16(buf)
}

/// byteorder's `LittleEndian::read_u32`: the first four bytes, least
/// significant first. It panics on fewer than four bytes.
#[verifier::external_body]
fn read_le_u32(buf: &[u8]) -> (r: u32)
    requires
        buf@.len() >= 4,
    ensures
        r == le_u32(buf@, 0),
{
    LittleEndian::read_u32(buf)
}

/// std's `String::from_utf8`: a string exactly when the bytes are valid
/// UTF-8, and then the string holds the characters they encode.
#[verifier::external_body]
fn string_from_utf8(bytes: Vec<u8>) -> (r: Option<String>)
    ensures
        r is Some <==> valid_utf8(bytes@),
        r matches Some(s) ==> s@ == decode_utf8(bytes@),
{
    String::from_utf8(bytes).ok()
}

/// Whether a string holds exactly the characters of a literal.
pub fn string_is(s: &String, literal: &str) -> (r: bool)
    ensures
        r == (s@ == literal@),
{
    *s == literal.to_owned()
}

// ---------------------------------------------------------------------------
// Bit reader.
// ---------------------------------------------------------------------------

/// Bit `pos` of the buffer, counting from the most significant bit of the
/// first byte.
pub open spec fn bit_at(data: Seq<u8>, pos: int) -> u8 {
    (data[pos / 8] >> ((7 - pos % 8) as usize)) & 1u8
}

/// The number formed by the `n` bits from `pos`, most significant first.
pub open spec fn bits_value(data: Seq<u8>, pos: int, n: nat) -> nat
    decreases n,
{
    if n == 0 {
        0
    } else {
        bits_value(data, pos, (n - 1) as nat) * 2 + bit_at(data, pos + n - 1) as nat
    }
}

/// Where a read that starts at `pos` and runs out of data leaves the
/// position: the bits up to the end of the buffer have been consumed.
pub open spec fn bit_pos_after_eof(len: int, pos: int) -> int {
    if pos < 8 * len { 8 * len } else { pos }
}

/// The bits from `pos` to `pos + k` are all zero and inside the buffer.
pub open spec fn zero_run(data: Seq<u8>, pos: int, k: int) -> bool {
    forall|j: int| pos <= j < pos + k ==> j < 8 * data.len() && #[trigger] bit_at(data, j) == 0
}

proof fn lemma_bit_le_one(x: u8, s: usize)
    ensures
        (x >> s) & 1u8 <= 1u8,
{
    assert((x >> s) & 1u8 <= 1u8) by (bit_vector);
}

/// A bit of the buffer is 0 or 1.
pub proof fn lemma_bit_at_le_one(data: Seq<u8>, pos: int)
    ensures
        bit_at(data, pos) <= 1,
{
    lemma_bit_le_one(data[pos / 8], (7 - pos % 8) as usize);
}

/// A bit reader over a byte buffer.
#[derive(Debug)]
pub struct IBitStream<'a> {
    pub data: &'a [u8],
    pub bit_offset: usize,
}

impl<'a> IBitStream<'a> {
    /// Bits of the buffer that lie at or after the position.
    pub open spec fn bits_left(&self) -> int {
        8 * self.data@.len() - self.bit_offset
    }

    pub proof fn lemma_bits_value_bound(data: Seq<u8>, pos: int, n: nat)
        requires
            n <= 32,
        ensures
            bits_value(data, pos, n) < vstd::arithmetic::power2::pow2(n),
        decreases n,
    {
        vstd::arithmetic::power2::lemma2_to64();
        if n > 0 {
            Self::lemma_bits_value_bound(data, pos, (n - 1) as nat);
            vstd::arithmetic::power2::lemma_pow2_unfold(n);
            lemma_bit_le_one(data[(pos + n - 1) / 8], (7 - (pos + n - 1) % 8) as usize);
        }
    }

    fn read_bit(&mut self) -> (r: AvifResult<u8>)
        requires
            old(self).bit_offset < usize::MAX,
        ensures
            final(self).data@ == old(self).data@,
            old(self).bit_offset < 8 * old(self).data@.len() ==> r == Ok::<u8, AvifError>(
                bit_at(old(self).data@, old(self).bit_offset as int),
            ) && final(self).bit_offset == old(self).bit_offset + 1,
            old(self).bit_offset >= 8 * old(self).data@.len() ==> r == Err::<u8, AvifError>(
                AvifError::BmffParseFailed,
            ) && final(self).bit_offset == old(self).bit_offset,
    {
        let byte_offset = self.bit_offset / 8;
        if byte_offset >= self.data.len() {
            return Err(AvifError::BmffParseFailed);
        }
        let byte = self.data[byte_offset];
        let shift = 7 - (self.bit_offset % 8);
        self.bit_offset += 1;
        Ok((byte >> shift) & 0x01)
    }

    /// Reads `n` bits, most significant first.
    pub fn read(&mut self, n: usize) -> (r: AvifResult<u32>)
        requires
            n <= 32,
            old(self).bit_offset + n <= usize::MAX,
        ensures
            final(self).data@ == old(self).data@,
            n == 0 || old(self).bit_offset + n <= 8 * old(self).data@.len() ==> r is Ok
                && final(self).bit_offset == old(self).bit_offset + n,
            r matches Ok(v) ==> v == bits_value(old(self).data@, old(self).bit_offset as int, n as nat)
                && v < vstd::arithmetic::power2::pow2(n as nat),
            n > 0 && old(self).bit_offset + n > 8 * old(self).data@.len() ==> r == Err::<u32, AvifError>(
                AvifError::BmffParseFailed,
            ) && final(self).bit_offset == bit_pos_after_eof(
                old(self).data@.len() as int,
                old(self).bit_offset as int,
            ),
    {
        let ghost start = self.bit_offset as int;
        let ghost data = self.data@;
        let mut value: u32 = 0;
        let mut i: usize = 0;
        while i < n
            invariant
                0 <= i <= n <= 32,
                data == old(self).data@,
                start == old(self).bit_offset,
                self.data@ == data,
                self.bit_offset == start + i,
                start + n <= usize::MAX,
                i == 0 || start + i <= 8 * data.len(),
                value == bits_value(data, start, i as nat),
            decreases n - i,
        {
            proof {
                Self::lemma_bits_value_bound(data, start, i as nat);
                vstd::arithmetic::power2::lemma_pow2_strictly_increases(i as nat, 32);
                vstd::arithmetic::power2::lemma2_to64();
            }
            let bit = match self.read_bit() {
                Ok(b) => b,
                Err(e) => {
                    return Err(e);
                },
            };
            assert(bit <= 1) by {
                let p = start + i;
                lemma_bit_le_one(data[p / 8], (7 - p % 8) as usize);
            }
            let old_value = value;
            assert(old_value < 0x8000_0000);
            value = (value << 1) | (bit as u32);
            assert(((old_value << 1u32) | (bit as u32)) == old_value * 2 + bit) by (bit_vector)
                requires
                    old_value < 0x8000_0000,
                    bit <= 1,
            ;
            i += 1;
        }
        proof {
            Self::lemma_bits_value_bound(data, start, n as nat);
        }
        Ok(value)
    }

    /// Reads a single bit as a flag.
    pub fn read_bool(&mut self) -> (r: AvifResult<bool>)
        requires
            old(self).bit_offset < usize::MAX,
        ensures
            final(self).data@ == old(self).data@,
            old(self).bit_offset < 8 * old(self).data@.len() ==> r == Ok::<bool, AvifError>(
                bit_at(old(self).data@, old(self).bit_offset as int) == 1,
            ) && final(self).bit_offset == old(self).bit_offset + 1,
            old(self).bit_offset >= 8 * old(self).data@.len() ==> r == Err::<bool, AvifError>(
                AvifError::BmffParseFailed,
            ) && final(self).bit_offset == old(self).bit_offset,
    {
        let bit = self.read_bit()?;
        Ok(bit == 1)
    }

    /// Moves the position `n` bits forward, without checking the end of the
    /// buffer (a later read past the end fails).
    pub fn skip(&mut self, n: usize) -> (r: AvifResult<()>)
        requires
            old(self).bit_offset + n <= usize::MAX,
        ensures
            final(self).data@ == old(self).data@,
            final(self).bit_offset == old(self).bit_offset + n,
            r is Ok,
    {
        self.bit_offset += n;
        Ok(())
    }

    /// Skips an unsigned variable length code: a run of `k` zero bits, a one
    /// bit, then `k` more bits. A run of 32 zero bits is refused.
    pub fn skip_uvlc(&mut self) -> (r: AvifResult<()>)
        requires
            old(self).bit_offset + 64 <= usize::MAX,
        ensures
            final(self).data@ == old(self).data@,
            r is Ok <==> exists|k: int|
                0 <= k < 32 && zero_run(old(self).data@, old(self).bit_offset as int, k)
                    && old(self).bit_offset + k < 8 * old(self).data@.len() && bit_at(
                    old(self).data@,
                    old(self).bit_offset + k,
                ) == 1,
            forall|k: int|
                0 <= k < 32 && zero_run(old(self).data@, old(self).bit_offset as int, k)
                    && old(self).bit_offset + k < 8 * old(self).data@.len() && bit_at(
                    old(self).data@,
                    old(self).bit_offset + k,
                ) == 1 ==> final(self).bit_offset == old(self).bit_offset + 2 * k + 1,
            r is Err ==> r == Err::<(), AvifError>(AvifError::BmffParseFailed),
    {
        let ghost start = self.bit_offset as int;
        let ghost data = self.data@;
        let mut bit_count: usize = 0;
        loop
            invariant
                0 <= bit_count < 32,
                data == old(self).data@,
                start == old(self).bit_offset,
                self.data@ == data,
                start + 64 <= usize::MAX,
                self.bit_offset == start + bit_count,
                zero_run(data, start, bit_count as int),
            decreases 32 - bit_count,
        {
            let b = match self.read_bool() {
                Ok(b) => b,
                Err(e) => {
                    assert forall|k: int|
                        0 <= k < 32 && zero_run(data, start, k) && start + k < 8 * data.len()
                            && bit_at(data, start + k) == 1 implies false by {
                        if k < bit_count {
                            assert(bit_at(data, start + k) == 0);
                        }
                    }
                    return Err(e);
                },
            };
            if b {
                assert forall|k: int|
                    0 <= k < 32 && zero_run(data, start, k) && start + k < 8 * data.len()
                        && bit_at(data, start + k) == 1 implies k == bit_count by {
                    if k < bit_count {
                        assert(bit_at(data, start + k) == 0);
                    } else if k > bit_count {
                        assert(bit_at(data, start + bit_count) == 0);
                    }
                }
                return self.skip(bit_count);
            }
            proof {
                let p = start + bit_count;
                lemma_bit_le_one(data[p / 8], (7 - p % 8) as usize);
            }
            bit_count += 1;
            assert(zero_run(data, start, bit_count as int));
            if bit_count == 32 {
                assert forall|k: int|
                    0 <= k < 32 && zero_run(data, start, k) && start + k < 8 * data.len()
                        && bit_at(data, start + k) == 1 implies false by {
                    assert(bit_at(data, start + k) == 0);
                }
                return Err(AvifError::BmffParseFailed);
            }
        }
    }
}

// ---------------------------------------------------------------------------
// Byte reader.
// ---------------------------------------------------------------------------

/// A byte reader over a buffer; `offset` is the position of the next read.
#[derive(Debug)]
pub struct IStream<'a> {
    pub data: &'a [u8],
    pub offset: usize,
}

impl<'a> IStream<'a> {
    /// The position lies inside the buffer (or at its end).
    pub open spec fn wf(&self) -> bool {
        self.offset <= self.data@.len() <= usize::MAX
    }

    /// Bytes from the position to the end of the buffer.
    pub open spec fn left(&self) -> int {
        self.data@.len() - self.offset
    }

    /// The byte at `i` bytes after the position.
    pub open spec fn at(&self, i: int) -> u8 {
        self.data@[self.offset + i]
    }

    /// The unread part of the buffer.
    pub open spec fn rest(&self) -> Seq<u8> {
        self.data@.subrange(self.offset as int, self.data@.len() as int)
    }

    /// `new` reads the same buffer as `old`, `n` bytes further on.
    pub open spec fn advanced(old: &Self, new: &Self, n: int) -> bool {
        &&& new.data@ == old.data@
        &&& new.offset == old.offset + n
    }

    /// A stream at the start of `data`.
    pub fn create(data: &'a [u8]) -> (r: IStream<'a>)
        ensures
            r.data@ == data@,
            r.offset == 0,
            r.wf(),
    {
        let _ = data.len();
        IStream { data, offset: 0 }
    }

    /// Takes the next `size` bytes as a stream of their own.
    pub fn sub_stream(&mut self, size: usize) -> (r: AvifResult<IStream<'a>>)
        requires
            old(self).wf(),
        ensures
            final(self).wf(),
            size <= old(self).left() ==> r is Ok && Self::advanced(old(self), final(self), size as int),
            size > old(self).left() ==> r == Err::<IStream<'a>, AvifError>(AvifError::BmffParseFailed)
                && *final(self) == *old(self),
            r matches Ok(s) ==> s.offset == 0 && s.data@ == old(self).data@.subrange(
                old(self).offset as int,
                old(self).offset + size,
            ),
    {
        if size > self.bytes_left() {
            return Err(AvifError::BmffParseFailed);
        }
        let offset = self.offset;
        self.offset += size;
        Ok(IStream { data: &self.data[offset..self.offset], offset: 0 })
    }

    /// Takes the next `size` bytes as a bit reader.
    pub fn sub_bit_stream(&mut self, size: usize) -> (r: AvifResult<IBitStream<'a>>)
        requires
            old(self).wf(),
        ensures
            final(self).wf(),
            size <= old(self).left() ==> r is Ok && Self::advanced(old(self), final(self), size as int),
            size > old(self).left() ==> r == Err::<IBitStream<'a>, AvifError>(AvifError::BmffParseFailed)
                && *final(self) == *old(self),
            r matches Ok(s) ==> s.bit_offset == 0 && s.data@ == old(self).data@.subrange(
                old(self).offset as int,
                old(self).offset + size,
            ),
    {
        if size > self.bytes_left() {
            return Err(AvifError::BmffParseFailed);
        }
        let offset = self.offset;
        self.offset += size;
        Ok(IBitStream { data: &self.data[offset..self.offset], bit_offset: 0 })
    }

    /// Number of unread bytes.
    pub fn bytes_left(&self) -> (r: usize)
        requires
            self.wf(),
        ensures
            r == self.left(),
    {
        self.data.len() - self.offset
    }

    /// Whether any byte is left to read.
    pub fn has_bytes_left(&self) -> (r: bool)
        requires
            self.wf(),
        ensures
            r == (self.left() > 0),
    {
        self.bytes_left() > 0
    }

    /// The next `size` bytes.
    pub fn get_slice(&mut self, size: usize) -> (r: AvifResult<&'a [u8]>)
        requires
            old(self).wf(),
        ensures
            final(self).wf(),
            size <= old(self).left() ==> r is Ok && Self::advanced(old(self), final(self), size as int),
            size > old(self).left() ==> r == Err::<&'a [u8], AvifError>(AvifError::BmffParseFailed)
                && *final(self) == *old(self),
            r matches Ok(s) ==> s@ == old(self).data@.subrange(
                old(self).offset as int,
                old(self).offset + size,
            ),
    {
        if size > self.bytes_left() {
            return Err(AvifError::BmffParseFailed);
        }
        let offset_start = self.offset;
        self.offset += size;
        Ok(&self.data[offset_start..offset_start + size])
    }

    pub(crate) fn get_vec(&mut self, size: usize) -> (r: AvifResult<Vec<u8>>)
        requires
            old(self).wf(),
        ensures
            final(self).wf(),
            size <= old(self).left() ==> r is Ok && Self::advanced(old(self), final(self), size as int),
            size > old(self).left() ==> r == Err::<Vec<u8>, AvifError>(AvifError::BmffParseFailed)
                && *final(self) == *old(self),
            r matches Ok(v) ==> v@ == old(self).data@.subrange(
                old(self).offset as int,
                old(self).offset + size,
            ),
    {
        let s = self.get_slice(size)?;
        Ok(vstd::slice::slice_to_vec(s))
    }

    /// Reads one byte.
    pub fn read_u8(&mut self) -> (r: AvifResult<u8>)
        requires
            old(self).wf(),
        ensures
            final(self).wf(),
            old(self).left() >= 1 ==> r == Ok::<u8, AvifError>(old(self).at(0)) && Self::advanced(
                old(self),
                final(self),
                1,
            ),
            old(self).left() < 1 ==> r == Err::<u8, AvifError>(AvifError::BmffParseFailed)
                && *final(self) == *old(self),
    {
        if self.bytes_left() < 1 {
            return Err(AvifError::BmffParseFailed);
        }
        let value = self.data[self.offset];
        self.offset += 1;
        Ok(value)
    }

    /// Reads a big-endian 16-bit number.
    pub fn read_u16(&mut self) -> (r: AvifResult<u16>)
        requires
            old(self).wf(),
        ensures
            final(self).wf(),
            old(self).left() >= 2 ==> r == Ok::<u16, AvifError>(
                be_u16(old(self).data@, old(self).offset as int) as u16,
            ) && Self::advanced(old(self), final(self), 2),
            old(self).left() < 2 ==> r == Err::<u16, AvifError>(AvifError::BmffParseFailed)
                && *final(self) == *old(self),
    {
        let s = self.get_slice(2)?;
        Ok(read_be_u16(s))
    }

    /// Reads a big-endian 24-bit number.
    pub fn read_u24(&mut self) -> (r: AvifResult<u32>)
        requires
            old(self).wf(),
        ensures
            final(self).wf(),
            old(self).left() >= 3 ==> r == Ok::<u32, AvifError>(
                be_u24(old(self).data@, old(self).offset as int) as u32,
            ) && Self::advanced(old(self), final(self), 3),
            old(self).left() < 3 ==> r == Err::<u32, AvifError>(AvifError::BmffParseFailed)
                && *final(self) == *old(self),
    {
        let s = self.get_slice(3)?;
        Ok(read_be_u24(s))
    }

    /// Reads a big-endian 32-bit number.
    pub fn read_u32(&mut self) -> (r: AvifResult<u32>)
        requires
            old(self).wf(),
        ensures
            final(self).wf(),
            old(self).left() >= 4 ==> r == Ok::<u32, AvifError>(
                be_u32(old(self).data@, old(self).offset as int) as u32,
            ) && Self::advanced(old(self), final(self), 4),
            old(self).left() < 4 ==> r == Err::<u32, AvifError>(AvifError::BmffParseFailed)
                && *final(self) == *old(self),
    {
        let s = self.get_slice(4)?;
        Ok(read_be_u32(s))
    }

    /// Reads a big-endian 64-bit number.
    pub fn read_u64(&mut self) -> (r: AvifResult<u64>)
        requires
            old(self).wf(),
        ensures
            final(self).wf(),
            old(self).left() >= 8 ==> r == Ok::<u64, AvifError>(
                be_u64(old(self).data@, old(self).offset as int) as u64,
            ) && Self::advanced(old(self), final(self), 8),
            old(self).left() < 8 ==> r == Err::<u64, AvifError>(AvifError::BmffParseFailed)
                && *final(self) == *old(self),
    {
        let s = self.get_slice(8)?;
        Ok(read_be_u64(s))
    }

    /// Reads a little-endian 16-bit number.
    pub fn read_u16_le(&mut self) -> (r: AvifResult<u16>)
        requires
            old(self).wf(),
        ensures
            final(self).wf(),
            old(self).left() >= 2 ==> r == Ok::<u16, AvifError>(
                le_u16(old(self).data@, old(self).offset as int) as u16,
            ) && Self::advanced(old(self), final(self), 2),
            old(self).left() < 2 ==> r == Err::<u16, AvifError>(AvifError::BmffParseFailed)
                && *final(self) == *old(self),
    {
        let s = self.get_slice(2)?;
        Ok(read_le_u16(s))
    }

    /// Reads a little-endian 32-bit number.
    pub fn read_u32_le(&mut self) -> (r: AvifResult<u32>)
        requires
            old(self).wf(),
        ensures
            final(self).wf(),
            old(self).left() >= 4 ==> r == Ok::<u32, AvifError>(
                le_u32(old(self).data@, old(self).offset as int) as u32,
            ) && Self::advanced(old(self), final(self), 4),
            old(self).left() < 4 ==> r == Err::<u32, AvifError>(AvifError::BmffParseFailed)
                && *final(self) == *old(self),
    {
        let s = self.get_slice(4)?;
        Ok(read_le_u32(s))
    }

    /// Reads 32 bits as a two's complement number (wrapping, as the gain map
    /// fractions need).
    pub fn read_i32(&mut self) -> (r: AvifResult<i32>)
        requires
            old(self).wf(),
        ensures
            final(self).wf(),
            old(self).left() >= 4 ==> r == Ok::<i32, AvifError>(
                as_i32(be_u32(old(self).data@, old(self).offset as int)) as i32,
            ) && Self::advanced(old(self), final(self), 4),
            old(self).left() < 4 ==> r == Err::<i32, AvifError>(AvifError::BmffParseFailed)
                && *final(self) == *old(self),
    {
        let v = self.read_u32()?;
        let r: i32 = if v < 0x8000_0000 {
            v as i32
        } else {
            ((v - 0x8000_0000) as i32) - 0x7fff_ffff - 1
        };
        Ok(r)
    }

    /// Skips four bytes.
    pub fn skip_u32(&mut self) -> (r: AvifResult<()>)
        requires
            old(self).wf(),
        ensures
            final(self).wf(),
            old(self).left() >= 4 ==> r is Ok && Self::advanced(old(self), final(self), 4),
            old(self).left() < 4 ==> r == Err::<(), AvifError>(AvifError::BmffParseFailed)
                && *final(self) == *old(self),
    {
        self.skip(4)
    }

    /// Skips eight bytes.
    pub fn skip_u64(&mut self) -> (r: AvifResult<()>)
        requires
            old(self).wf(),
        ensures
            final(self).wf(),
            old(self).left() >= 8 ==> r is Ok && Self::advanced(old(self), final(self), 8),
            old(self).left() < 8 ==> r == Err::<(), AvifError>(AvifError::BmffParseFailed)
                && *final(self) == *old(self),
    {
        self.skip(8)
    }

    /// Reads a signed numerator and an unsigned denominator.
    pub fn read_fraction(&mut self) -> (r: AvifResult<Fraction>)
        requires
            old(self).wf(),
        ensures
            final(self).wf(),
            final(self).data@ == old(self).data@,
            old(self).left() >= 8 ==> r == Ok::<Fraction, AvifError>(
                Fraction(
                    as_i32(be_u32(old(self).data@, old(self).offset as int)) as i32,
                    be_u32(old(self).data@, old(self).offset + 4) as u32,
                ),
            ) && Self::advanced(old(self), final(self), 8),
            old(self).left() < 8 ==> r is Err,
    {
        let n = self.read_i32()?;
        let d = self.read_u32()?;
        Ok(Fraction(n, d))
    }

    /// Reads an unsigned numerator and an unsigned denominator.
    pub fn read_ufraction(&mut self) -> (r: AvifResult<UFraction>)
        requires
            old(self).wf(),
        ensures
            final(self).wf(),
            final(self).data@ == old(self).data@,
            old(self).left() >= 8 ==> r == Ok::<UFraction, AvifError>(
                UFraction(
                    be_u32(old(self).data@, old(self).offset as int) as u32,
                    be_u32(old(self).data@, old(self).offset + 4) as u32,
                ),
            ) && Self::advanced(old(self), final(self), 8),
            old(self).left() < 8 ==> r is Err,
    {
        let n = self.read_u32()?;
        let d = self.read_u32()?;
        Ok(UFraction(n, d))
    }

    /// Reads `size` bytes as UTF-8 text.
    pub fn read_string(&mut self, size: usize) -> (r: AvifResult<String>)
        requires
            old(self).wf(),
        ensures
            final(self).wf(),
            final(self).data@ == old(self).data@,
            ({
                let bytes = old(self).data@.subrange(old(self).offset as int, old(self).offset + size);
                &&& r is Ok <==> size <= old(self).left() && valid_utf8(bytes)
                &&& size <= old(self).left() ==> Self::advanced(old(self), final(self), size as int)
                &&& r matches Ok(s) ==> s@ == decode_utf8(bytes)
                &&& size > old(self).left() ==> *final(self) == *old(self)
                &&& r is Err ==> r == Err::<String, AvifError>(AvifError::BmffParseFailed)
            }),
    {
        let v = self.get_vec(size)?;
        match string_from_utf8(v) {
            Some(s) => Ok(s),
            None => Err(AvifError::BmffParseFailed),
        }
    }

    /// Reads a number of `xx` bytes, where `xx` is 0 (giving 0) or 4.
    pub fn read_uxx(&mut self, xx: u8) -> (r: AvifResult<u64>)
        requires
            old(self).wf(),
        ensures
            final(self).wf(),
            xx == 0 ==> r == Ok::<u64, AvifError>(0) && *final(self) == *old(self),
            xx == 4 && old(self).left() >= 4 ==> r == Ok::<u64, AvifError>(
                be_u32(old(self).data@, old(self).offset as int) as u64,
            ) && Self::advanced(old(self), final(self), 4),
            xx == 4 && old(self).left() < 4 ==> r == Err::<u64, AvifError>(
                AvifError::BmffParseFailed,
            ) && *final(self) == *old(self),
            xx != 0 && xx != 4 ==> r == Err::<u64, AvifError>(AvifError::NotImplemented)
                && *final(self) == *old(self),
    {
        let value: u64;
        if xx == 0 {
            value = 0;
        } else if xx == 4 {
            value = self.read_u32()? as u64;
        } else {
            return Err(AvifError::NotImplemented);
        }
        Ok(value)
    }

    fn find_null(&self) -> (r: Option<usize>)
        requires
            self.wf(),
        ensures
            r matches Some(n) ==> c_string_len(self.data@, self.offset as int) == Some(n as int),
            r is None ==> c_string_len(self.data@, self.offset as int) is None,
    {
        let len = self.data.len();
        let mut i = len;
        let mut found: Option<usize> = None;
        // Scan backwards so that the answer for position i is known from i + 1.
        while i > self.offset
            invariant
                self.offset <= i <= len == self.data@.len(),
                found matches Some(n) ==> c_string_len(self.data@, i as int) == Some(n as int)
                    && i + n < len,
                found is None ==> c_string_len(self.data@, i as int) is None,
            decreases i,
        {
            i -= 1;
            if self.data[i] == 0 {
                found = Some(0);
            } else {
                found = match found {
                    Some(n) => Some(n + 1),
                    None => None,
                };
            }
        }
        found
    }

    /// Reads a zero-terminated UTF-8 string; the terminator is consumed and
    /// not returned. Without a terminator the position stays; with one it
    /// moves past it, even where the bytes are not UTF-8.
    pub fn read_c_string(&mut self) -> (r: AvifResult<String>)
        requires
            old(self).wf(),
        ensures
            final(self).wf(),
            final(self).data@ == old(self).data@,
            r is Ok <==> (c_string_len(old(self).data@, old(self).offset as int) matches Some(n)
                && valid_utf8(old(self).data@.subrange(old(self).offset as int, old(self).offset + n))),
            r matches Ok(s) ==> (c_string_len(old(self).data@, old(self).offset as int) matches Some(n)
                && s@ == decode_utf8(old(self).data@.subrange(old(self).offset as int, old(self).offset + n))
                && final(self).offset == old(self).offset + n + 1),
            r is Err ==> r == Err::<String, AvifError>(AvifError::BmffParseFailed),
            c_string_len(old(self).data@, old(self).offset as int) is None ==> final(self).offset == old(self).offset,
            c_string_len(old(self).data@, old(self).offset as int) matches Some(n) ==> final(self).offset == old(
                self,
            ).offset + n + 1,
    {
        if self.bytes_left() < 1 {
            return Err(AvifError::BmffParseFailed);
        }
        let null_position = match self.find_null() {
            Some(n) => n,
            None => {
                return Err(AvifError::BmffParseFailed);
            },
        };
        proof {
            Self::lemma_c_string_len_bound(self.data@, self.offset as int);
        }
        let start = self.offset;
        self.offset += null_position + 1;
        let bytes = vstd::slice::slice_to_vec(&self.data[start..start + null_position]);
        match string_from_utf8(bytes) {
            Some(s) => Ok(s),
            None => Err(AvifError::BmffParseFailed),
        }
    }

    proof fn lemma_c_string_len_bound(s: Seq<u8>, i: int)
        ensures
            c_string_len(s, i) matches Some(n) ==> 0 <= n && i + n < s.len() && s[i + n] == 0,
        decreases s.len() - i,
    {
        if 0 <= i < s.len() && s[i] != 0 {
            Self::lemma_c_string_len_bound(s, i + 1);
        }
    }

    /// Reads an unsigned LEB128 number of at most eight bytes that fits in 32
    /// bits.
    pub fn read_uleb128(&mut self) -> (r: AvifResult<u32>)
        requires
            old(self).wf(),
        ensures
            final(self).wf(),
            final(self).data@ == old(self).data@,
            ({
                let e = leb128_end(old(self).data@, old(self).offset as int, 0);
                &&& (e matches Some(k) && leb128_value(old(self).data@, old(self).offset as int, k + 1)
                    <= u32::MAX) ==> r == Ok::<u32, AvifError>(
                    leb128_value(old(self).data@, old(self).offset as int, e.unwrap() + 1) as u32,
                )
                &&& e is Some ==> final(self).offset == old(self).offset + e.unwrap() + 1
                &&& e is None ==> final(self).offset == old(self).offset + vstd::math::min(
                    8,
                    old(self).left(),
                )
                &&& r is Err ==> r == Err::<u32, AvifError>(AvifError::BmffParseFailed)
                &&& r is Ok ==> e is Some && leb128_value(
                    old(self).data@,
                    old(self).offset as int,
                    e.unwrap() + 1,
                ) <= u32::MAX
            }),
    {
        let ghost data = self.data@;
        let ghost start = self.offset as int;
        let mut val: u64 = 0;
        let mut mult: u64 = 1;
        let mut i: usize = 0;
        while i < 8
            invariant
                data == old(self).data@,
                start == old(self).offset,
                self.wf(),
                self.data@ == data,
                0 <= i <= 8,
                self.offset == start + i,
                mult == pow128(i as nat),
                val == leb128_value(data, start, i as nat),
                val < mult,
                leb128_end(data, start, 0) == leb128_end(data, start, i as nat),
            decreases 8 - i,
        {
            let byte = match self.read_u8() {
                Ok(b) => b,
                Err(e) => {
                    return Err(e);
                },
            };
            let low = byte & 0x7f;
            assert(byte & 0x7f == byte % 128) by (bit_vector);
            proof {
                lemma_pow128_bound(i as nat);
            }
            assert((byte & 0x80 == 0) == (byte < 128)) by (bit_vector);
            assert(val + (low as u64) * mult < mult * 128) by (nonlinear_arith)
                requires
                    val < mult,
                    low < 128,
            ;
            val = val + (low as u64) * mult;
            if (byte & 0x80) == 0 {
                if val > u32::MAX as u64 {
                    return Err(AvifError::BmffParseFailed);
                }
                return Ok(val as u32);
            }
            mult = mult * 128;
            i += 1;
        }
        Err(AvifError::BmffParseFailed)
    }

    /// Reads the version byte and 24-bit flags of a full box.
    pub fn read_version_and_flags(&mut self) -> (r: AvifResult<(u8, u32)>)
        requires
            old(self).wf(),
        ensures
            final(self).wf(),
            final(self).data@ == old(self).data@,
            old(self).left() >= 4 ==> r == Ok::<(u8, u32), AvifError>(
                (old(self).at(0), be_u24(old(self).data@, old(self).offset + 1) as u32),
            ) && Self::advanced(old(self), final(self), 4),
            old(self).left() < 4 ==> r == Err::<(u8, u32), AvifError>(AvifError::BmffParseFailed),
    {
        let version = self.read_u8()?;
        let flags = self.read_u24()?;
        Ok((version, flags))
    }

    /// Reads the version and flags of a full box and refuses any version but
    /// `enforced_version`.
    pub fn read_and_enforce_version_and_flags(&mut self, enforced_version: u8) -> (r: AvifResult<
        (u8, u32),
    >)
        requires
            old(self).wf(),
        ensures
            final(self).wf(),
            final(self).data@ == old(self).data@,
            old(self).left() >= 4 && old(self).at(0) == enforced_version ==> r == Ok::<
                (u8, u32),
                AvifError,
            >((enforced_version, be_u24(old(self).data@, old(self).offset + 1) as u32))
                && Self::advanced(old(self), final(self), 4),
            old(self).left() < 4 || old(self).at(0) != enforced_version ==> r == Err::<
                (u8, u32),
                AvifError,
            >(AvifError::BmffParseFailed),
    {
        let (version, flags) = self.read_version_and_flags()?;
        if version != enforced_version {
            return Err(AvifError::BmffParseFailed);
        }
        Ok((version, flags))
    }

    /// Skips `size` bytes.
    pub fn skip(&mut self, size: usize) -> (r: AvifResult<()>)
        requires
            old(self).wf(),
        ensures
            final(self).wf(),
            size <= old(self).left() ==> r is Ok && Self::advanced(old(self), final(self), size as int),
            size > old(self).left() ==> r == Err::<(), AvifError>(AvifError::BmffParseFailed)
                && *final(self) == *old(self),
    {
        if size > self.bytes_left() {
            return Err(AvifError::BmffParseFailed);
        }
        self.offset += size;
        Ok(())
    }

    /// Moves the position `size` bytes back.
    pub fn rewind(&mut self, size: usize) -> (r: AvifResult<()>)
        requires
            old(self).wf(),
        ensures
            final(self).wf(),
            size <= old(self).offset ==> r is Ok && Self::advanced(old(self), final(self), -size),
            size > old(self).offset ==> r == Err::<(), AvifError>(AvifError::BmffParseFailed)
                && *final(self) == *old(self),
    {
        if size > self.offset {
            return Err(AvifError::BmffParseFailed);
        }
        self.offset = self.offset - size;
        Ok(())
    }
}

} // verus!
