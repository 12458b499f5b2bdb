//! Pixel storage of an image plane: 8-bit or 16-bit samples.

use crate::internal_utils::{
    limited_to_full_y, spec_limited_to_full, spec_limited_to_full_y, try_reserve_exact, usize_from_u32, vec_capacity,
};
use vstd::arithmetic::div_mod::{lemma_fundamental_div_mod, lemma_fundamental_div_mod_converse};
use crate::{AvifError, AvifResult};
use vstd::prelude::*;

verus! {

/// The samples of one plane, one byte or two bytes each.
#[derive(Debug)]
pub enum Pixels {
    Buffer(Vec<u8>),
    Buffer16(Vec<u16>),
}

impl Pixels {
    /// Both hold samples of the same width and the same samples.
    pub open spec fn same_samples(&self, other: &Pixels) -> bool {
        match (*self, *other) {
            (Pixels::Buffer(a), Pixels::Buffer(b)) => a@ == b@,
            (Pixels::Buffer16(a), Pixels::Buffer16(b)) => a@ == b@,
            _ => false,
        }
    }

    /// Number of samples held.
    pub open spec fn spec_size(&self) -> nat {
        match self {
            Pixels::Buffer(b) => b@.len(),
            Pixels::Buffer16(b) => b@.len(),
        }
    }

    /// Number of samples held.
    pub fn size(&self) -> (r: usize)
        ensures
            r == self.spec_size(),
    {
        match self {
            Pixels::Buffer(buffer) => buffer.len(),
            Pixels::Buffer16(buffer) => buffer.len(),
        }
    }

    /// Whether any sample is held.
    pub fn has_data(&self) -> (r: bool)
        ensures
            r == (self.spec_size() > 0),
    {
        match self {
            Pixels::Buffer(buffer) => buffer.len() != 0,
            Pixels::Buffer16(buffer) => buffer.len() != 0,
        }
    }

    /// Resizes to `size` samples; new samples take the value `default`
    /// (its low byte for 8-bit samples). `OutOfMemory` where room for them
    /// cannot be reserved, the samples then unchanged.
    pub fn resize(&mut self, size: usize, default: u16) -> (r: AvifResult<()>)
        ensures
            r is Err ==> r == Err::<(), AvifError>(AvifError::OutOfMemory) && final(self).same_samples(
                old(self),
            ),
            r is Ok ==> match (*old(self), *final(self)) {
                (Pixels::Buffer(a), Pixels::Buffer(b)) => b@.len() == size && (forall|i: int|
                    0 <= i < size ==> #[trigger] b@[i] == if i < a@.len() {
                        a@[i]
                    } else {
                        default as u8
                    }),
                (Pixels::Buffer16(a), Pixels::Buffer16(b)) => b@.len() == size && (forall|i: int|
                    0 <= i < size ==> #[trigger] b@[i] == if i < a@.len() {
                        a@[i]
                    } else {
                        default
                    }),
                _ => false,
            },
    {
        match self {
            Pixels::Buffer(buffer) => {
                if vec_capacity(buffer) < size {
                    if !try_reserve_exact(buffer, size) {
                        return Err(AvifError::OutOfMemory);
                    }
                }
                let ghost a = buffer@;
                buffer.resize(size, default as u8);
                assert forall|i: int| 0 <= i < size implies #[trigger] buffer@[i] == if i < a.len() {
                    a[i]
                } else {
                    default as u8
                } by {
                    if i < a.len() && size > a.len() {
                        assert(buffer@.subrange(0, a.len() as int)[i] == buffer@[i]);
                    }
                }
            },
            Pixels::Buffer16(buffer) => {
                if vec_capacity(buffer) < size {
                    if !try_reserve_exact(buffer, size) {
                        return Err(AvifError::OutOfMemory);
                    }
                }
                let ghost a = buffer@;
                buffer.resize(size, default);
                assert forall|i: int| 0 <= i < size implies #[trigger] buffer@[i] == if i < a.len() {
                    a[i]
                } else {
                    default
                } by {
                    if i < a.len() && size > a.len() {
                        assert(buffer@.subrange(0, a.len() as int)[i] == buffer@[i]);
                    }
                }
            },
        }
        Ok(())
    }

    /// Whether the samples are held elsewhere, behind a pointer; they never
    /// are here.
    pub fn is_pointer(&self) -> (r: bool)
        ensures
            !r,
    {
        false
    }

    /// `size` 8-bit samples from `offset`; `NoContent` for 16-bit samples.
    pub fn slice(&self, offset: u32, size: u32) -> (r: AvifResult<&[u8]>)
        requires
            self matches Pixels::Buffer(b) ==> offset + size <= b@.len(),
        ensures
            match self {
                Pixels::Buffer(b) => r matches Ok(s) && s@ == b@.subrange(
                    offset as int,
                    offset + size,
                ),
                Pixels::Buffer16(_) => r == Err::<&[u8], AvifError>(AvifError::NoContent),
            },
    {
        let offset = usize_from_u32(offset)?;
        let size = usize_from_u32(size)?;
        match self {
            Pixels::Buffer(buffer) => {
                let _n = buffer.len();
                let end = offset + size;
                Ok(vstd::slice::slice_subrange(buffer.as_slice(), offset, end))
            },
            Pixels::Buffer16(_) => Err(AvifError::NoContent),
        }
    }

    /// `size` 8-bit samples from `offset`, to be written in place;
    /// `NoContent` for 16-bit samples.
    pub fn slice_mut(&mut self, offset: u32, size: u32) -> (r: AvifResult<&mut [u8]>)
        requires
            *old(self) matches Pixels::Buffer(b) ==> offset + size <= b@.len(),
        ensures
            match *old(self) {
                Pixels::Buffer(b) => r matches Ok(s) && s@ == b@.subrange(offset as int, offset + size) && (
                *final(self) matches Pixels::Buffer(fb) && fb@ == b@.subrange(0, offset as int) + final(s)@
                    + b@.subrange(offset + size, b@.len() as int)),
                Pixels::Buffer16(_) => r == Err::<&mut [u8], AvifError>(AvifError::NoContent) && *final(self)
                    == *old(self),
            },
    {
        let offset = usize_from_u32(offset)?;
        let size = usize_from_u32(size)?;
        match self {
            Pixels::Buffer(buffer) => {
                let all = buffer.as_mut_slice();
                let (_, rest) = all.split_at_mut(offset);
                let (part, _) = rest.split_at_mut(size);
                Ok(part)
            },
            Pixels::Buffer16(_) => Err(AvifError::NoContent),
        }
    }

    /// `size` 16-bit samples from `offset`, to be written in place;
    /// `NoContent` for 8-bit samples.
    pub fn slice16_mut(&mut self, offset: u32, size: u32) -> (r: AvifResult<&mut [u16]>)
        requires
            *old(self) matches Pixels::Buffer16(b) ==> offset + size <= b@.len(),
        ensures
            match *old(self) {
                Pixels::Buffer16(b) => r matches Ok(s) && s@ == b@.subrange(offset as int, offset + size) && (
                *final(self) matches Pixels::Buffer16(fb) && fb@ == b@.subrange(0, offset as int) + final(s)@
                    + b@.subrange(offset + size, b@.len() as int)),
                Pixels::Buffer(_) => r == Err::<&mut [u16], AvifError>(AvifError::NoContent) && *final(self)
                    == *old(self),
            },
    {
        let offset = usize_from_u32(offset)?;
        let size = usize_from_u32(size)?;
        match self {
            Pixels::Buffer16(buffer) => {
                let all = buffer.as_mut_slice();
                let (_, rest) = all.split_at_mut(offset);
                let (part, _) = rest.split_at_mut(size);
                Ok(part)
            },
            Pixels::Buffer(_) => Err(AvifError::NoContent),
        }
    }

    /// The samples from `offset` in whichever width they are held: `size`
    /// 8-bit samples, or `size / 2` 16-bit samples.
    pub fn slices(&self, offset: u32, size: u32) -> (r: AvifResult<(Option<&[u8]>, Option<&[u16]>)>)
        requires
            self matches Pixels::Buffer(b) ==> offset + size <= b@.len(),
            self matches Pixels::Buffer16(b) ==> offset + size / 2 <= b@.len(),
        ensures
            match self {
                Pixels::Buffer(b) => r matches Ok((Some(s), None)) && s@ == b@.subrange(offset as int, offset + size),
                Pixels::Buffer16(b) => r matches Ok((None, Some(s))) && s@ == b@.subrange(
                    offset as int,
                    offset + size / 2,
                ),
            },
    {
        match self {
            Pixels::Buffer(_) => Ok((Some(self.slice(offset, size)?), None)),
            Pixels::Buffer16(_) => Ok((None, Some(self.slice16(offset, size / 2)?))),
        }
    }

    /// The samples from `offset` in whichever width they are held, to be
    /// written in place: `size` 8-bit samples, or `size / 2` 16-bit samples.
    pub fn slices_mut(&mut self, offset: u32, size: u32) -> (r: AvifResult<(Option<&mut [u8]>, Option<&mut [u16]>)>)
        requires
            *old(self) matches Pixels::Buffer(b) ==> offset + size <= b@.len(),
            *old(self) matches Pixels::Buffer16(b) ==> offset + size / 2 <= b@.len(),
        ensures
            match *old(self) {
                Pixels::Buffer(b) => r matches Ok((Some(s), None)) && s@ == b@.subrange(offset as int, offset + size) && (
                *final(self) matches Pixels::Buffer(fb) && fb@ == b@.subrange(0, offset as int) + final(s)@
                    + b@.subrange(offset + size, b@.len() as int)),
                Pixels::Buffer16(b) => r matches Ok((None, Some(s))) && s@ == b@.subrange(offset as int, offset + size / 2)
                    && (*final(self) matches Pixels::Buffer16(fb) && fb@ == b@.subrange(0, offset as int) + final(s)@
                    + b@.subrange(offset + size / 2, b@.len() as int)),
            },
    {
        match self {
            Pixels::Buffer(_) => Ok((Some(self.slice_mut(offset, size)?), None)),
            Pixels::Buffer16(_) => Ok((None, Some(self.slice16_mut(offset, size / 2)?))),
        }
    }

    /// `size` 16-bit samples from `offset`; `NoContent` for 8-bit samples.
    pub fn slice16(&self, offset: u32, size: u32) -> (r: AvifResult<&[u16]>)
        requires
            self matches Pixels::Buffer16(b) ==> offset + size <= b@.len(),
        ensures
            match self {
                Pixels::Buffer16(b) => r matches Ok(s) && s@ == b@.subrange(
                    offset as int,
                    offset + size,
                ),
                Pixels::Buffer(_) => r == Err::<&[u16], AvifError>(AvifError::NoContent),
            },
    {
        let offset = usize_from_u32(offset)?;
        let size = usize_from_u32(size)?;
        match self {
            Pixels::Buffer16(buffer) => {
                let _n = buffer.len();
                let end = offset + size;
                Ok(vstd::slice::slice_subrange(buffer.as_slice(), offset, end))
            },
            Pixels::Buffer(_) => Err(AvifError::NoContent),
        }
    }
}

impl Pixels {
    /// The sample at `i`, widened to 16 bits.
    pub open spec fn spec_sample(&self, i: int) -> u16 {
        match self {
            Pixels::Buffer(b) => b@[i] as u16,
            Pixels::Buffer16(b) => b@[i],
        }
    }

    /// The sample at `i`, widened to 16 bits.
    pub fn sample(&self, i: usize) -> (r: u16)
        requires
            i < self.spec_size(),
        ensures
            r == self.spec_sample(i as int),
    {
        match self {
            Pixels::Buffer(b) => b[i] as u16,
            Pixels::Buffer16(b) => b[i],
        }
    }

    /// Sets the sample at `i` to `v` (its low byte for 8-bit samples).
    pub fn set_sample(&mut self, i: usize, v: u16)
        requires
            i < old(self).spec_size(),
        ensures
            match (*old(self), *final(self)) {
                (Pixels::Buffer(a), Pixels::Buffer(b)) => b@ == a@.update(i as int, v as u8),
                (Pixels::Buffer16(a), Pixels::Buffer16(b)) => b@ == a@.update(i as int, v),
                _ => false,
            },
    {
        match self {
            Pixels::Buffer(b) => {
                #[verifier::truncate]
                let x = v as u8;
                b.set(i, x);
            },
            Pixels::Buffer16(b) => {
                b.set(i, v);
            },
        }
    }
}

/// Sample `k` lies among the first `width` samples of one of the first
/// `height` rows of `stride` samples.
pub open spec fn in_rows(k: int, stride: int, width: int, height: int) -> bool {
    stride > 0 && k / stride < height && k % stride < width
}

proof fn lemma_row_position(stride: int, y: int, x: int)
    requires
        stride > 0,
        y >= 0,
        0 <= x < stride,
    ensures
        (y * stride + x) / stride == y,
        (y * stride + x) % stride == x,
{
    lemma_fundamental_div_mod_converse(y * stride + x, stride, y, x);
}

proof fn lemma_same_position(k: int, stride: int)
    requires
        stride > 0,
    ensures
        k == (k / stride) * stride + k % stride,
{
    lemma_fundamental_div_mod(k, stride);
    assert(stride * (k / stride) == (k / stride) * stride) by (nonlinear_arith);
}

proof fn lemma_row_end(y: int, x: int, stride: int, height: int)
    requires
        0 <= y < height,
        0 <= x < stride,
    ensures
        y * stride + x < height * stride,
        y * stride + x >= 0,
{
    assert(y * stride + x < (y + 1) * stride) by (nonlinear_arith)
        requires
            x < stride,
    ;
    assert((y + 1) * stride <= height * stride) by (nonlinear_arith)
        requires
            y + 1 <= height,
            stride >= 0,
    ;
    assert(y * stride >= 0) by (nonlinear_arith)
        requires
            y >= 0,
            stride >= 0,
    ;
}

impl Pixels {
    /// `v` as a sample of this width: its low byte for 8-bit samples.
    pub open spec fn narrow(&self, v: u16) -> u16 {
        match self {
            Pixels::Buffer(_) => (v as u8) as u16,
            Pixels::Buffer16(_) => v,
        }
    }

    /// Both hold samples of the same width.
    pub open spec fn same_kind(&self, other: &Pixels) -> bool {
        (*self is Buffer) == (*other is Buffer)
    }

    /// Sets the first `width` samples of each of the first `height` rows of
    /// `stride` samples to `value`.
    pub fn fill_rows(&mut self, stride: usize, width: usize, height: usize, value: u16)
        requires
            width <= stride,
            height * stride <= old(self).spec_size(),
        ensures
            final(self).spec_size() == old(self).spec_size(),
            final(self).same_kind(old(self)),
            forall|k: int|
                0 <= k < old(self).spec_size() ==> #[trigger] final(self).spec_sample(k) == if in_rows(
                    k,
                    stride as int,
                    width as int,
                    height as int,
                ) {
                    old(self).narrow(value)
                } else {
                    old(self).spec_sample(k)
                },
    {
        let ghost orig = *self;
        let total = self.size();
        let mut y: usize = 0;
        while y < height
            invariant
                0 <= y <= height,
                width <= stride,
                height * stride <= total,
                total == orig.spec_size(),
                self.spec_size() == orig.spec_size(),
                self.same_kind(&orig),
                forall|k: int|
                    0 <= k < orig.spec_size() ==> #[trigger] self.spec_sample(k) == if in_rows(
                        k,
                        stride as int,
                        width as int,
                        y as int,
                    ) {
                        orig.narrow(value)
                    } else {
                        orig.spec_sample(k)
                    },
            decreases height - y,
        {
            let mut x: usize = 0;
            while x < width
                invariant
                    0 <= y < height,
                    0 <= x <= width,
                    width <= stride,
                    height * stride <= total,
                total == orig.spec_size(),
                    self.spec_size() == orig.spec_size(),
                    self.same_kind(&orig),
                    forall|k: int|
                        0 <= k < orig.spec_size() ==> #[trigger] self.spec_sample(k) == if in_rows(
                            k,
                            stride as int,
                            width as int,
                            y as int,
                        ) || (stride > 0 && k / (stride as int) == y && k % (stride as int) < x) {
                            orig.narrow(value)
                        } else {
                            orig.spec_sample(k)
                        },
                decreases width - x,
            {
                proof {
                    lemma_row_end(y as int, x as int, stride as int, height as int);
                    lemma_row_position(stride as int, y as int, x as int);
                }
                let idx = y * stride + x;
                let ghost before = *self;
                self.set_sample(idx, value);
                proof {
                    assert forall|k: int| 0 <= k < orig.spec_size() implies #[trigger] self.spec_sample(k) == if in_rows(
                        k,
                        stride as int,
                        width as int,
                        y as int,
                    ) || (stride > 0 && k / (stride as int) == y && k % (stride as int) < x + 1) {
                        orig.narrow(value)
                    } else {
                        orig.spec_sample(k)
                    } by {
                        if k != idx {
                            assert(self.spec_sample(k) == before.spec_sample(k));
                            if k / (stride as int) == y && k % (stride as int) == x {
                                lemma_same_position(k, stride as int);
                            }
                        }
                    }
                }
                x += 1;
            }
            y += 1;
        }
    }

    /// Rescales the first `width` samples of each of the first `height`
    /// rows of `stride` samples from limited to full range: as 8-bit
    /// samples for 8-bit buffers, else at `depth`.
    pub fn rows_to_full_range(&mut self, stride: usize, width: usize, height: usize, depth: u8)
        requires
            width <= stride,
            height * stride <= old(self).spec_size(),
        ensures
            final(self).spec_size() == old(self).spec_size(),
            final(self).same_kind(old(self)),
            forall|k: int|
                0 <= k < old(self).spec_size() ==> #[trigger] final(self).spec_sample(k) == if in_rows(
                    k,
                    stride as int,
                    width as int,
                    height as int,
                ) {
                    spec_limited_to_full_y(if *old(self) is Buffer { 8u8 } else { depth }, old(self).spec_sample(k))
                } else {
                    old(self).spec_sample(k) as int
                },
    {
        let ghost orig = *self;
        let total = self.size();
        let d: u8 = match self {
            Pixels::Buffer(_) => 8,
            Pixels::Buffer16(_) => depth,
        };
        let mut y: usize = 0;
        while y < height
            invariant
                0 <= y <= height,
                width <= stride,
                height * stride <= total,
                total == orig.spec_size(),
                self.spec_size() == orig.spec_size(),
                self.same_kind(&orig),
                d == if orig is Buffer { 8u8 } else { depth },
                forall|k: int|
                    0 <= k < orig.spec_size() ==> #[trigger] self.spec_sample(k) == if in_rows(
                        k,
                        stride as int,
                        width as int,
                        y as int,
                    ) {
                        spec_limited_to_full_y(d, orig.spec_sample(k))
                    } else {
                        orig.spec_sample(k) as int
                    },
            decreases height - y,
        {
            let mut x: usize = 0;
            while x < width
                invariant
                    0 <= y < height,
                    0 <= x <= width,
                    width <= stride,
                    height * stride <= total,
                total == orig.spec_size(),
                    self.spec_size() == orig.spec_size(),
                    self.same_kind(&orig),
                    d == if orig is Buffer { 8u8 } else { depth },
                    forall|k: int|
                        0 <= k < orig.spec_size() ==> #[trigger] self.spec_sample(k) == if in_rows(
                            k,
                            stride as int,
                            width as int,
                            y as int,
                        ) || (stride > 0 && k / (stride as int) == y && k % (stride as int) < x) {
                            spec_limited_to_full_y(d, orig.spec_sample(k))
                        } else {
                            orig.spec_sample(k) as int
                        },
                decreases width - x,
            {
                proof {
                    lemma_row_end(y as int, x as int, stride as int, height as int);
                    lemma_row_position(stride as int, y as int, x as int);
                }
                let idx = y * stride + x;
                let ghost before = *self;
                let s = self.sample(idx);
                assert(s == orig.spec_sample(idx as int));
                let v = limited_to_full_y(d, s);
                assert(d == 8 ==> v <= 255);
                self.set_sample(idx, v);
                proof {
                    assert forall|k: int| 0 <= k < orig.spec_size() implies #[trigger] self.spec_sample(k) == if in_rows(
                        k,
                        stride as int,
                        width as int,
                        y as int,
                    ) || (stride > 0 && k / (stride as int) == y && k % (stride as int) < x + 1) {
                        spec_limited_to_full_y(d, orig.spec_sample(k))
                    } else {
                        orig.spec_sample(k) as int
                    } by {
                        if k != idx {
                            assert(self.spec_sample(k) == before.spec_sample(k));
                            if k / (stride as int) == y && k % (stride as int) == x {
                                lemma_same_position(k, stride as int);
                            }
                        }
                    }
                }
                x += 1;
            }
            y += 1;
        }
    }

    /// Whether the first `width` samples of each of the first `height` rows
    /// of `stride` samples all equal `value` (its low byte for 8-bit
    /// samples).
    pub fn rows_all_equal(&self, stride: usize, width: usize, height: usize, value: u16) -> (r: bool)
        requires
            width <= stride,
            height * stride <= self.spec_size(),
        ensures
            r == forall|k: int|
                0 <= k < self.spec_size() && in_rows(k, stride as int, width as int, height as int)
                    ==> #[trigger] self.spec_sample(k) == self.narrow(value),
    {
        let total = self.size();
        let mut y: usize = 0;
        while y < height
            invariant
                0 <= y <= height,
                width <= stride,
                height * stride <= total,
                total == self.spec_size(),
                forall|k: int|
                    0 <= k < self.spec_size() && in_rows(k, stride as int, width as int, y as int)
                        ==> #[trigger] self.spec_sample(k) == self.narrow(value),
            decreases height - y,
        {
            let mut x: usize = 0;
            while x < width
                invariant
                    0 <= y < height,
                    0 <= x <= width,
                    width <= stride,
                    height * stride <= total,
                    total == self.spec_size(),
                    forall|k: int|
                        0 <= k < self.spec_size() && (in_rows(k, stride as int, width as int, y as int)
                            || (stride > 0 && k / (stride as int) == y && k % (stride as int) < x))
                            ==> #[trigger] self.spec_sample(k) == self.narrow(value),
                decreases width - x,
            {
                proof {
                    lemma_row_end(y as int, x as int, stride as int, height as int);
                    lemma_row_position(stride as int, y as int, x as int);
                }
                let idx = y * stride + x;
                let s = self.sample(idx);
                let expected: u16 = match self {
                    Pixels::Buffer(_) => {
                        #[verifier::truncate]
                        let b = value as u8;
                        b as u16
                    },
                    Pixels::Buffer16(_) => value,
                };
                if s != expected {
                    assert(in_rows(idx as int, stride as int, width as int, height as int));
                    return false;
                }
                proof {
                    assert forall|k: int|
                        0 <= k < self.spec_size() && (in_rows(k, stride as int, width as int, y as int)
                            || (stride > 0 && k / (stride as int) == y && k % (stride as int) < x + 1))
                            implies #[trigger] self.spec_sample(k) == self.narrow(value) by {
                        if k / (stride as int) == y && k % (stride as int) == x {
                            lemma_same_position(k, stride as int);
                        }
                    }
                }
                x += 1;
            }
            y += 1;
        }
        true
    }
}

/// A copy of the items, with room reserved for exactly them first;
/// `OutOfMemory` where it cannot be reserved.
fn copy_items<T: Copy>(v: &Vec<T>) -> (r: AvifResult<Vec<T>>)
    ensures
        r matches Ok(c) ==> c@ == v@,
        r is Err ==> r == Err::<Vec<T>, AvifError>(AvifError::OutOfMemory),
{
    let mut c: Vec<T> = Vec::new();
    if !try_reserve_exact(&mut c, v.len()) {
        return Err(AvifError::OutOfMemory);
    }
    let mut i: usize = 0;
    while i < v.len()
        invariant
            0 <= i <= v@.len(),
            c@ == v@.subrange(0, i as int),
        decreases v@.len() - i,
    {
        c.push(v[i]);
        i += 1;
        assert(c@ =~= v@.subrange(0, i as int));
    }
    assert(c@ =~= v@);
    Ok(c)
}

impl Pixels {
    /// A copy of the samples; `OutOfMemory` where room for them cannot be
    /// reserved.
    pub fn try_clone(&self) -> (r: AvifResult<Pixels>)
        ensures
            r matches Ok(p) ==> p.same_samples(self),
            r is Err ==> r == Err::<Pixels, AvifError>(AvifError::OutOfMemory),
    {
        match self {
            Pixels::Buffer(b) => Ok(Pixels::Buffer(copy_items(b)?)),
            Pixels::Buffer16(b) => Ok(Pixels::Buffer16(copy_items(b)?)),
        }
    }
}

/// Where the samples of a grid of pixels lie in a buffer: row `y` starts at
/// `(y * row_scale) / row_div` and holds `row_len` samples; the sample of
/// column `x` lies `x * step + offset` into it.
#[derive(Debug, Clone, Copy)]
pub struct SlotLayout {
    pub row_scale: usize,
    pub row_div: usize,
    pub row_len: usize,
    pub step: usize,
    pub offset: usize,
}

impl SlotLayout {
    pub open spec fn row_start(&self, y: int) -> int {
        (y * self.row_scale) / (self.row_div as int)
    }

    /// Position of the sample of column `x` of row `y`.
    pub open spec fn slot(&self, y: int, x: int) -> int {
        self.row_start(y) + x * self.step + self.offset
    }

    /// The layout places a grid of `width` by `height` samples in a buffer
    /// of `size` samples: rows follow one another without overlap, each
    /// sample lies within its row, and each row lies in the buffer.
    pub open spec fn fits(&self, width: int, height: int, size: int) -> bool {
        &&& self.row_div == 1 || self.row_div == 2
        &&& self.row_len <= self.row_scale / self.row_div
        &&& self.step > 0
        &&& width == 0 || (width - 1) * self.step + self.offset < self.row_len
        &&& height == 0 || self.row_start(height - 1) + self.row_len <= size
    }

    /// Position of the sample of column `x` of row `y`.
    fn slot_of(&self, y: usize, x: usize, width: Ghost<int>, height: Ghost<int>, size: Ghost<int>) -> (r: usize)
        requires
            self.fits(width@, height@, size@),
            y < height@,
            x < width@,
            size@ <= usize::MAX,
        ensures
            r == self.slot(y as int, x as int),
            r < size@,
    {
        proof {
            lemma_row_starts(*self, y as int, height@ - 1);
            assert(y * self.row_scale <= 0xffff_ffff_ffff_ffff * 0xffff_ffff_ffff_ffff) by (nonlinear_arith)
                requires
                    y <= 0xffff_ffff_ffff_ffff,
                    self.row_scale <= 0xffff_ffff_ffff_ffff,
            ;
            assert(x * self.step + self.offset < self.row_len) by (nonlinear_arith)
                requires
                    x <= width@ - 1,
                    (width@ - 1) * self.step + self.offset < self.row_len,
                    self.step > 0,
            ;
        }
        let start = ((y as u128) * (self.row_scale as u128) / (self.row_div as u128)) as usize;
        start + x * self.step + self.offset
    }
}

/// Floor division adds up: `(a + b) / d >= a / d + b / d`.
proof fn lemma_div_superadditive(a: int, b: int, d: int)
    requires
        a >= 0,
        b >= 0,
        d > 0,
    ensures
        (a + b) / d >= a / d + b / d,
{
    lemma_fundamental_div_mod(a, d);
    lemma_fundamental_div_mod(b, d);
    lemma_fundamental_div_mod(a + b, d);
    let qa = a / d;
    let qb = b / d;
    let q = (a + b) / d;
    assert(q >= qa + qb) by (nonlinear_arith)
        requires
            a == d * qa + a % d,
            b == d * qb + b % d,
            a + b == d * q + (a + b) % d,
            0 <= a % d < d,
            0 <= b % d < d,
            0 <= (a + b) % d < d,
            d > 0,
    ;
}

/// Rows start in order, each at least a row length after the one before.
proof fn lemma_row_starts(l: SlotLayout, y1: int, y2: int)
    requires
        l.row_div == 1 || l.row_div == 2,
        l.row_len <= l.row_scale / l.row_div,
        0 <= y1 <= y2,
    ensures
        l.row_start(y1) >= 0,
        y1 < y2 ==> l.row_start(y2) >= l.row_start(y1) + l.row_len,
        l.row_start(y1) <= l.row_start(y2),
    decreases y2 - y1,
{
    let d = l.row_div as int;
    let m = l.row_scale as int;
    assert(y1 * m >= 0) by (nonlinear_arith)
        requires
            y1 >= 0,
            m >= 0,
    ;
    assert(l.row_start(y1) >= 0) by (nonlinear_arith)
        requires
            y1 * m >= 0,
            d > 0,
            l.row_start(y1) == (y1 * m) / d,
    ;
    if y1 < y2 {
        lemma_row_starts(l, y1 + 1, y2);
        assert((y1 + 1) * m == y1 * m + m) by (nonlinear_arith);
        lemma_div_superadditive(y1 * m, m, d);
    }
}

/// Every sample lies in its row.
proof fn lemma_slot_in_row(l: SlotLayout, width: int, y: int, x: int)
    requires
        l.step > 0,
        width == 0 || (width - 1) * l.step + l.offset < l.row_len,
        0 <= x < width,
    ensures
        l.row_start(y) <= l.slot(y, x) < l.row_start(y) + l.row_len,
{
    assert(0 <= x * l.step + l.offset < l.row_len) by (nonlinear_arith)
        requires
            0 <= x <= width - 1,
            (width - 1) * l.step + l.offset < l.row_len,
            l.step > 0,
    ;
}

/// Different samples of the grid lie at different positions.
proof fn lemma_slots_distinct(l: SlotLayout, width: int, y1: int, x1: int, y2: int, x2: int)
    requires
        l.row_div == 1 || l.row_div == 2,
        l.row_len <= l.row_scale / l.row_div,
        l.step > 0,
        width == 0 || (width - 1) * l.step + l.offset < l.row_len,
        0 <= y1,
        0 <= y2,
        0 <= x1 < width,
        0 <= x2 < width,
        l.slot(y1, x1) == l.slot(y2, x2),
    ensures
        y1 == y2 && x1 == x2,
{
    lemma_slot_in_row(l, width, y1, x1);
    lemma_slot_in_row(l, width, y2, x2);
    if y1 < y2 {
        lemma_row_starts(l, y1, y2);
    } else if y2 < y1 {
        lemma_row_starts(l, y2, y1);
    } else {
        assert(x1 * l.step == x2 * l.step);
        assert(x1 == x2) by (nonlinear_arith)
            requires
                x1 * l.step == x2 * l.step,
                l.step > 0,
        ;
    }
}

/// Samples at different offsets within their pixels lie at different
/// positions, whichever pixels of the grid they belong to.
pub proof fn lemma_offsets_apart(l1: SlotLayout, l2: SlotLayout, width: int, height: int, size: int, y1: int, x1: int, y2: int, x2: int)
    requires
        l2 == (SlotLayout { offset: l2.offset, ..l1 }),
        l1.fits(width, height, size),
        l2.fits(width, height, size),
        l1.offset != l2.offset,
        l1.offset < l1.step,
        l2.offset < l1.step,
        0 <= y1 < height,
        0 <= y2 < height,
        0 <= x1 < width,
        0 <= x2 < width,
    ensures
        l1.slot(y1, x1) != l2.slot(y2, x2),
        0 <= l1.slot(y1, x1) < size,
        0 <= l2.slot(y2, x2) < size,
{
    lemma_slot_in_row(l1, width, y1, x1);
    lemma_slot_in_row(l2, width, y2, x2);
    lemma_row_starts(l1, y1, height - 1);
    lemma_row_starts(l2, y2, height - 1);
    assert(l1.row_start(y2) == l2.row_start(y2));
    if y1 < y2 {
        lemma_row_starts(l1, y1, y2);
    } else if y2 < y1 {
        lemma_row_starts(l1, y2, y1);
    } else if l1.slot(y1, x1) == l2.slot(y2, x2) {
        assert(x1 * l1.step + l1.offset == x2 * l1.step + l2.offset);
        assert(false) by (nonlinear_arith)
            requires
                x1 * l1.step + l1.offset == x2 * l1.step + l2.offset,
                l1.offset != l2.offset,
                0 <= l1.offset < l1.step,
                0 <= l2.offset < l1.step,
                x1 >= 0,
                x2 >= 0,
        ;
    }
}

impl Pixels {
    /// Sets the sample of every pixel of a `width` by `height` grid laid out
    /// by `l` to `value` (its low byte for 8-bit samples); the other
    /// samples stay.
    pub fn fill_slots(&mut self, l: &SlotLayout, width: usize, height: usize, value: u16)
        requires
            l.fits(width as int, height as int, old(self).spec_size() as int),
        ensures
            final(self).spec_size() == old(self).spec_size(),
            final(self).same_kind(old(self)),
            forall|y: int, x: int|
                0 <= y < height && 0 <= x < width ==> #[trigger] final(self).spec_sample(l.slot(y, x)) == old(self).narrow(value),
            forall|k: int|
                0 <= k < old(self).spec_size() && (forall|y: int, x: int|
                    0 <= y < height && 0 <= x < width ==> k != #[trigger] l.slot(y, x)) ==> #[trigger] final(self).spec_sample(k)
                    == old(self).spec_sample(k),
    {
        let ghost orig = *self;
        let total = self.size();
        let mut y: usize = 0;
        while y < height
            invariant
                0 <= y <= height,
                total == orig.spec_size(),
                l.fits(width as int, height as int, total as int),
                self.spec_size() == orig.spec_size(),
                self.same_kind(&orig),
                forall|y2: int, x2: int|
                    0 <= y2 < y && 0 <= x2 < width ==> #[trigger] self.spec_sample(l.slot(y2, x2)) == orig.narrow(value),
                forall|k: int|
                    0 <= k < orig.spec_size() && (forall|y2: int, x2: int|
                        0 <= y2 < y && 0 <= x2 < width ==> k != #[trigger] l.slot(y2, x2)) ==> #[trigger] self.spec_sample(k)
                        == orig.spec_sample(k),
            decreases height - y,
        {
            let mut x: usize = 0;
            while x < width
                invariant
                    0 <= y < height,
                    0 <= x <= width,
                    total == orig.spec_size(),
                    l.fits(width as int, height as int, total as int),
                    self.spec_size() == orig.spec_size(),
                    self.same_kind(&orig),
                    forall|y2: int, x2: int|
                        0 <= y2 < height && 0 <= x2 < width && (y2 < y || (y2 == y && x2 < x)) ==> #[trigger] self.spec_sample(
                            l.slot(y2, x2),
                        ) == orig.narrow(value),
                    forall|k: int|
                        0 <= k < orig.spec_size() && (forall|y2: int, x2: int|
                            0 <= y2 < height && 0 <= x2 < width && (y2 < y || (y2 == y && x2 < x)) ==> k
                                != #[trigger] l.slot(y2, x2)) ==> #[trigger] self.spec_sample(k) == orig.spec_sample(k),
                decreases width - x,
            {
                let idx = l.slot_of(y, x, Ghost(width as int), Ghost(height as int), Ghost(total as int));
                let ghost before = *self;
                self.set_sample(idx, value);
                proof {
                    assert forall|y2: int, x2: int|
                        0 <= y2 < height && 0 <= x2 < width && (y2 < y || (y2 == y && x2 < x + 1)) implies #[trigger] self.spec_sample(
                            l.slot(y2, x2),
                        ) == orig.narrow(value) by {
                        if !(y2 == y && x2 == x) {
                            if l.slot(y2, x2) == idx {
                                lemma_slots_distinct(*l, width as int, y2, x2, y as int, x as int);
                            }
                            lemma_slot_in_row(*l, width as int, y2, x2);
                            lemma_row_starts(*l, y2, height - 1);
                            assert(0 <= l.slot(y2, x2) < orig.spec_size());
                            assert(self.spec_sample(l.slot(y2, x2)) == before.spec_sample(l.slot(y2, x2)));
                        } else {
                            assert(l.slot(y2, x2) == idx);
                            assert(self.spec_sample(idx as int) == before.narrow(value));
                        }
                    }
                    assert forall|k: int|
                        0 <= k < orig.spec_size() && (forall|y2: int, x2: int|
                            0 <= y2 < height && 0 <= x2 < width && (y2 < y || (y2 == y && x2 < x + 1)) ==> k
                                != #[trigger] l.slot(y2, x2)) implies #[trigger] self.spec_sample(k) == orig.spec_sample(k) by {
                        assert(k != l.slot(y as int, x as int));
                        assert(before.spec_sample(k) == orig.spec_sample(k));
                    }
                }
                x += 1;
            }
            proof {
                assert forall|k: int|
                    0 <= k < orig.spec_size() && (forall|y2: int, x2: int|
                        0 <= y2 < y + 1 && 0 <= x2 < width ==> k != #[trigger] l.slot(y2, x2)) implies #[trigger] self.spec_sample(k)
                        == orig.spec_sample(k) by {
                    assert forall|y2: int, x2: int|
                        0 <= y2 < height && 0 <= x2 < width && (y2 < y || (y2 == y && x2 < width)) implies k
                            != #[trigger] l.slot(y2, x2) by {
                        assert(0 <= y2 < y + 1);
                    }
                }
            }
            y += 1;
        }
    }
}

impl Pixels {
    /// Copies, for every pixel of a `width` by `height` grid, the sample
    /// that `src` holds where the layout `sl` places it into the place that
    /// the layout `l` gives it here; the other samples stay. Both hold
    /// samples of the same width.
    pub fn copy_slots(&mut self, l: &SlotLayout, src: &Pixels, sl: &SlotLayout, width: usize, height: usize)
        requires
            l.fits(width as int, height as int, old(self).spec_size() as int),
            sl.fits(width as int, height as int, src.spec_size() as int),
            old(self).same_kind(src),
        ensures
            final(self).spec_size() == old(self).spec_size(),
            final(self).same_kind(old(self)),
            forall|y: int, x: int|
                0 <= y < height && 0 <= x < width ==> #[trigger] final(self).spec_sample(l.slot(y, x)) == src.spec_sample(
                    sl.slot(y, x),
                ),
            forall|k: int|
                0 <= k < old(self).spec_size() && (forall|y: int, x: int|
                    0 <= y < height && 0 <= x < width ==> k != #[trigger] l.slot(y, x)) ==> #[trigger] final(self).spec_sample(k)
                    == old(self).spec_sample(k),
    {
        let ghost orig = *self;
        let total = self.size();
        let src_total = src.size();
        let mut y: usize = 0;
        while y < height
            invariant
                0 <= y <= height,
                total == orig.spec_size(),
                src_total == src.spec_size(),
                l.fits(width as int, height as int, total as int),
                sl.fits(width as int, height as int, src_total as int),
                orig.same_kind(src),
                self.spec_size() == orig.spec_size(),
                self.same_kind(&orig),
                forall|y2: int, x2: int|
                    0 <= y2 < y && 0 <= x2 < width ==> #[trigger] self.spec_sample(l.slot(y2, x2)) == src.spec_sample(
                        sl.slot(y2, x2),
                    ),
                forall|k: int|
                    0 <= k < orig.spec_size() && (forall|y2: int, x2: int|
                        0 <= y2 < y && 0 <= x2 < width ==> k != #[trigger] l.slot(y2, x2)) ==> #[trigger] self.spec_sample(k)
                        == orig.spec_sample(k),
            decreases height - y,
        {
            let mut x: usize = 0;
            while x < width
                invariant
                    0 <= y < height,
                    0 <= x <= width,
                    total == orig.spec_size(),
                    src_total == src.spec_size(),
                    l.fits(width as int, height as int, total as int),
                    sl.fits(width as int, height as int, src_total as int),
                    orig.same_kind(src),
                    self.spec_size() == orig.spec_size(),
                    self.same_kind(&orig),
                    forall|y2: int, x2: int|
                        0 <= y2 < height && 0 <= x2 < width && (y2 < y || (y2 == y && x2 < x)) ==> #[trigger] self.spec_sample(
                            l.slot(y2, x2),
                        ) == src.spec_sample(sl.slot(y2, x2)),
                    forall|k: int|
                        0 <= k < orig.spec_size() && (forall|y2: int, x2: int|
                            0 <= y2 < height && 0 <= x2 < width && (y2 < y || (y2 == y && x2 < x)) ==> k
                                != #[trigger] l.slot(y2, x2)) ==> #[trigger] self.spec_sample(k) == orig.spec_sample(k),
                decreases width - x,
            {
                let sidx = sl.slot_of(y, x, Ghost(width as int), Ghost(height as int), Ghost(src_total as int));
                let v = src.sample(sidx);
                let idx = l.slot_of(y, x, Ghost(width as int), Ghost(height as int), Ghost(total as int));
                let ghost before = *self;
                self.set_sample(idx, v);
                proof {
                    assert(self.spec_sample(idx as int) == v);
                    assert forall|y2: int, x2: int|
                        0 <= y2 < height && 0 <= x2 < width && (y2 < y || (y2 == y && x2 < x + 1)) implies #[trigger] self.spec_sample(
                            l.slot(y2, x2),
                        ) == src.spec_sample(sl.slot(y2, x2)) by {
                        if !(y2 == y && x2 == x) {
                            if l.slot(y2, x2) == idx {
                                lemma_slots_distinct(*l, width as int, y2, x2, y as int, x as int);
                            }
                            lemma_slot_in_row(*l, width as int, y2, x2);
                            lemma_row_starts(*l, y2, height - 1);
                            assert(0 <= l.slot(y2, x2) < orig.spec_size());
                            assert(self.spec_sample(l.slot(y2, x2)) == before.spec_sample(l.slot(y2, x2)));
                        } else {
                            assert(l.slot(y2, x2) == idx);
                        }
                    }
                    assert forall|k: int|
                        0 <= k < orig.spec_size() && (forall|y2: int, x2: int|
                            0 <= y2 < height && 0 <= x2 < width && (y2 < y || (y2 == y && x2 < x + 1)) ==> k
                                != #[trigger] l.slot(y2, x2)) implies #[trigger] self.spec_sample(k) == orig.spec_sample(k) by {
                        assert(k != l.slot(y as int, x as int));
                        assert(before.spec_sample(k) == orig.spec_sample(k));
                    }
                }
                x += 1;
            }
            proof {
                assert forall|k: int|
                    0 <= k < orig.spec_size() && (forall|y2: int, x2: int|
                        0 <= y2 < y + 1 && 0 <= x2 < width ==> k != #[trigger] l.slot(y2, x2)) implies #[trigger] self.spec_sample(k)
                        == orig.spec_sample(k) by {
                    assert forall|y2: int, x2: int|
                        0 <= y2 < height && 0 <= x2 < width && (y2 < y || (y2 == y && x2 < width)) implies k
                            != #[trigger] l.slot(y2, x2) by {
                        assert(0 <= y2 < y + 1);
                    }
                }
            }
            y += 1;
        }
    }
}

/// Column `x` of a row padded past its `width` samples: past the end, the
/// last sample.
pub open spec fn clamp_column(x: int, width: int) -> int {
    if x < width {
        x
    } else {
        width - 1
    }
}

impl Pixels {
    /// Copies a `width` by `height` grid of samples of `src`, laid out by
    /// `sl`, into the first `width` columns of a `dst_width` by `height`
    /// grid here, laid out by `l`, and repeats the last sample of each row
    /// over the columns after it; the other samples stay. Both hold samples
    /// of the same width.
    pub fn copy_slots_padded(
        &mut self,
        l: &SlotLayout,
        dst_width: usize,
        src: &Pixels,
        sl: &SlotLayout,
        width: usize,
        height: usize,
    )
        requires
            l.fits(dst_width as int, height as int, old(self).spec_size() as int),
            sl.fits(width as int, height as int, src.spec_size() as int),
            height > 0 ==> width > 0,
            old(self).same_kind(src),
        ensures
            final(self).spec_size() == old(self).spec_size(),
            final(self).same_kind(old(self)),
            forall|y: int, x: int|
                0 <= y < height && 0 <= x < dst_width ==> #[trigger] final(self).spec_sample(l.slot(y, x))
                    == src.spec_sample(sl.slot(y, clamp_column(x, width as int))),
            forall|k: int|
                0 <= k < old(self).spec_size() && (forall|y: int, x: int|
                    0 <= y < height && 0 <= x < dst_width ==> k != #[trigger] l.slot(y, x))
                    ==> #[trigger] final(self).spec_sample(k) == old(self).spec_sample(k),
    {
        let ghost orig = *self;
        let total = self.size();
        let src_total = src.size();
        let mut y: usize = 0;
        while y < height
            invariant
                0 <= y <= height,
                total == orig.spec_size(),
                src_total == src.spec_size(),
                l.fits(dst_width as int, height as int, total as int),
                sl.fits(width as int, height as int, src_total as int),
                height > 0 ==> width > 0,
                orig.same_kind(src),
                self.spec_size() == orig.spec_size(),
                self.same_kind(&orig),
                forall|y2: int, x2: int|
                    0 <= y2 < y && 0 <= x2 < dst_width ==> #[trigger] self.spec_sample(l.slot(y2, x2)) == src.spec_sample(
                        sl.slot(y2, clamp_column(x2, width as int)),
                    ),
                forall|k: int|
                    0 <= k < orig.spec_size() && (forall|y2: int, x2: int|
                        0 <= y2 < y && 0 <= x2 < dst_width ==> k != #[trigger] l.slot(y2, x2)) ==> #[trigger] self.spec_sample(k)
                        == orig.spec_sample(k),
            decreases height - y,
        {
            let mut x: usize = 0;
            while x < dst_width
                invariant
                    0 <= y < height,
                    0 <= x <= dst_width,
                    total == orig.spec_size(),
                    src_total == src.spec_size(),
                    l.fits(dst_width as int, height as int, total as int),
                    sl.fits(width as int, height as int, src_total as int),
                    height > 0 ==> width > 0,
                    orig.same_kind(src),
                    self.spec_size() == orig.spec_size(),
                    self.same_kind(&orig),
                    forall|y2: int, x2: int|
                        0 <= y2 < height && 0 <= x2 < dst_width && (y2 < y || (y2 == y && x2 < x)) ==> #[trigger] self.spec_sample(
                            l.slot(y2, x2),
                        ) == src.spec_sample(sl.slot(y2, clamp_column(x2, width as int))),
                    forall|k: int|
                        0 <= k < orig.spec_size() && (forall|y2: int, x2: int|
                            0 <= y2 < height && 0 <= x2 < dst_width && (y2 < y || (y2 == y && x2 < x)) ==> k
                                != #[trigger] l.slot(y2, x2)) ==> #[trigger] self.spec_sample(k) == orig.spec_sample(k),
                decreases dst_width - x,
            {
                let column = if x < width {
                    x
                } else {
                    width - 1
                };
                let sidx = sl.slot_of(y, column, Ghost(width as int), Ghost(height as int), Ghost(src_total as int));
                let v = src.sample(sidx);
                let idx = l.slot_of(y, x, Ghost(dst_width as int), Ghost(height as int), Ghost(total as int));
                let ghost before = *self;
                self.set_sample(idx, v);
                proof {
                    assert(self.spec_sample(idx as int) == v);
                    assert forall|y2: int, x2: int|
                        0 <= y2 < height && 0 <= x2 < dst_width && (y2 < y || (y2 == y && x2 < x + 1)) implies #[trigger] self.spec_sample(
                            l.slot(y2, x2),
                        ) == src.spec_sample(sl.slot(y2, clamp_column(x2, width as int))) by {
                        if !(y2 == y && x2 == x) {
                            if l.slot(y2, x2) == idx {
                                lemma_slots_distinct(*l, dst_width as int, y2, x2, y as int, x as int);
                            }
                            lemma_slot_in_row(*l, dst_width as int, y2, x2);
                            lemma_row_starts(*l, y2, height - 1);
                            assert(0 <= l.slot(y2, x2) < orig.spec_size());
                            assert(self.spec_sample(l.slot(y2, x2)) == before.spec_sample(l.slot(y2, x2)));
                        } else {
                            assert(l.slot(y2, x2) == idx);
                        }
                    }
                    assert forall|k: int|
                        0 <= k < orig.spec_size() && (forall|y2: int, x2: int|
                            0 <= y2 < height && 0 <= x2 < dst_width && (y2 < y || (y2 == y && x2 < x + 1)) ==> k
                                != #[trigger] l.slot(y2, x2)) implies #[trigger] self.spec_sample(k) == orig.spec_sample(k) by {
                        assert(k != l.slot(y as int, x as int));
                        assert(before.spec_sample(k) == orig.spec_sample(k));
                    }
                }
                x += 1;
            }
            proof {
                assert forall|k: int|
                    0 <= k < orig.spec_size() && (forall|y2: int, x2: int|
                        0 <= y2 < y + 1 && 0 <= x2 < dst_width ==> k != #[trigger] l.slot(y2, x2)) implies #[trigger] self.spec_sample(k)
                        == orig.spec_sample(k) by {
                    assert forall|y2: int, x2: int|
                        0 <= y2 < height && 0 <= x2 < dst_width && (y2 < y || (y2 == y && x2 < dst_width)) implies k
                            != #[trigger] l.slot(y2, x2) by {
                        assert(0 <= y2 < y + 1);
                    }
                }
            }
            y += 1;
        }
    }
}


/// A colour sample `p` of a pixel whose alpha is `a`, multiplied by alpha
/// (`undo` false) or divided by it (`undo` true), on a scale whose largest
/// value is `max`, rounded down. Transparent pixels lose their colour, opaque
/// ones keep it, and division stops at `max`.
pub open spec fn alpha_weighted(undo: bool, p: u16, a: u16, max: u16) -> u16 {
    if a == 0 {
        0
    } else if a >= max {
        p
    } else if !undo {
        ((p as int * a as int) / (max as int)) as u16
    } else {
        let v = (p as int * max as int) / (a as int);
        if v > max {
            max
        } else {
            v as u16
        }
    }
}

/// Computes `alpha_weighted`.
pub fn weigh_by_alpha(undo: bool, p: u16, a: u16, max: u16) -> (r: u16)
    ensures
        r == alpha_weighted(undo, p, a, max),
{
    if a == 0 {
        0
    } else if a >= max {
        p
    } else if !undo {
        assert(p as int * a as int <= 0xffff * 0xffff) by (nonlinear_arith)
            requires
                p <= 0xffff,
                a <= 0xffff,
        ;
        let v: u32 = (p as u32) * (a as u32) / (max as u32);
        assert(v <= p) by (nonlinear_arith)
            requires
                v == (p as int * a as int) / (max as int),
                a < max,
                max > 0,
                p >= 0,
        ;
        v as u16
    } else {
        assert(p as int * max as int <= 0xffff * 0xffff) by (nonlinear_arith)
            requires
                p <= 0xffff,
                max <= 0xffff,
        ;
        let v: u32 = (p as u32) * (max as u32) / (a as u32);
        if v > max as u32 {
            max
        } else {
            v as u16
        }
    }
}

impl SlotLayout {
    /// Position of sample `c` of the pixel of column `x` of row `y`, the
    /// pixel starting where the layout places it.
    pub open spec fn channel_slot(&self, y: int, x: int, c: int) -> int {
        self.slot(y, x) + c
    }

    /// The layout places a grid of `width` by `height` pixels of `channels`
    /// consecutive samples in a buffer of `size` samples: the pixels do not
    /// overlap, each lies within its row, and each row in the buffer.
    pub open spec fn fits_pixels(&self, channels: int, width: int, height: int, size: int) -> bool {
        &&& self.fits(width, height, size)
        &&& 1 <= channels <= self.step
        &&& width == 0 || (width - 1) * self.step + self.offset + channels - 1 < self.row_len
    }
}

/// The layout of sample `c` of each pixel fits wherever the pixels do.
proof fn lemma_channel_fits(l: SlotLayout, channels: int, width: int, height: int, size: int, c: int)
    requires
        l.fits_pixels(channels, width, height, size),
        0 <= c < channels,
        l.offset + c <= usize::MAX,
    ensures
        (SlotLayout { offset: (l.offset + c) as usize, ..l }).fits(width, height, size),
        forall|y: int, x: int| #[trigger] (SlotLayout { offset: (l.offset + c) as usize, ..l }).slot(y, x) == l.channel_slot(y, x, c),
{
}

/// Samples of the pixels of the grid lie in the buffer, and different
/// samples at different positions.
proof fn lemma_channel_slots(l: SlotLayout, channels: int, width: int, height: int, size: int, y1: int, x1: int, c1: int, y2: int, x2: int, c2: int)
    requires
        l.fits_pixels(channels, width, height, size),
        0 <= y1 < height,
        0 <= x1 < width,
        0 <= c1 < channels,
        0 <= y2 < height,
        0 <= x2 < width,
        0 <= c2 < channels,
    ensures
        0 <= l.channel_slot(y1, x1, c1) < size,
        l.channel_slot(y1, x1, c1) == l.channel_slot(y2, x2, c2) ==> y1 == y2 && x1 == x2 && c1 == c2,
{
    let l1 = SlotLayout { offset: (l.offset + c1) as usize, ..l };
    let l2 = SlotLayout { offset: (l.offset + c2) as usize, ..l };
    assert(l.offset + c1 < l.row_len && l.offset + c2 < l.row_len) by (nonlinear_arith)
        requires
            (width - 1) * l.step + l.offset + channels - 1 < l.row_len,
            width >= 1,
            l.step >= 1,
            c1 < channels,
            c2 < channels,
    ;
    lemma_channel_fits(l, channels, width, height, size, c1);
    lemma_channel_fits(l, channels, width, height, size, c2);
    lemma_slot_in_row(l1, width, y1, x1);
    lemma_slot_in_row(l2, width, y2, x2);
    lemma_row_starts(l, y1, height - 1);
    lemma_row_starts(l, y2, height - 1);
    assert(l1.slot(y1, x1) == l.channel_slot(y1, x1, c1));
    assert(l2.slot(y2, x2) == l.channel_slot(y2, x2, c2));
    if l.channel_slot(y1, x1, c1) == l.channel_slot(y2, x2, c2) {
        if y1 < y2 {
            lemma_row_starts(l, y1, y2);
        } else if y2 < y1 {
            lemma_row_starts(l, y2, y1);
        } else {
            assert(x1 * l.step + c1 == x2 * l.step + c2);
            assert(x1 == x2 && c1 == c2) by (nonlinear_arith)
                requires
                    x1 * l.step + c1 == x2 * l.step + c2,
                    0 <= c1 < l.step,
                    0 <= c2 < l.step,
                    x1 >= 0,
                    x2 >= 0,
            ;
        }
    }
}

impl Pixels {
    /// Sample `c` of the pixel of column `x` of row `y` laid out by `l`
    /// after weighing by alpha: the alpha sample, at `alpha`, stays; each
    /// other sample is weighed by it.
    pub open spec fn weighed(&self, l: SlotLayout, alpha: int, max: u16, undo: bool, y: int, x: int, c: int) -> u16 {
        if c == alpha {
            self.spec_sample(l.channel_slot(y, x, c))
        } else {
            self.narrow(
                alpha_weighted(undo, self.spec_sample(l.channel_slot(y, x, c)), self.spec_sample(l.channel_slot(y, x, alpha)), max),
            )
        }
    }

    /// Weighs the samples `base..base + 4` of one pixel by its alpha sample
    /// at `base + alpha`.
    fn weigh_pixel(&mut self, base: usize, alpha: usize, max: u16, undo: bool)
        requires
            base + 4 <= old(self).spec_size(),
            alpha < 4,
        ensures
            final(self).spec_size() == old(self).spec_size(),
            final(self).same_kind(old(self)),
            forall|c: int|
                0 <= c < 4 ==> #[trigger] final(self).spec_sample(base + c) == (if c == alpha {
                    old(self).spec_sample(base + c)
                } else {
                    old(self).narrow(alpha_weighted(undo, old(self).spec_sample(base + c), old(self).spec_sample(base + alpha), max))
                }),
            forall|k: int|
                0 <= k < old(self).spec_size() && !(base <= k < base + 4) ==> #[trigger] final(self).spec_sample(k)
                    == old(self).spec_sample(k),
    {
        let total = self.size();
        assert(base + 4 <= total);
        let a = self.sample(base + alpha);
        let p0 = self.sample(base);
        let p1 = self.sample(base + 1);
        let p2 = self.sample(base + 2);
        let p3 = self.sample(base + 3);
        if alpha != 0 {
            self.set_sample(base, weigh_by_alpha(undo, p0, a, max));
        }
        if alpha != 1 {
            self.set_sample(base + 1, weigh_by_alpha(undo, p1, a, max));
        }
        if alpha != 2 {
            self.set_sample(base + 2, weigh_by_alpha(undo, p2, a, max));
        }
        if alpha != 3 {
            self.set_sample(base + 3, weigh_by_alpha(undo, p3, a, max));
        }
        proof {
            assert forall|c: int| 0 <= c < 4 implies #[trigger] self.spec_sample(base + c) == (if c == alpha {
                old(self).spec_sample(base + c)
            } else {
                old(self).narrow(alpha_weighted(undo, old(self).spec_sample(base + c), old(self).spec_sample(base + alpha), max))
            }) by {
                assert(c == 0 || c == 1 || c == 2 || c == 3);
            }
        }
    }

    /// Weighs every pixel of a `width` by `height` grid of four-sample
    /// pixels laid out by `l` by its alpha sample, the one at `alpha` within
    /// the pixel: each other sample `p` becomes `alpha_weighted(undo, p, a,
    /// max)` (its low byte for 8-bit samples). The alpha samples and the
    /// samples outside the pixels stay.
    pub fn weigh_slots(&mut self, l: &SlotLayout, alpha: usize, width: usize, height: usize, max: u16, undo: bool)
        requires
            l.fits_pixels(4, width as int, height as int, old(self).spec_size() as int),
            alpha < 4,
        ensures
            final(self).spec_size() == old(self).spec_size(),
            final(self).same_kind(old(self)),
            forall|y: int, x: int, c: int|
                0 <= y < height && 0 <= x < width && 0 <= c < 4 ==> #[trigger] final(self).spec_sample(l.channel_slot(y, x, c))
                    == old(self).weighed(*l, alpha as int, max, undo, y, x, c),
            forall|k: int|
                0 <= k < old(self).spec_size() && (forall|y: int, x: int, c: int|
                    0 <= y < height && 0 <= x < width && 0 <= c < 4 ==> k != #[trigger] l.channel_slot(y, x, c))
                    ==> #[trigger] final(self).spec_sample(k) == old(self).spec_sample(k),
    {
        let ghost orig = *self;
        let total = self.size();
        let mut y: usize = 0;
        while y < height
            invariant
                0 <= y <= height,
                alpha < 4,
                total == orig.spec_size(),
                l.fits_pixels(4, width as int, height as int, total as int),
                self.spec_size() == orig.spec_size(),
                self.same_kind(&orig),
                forall|y2: int, x2: int, c: int|
                    0 <= y2 < y && 0 <= x2 < width && 0 <= c < 4 ==> #[trigger] self.spec_sample(l.channel_slot(y2, x2, c))
                        == orig.weighed(*l, alpha as int, max, undo, y2, x2, c),
                forall|k: int|
                    0 <= k < orig.spec_size() && (forall|y2: int, x2: int, c: int|
                        0 <= y2 < y && 0 <= x2 < width && 0 <= c < 4 ==> k != #[trigger] l.channel_slot(y2, x2, c))
                        ==> #[trigger] self.spec_sample(k) == orig.spec_sample(k),
            decreases height - y,
        {
            let mut x: usize = 0;
            while x < width
                invariant
                    0 <= y < height,
                    0 <= x <= width,
                    alpha < 4,
                    total == orig.spec_size(),
                    l.fits_pixels(4, width as int, height as int, total as int),
                    self.spec_size() == orig.spec_size(),
                    self.same_kind(&orig),
                    forall|y2: int, x2: int, c: int|
                        0 <= y2 < height && 0 <= x2 < width && 0 <= c < 4 && (y2 < y || (y2 == y && x2 < x))
                            ==> #[trigger] self.spec_sample(l.channel_slot(y2, x2, c)) == orig.weighed(
                            *l,
                            alpha as int,
                            max,
                            undo,
                            y2,
                            x2,
                            c,
                        ),
                    forall|k: int|
                        0 <= k < orig.spec_size() && (forall|y2: int, x2: int, c: int|
                            0 <= y2 < height && 0 <= x2 < width && 0 <= c < 4 && (y2 < y || (y2 == y && x2 < x)) ==> k
                                != #[trigger] l.channel_slot(y2, x2, c)) ==> #[trigger] self.spec_sample(k) == orig.spec_sample(k),
                decreases width - x,
            {
                let base = l.slot_of(y, x, Ghost(width as int), Ghost(height as int), Ghost(total as int));
                proof {
                    lemma_channel_slots(*l, 4, width as int, height as int, total as int, y as int, x as int, 3, y as int, x as int, 3);
                    assert(l.channel_slot(y as int, x as int, 3) == base + 3);
                    // The samples of this pixel are not yet touched.
                    assert forall|c: int| 0 <= c < 4 implies #[trigger] self.spec_sample(base + c) == orig.spec_sample(base + c) by {
                        let k = base + c;
                        assert(k == l.channel_slot(y as int, x as int, c));
                        assert forall|y2: int, x2: int, c2: int|
                            0 <= y2 < height && 0 <= x2 < width && 0 <= c2 < 4 && (y2 < y || (y2 == y && x2 < x)) implies k
                                != #[trigger] l.channel_slot(y2, x2, c2) by {
                            lemma_channel_slots(*l, 4, width as int, height as int, total as int, y as int, x as int, c, y2, x2, c2);
                        }
                        lemma_channel_slots(*l, 4, width as int, height as int, total as int, y as int, x as int, c, y as int, x as int, c);
                    }
                }
                let ghost before = *self;
                self.weigh_pixel(base, alpha, max, undo);
                proof {
                    assert forall|y2: int, x2: int, c: int|
                        0 <= y2 < height && 0 <= x2 < width && 0 <= c < 4 && (y2 < y || (y2 == y && x2 < x + 1))
                            implies #[trigger] self.spec_sample(l.channel_slot(y2, x2, c)) == orig.weighed(
                            *l,
                            alpha as int,
                            max,
                            undo,
                            y2,
                            x2,
                            c,
                        ) by {
                        lemma_channel_slots(*l, 4, width as int, height as int, total as int, y2, x2, c, y2, x2, c);
                        if y2 == y && x2 == x {
                            assert(l.channel_slot(y2, x2, c) == base + c);
                            assert(l.channel_slot(y2, x2, alpha as int) == base + alpha);
                            assert(before.spec_sample(base + c) == orig.spec_sample(base + c));
                            assert(before.spec_sample(base + alpha) == orig.spec_sample(base + alpha));
                        } else {
                            let k = l.channel_slot(y2, x2, c);
                            if base <= k < base + 4 {
                                let c2 = k - base;
                                assert(k == l.channel_slot(y as int, x as int, c2));
                                lemma_channel_slots(*l, 4, width as int, height as int, total as int, y2, x2, c, y as int, x as int, c2);
                            }
                            assert(self.spec_sample(k) == before.spec_sample(k));
                        }
                    }
                    assert forall|k: int|
                        0 <= k < orig.spec_size() && (forall|y2: int, x2: int, c: int|
                            0 <= y2 < height && 0 <= x2 < width && 0 <= c < 4 && (y2 < y || (y2 == y && x2 < x + 1)) ==> k
                                != #[trigger] l.channel_slot(y2, x2, c)) implies #[trigger] self.spec_sample(k) == orig.spec_sample(k) by {
                        if base <= k < base + 4 {
                            let c2 = k - base;
                            assert(k == l.channel_slot(y as int, x as int, c2));
                        }
                        assert(before.spec_sample(k) == orig.spec_sample(k));
                    }
                }
                x += 1;
            }
            proof {
                assert forall|k: int|
                    0 <= k < orig.spec_size() && (forall|y2: int, x2: int, c: int|
                        0 <= y2 < y + 1 && 0 <= x2 < width && 0 <= c < 4 ==> k != #[trigger] l.channel_slot(y2, x2, c)) implies #[trigger] self.spec_sample(k)
                        == orig.spec_sample(k) by {
                    assert forall|y2: int, x2: int, c: int|
                        0 <= y2 < height && 0 <= x2 < width && 0 <= c < 4 && (y2 < y || (y2 == y && x2 < width)) implies k
                            != #[trigger] l.channel_slot(y2, x2, c) by {
                        assert(0 <= y2 < y + 1);
                    }
                }
            }
            y += 1;
        }
    }
}

} // verus!
