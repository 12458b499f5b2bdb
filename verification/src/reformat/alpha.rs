//! Moving alpha between YUV images and RGB images, and making RGB images
//! opaque.

use crate::image;
use crate::image::Plane;
use crate::internal_utils::pixels::{Pixels, SlotLayout};
use crate::reformat::rgb;
use crate::reformat::rgb::Format;
use crate::{AvifError, AvifResult};
use vstd::prelude::*;

verus! {

impl rgb::Image {
    /// The pixels hold samples as wide as the depth asks: 16 bits above
    /// depth 8, else 8.
    pub open spec fn kind_ok(&self) -> bool {
        self.pixels matches Some(p) && (p is Buffer16) == (self.depth > 8)
    }

    /// Where the channel at `offset` of each pixel lies: rows of `row_bytes`
    /// bytes, pixels of four samples.
    pub open spec fn channel_layout(&self, offset: usize) -> SlotLayout {
        if self.depth > 8 {
            SlotLayout {
                row_scale: self.row_bytes as usize,
                row_div: 2,
                row_len: (self.row_bytes / 2) as usize,
                step: 4,
                offset,
            }
        } else {
            SlotLayout { row_scale: self.row_bytes as usize, row_div: 1, row_len: self.row_bytes as usize, step: 4, offset }
        }
    }

    fn channel_layout_of(&self, offset: usize) -> (r: SlotLayout)
        ensures
            r == self.channel_layout(offset),
    {
        if self.depth > 8 {
            SlotLayout {
                row_scale: self.row_bytes as usize,
                row_div: 2,
                row_len: (self.row_bytes / 2) as usize,
                step: 4,
                offset,
            }
        } else {
            SlotLayout { row_scale: self.row_bytes as usize, row_div: 1, row_len: self.row_bytes as usize, step: 4, offset }
        }
    }

    /// The offsets of the rows fit in 32 bits.
    pub open spec fn row_offsets_fit(&self) -> bool {
        self.height == 0 || (self.height - 1) * self.row_bytes <= u32::MAX
    }

    /// The alpha channel can be walked: its samples lie in their rows, the
    /// rows in the buffer, and row offsets fit in 32 bits.
    pub open spec fn alpha_fits(&self) -> bool {
        &&& self.pixels matches Some(p) && self.channel_layout(self.format.spec_offsets()[3]).fits(
            self.width as int,
            self.height as int,
            p.spec_size() as int,
        )
        &&& self.row_offsets_fit()
    }

    fn check_kind(&self) -> (r: bool)
        ensures
            r == self.kind_ok(),
    {
        match &self.pixels {
            Some(Pixels::Buffer16(_)) => self.depth > 8,
            Some(Pixels::Buffer(_)) => self.depth <= 8,
            None => false,
        }
    }

    /// Makes every pixel opaque: its alpha sample takes the largest value
    /// of the depth (255 at depth 8 and below). Formats without alpha stay
    /// as they are. Pixels missing, or of a sample width other than the
    /// depth asks, give `NoContent` where the image has rows.
    pub fn set_opaque(&mut self) -> (r: AvifResult<()>)
        requires
            old(self).spec_has_alpha() && old(self).depth > 8 ==> old(self).depth <= 30,
            old(self).spec_has_alpha() && old(self).kind_ok() ==> old(self).alpha_fits(),
        ensures
            !old(self).spec_has_alpha() ==> r is Ok && *final(self) == *old(self),
            old(self).spec_has_alpha() && old(self).height > 0 && !old(self).kind_ok() ==> r == Err::<(), AvifError>(
                AvifError::NoContent,
            ) && *final(self) == *old(self),
            old(self).spec_has_alpha() && old(self).height == 0 ==> r is Ok && *final(self) == *old(self),
            old(self).spec_has_alpha() && old(self).height > 0 && old(self).kind_ok() ==> {
                let l = old(self).channel_layout(old(self).format.spec_offsets()[3]);
                let value: u16 = if old(self).depth > 8 {
                    ((vstd::arithmetic::power2::pow2(old(self).depth as nat) - 1) % 0x10000) as u16
                } else {
                    255
                };
                &&& r is Ok
                &&& *final(self) == (rgb::Image { pixels: final(self).pixels, ..*old(self) })
                &&& final(self).pixels matches Some(p) && old(self).pixels matches Some(q) && p.same_kind(&q)
                    && p.spec_size() == q.spec_size()
                &&& forall|y: int, x: int|
                    0 <= y < old(self).height && 0 <= x < old(self).width ==> #[trigger] final(self).pixels->0.spec_sample(
                        l.slot(y, x),
                    ) == value
                &&& forall|k: int|
                    0 <= k < old(self).pixels->0.spec_size() && (forall|y: int, x: int|
                        0 <= y < old(self).height && 0 <= x < old(self).width ==> k != #[trigger] l.slot(y, x))
                        ==> #[trigger] final(self).pixels->0.spec_sample(k) == old(self).pixels->0.spec_sample(k)
            },
    {
        if !self.has_alpha() {
            return Ok(());
        }
        if self.format == Format::Rgb565 {
            return Err(AvifError::NotImplemented);
        }
        if self.height == 0 {
            return Ok(());
        }
        if !self.check_kind() {
            return Err(AvifError::NoContent);
        }
        let alpha_offset = self.format.alpha_offset();
        let layout = self.channel_layout_of(alpha_offset);
        let width = self.width as usize;
        let height = self.height as usize;
        let value: u16 = if self.depth > 8 {
            let m = self.max_channel();
            proof {
                vstd::arithmetic::power2::lemma_pow2_strictly_increases(self.depth as nat, 31);
                vstd::arithmetic::power2::lemma2_to64();
            }
            m
        } else {
            255
        };
        match &mut self.pixels {
            Some(p) => p.fill_slots(&layout, width, height, value),
            None => {},
        }
        Ok(())
    }
}

impl rgb::Image {
    /// The pixels can be walked four samples at a time: each pixel lies in
    /// its row, the rows in the buffer, and row offsets fit in 32 bits.
    pub open spec fn pixels_fit(&self) -> bool {
        &&& self.pixels matches Some(p) && self.channel_layout(0).fits_pixels(
            4,
            self.width as int,
            self.height as int,
            p.spec_size() as int,
        )
        &&& self.row_offsets_fit()
    }

    /// What weighing the colour samples by alpha (`undo` false: multiplying,
    /// `undo` true: dividing) gives, as `r`, and leaves, as `after`. Without
    /// pixels or with empty rows: `ReformatFailed`; without alpha:
    /// `InvalidArgument`. Samples of more than 8 bits are weighed in
    /// floating point, which is left to the caller: `NotImplemented`. Pixels
    /// of a sample width other than the depth asks give `NoContent` where
    /// there are rows. Else each colour sample `p` of a pixel with alpha `a`
    /// becomes `alpha_weighted(undo, p, a, 255)`. The image is unchanged
    /// whenever an error is returned.
    pub open spec fn alpha_weighing(&self, after: &rgb::Image, r: AvifResult<()>, undo: bool) -> bool {
        let l = self.channel_layout(0);
        let alpha = self.format.spec_offsets()[3] as int;
        &&& r is Err ==> *after == *self
        &&& (self.pixels is None || self.row_bytes == 0) ==> r == Err::<(), AvifError>(AvifError::ReformatFailed)
        &&& self.pixels is Some && self.row_bytes != 0 ==> {
            &&& !self.spec_has_alpha() ==> r == Err::<(), AvifError>(AvifError::InvalidArgument)
            &&& self.spec_has_alpha() && self.depth > 8 ==> r == Err::<(), AvifError>(AvifError::NotImplemented)
            &&& self.spec_has_alpha() && self.depth <= 8 && self.height == 0 ==> r is Ok && *after == *self
            &&& self.spec_has_alpha() && self.depth <= 8 && self.height > 0 && !self.kind_ok() ==> r
                == Err::<(), AvifError>(AvifError::NoContent)
            &&& self.spec_has_alpha() && self.depth <= 8 && self.height > 0 && self.kind_ok() ==> {
                &&& r is Ok
                &&& *after == (rgb::Image { pixels: after.pixels, ..*self })
                &&& after.pixels matches Some(p) && self.pixels matches Some(q) && p.same_kind(&q) && p.spec_size()
                    == q.spec_size()
                &&& forall|y: int, x: int, c: int|
                    0 <= y < self.height && 0 <= x < self.width && 0 <= c < 4 ==> #[trigger] after.pixels->0.spec_sample(
                        l.channel_slot(y, x, c),
                    ) == self.pixels->0.weighed(l, alpha, 255, undo, y, x, c)
                &&& forall|k: int|
                    0 <= k < self.pixels->0.spec_size() && (forall|y: int, x: int, c: int|
                        0 <= y < self.height && 0 <= x < self.width && 0 <= c < 4 ==> k != #[trigger] l.channel_slot(y, x, c))
                        ==> #[trigger] after.pixels->0.spec_sample(k) == self.pixels->0.spec_sample(k)
            }
        }
    }

    fn weigh_alpha(&mut self, undo: bool) -> (r: AvifResult<()>)
        requires
            old(self).spec_has_alpha() && old(self).kind_ok() ==> old(self).pixels_fit(),
        ensures
            old(self).alpha_weighing(final(self), r, undo),
    {
        if self.pixels.is_none() || self.row_bytes == 0 {
            return Err(AvifError::ReformatFailed);
        }
        if !self.has_alpha() {
            return Err(AvifError::InvalidArgument);
        }
        if self.depth > 8 {
            return Err(AvifError::NotImplemented);
        }
        if self.height == 0 {
            return Ok(());
        }
        if !self.check_kind() {
            return Err(AvifError::NoContent);
        }
        let alpha = self.format.alpha_offset();
        let layout = self.channel_layout_of(0);
        let width = self.width as usize;
        let height = self.height as usize;
        match &mut self.pixels {
            Some(p) => p.weigh_slots(&layout, alpha, width, height, 255, undo),
            None => {},
        }
        Ok(())
    }

    /// Multiplies the colour samples of each pixel by its alpha, on the
    /// scale of the depth: see `alpha_weighing`.
    pub fn premultiply_alpha(&mut self) -> (r: AvifResult<()>)
        requires
            old(self).spec_has_alpha() && old(self).kind_ok() ==> old(self).pixels_fit(),
        ensures
            old(self).alpha_weighing(final(self), r, false),
    {
        self.weigh_alpha(false)
    }

    /// Divides the colour samples of each pixel by its alpha, on the scale
    /// of the depth: see `alpha_weighing`.
    pub fn unpremultiply_alpha(&mut self) -> (r: AvifResult<()>)
        requires
            old(self).spec_has_alpha() && old(self).kind_ok() ==> old(self).pixels_fit(),
        ensures
            old(self).alpha_weighing(final(self), r, true),
    {
        self.weigh_alpha(true)
    }
}

impl image::Image {
    /// The plane holds samples of the width that a depth above 8 (16 bits)
    /// or not (8 bits) asks for.
    pub open spec fn kind_for(&self, plane: Plane, wide: bool) -> bool {
        self.planes[plane.index()] matches Some(p) && (p is Buffer16) == wide
    }

    fn check_kind_for(&self, plane: Plane, wide: bool) -> (r: bool)
        ensures
            r == self.kind_for(plane, wide),
    {
        match &self.planes[plane.as_usize()] {
            Some(Pixels::Buffer16(_)) => wide,
            Some(Pixels::Buffer(_)) => !wide,
            None => false,
        }
    }

    pub(crate) fn row_offsets_fit_of(&self, plane: Plane) -> (r: bool)
        requires
            self.planes[plane.index()] is Some,
        ensures
            r == self.row_offsets_fit(plane),
    {
        let stride = self.stride_of(plane) as u128;
        let height = self.height(plane) as u128;
        assert(height * stride <= 0xffff_ffff_ffff_ffff * 0xffff_ffff_ffff_ffff) by (nonlinear_arith)
            requires
                height <= 0xffff_ffff_ffff_ffff,
                stride <= 0xffff_ffff_ffff_ffff,
        ;
        height * stride <= 0xffff_ffff + stride
    }
}

impl rgb::Image {
    /// The alpha channel holds, pixel by pixel, the alpha samples of
    /// `image`; everything else is as in `before`.
    pub open spec fn holds_alpha_of(&self, before: &rgb::Image, image: &image::Image) -> bool {
        let l = before.channel_layout(before.format.spec_offsets()[3]);
        let sl = image.plane_layout(Plane::A);
        &&& *self == (rgb::Image { pixels: self.pixels, ..*before })
        &&& self.pixels matches Some(p) && before.pixels matches Some(q) && p.same_kind(&q) && p.spec_size() == q.spec_size()
        &&& forall|y: int, x: int|
            0 <= y < before.height && 0 <= x < before.width ==> #[trigger] self.pixels->0.spec_sample(l.slot(y, x))
                == image.planes[3]->0.spec_sample(sl.slot(y, x))
        &&& forall|k: int|
            0 <= k < before.pixels->0.spec_size() && (forall|y: int, x: int|
                0 <= y < before.height && 0 <= x < before.width ==> k != #[trigger] l.slot(y, x)) ==> #[trigger] self.pixels->0.spec_sample(
                k,
            ) == before.pixels->0.spec_sample(k)
    }
}

impl image::Image {
    /// The alpha plane holds, sample by sample, the alpha channel of `rgb`;
    /// everything else is as in `before`.
    pub open spec fn holds_alpha_of_rgb(&self, before: &image::Image, rgb: &rgb::Image) -> bool {
        let l = before.plane_layout(Plane::A);
        let sl = rgb.channel_layout(rgb.format.spec_offsets()[3]);
        &&& self.others_kept(before, Plane::A)
        &&& self.planes[3] matches Some(p) && before.planes[3] matches Some(q) && p.same_kind(&q) && p.spec_size()
            == q.spec_size()
        &&& forall|y: int, x: int|
            0 <= y < before.height && 0 <= x < before.width ==> #[trigger] self.planes[3]->0.spec_sample(l.slot(y, x))
                == rgb.pixels->0.spec_sample(sl.slot(y, x))
        &&& forall|k: int|
            0 <= k < before.planes[3]->0.spec_size() && (forall|y: int, x: int|
                0 <= y < before.height && 0 <= x < before.width ==> k != #[trigger] l.slot(y, x)) ==> #[trigger] self.planes[3]->0.spec_sample(
                k,
            ) == before.planes[3]->0.spec_sample(k)
    }
}

/// Copying the alpha of a YUV image into an RGB image and back leaves the
/// YUV image as it was: its alpha plane holds the same samples, and nothing
/// else changed.
pub proof fn lemma_alpha_round_trip(
    yuv: image::Image,
    rgb_before: rgb::Image,
    rgb_after: rgb::Image,
    yuv_after: image::Image,
)
    requires
        rgb_after.holds_alpha_of(&rgb_before, &yuv),
        yuv_after.holds_alpha_of_rgb(&yuv, &rgb_after),
        rgb_before.width == yuv.width,
        rgb_before.height == yuv.height,
    ensures
        yuv_after.others_kept(&yuv, Plane::A),
        yuv_after.planes[3]->0.same_samples(&yuv.planes[3]->0),
{
    let p = yuv_after.planes[3]->0;
    let q = yuv.planes[3]->0;
    let l = yuv.plane_layout(Plane::A);
    let lr = rgb_before.channel_layout(rgb_before.format.spec_offsets()[3]);
    assert(rgb_after.format == rgb_before.format && rgb_after.row_bytes == rgb_before.row_bytes && rgb_after.depth
        == rgb_before.depth);
    assert(rgb_after.channel_layout(rgb_after.format.spec_offsets()[3]) == lr);
    assert forall|k: int| 0 <= k < q.spec_size() implies #[trigger] p.spec_sample(k) == q.spec_sample(k) by {
        if exists|y: int, x: int| 0 <= y < yuv.height && 0 <= x < yuv.width && k == #[trigger] l.slot(y, x) {
            let (y, x) = choose|y: int, x: int| 0 <= y < yuv.height && 0 <= x < yuv.width && k == #[trigger] l.slot(y, x);
            assert(p.spec_sample(l.slot(y, x)) == rgb_after.pixels->0.spec_sample(lr.slot(y, x)));
            assert(rgb_after.pixels->0.spec_sample(lr.slot(y, x)) == q.spec_sample(l.slot(y, x)));
        }
    }
    match (p, q) {
        (Pixels::Buffer(a), Pixels::Buffer(b)) => {
            assert forall|k: int| 0 <= k < b@.len() implies a@[k] == b@[k] by {
                assert(p.spec_sample(k) == q.spec_sample(k));
            }
            assert(a@ =~= b@);
        },
        (Pixels::Buffer16(a), Pixels::Buffer16(b)) => {
            assert forall|k: int| 0 <= k < b@.len() implies a@[k] == b@[k] by {
                assert(p.spec_sample(k) == q.spec_sample(k));
            }
            assert(a@ =~= b@);
        },
        _ => {},
    }
}

impl rgb::Image {
    /// Copies the alpha samples of `image` into the alpha channel of the
    /// pixels. Both must have alpha and the same size, else
    /// `InvalidArgument`. Between different depths the samples are
    /// rescaled, which takes floating point and is left to the caller:
    /// `NotImplemented`. Where there are rows, pixels or alpha samples of a
    /// sample width other than the depth asks give `NoContent`, and alpha
    /// rows whose offsets do not fit in 32 bits `BmffParseFailed`, before
    /// anything is copied.
    pub fn import_alpha_from(&mut self, image: &image::Image) -> (r: AvifResult<()>)
        requires
            old(self).spec_has_alpha() && image.spec_has_plane(Plane::A) && old(self).width == image.width
                && old(self).height == image.height && old(self).depth == image.depth ==> {
                &&& old(self).kind_ok() ==> old(self).alpha_fits()
                &&& image.kind_for(Plane::A, old(self).depth > 8) ==> image.rows_in_buffer(Plane::A)
            },
        ensures
            !(old(self).spec_has_alpha() && image.spec_has_plane(Plane::A) && old(self).width == image.width
                && old(self).height == image.height) ==> r == Err::<(), AvifError>(AvifError::InvalidArgument)
                && *final(self) == *old(self),
            r is Err ==> *final(self) == *old(self),
            old(self).spec_has_alpha() && image.spec_has_plane(Plane::A) && old(self).width == image.width
                && old(self).height == image.height ==> {
                let wide = old(self).depth > 8;
                let l = old(self).channel_layout(old(self).format.spec_offsets()[3]);
                let sl = image.plane_layout(Plane::A);
                &&& old(self).depth != image.depth ==> r == Err::<(), AvifError>(AvifError::NotImplemented)
                &&& old(self).depth == image.depth && old(self).height == 0 ==> r is Ok && *final(self) == *old(self)
                &&& old(self).depth == image.depth && old(self).height > 0 && !(old(self).kind_ok() && image.kind_for(Plane::A, wide))
                    ==> r == Err::<(), AvifError>(AvifError::NoContent)
                &&& old(self).depth == image.depth && old(self).height > 0 && old(self).kind_ok() && image.kind_for(Plane::A, wide)
                    && !image.row_offsets_fit(Plane::A) ==> r == Err::<(), AvifError>(AvifError::BmffParseFailed)
                &&& old(self).depth == image.depth && old(self).height > 0 && old(self).kind_ok() && image.kind_for(Plane::A, wide)
                    && image.row_offsets_fit(Plane::A) ==> {
                    &&& r is Ok
                    &&& final(self).holds_alpha_of(old(self), image)
                }
            },
    {
        if !self.has_alpha() || !image.has_alpha() || self.width != image.width || self.height != image.height {
            return Err(AvifError::InvalidArgument);
        }
        if self.depth != image.depth as u32 {
            return Err(AvifError::NotImplemented);
        }
        if self.height == 0 {
            return Ok(());
        }
        let wide = self.depth > 8;
        if !self.check_kind() || !image.check_kind_for(Plane::A, wide) {
            return Err(AvifError::NoContent);
        }
        if !image.row_offsets_fit_of(Plane::A) {
            return Err(AvifError::BmffParseFailed);
        }
        let alpha_offset = self.format.alpha_offset();
        let layout = self.channel_layout_of(alpha_offset);
        let src_layout = image.plane_layout_of(Plane::A);
        proof {
            image.lemma_plane_layout_fits(Plane::A);
        }
        let width = self.width as usize;
        let height = self.height as usize;
        match (&mut self.pixels, &image.planes[3]) {
            (Some(p), Some(src)) => p.copy_slots(&layout, src, &src_layout, width, height),
            _ => {},
        }
        Ok(())
    }
}

impl image::Image {
    /// Copies the alpha channel of the pixels of `rgb` into the alpha
    /// plane. Both must have alpha and the same size, else
    /// `InvalidArgument`. Between different depths the samples are
    /// rescaled, which takes floating point and is left to the caller:
    /// `NotImplemented`. Where there are rows, alpha samples or pixels of a
    /// sample width other than the depth asks give `NoContent`, and alpha
    /// rows whose offsets do not fit in 32 bits `BmffParseFailed`, before
    /// anything is copied.
    pub fn import_alpha_from(&mut self, rgb: &rgb::Image) -> (r: AvifResult<()>)
        requires
            old(self).spec_has_plane(Plane::A) && rgb.spec_has_alpha() && old(self).width == rgb.width
                && old(self).height == rgb.height && old(self).depth == rgb.depth ==> {
                &&& old(self).kind_for(Plane::A, old(self).depth > 8) ==> old(self).rows_in_buffer(Plane::A)
                &&& rgb.kind_ok() ==> rgb.alpha_fits()
            },
        ensures
            !(old(self).spec_has_plane(Plane::A) && rgb.spec_has_alpha() && old(self).width == rgb.width
                && old(self).height == rgb.height) ==> r == Err::<(), AvifError>(AvifError::InvalidArgument)
                && *final(self) == *old(self),
            r is Err ==> *final(self) == *old(self),
            old(self).spec_has_plane(Plane::A) && rgb.spec_has_alpha() && old(self).width == rgb.width
                && old(self).height == rgb.height ==> {
                let wide = old(self).depth > 8;
                let l = old(self).plane_layout(Plane::A);
                let sl = rgb.channel_layout(rgb.format.spec_offsets()[3]);
                &&& old(self).depth != rgb.depth ==> r == Err::<(), AvifError>(AvifError::NotImplemented)
                &&& old(self).depth == rgb.depth && old(self).height == 0 ==> r is Ok && *final(self) == *old(self)
                &&& old(self).depth == rgb.depth && old(self).height > 0 && !(old(self).kind_for(Plane::A, wide) && rgb.kind_ok())
                    ==> r == Err::<(), AvifError>(AvifError::NoContent)
                &&& old(self).depth == rgb.depth && old(self).height > 0 && old(self).kind_for(Plane::A, wide) && rgb.kind_ok()
                    && !old(self).row_offsets_fit(Plane::A) ==> r == Err::<(), AvifError>(AvifError::BmffParseFailed)
                &&& old(self).depth == rgb.depth && old(self).height > 0 && old(self).kind_for(Plane::A, wide) && rgb.kind_ok()
                    && old(self).row_offsets_fit(Plane::A) ==> {
                    &&& r is Ok
                    &&& final(self).holds_alpha_of_rgb(old(self), rgb)
                }
            },
    {
        if !self.has_plane(Plane::A) || !rgb.has_alpha() || self.width != rgb.width || self.height != rgb.height {
            return Err(AvifError::InvalidArgument);
        }
        if self.depth as u32 != rgb.depth {
            return Err(AvifError::NotImplemented);
        }
        if self.height == 0 {
            return Ok(());
        }
        let wide = self.depth > 8;
        if !self.check_kind_for(Plane::A, wide) || !rgb.check_kind() {
            return Err(AvifError::NoContent);
        }
        if !self.row_offsets_fit_of(Plane::A) {
            return Err(AvifError::BmffParseFailed);
        }
        let alpha_offset = rgb.format.alpha_offset();
        let src_layout = rgb.channel_layout_of(alpha_offset);
        let layout = self.plane_layout_of(Plane::A);
        proof {
            self.lemma_plane_layout_fits(Plane::A);
        }
        let width = self.width as usize;
        let height = self.height as usize;
        match (&mut self.planes[3], &rgb.pixels) {
            (Some(p), Some(src)) => p.copy_slots(&layout, src, &src_layout, width, height),
            _ => {},
        }
        Ok(())
    }
}

} // verus!
