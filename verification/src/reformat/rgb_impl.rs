//! Conversion of YUV images to RGB without a conversion library: the
//! checks that every conversion makes and the lossless identity case.
//! The other conversions compute in floating point.

use crate::image;
use crate::image::{Plane, YuvRange};
use crate::internal_utils::pixels::{lemma_offsets_apart, SlotLayout};
use crate::reformat::rgb;
use crate::reformat::rgb::Format;
use crate::{AvifError, AvifResult, MatrixCoefficients, PixelFormat};
use vstd::prelude::*;

verus! {

/// The RGB image can take a conversion: a supported depth, half floats only
/// at depth 16, RGB 565 only at depth 8.
pub open spec fn rgb_convertible(rgb: &rgb::Image) -> bool {
    &&& rgb.depth == 8 || rgb.depth == 10 || rgb.depth == 12 || rgb.depth == 16
    &&& !(rgb.is_float && rgb.depth != 16)
    &&& !(rgb.format == Format::Rgb565 && rgb.depth != 8)
}

/// The YUV image can be converted: a supported depth, matrix coefficients
/// other than YCgCo, BT.2020 constant luminance, SMPTE 2085, chromaticity
/// derived constant luminance and ICtCp, and identity coefficients only for
/// 4:4:4 or monochrome samples.
pub open spec fn yuv_convertible(image: &image::Image) -> bool {
    let mc = image.matrix_coefficients;
    &&& image::Image::spec_supported_depth(image.depth)
    &&& !(mc == MatrixCoefficients::Ycgco || mc == MatrixCoefficients::Bt2020Cl || mc == MatrixCoefficients::Smpte2085
        || mc == MatrixCoefficients::ChromaDerivedCl || mc == MatrixCoefficients::Ictcp)
    &&& !(mc == MatrixCoefficients::Identity && image.yuv_format != PixelFormat::Yuv444 && image.yuv_format
        != PixelFormat::Monochrome)
}

/// The conversion that needs no arithmetic: identity coefficients, 8-bit
/// full-range 4:4:4 samples into 8-bit pixels.
pub open spec fn identity_copy(image: &image::Image, rgb: &rgb::Image) -> bool {
    &&& image.matrix_coefficients == MatrixCoefficients::Identity
    &&& image.depth == 8
    &&& rgb.depth == 8
    &&& image.yuv_format == PixelFormat::Yuv444
    &&& image.yuv_range == YuvRange::Full
}

impl rgb::Image {
    /// Where the channel at `offset` of each pixel lies: rows of `row_bytes`
    /// 8-bit samples, pixels of `channel_count()` samples.
    pub open spec fn byte_layout(&self, offset: usize) -> SlotLayout {
        SlotLayout {
            row_scale: self.row_bytes as usize,
            row_div: 1,
            row_len: self.row_bytes as usize,
            step: self.spec_channel_count() as usize,
            offset,
        }
    }

    fn byte_layout_of(&self, offset: usize) -> (r: SlotLayout)
        ensures
            r == self.byte_layout(offset),
    {
        SlotLayout {
            row_scale: self.row_bytes as usize,
            row_div: 1,
            row_len: self.row_bytes as usize,
            step: self.channel_count() as usize,
            offset,
        }
    }

    /// The red, green and blue channels can be walked as 8-bit samples
    /// for a `width` by `height` grid: each sample lies in its row, the
    /// rows in the buffer, and row offsets fit in 32 bits.
    pub open spec fn colours_fit(&self, width: int, height: int) -> bool {
        let o = self.format.spec_offsets();
        &&& self.pixels matches Some(p) && {
            &&& self.byte_layout(o[0]).fits(width, height, p.spec_size() as int)
            &&& self.byte_layout(o[1]).fits(width, height, p.spec_size() as int)
            &&& self.byte_layout(o[2]).fits(width, height, p.spec_size() as int)
        }
        &&& self.row_offsets_fit()
    }

    /// The pixels hold the samples of the identity-coded `image` in their
    /// colour channels: red from V, green from Y, blue from U; everything
    /// else is as in `before`.
    pub open spec fn holds_identity_of(&self, before: &rgb::Image, image: &image::Image) -> bool {
        let o = before.format.spec_offsets();
        &&& *self == (rgb::Image { pixels: self.pixels, ..*before })
        &&& self.pixels matches Some(p) && before.pixels matches Some(q) && p.same_kind(&q) && p.spec_size() == q.spec_size()
        &&& forall|y: int, x: int|
            0 <= y < image.height && 0 <= x < image.width ==> {
                &&& #[trigger] self.pixels->0.spec_sample(before.byte_layout(o[0]).slot(y, x)) == image.planes[2]->0.spec_sample(
                    image.plane_layout(Plane::V).slot(y, x),
                )
                &&& self.pixels->0.spec_sample(before.byte_layout(o[1]).slot(y, x)) == image.planes[0]->0.spec_sample(
                    image.plane_layout(Plane::Y).slot(y, x),
                )
                &&& self.pixels->0.spec_sample(before.byte_layout(o[2]).slot(y, x)) == image.planes[1]->0.spec_sample(
                    image.plane_layout(Plane::U).slot(y, x),
                )
            }
        &&& forall|k: int|
            0 <= k < before.pixels->0.spec_size() && (forall|y: int, x: int, c: int|
                0 <= y < image.height && 0 <= x < image.width && 0 <= c < 3 ==> k != #[trigger] before.byte_layout(o[c]).slot(
                    y,
                    x,
                )) ==> #[trigger] self.pixels->0.spec_sample(k) == before.pixels->0.spec_sample(k)
    }
}

/// The plane holds 8-bit samples and has a row length.
pub open spec fn byte_plane(image: &image::Image, plane: Plane) -> bool {
    image.spec_has_plane(plane) && image.kind_for(plane, false)
}

/// Converts `image` to `rgb` where no arithmetic is needed. Images that
/// cannot be converted give `ReformatFailed`; other conversions compute in
/// floating point and are left to the caller: `NotImplemented`. The
/// identity copy needs 8-bit Y, U and V planes and 8-bit pixels
/// (`NoContent`) and row offsets within 32 bits (`BmffParseFailed`), and
/// leaves the image unchanged where it fails.
pub fn yuv_to_rgb(image: &image::Image, rgb: &mut rgb::Image) -> (r: AvifResult<()>)
    requires
        identity_copy(image, old(rgb)) && image.height > 0 ==> old(rgb).format != Format::Rgb565,
        identity_copy(image, old(rgb)) && byte_plane(image, Plane::Y) ==> image.rows_in_buffer(Plane::Y),
        identity_copy(image, old(rgb)) && byte_plane(image, Plane::U) ==> image.rows_in_buffer(Plane::U),
        identity_copy(image, old(rgb)) && byte_plane(image, Plane::V) ==> image.rows_in_buffer(Plane::V),
        identity_copy(image, old(rgb)) && (old(rgb).pixels matches Some(p) && p is Buffer) ==> old(rgb).colours_fit(
            image.width as int,
            image.height as int,
        ),
    ensures
        r is Err ==> *final(rgb) == *old(rgb),
        !(rgb_convertible(old(rgb)) && yuv_convertible(image)) ==> r == Err::<(), AvifError>(AvifError::ReformatFailed),
        rgb_convertible(old(rgb)) && yuv_convertible(image) && !identity_copy(image, old(rgb)) ==> r == Err::<(), AvifError>(
            AvifError::NotImplemented,
        ),
        rgb_convertible(old(rgb)) && yuv_convertible(image) && identity_copy(image, old(rgb)) ==> {
            let rows_ok = byte_plane(image, Plane::Y) && byte_plane(image, Plane::U) && byte_plane(image, Plane::V)
                && (old(rgb).pixels matches Some(p) && p is Buffer);
            let offsets_ok = image.row_offsets_fit(Plane::Y) && image.row_offsets_fit(Plane::U) && image.row_offsets_fit(
                Plane::V,
            );
            &&& image.height == 0 ==> r is Ok && *final(rgb) == *old(rgb)
            &&& image.height > 0 && !rows_ok ==> r == Err::<(), AvifError>(AvifError::NoContent)
            &&& image.height > 0 && rows_ok && !offsets_ok ==> r == Err::<(), AvifError>(AvifError::BmffParseFailed)
            &&& image.height > 0 && rows_ok && offsets_ok ==> r is Ok && final(rgb).holds_identity_of(old(rgb), image)
        },
{
    if !rgb.depth_valid() || (rgb.is_float && rgb.depth != 16) || (rgb.format == Format::Rgb565 && rgb.depth != 8) {
        return Err(AvifError::ReformatFailed);
    }
    if !image.depth_valid() {
        return Err(AvifError::ReformatFailed);
    }
    match image.matrix_coefficients {
        MatrixCoefficients::Ycgco
        | MatrixCoefficients::Bt2020Cl
        | MatrixCoefficients::Smpte2085
        | MatrixCoefficients::ChromaDerivedCl
        | MatrixCoefficients::Ictcp => {
            return Err(AvifError::ReformatFailed);
        },
        _ => {},
    }
    if image.matrix_coefficients == MatrixCoefficients::Identity && image.yuv_format != PixelFormat::Yuv444
        && image.yuv_format != PixelFormat::Monochrome {
        return Err(AvifError::ReformatFailed);
    }
    if image.matrix_coefficients == MatrixCoefficients::Identity && image.depth == 8 && rgb.depth == 8
        && image.yuv_format == PixelFormat::Yuv444 && image.yuv_range == YuvRange::Full {
        return identity_yuv8_to_rgb8_full_range(image, rgb);
    }
    Err(AvifError::NotImplemented)
}

/// Whether the plane holds 8-bit samples and has a row length.
fn check_byte_plane(image: &image::Image, plane: Plane) -> (r: bool)
    ensures
        r == byte_plane(image, plane),
{
    image.has_plane(plane) && match &image.planes[plane.as_usize()] {
        Some(crate::internal_utils::pixels::Pixels::Buffer(_)) => true,
        _ => false,
    }
}

/// Copies V, Y and U of an identity-coded 8-bit 4:4:4 image into the red,
/// green and blue channels of 8-bit pixels.
fn identity_yuv8_to_rgb8_full_range(image: &image::Image, rgb: &mut rgb::Image) -> (r: AvifResult<()>)
    requires
        image.height > 0 ==> old(rgb).format != Format::Rgb565,
        image.yuv_format == PixelFormat::Yuv444,
        byte_plane(image, Plane::Y) ==> image.rows_in_buffer(Plane::Y),
        byte_plane(image, Plane::U) ==> image.rows_in_buffer(Plane::U),
        byte_plane(image, Plane::V) ==> image.rows_in_buffer(Plane::V),
        (old(rgb).pixels matches Some(p) && p is Buffer) ==> old(rgb).colours_fit(image.width as int, image.height as int),
    ensures
        r is Err ==> *final(rgb) == *old(rgb),
        ({
            let rows_ok = byte_plane(image, Plane::Y) && byte_plane(image, Plane::U) && byte_plane(image, Plane::V)
                && (old(rgb).pixels matches Some(p) && p is Buffer);
            let offsets_ok = image.row_offsets_fit(Plane::Y) && image.row_offsets_fit(Plane::U) && image.row_offsets_fit(
                Plane::V,
            );
            &&& image.height == 0 ==> r is Ok && *final(rgb) == *old(rgb)
            &&& image.height > 0 && !rows_ok ==> r == Err::<(), AvifError>(AvifError::NoContent)
            &&& image.height > 0 && rows_ok && !offsets_ok ==> r == Err::<(), AvifError>(AvifError::BmffParseFailed)
            &&& image.height > 0 && rows_ok && offsets_ok ==> r is Ok && final(rgb).holds_identity_of(old(rgb), image)
        }),
{
    if image.height == 0 {
        return Ok(());
    }
    let rgb_bytes = match &rgb.pixels {
        Some(crate::internal_utils::pixels::Pixels::Buffer(_)) => true,
        _ => false,
    };
    if !check_byte_plane(image, Plane::Y) || !check_byte_plane(image, Plane::U) || !check_byte_plane(image, Plane::V)
        || !rgb_bytes {
        return Err(AvifError::NoContent);
    }
    if !image.row_offsets_fit_of(Plane::Y) || !image.row_offsets_fit_of(Plane::U) || !image.row_offsets_fit_of(Plane::V) {
        return Err(AvifError::BmffParseFailed);
    }
    let ghost before = *rgb;
    let o = rgb.format.offsets();
    let width = image.width as usize;
    let height = image.height as usize;
    let red = rgb.byte_layout_of(o[0]);
    let green = rgb.byte_layout_of(o[1]);
    let blue = rgb.byte_layout_of(o[2]);
    let y_layout = image.plane_layout_of(Plane::Y);
    let u_layout = image.plane_layout_of(Plane::U);
    let v_layout = image.plane_layout_of(Plane::V);
    proof {
        image.lemma_plane_layout_fits(Plane::Y);
        image.lemma_plane_layout_fits(Plane::U);
        image.lemma_plane_layout_fits(Plane::V);
    }
    let ghost p0 = rgb.pixels->0;
    match (&mut rgb.pixels, &image.planes[2]) {
        (Some(p), Some(src)) => p.copy_slots(&red, src, &v_layout, width, height),
        _ => {},
    }
    let ghost p1 = rgb.pixels->0;
    match (&mut rgb.pixels, &image.planes[0]) {
        (Some(p), Some(src)) => p.copy_slots(&green, src, &y_layout, width, height),
        _ => {},
    }
    let ghost p2 = rgb.pixels->0;
    match (&mut rgb.pixels, &image.planes[1]) {
        (Some(p), Some(src)) => p.copy_slots(&blue, src, &u_layout, width, height),
        _ => {},
    }
    proof {
        let size = p0.spec_size() as int;
        let w = width as int;
        let h = height as int;
        assert(o[0] != o[1] && o[1] != o[2] && o[0] != o[2]);
        assert(o[0] < red.step && o[1] < red.step && o[2] < red.step);
        assert forall|y: int, x: int| 0 <= y < height && 0 <= x < width implies {
            &&& #[trigger] p2.spec_sample(red.slot(y, x)) == p1.spec_sample(red.slot(y, x))
            &&& rgb.pixels->0.spec_sample(red.slot(y, x)) == p2.spec_sample(red.slot(y, x))
            &&& rgb.pixels->0.spec_sample(green.slot(y, x)) == p2.spec_sample(green.slot(y, x))
        } by {
            assert forall|y2: int, x2: int| 0 <= y2 < height && 0 <= x2 < width implies red.slot(y, x) != #[trigger] green.slot(y2, x2) by {
                lemma_offsets_apart(red, green, w, h, size, y, x, y2, x2);
            }
            assert forall|y2: int, x2: int| 0 <= y2 < height && 0 <= x2 < width implies red.slot(y, x) != #[trigger] blue.slot(y2, x2) by {
                lemma_offsets_apart(red, blue, w, h, size, y, x, y2, x2);
            }
            assert forall|y2: int, x2: int| 0 <= y2 < height && 0 <= x2 < width implies green.slot(y, x) != #[trigger] blue.slot(y2, x2) by {
                lemma_offsets_apart(green, blue, w, h, size, y, x, y2, x2);
            }
            lemma_offsets_apart(red, green, w, h, size, y, x, y, x);
            assert(p1.spec_size() == size && p2.spec_size() == size);
            assert(0 <= red.slot(y, x) < p1.spec_size());
            assert(0 <= green.slot(y, x) < p2.spec_size());
        }
        let ob = before.format.spec_offsets();
        assert(before.byte_layout(ob[0]) == red && before.byte_layout(ob[1]) == green && before.byte_layout(ob[2]) == blue);
        assert forall|y: int, x: int| 0 <= y < image.height && 0 <= x < image.width implies {
            &&& #[trigger] rgb.pixels->0.spec_sample(red.slot(y, x)) == image.planes[2]->0.spec_sample(v_layout.slot(y, x))
            &&& rgb.pixels->0.spec_sample(green.slot(y, x)) == image.planes[0]->0.spec_sample(y_layout.slot(y, x))
            &&& rgb.pixels->0.spec_sample(blue.slot(y, x)) == image.planes[1]->0.spec_sample(u_layout.slot(y, x))
        } by {
            assert(p2.spec_sample(red.slot(y, x)) == p1.spec_sample(red.slot(y, x)));
            assert(p1.spec_sample(red.slot(y, x)) == image.planes[2]->0.spec_sample(v_layout.slot(y, x)));
            assert(p2.spec_sample(green.slot(y, x)) == image.planes[0]->0.spec_sample(y_layout.slot(y, x)));
        }
        assert forall|k: int|
            0 <= k < size && (forall|y: int, x: int, c: int|
                0 <= y < h && 0 <= x < w && 0 <= c < 3 ==> k != #[trigger] before.byte_layout(o[c]).slot(y, x))
                implies #[trigger] rgb.pixels->0.spec_sample(k) == p0.spec_sample(k) by {
            assert forall|y: int, x: int| 0 <= y < height && 0 <= x < width implies k != #[trigger] red.slot(y, x) by {
                assert(before.byte_layout(o[0 as int]) == red);
            }
            assert forall|y: int, x: int| 0 <= y < height && 0 <= x < width implies k != #[trigger] green.slot(y, x) by {
                assert(before.byte_layout(o[1 as int]) == green);
            }
            assert forall|y: int, x: int| 0 <= y < height && 0 <= x < width implies k != #[trigger] blue.slot(y, x) by {
                assert(before.byte_layout(o[2 as int]) == blue);
            }
        }
    }
    Ok(())
}

} // verus!
