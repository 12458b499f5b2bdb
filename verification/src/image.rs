//! A decoded image: its properties and up to four planes of samples.

use crate::decoder::{Category, ProgressiveState};
use crate::internal_utils::pixels::{clamp_column, in_rows, Pixels, SlotLayout};
use crate::internal_utils::{spec_limited_to_full_y, u32_from_usize};
use crate::parser::mp4box::{ClearAperture, ContentLightLevelInformation, PixelAspectRatio};
use crate::{
    AvifError, AvifResult, ChromaSamplePosition, ColorPrimaries, MatrixCoefficients, PixelFormat,
    TransferCharacteristics,
};
use vstd::prelude::*;

verus! {

/// A plane of an image.
#[derive(Clone, Copy, Debug, PartialEq, Eq, Structural)]
pub enum Plane {
    Y,
    U,
    V,
    A,
}

impl Plane {
    pub open spec fn index(&self) -> int {
        match self {
            Plane::Y => 0,
            Plane::U => 1,
            Plane::V => 2,
            Plane::A => 3,
        }
    }

    /// The plane's index in the arrays of an image.
    pub(crate) fn as_usize(&self) -> (r: usize)
        ensures
            r == self.index(),
    {
        match self {
            Plane::Y => 0,
            Plane::U => 1,
            Plane::V => 2,
            Plane::A => 3,
        }
    }
}

/// Number of planes an image can have.
pub const MAX_PLANE_COUNT: usize = 4;

/// Video full range flag (ISO/IEC 23091-2).
#[derive(Clone, Copy, Debug, Default, PartialEq, Eq, Structural)]
pub enum YuvRange {
    Limited,
    #[default]
    Full,
}

/// A decoded image.
#[derive(Debug)]
pub struct Image {
    pub width: u32,
    pub height: u32,
    pub depth: u8,
    pub yuv_format: PixelFormat,
    pub yuv_range: YuvRange,
    pub chroma_sample_position: ChromaSamplePosition,
    pub alpha_present: bool,
    pub alpha_premultiplied: bool,
    pub row_bytes: [u32; 4],
    pub planes: [Option<Pixels>; 4],
    pub color_primaries: ColorPrimaries,
    pub transfer_characteristics: TransferCharacteristics,
    pub matrix_coefficients: MatrixCoefficients,
    pub clli: Option<ContentLightLevelInformation>,
    pub pasp: Option<PixelAspectRatio>,
    pub clap: Option<ClearAperture>,
    pub irot_angle: Option<u8>,
    pub imir_axis: Option<u8>,
    pub exif: Vec<u8>,
    pub icc: Vec<u8>,
    pub xmp: Vec<u8>,
    pub image_sequence_track_present: bool,
    pub progressive_state: ProgressiveState,
}

/// Dimensions and layout of one plane.
#[derive(Debug, Clone, Copy, PartialEq, Eq, Structural)]
pub struct PlaneData {
    pub width: u32,
    pub height: u32,
    pub row_bytes: u32,
    pub pixel_size: u32,
}

/// `(v + 1) / 2`, rounding up.
pub open spec fn half_up(v: int) -> int {
    (v + 1) / 2
}

impl Image {
    /// An image of the given size and depth with no planes and default
    /// properties.
    pub fn new(width: u32, height: u32, depth: u8, yuv_format: PixelFormat) -> (r: Image)
        ensures
            r.width == width,
            r.height == height,
            r.depth == depth,
            r.yuv_format == yuv_format,
            forall|i: int| 0 <= i < 4 ==> r.planes[i] is None && r.row_bytes[i] == 0,
            !r.alpha_present && !r.alpha_premultiplied,
            r.progressive_state == ProgressiveState::Unavailable,
            !r.image_sequence_track_present,
            r.exif@.len() == 0 && r.xmp@.len() == 0 && r.icc@.len() == 0,
    {
        Image {
            width,
            height,
            depth,
            yuv_format,
            yuv_range: YuvRange::Full,
            chroma_sample_position: ChromaSamplePosition::Unknown,
            alpha_present: false,
            alpha_premultiplied: false,
            row_bytes: [0, 0, 0, 0],
            planes: [None, None, None, None],
            color_primaries: ColorPrimaries::Unspecified,
            transfer_characteristics: TransferCharacteristics::Unspecified,
            matrix_coefficients: MatrixCoefficients::Unspecified,
            clli: None,
            pasp: None,
            clap: None,
            irot_angle: None,
            imir_axis: None,
            exif: Vec::new(),
            icc: Vec::new(),
            xmp: Vec::new(),
            image_sequence_track_present: false,
            progressive_state: ProgressiveState::Unavailable,
        }
    }

    pub open spec fn spec_supported_depth(depth: u8) -> bool {
        depth == 8 || depth == 10 || depth == 12 || depth == 16
    }

    /// Whether the decoder supports the bit depth: 8, 10, 12 or 16.
    pub(crate) fn is_supported_depth(depth: u8) -> (r: bool)
        ensures
            r == Self::spec_supported_depth(depth),
    {
        depth == 8 || depth == 10 || depth == 12 || depth == 16
    }

    /// Whether the image's bit depth is supported.
    pub(crate) fn depth_valid(&self) -> (r: bool)
        ensures
            r == Self::spec_supported_depth(self.depth),
    {
        Self::is_supported_depth(self.depth)
    }

    pub open spec fn spec_max_channel(&self) -> u16 {
        if !Self::spec_supported_depth(self.depth) {
            0
        } else if self.depth == 8 {
            255
        } else if self.depth == 10 {
            1023
        } else if self.depth == 12 {
            4095
        } else {
            65535
        }
    }

    /// The largest sample value of the image's depth (`2^depth - 1`), or 0
    /// for an unsupported depth.
    pub fn max_channel(&self) -> (r: u16)
        ensures
            r == self.spec_max_channel(),
    {
        if !self.depth_valid() {
            0
        } else {
            let d = self.depth as u32;
            assert((1u32 << d) - 1 == if d == 8 {
                255u32
            } else if d == 10 {
                1023u32
            } else if d == 12 {
                4095u32
            } else {
                65535u32
            }) by (bit_vector)
                requires
                    d == 8 || d == 10 || d == 12 || d == 16,
            ;
            ((1u32 << d) - 1) as u16
        }
    }

    /// The plane holds samples and has a row length.
    pub open spec fn spec_has_plane(&self, plane: Plane) -> bool {
        let i = plane.index();
        &&& self.planes[i] matches Some(p)
        &&& self.row_bytes[i] != 0
        &&& p.spec_size() > 0
    }

    /// Whether the plane holds samples.
    pub fn has_plane(&self, plane: Plane) -> (r: bool)
        ensures
            r == self.spec_has_plane(plane),
    {
        let i = plane.as_usize();
        match &self.planes[i] {
            None => false,
            Some(p) => self.row_bytes[i] != 0 && p.has_data(),
        }
    }

    /// Whether the alpha plane holds samples.
    pub fn has_alpha(&self) -> (r: bool)
        ensures
            r == self.spec_has_plane(Plane::A),
    {
        self.has_plane(Plane::A)
    }

    /// Same width, height and depth.
    pub(crate) fn has_same_properties(&self, other: &Image) -> (r: bool)
        ensures
            r == (self.width == other.width && self.height == other.height && self.depth
                == other.depth),
    {
        self.width == other.width && self.height == other.height && self.depth == other.depth
    }

    /// Same depth, pixel format, range, chroma sample position and colour
    /// code points.
    pub(crate) fn has_same_cicp(&self, other: &Image) -> (r: bool)
        ensures
            r == (self.depth == other.depth && self.yuv_format == other.yuv_format && self.yuv_range
                == other.yuv_range && self.chroma_sample_position == other.chroma_sample_position
                && self.color_primaries == other.color_primaries && self.transfer_characteristics
                == other.transfer_characteristics && self.matrix_coefficients
                == other.matrix_coefficients),
    {
        self.depth == other.depth && self.yuv_format == other.yuv_format && self.yuv_range
            == other.yuv_range && self.chroma_sample_position == other.chroma_sample_position
            && self.color_primaries == other.color_primaries && self.transfer_characteristics
            == other.transfer_characteristics && self.matrix_coefficients
            == other.matrix_coefficients
    }

    /// Same size, depth, format, range and colour code points.
    pub fn has_same_properties_and_cicp(&self, other: &Image) -> (r: bool)
        ensures
            r == (self.width == other.width && self.height == other.height && self.depth
                == other.depth && self.yuv_format == other.yuv_format && self.yuv_range
                == other.yuv_range && self.chroma_sample_position == other.chroma_sample_position
                && self.color_primaries == other.color_primaries && self.transfer_characteristics
                == other.transfer_characteristics && self.matrix_coefficients
                == other.matrix_coefficients),
    {
        self.has_same_properties(other) && self.has_same_cicp(other)
    }

    /// Width of a plane in samples: the image width for luma and alpha;
    /// half of it, rounded up, for the chroma of 4:2:0 and 4:2:2; none for
    /// the chroma of monochrome.
    pub open spec fn spec_width(&self, plane: Plane) -> int {
        match plane {
            Plane::Y | Plane::A => self.width as int,
            _ => match self.yuv_format {
                PixelFormat::Yuv444 => self.width as int,
                PixelFormat::Yuv420 | PixelFormat::Yuv422 => half_up(self.width as int),
                PixelFormat::Monochrome => 0,
            },
        }
    }

    /// Height of a plane in rows: the image height for luma and alpha;
    /// half of it, rounded up, for the chroma of 4:2:0; none for the chroma
    /// of monochrome.
    pub open spec fn spec_height(&self, plane: Plane) -> int {
        match plane {
            Plane::Y | Plane::A => self.height as int,
            _ => match self.yuv_format {
                PixelFormat::Yuv444 | PixelFormat::Yuv422 => self.height as int,
                PixelFormat::Yuv420 => half_up(self.height as int),
                PixelFormat::Monochrome => 0,
            },
        }
    }

    /// Width of a plane in samples.
    pub fn width(&self, plane: Plane) -> (r: usize)
        ensures
            r == self.spec_width(plane),
    {
        let w = self.width as usize;
        match plane {
            Plane::Y | Plane::A => w,
            _ => match self.yuv_format {
                PixelFormat::Yuv444 => w,
                PixelFormat::Yuv420 | PixelFormat::Yuv422 => w / 2 + w % 2,
                PixelFormat::Monochrome => 0,
            },
        }
    }

    /// Height of a plane in rows.
    pub fn height(&self, plane: Plane) -> (r: usize)
        ensures
            r == self.spec_height(plane),
    {
        let h = self.height as usize;
        match plane {
            Plane::Y | Plane::A => h,
            _ => match self.yuv_format {
                PixelFormat::Yuv444 | PixelFormat::Yuv422 => h,
                PixelFormat::Yuv420 => h / 2 + h % 2,
                PixelFormat::Monochrome => 0,
            },
        }
    }

    /// Dimensions and layout of a plane that holds samples.
    pub fn plane_data(&self, plane: Plane) -> (r: Option<PlaneData>)
        ensures
            r is Some <==> self.spec_has_plane(plane),
            r matches Some(d) ==> d.width == self.spec_width(plane) && d.height == self.spec_height(
                plane,
            ) && d.row_bytes == self.row_bytes[plane.index()] && d.pixel_size == if self.depth
                == 8 {
                1u32
            } else {
                2u32
            },
    {
        if !self.has_plane(plane) {
            return None;
        }
        Some(
            PlaneData {
                width: self.width(plane) as u32,
                height: self.height(plane) as u32,
                row_bytes: self.row_bytes[plane.as_usize()],
                pixel_size: if self.depth == 8 {
                    1
                } else {
                    2
                },
            },
        )
    }

    /// The samples of the plane's 8-bit buffer.
    pub open spec fn bytes_of(&self, plane: Plane) -> Seq<u8> {
        match self.planes[plane.index()] {
            Some(Pixels::Buffer(b)) => b@,
            _ => Seq::empty(),
        }
    }

    /// The samples of the plane's 16-bit buffer.
    pub open spec fn words_of(&self, plane: Plane) -> Seq<u16> {
        match self.planes[plane.index()] {
            Some(Pixels::Buffer16(b)) => b@,
            _ => Seq::empty(),
        }
    }

    /// Where row `row` of an 8-bit plane starts, in samples.
    pub open spec fn row_start(&self, plane: Plane, row: u32) -> int {
        row * self.row_bytes[plane.index()]
    }

    /// Where row `row` of a 16-bit plane starts, in samples.
    pub open spec fn row16_start(&self, plane: Plane, row: u32) -> int {
        row * (self.row_bytes[plane.index()] / 2)
    }

    /// Row `row` of an 8-bit plane, padding included: `row_bytes` bytes
    /// from `row * row_bytes`. `NoContent` for a plane without samples or
    /// with 16-bit samples; `BmffParseFailed` where the start of the row
    /// does not fit in 32 bits.
    pub fn row(&self, plane: Plane, row: u32) -> (r: AvifResult<&[u8]>)
        requires
            self.planes[plane.index()] matches Some(Pixels::Buffer(_)) && self.spec_has_plane(plane)
                ==> (self.row_start(plane, row) + self.row_bytes[plane.index()] <= self.bytes_of(
                plane,
            ).len()),
        ensures
            !self.spec_has_plane(plane) ==> r == Err::<&[u8], AvifError>(AvifError::NoContent),
            self.spec_has_plane(plane) && self.row_start(plane, row) > u32::MAX ==> r == Err::<
                &[u8],
                AvifError,
            >(AvifError::BmffParseFailed),
            self.planes[plane.index()] matches Some(Pixels::Buffer16(_)) && self.spec_has_plane(plane)
                && self.row_start(plane, row) <= u32::MAX ==> (r == Err::<&[u8], AvifError>(
                AvifError::NoContent,
            )),
            self.planes[plane.index()] matches Some(Pixels::Buffer(_)) && self.spec_has_plane(plane)
                && self.row_start(plane, row) <= u32::MAX ==> (r matches Ok(s) && s@ == self.bytes_of(
                plane,
            ).subrange(
                self.row_start(plane, row),
                self.row_start(plane, row) + self.row_bytes[plane.index()],
            )),
    {
        let plane_data = match self.plane_data(plane) {
            Some(d) => d,
            None => {
                return Err(AvifError::NoContent);
            },
        };
        let row_bytes = plane_data.row_bytes;
        let start = match row.checked_mul(row_bytes) {
            Some(s) => s,
            None => {
                return Err(AvifError::BmffParseFailed);
            },
        };
        match &self.planes[plane.as_usize()] {
            Some(p) => p.slice(start, row_bytes),
            None => Err(AvifError::NoContent),
        }
    }

    /// Row `row` of a 16-bit plane, padding included: `row_bytes / 2`
    /// samples from `row * row_bytes / 2`. `NoContent` for a plane without
    /// samples or with 8-bit samples; `BmffParseFailed` where the start of
    /// the row does not fit in 32 bits.
    pub fn row16(&self, plane: Plane, row: u32) -> (r: AvifResult<&[u16]>)
        requires
            self.planes[plane.index()] matches Some(Pixels::Buffer16(_)) && self.spec_has_plane(plane)
                ==> (self.row16_start(plane, row) + self.row_bytes[plane.index()] / 2
                <= self.words_of(plane).len()),
        ensures
            !self.spec_has_plane(plane) ==> r == Err::<&[u16], AvifError>(AvifError::NoContent),
            self.spec_has_plane(plane) && self.row16_start(plane, row) > u32::MAX ==> r == Err::<
                &[u16],
                AvifError,
            >(AvifError::BmffParseFailed),
            self.planes[plane.index()] matches Some(Pixels::Buffer(_)) && self.spec_has_plane(plane)
                && self.row16_start(plane, row) <= u32::MAX ==> (r == Err::<&[u16], AvifError>(
                AvifError::NoContent,
            )),
            self.planes[plane.index()] matches Some(Pixels::Buffer16(_)) && self.spec_has_plane(plane)
                && self.row16_start(plane, row) <= u32::MAX ==> (r matches Ok(s) && s@
                == self.words_of(plane).subrange(
                self.row16_start(plane, row),
                self.row16_start(plane, row) + self.row_bytes[plane.index()] / 2,
            )),
    {
        let plane_data = match self.plane_data(plane) {
            Some(d) => d,
            None => {
                return Err(AvifError::NoContent);
            },
        };
        let row_bytes = plane_data.row_bytes / 2;
        let start = match row.checked_mul(row_bytes) {
            Some(s) => s,
            None => {
                return Err(AvifError::BmffParseFailed);
            },
        };
        match &self.planes[plane.as_usize()] {
            Some(p) => p.slice16(start, row_bytes),
            None => Err(AvifError::NoContent),
        }
    }

    /// Row `row` of an 8-bit plane without its padding: its first
    /// `width(plane)` samples.
    pub fn row_exact(&self, plane: Plane, row: u32) -> (r: AvifResult<&[u8]>)
        requires
            self.planes[plane.index()] matches Some(Pixels::Buffer(_)) && self.spec_has_plane(plane)
                ==> (self.row_start(plane, row) + self.row_bytes[plane.index()] <= self.bytes_of(
                plane,
            ).len() && self.spec_width(plane) <= self.row_bytes[plane.index()]),
        ensures
            !self.spec_has_plane(plane) ==> r == Err::<&[u8], AvifError>(AvifError::NoContent),
            self.spec_has_plane(plane) && self.row_start(plane, row) > u32::MAX ==> r == Err::<
                &[u8],
                AvifError,
            >(AvifError::BmffParseFailed),
            self.planes[plane.index()] matches Some(Pixels::Buffer16(_)) && self.spec_has_plane(plane)
                && self.row_start(plane, row) <= u32::MAX ==> (r == Err::<&[u8], AvifError>(
                AvifError::NoContent,
            )),
            self.planes[plane.index()] matches Some(Pixels::Buffer(_)) && self.spec_has_plane(plane)
                && self.row_start(plane, row) <= u32::MAX ==> (r matches Ok(s) && s@ == self.bytes_of(
                plane,
            ).subrange(self.row_start(plane, row), self.row_start(plane, row) + self.spec_width(plane))),
    {
        let width = self.width(plane);
        let r = self.row(plane, row)?;
        Ok(vstd::slice::slice_subrange(r, 0, width))
    }

    /// Row `row` of a 16-bit plane without its padding: its first
    /// `width(plane)` samples.
    pub fn row16_exact(&self, plane: Plane, row: u32) -> (r: AvifResult<&[u16]>)
        requires
            self.planes[plane.index()] matches Some(Pixels::Buffer16(_)) && self.spec_has_plane(plane)
                ==> (self.row16_start(plane, row) + self.row_bytes[plane.index()] / 2
                <= self.words_of(plane).len() && self.spec_width(plane) <= self.row_bytes[plane.index()]
                / 2),
        ensures
            !self.spec_has_plane(plane) ==> r == Err::<&[u16], AvifError>(AvifError::NoContent),
            self.spec_has_plane(plane) && self.row16_start(plane, row) > u32::MAX ==> r == Err::<
                &[u16],
                AvifError,
            >(AvifError::BmffParseFailed),
            self.planes[plane.index()] matches Some(Pixels::Buffer(_)) && self.spec_has_plane(plane)
                && self.row16_start(plane, row) <= u32::MAX ==> (r == Err::<&[u16], AvifError>(
                AvifError::NoContent,
            )),
            self.planes[plane.index()] matches Some(Pixels::Buffer16(_)) && self.spec_has_plane(plane)
                && self.row16_start(plane, row) <= u32::MAX ==> (r matches Ok(s) && s@
                == self.words_of(plane).subrange(
                self.row16_start(plane, row),
                self.row16_start(plane, row) + self.spec_width(plane),
            )),
    {
        let width = self.width(plane);
        let r = self.row16(plane, row)?;
        Ok(vstd::slice::slice_subrange(r, 0, width))
    }

    /// Only the plane's 8-bit samples may differ: they are `before` up to
    /// `start`, then `middle`, then `before` again from `end`.
    pub open spec fn bytes_replaced(&self, old: &Image, plane: Plane, start: int, middle: Seq<u8>, end: int) -> bool {
        let b = old.bytes_of(plane);
        &&& self.others_kept(old, plane)
        &&& self.planes[plane.index()] matches Some(Pixels::Buffer(_))
        &&& self.bytes_of(plane) == b.subrange(0, start) + middle + b.subrange(end, b.len() as int)
    }

    /// Only the plane's 16-bit samples may differ: they are `before` up to
    /// `start`, then `middle`, then `before` again from `end`.
    pub open spec fn words_replaced(&self, old: &Image, plane: Plane, start: int, middle: Seq<u16>, end: int) -> bool {
        let b = old.words_of(plane);
        &&& self.others_kept(old, plane)
        &&& self.planes[plane.index()] matches Some(Pixels::Buffer16(_))
        &&& self.words_of(plane) == b.subrange(0, start) + middle + b.subrange(end, b.len() as int)
    }

    /// The samples of the plane, to be changed in place; the rest of the
    /// image stays.
    fn plane_mut(&mut self, plane: Plane) -> (r: &mut Option<Pixels>)
        ensures
            *r == old(self).planes[plane.index()],
            *final(self) == (Image { planes: final(self).planes, ..*old(self) }),
            final(self).planes[plane.index()] == *final(r),
            forall|j: int| 0 <= j < 4 && j != plane.index() ==> final(self).planes[j] == old(self).planes[j],
    {
        match plane {
            Plane::Y => &mut self.planes[0],
            Plane::U => &mut self.planes[1],
            Plane::V => &mut self.planes[2],
            Plane::A => &mut self.planes[3],
        }
    }

    /// Row `row` of an 8-bit plane, padding included, to be written in
    /// place: as `row`; the rest of the image stays.
    pub fn row_mut(&mut self, plane: Plane, row: u32) -> (r: AvifResult<&mut [u8]>)
        requires
            old(self).planes[plane.index()] matches Some(Pixels::Buffer(_)) && old(self).spec_has_plane(plane)
                ==> (old(self).row_start(plane, row) + old(self).row_bytes[plane.index()] <= old(self).bytes_of(
                plane,
            ).len()),
        ensures
            r is Err ==> final(self).others_kept(old(self), plane) && final(self).planes[plane.index()] == old(
                self,
            ).planes[plane.index()],
            !old(self).spec_has_plane(plane) ==> r == Err::<&mut [u8], AvifError>(AvifError::NoContent),
            old(self).spec_has_plane(plane) && old(self).row_start(plane, row) > u32::MAX ==> r == Err::<
                &mut [u8],
                AvifError,
            >(AvifError::BmffParseFailed),
            old(self).planes[plane.index()] matches Some(Pixels::Buffer16(_)) && old(self).spec_has_plane(plane)
                && old(self).row_start(plane, row) <= u32::MAX ==> r == Err::<&mut [u8], AvifError>(
                AvifError::NoContent,
            ),
            old(self).planes[plane.index()] matches Some(Pixels::Buffer(_)) && old(self).spec_has_plane(plane)
                && old(self).row_start(plane, row) <= u32::MAX ==> {
                let start = old(self).row_start(plane, row);
                let end = start + old(self).row_bytes[plane.index()];
                r matches Ok(s) && s@ == old(self).bytes_of(plane).subrange(start, end) && final(self).bytes_replaced(
                    old(self),
                    plane,
                    start,
                    final(s)@,
                    end,
                )
            },
    {
        let plane_data = match self.plane_data(plane) {
            Some(d) => d,
            None => {
                return Err(AvifError::NoContent);
            },
        };
        let row_bytes = plane_data.row_bytes;
        let start = match row.checked_mul(row_bytes) {
            Some(s) => s,
            None => {
                return Err(AvifError::BmffParseFailed);
            },
        };
        match self.plane_mut(plane) {
            Some(p) => p.slice_mut(start, row_bytes),
            None => Err(AvifError::NoContent),
        }
    }

    /// Row `row` of a 16-bit plane, padding included, to be written in
    /// place: as `row16`; the rest of the image stays.
    pub fn row16_mut(&mut self, plane: Plane, row: u32) -> (r: AvifResult<&mut [u16]>)
        requires
            old(self).planes[plane.index()] matches Some(Pixels::Buffer16(_)) && old(self).spec_has_plane(plane)
                ==> (old(self).row16_start(plane, row) + old(self).row_bytes[plane.index()] / 2 <= old(
                self,
            ).words_of(plane).len()),
        ensures
            r is Err ==> final(self).others_kept(old(self), plane) && final(self).planes[plane.index()] == old(
                self,
            ).planes[plane.index()],
            !old(self).spec_has_plane(plane) ==> r == Err::<&mut [u16], AvifError>(AvifError::NoContent),
            old(self).spec_has_plane(plane) && old(self).row16_start(plane, row) > u32::MAX ==> r == Err::<
                &mut [u16],
                AvifError,
            >(AvifError::BmffParseFailed),
            old(self).planes[plane.index()] matches Some(Pixels::Buffer(_)) && old(self).spec_has_plane(plane)
                && old(self).row16_start(plane, row) <= u32::MAX ==> r == Err::<&mut [u16], AvifError>(
                AvifError::NoContent,
            ),
            old(self).planes[plane.index()] matches Some(Pixels::Buffer16(_)) && old(self).spec_has_plane(plane)
                && old(self).row16_start(plane, row) <= u32::MAX ==> {
                let start = old(self).row16_start(plane, row);
                let end = start + old(self).row_bytes[plane.index()] / 2;
                r matches Ok(s) && s@ == old(self).words_of(plane).subrange(start, end) && final(self).words_replaced(
                    old(self),
                    plane,
                    start,
                    final(s)@,
                    end,
                )
            },
    {
        let plane_data = match self.plane_data(plane) {
            Some(d) => d,
            None => {
                return Err(AvifError::NoContent);
            },
        };
        let row_bytes = plane_data.row_bytes / 2;
        let start = match row.checked_mul(row_bytes) {
            Some(s) => s,
            None => {
                return Err(AvifError::BmffParseFailed);
            },
        };
        match self.plane_mut(plane) {
            Some(p) => p.slice16_mut(start, row_bytes),
            None => Err(AvifError::NoContent),
        }
    }

    /// Row `row` of an 8-bit plane without its padding, to be written in
    /// place: as `row_exact`; the rest of the image stays.
    pub fn row_exact_mut(&mut self, plane: Plane, row: u32) -> (r: AvifResult<&mut [u8]>)
        requires
            old(self).planes[plane.index()] matches Some(Pixels::Buffer(_)) && old(self).spec_has_plane(plane)
                ==> (old(self).row_start(plane, row) + old(self).row_bytes[plane.index()] <= old(self).bytes_of(
                plane,
            ).len() && old(self).spec_width(plane) <= old(self).row_bytes[plane.index()]),
        ensures
            r is Err ==> final(self).others_kept(old(self), plane) && final(self).planes[plane.index()] == old(
                self,
            ).planes[plane.index()],
            !old(self).spec_has_plane(plane) ==> r == Err::<&mut [u8], AvifError>(AvifError::NoContent),
            old(self).spec_has_plane(plane) && old(self).row_start(plane, row) > u32::MAX ==> r == Err::<
                &mut [u8],
                AvifError,
            >(AvifError::BmffParseFailed),
            old(self).planes[plane.index()] matches Some(Pixels::Buffer16(_)) && old(self).spec_has_plane(plane)
                && old(self).row_start(plane, row) <= u32::MAX ==> r == Err::<&mut [u8], AvifError>(
                AvifError::NoContent,
            ),
            old(self).planes[plane.index()] matches Some(Pixels::Buffer(_)) && old(self).spec_has_plane(plane)
                && old(self).row_start(plane, row) <= u32::MAX ==> {
                let start = old(self).row_start(plane, row);
                let end = start + old(self).spec_width(plane);
                r matches Ok(s) && s@ == old(self).bytes_of(plane).subrange(start, end) && final(self).bytes_replaced(
                    old(self),
                    plane,
                    start,
                    final(s)@,
                    end,
                )
            },
    {
        let ghost b = self.bytes_of(plane);
        let ghost start = self.row_start(plane, row);
        let ghost end = start + self.row_bytes[plane.index()];
        let width = self.width(plane);
        let r = self.row_mut(plane, row)?;
        let (part, rest) = r.split_at_mut(width);
        proof {
            let w = width as int;
            assert(b.subrange(start + w, b.len() as int) =~= b.subrange(start + w, end) + b.subrange(end, b.len() as int));
            assert(b.subrange(0, start) + (final(part)@ + rest@) + b.subrange(end, b.len() as int) =~= b.subrange(0, start)
                + final(part)@ + b.subrange(start + w, b.len() as int));
        }
        Ok(part)
    }

    /// Row `row` of a 16-bit plane without its padding, to be written in
    /// place: as `row16_exact`; the rest of the image stays.
    pub fn row16_exact_mut(&mut self, plane: Plane, row: u32) -> (r: AvifResult<&mut [u16]>)
        requires
            old(self).planes[plane.index()] matches Some(Pixels::Buffer16(_)) && old(self).spec_has_plane(plane)
                ==> (old(self).row16_start(plane, row) + old(self).row_bytes[plane.index()] / 2 <= old(
                self,
            ).words_of(plane).len() && old(self).spec_width(plane) <= old(self).row_bytes[plane.index()] / 2),
        ensures
            r is Err ==> final(self).others_kept(old(self), plane) && final(self).planes[plane.index()] == old(
                self,
            ).planes[plane.index()],
            !old(self).spec_has_plane(plane) ==> r == Err::<&mut [u16], AvifError>(AvifError::NoContent),
            old(self).spec_has_plane(plane) && old(self).row16_start(plane, row) > u32::MAX ==> r == Err::<
                &mut [u16],
                AvifError,
            >(AvifError::BmffParseFailed),
            old(self).planes[plane.index()] matches Some(Pixels::Buffer(_)) && old(self).spec_has_plane(plane)
                && old(self).row16_start(plane, row) <= u32::MAX ==> r == Err::<&mut [u16], AvifError>(
                AvifError::NoContent,
            ),
            old(self).planes[plane.index()] matches Some(Pixels::Buffer16(_)) && old(self).spec_has_plane(plane)
                && old(self).row16_start(plane, row) <= u32::MAX ==> {
                let start = old(self).row16_start(plane, row);
                let end = start + old(self).spec_width(plane);
                r matches Ok(s) && s@ == old(self).words_of(plane).subrange(start, end) && final(self).words_replaced(
                    old(self),
                    plane,
                    start,
                    final(s)@,
                    end,
                )
            },
    {
        let ghost b = self.words_of(plane);
        let ghost start = self.row16_start(plane, row);
        let ghost end = start + self.row_bytes[plane.index()] / 2;
        let width = self.width(plane);
        let r = self.row16_mut(plane, row)?;
        let (part, rest) = r.split_at_mut(width);
        proof {
            let w = width as int;
            assert(b.subrange(start + w, b.len() as int) =~= b.subrange(start + w, end) + b.subrange(end, b.len() as int));
            assert(b.subrange(0, start) + (final(part)@ + rest@) + b.subrange(end, b.len() as int) =~= b.subrange(0, start)
                + final(part)@ + b.subrange(start + w, b.len() as int));
        }
        Ok(part)
    }

    /// What allocating the planes of a category gives: 8-bit samples for
    /// depth 8, else 16-bit ones; `round_even(width) * round_even(height)`
    /// samples, all `default`; a row length of the rounded width times the
    /// sample size.
    pub open spec fn plane_allocated(&self, plane: Plane, default: u16) -> bool {
        let w = round_even(self.spec_width(plane));
        let h = round_even(self.spec_height(plane));
        let i = plane.index();
        &&& self.row_bytes[i] == w * if self.depth == 8 {
            1int
        } else {
            2int
        }
        &&& self.depth == 8 ==> (self.planes[i] matches Some(Pixels::Buffer(b)) && b@.len() == w * h
            && forall|k: int| 0 <= k < w * h ==> #[trigger] b@[k] == default as u8)
        &&& self.depth != 8 ==> (self.planes[i] matches Some(Pixels::Buffer16(b)) && b@.len() == w
            * h && forall|k: int| 0 <= k < w * h ==> #[trigger] b@[k] == default)
    }

    /// Gives the plane a buffer of the rounded-up plane size filled with
    /// `default`; the other planes and fields stay.
    fn allocate_plane(&mut self, plane: Plane, default: u16) -> (r: AvifResult<()>)
        ensures
            *final(self) == (Image { planes: final(self).planes, row_bytes: final(self).row_bytes, ..*old(self) }),
            forall|j: int|
                0 <= j < 4 && j != plane.index() ==> final(self).planes[j] == old(self).planes[j]
                    && final(self).row_bytes[j] == old(self).row_bytes[j],
            r is Ok ==> final(self).plane_allocated(plane, default),
            r is Err ==> r == Err::<(), AvifError>(AvifError::BmffParseFailed) || r == Err::<
                (),
                AvifError,
            >(AvifError::OutOfMemory),
    {
        let pixel_size: usize = if self.depth == 8 {
            1
        } else {
            2
        };
        let plane_index = plane.as_usize();
        let plane_width = self.width(plane);
        let plane_height = self.height(plane);
        if plane_width == usize::MAX || plane_height == usize::MAX {
            return Err(AvifError::BmffParseFailed);
        }
        let width = round_even_usize(plane_width);
        let height = round_even_usize(plane_height);
        let plane_size = match width.checked_mul(height) {
            Some(v) => v,
            None => {
                return Err(AvifError::BmffParseFailed);
            },
        };
        let mut pixels = if self.depth == 8 {
            Pixels::Buffer(Vec::new())
        } else {
            Pixels::Buffer16(Vec::new())
        };
        let resized = pixels.resize(plane_size, default);
        self.planes[plane_index] = Some(pixels);
        resized?;
        let row_bytes = match width.checked_mul(pixel_size) {
            Some(v) => v,
            None => {
                return Err(AvifError::BmffParseFailed);
            },
        };
        self.row_bytes[plane_index] = u32_from_usize(row_bytes)?;
        Ok(())
    }

    /// Gives each plane of the category a buffer of the rounded-up plane
    /// size filled with that plane's default value. `BmffParseFailed` where
    /// a size overflows, `OutOfMemory` where it cannot be allocated. Other
    /// planes and the other fields are kept.
    pub(crate) fn allocate_planes_with_default_values(
        &mut self,
        category: Category,
        default_values: [u16; 4],
    ) -> (r: AvifResult<()>)
        ensures
            *final(self) == (Image { planes: final(self).planes, row_bytes: final(self).row_bytes, ..*old(self) }),
            forall|j: int|
                0 <= j < 4 && !category.spec_planes().contains(#[trigger] plane_at(j)) ==> final(self).planes[j] == old(
                    self,
                ).planes[j] && final(self).row_bytes[j] == old(self).row_bytes[j],
            r is Ok ==> forall|k: int|
                0 <= k < category.spec_planes().len() ==> #[trigger] final(self).plane_allocated(
                    category.spec_planes()[k],
                    default_values[category.spec_planes()[k].index()],
                ),
            r is Err ==> r == Err::<(), AvifError>(AvifError::BmffParseFailed) || r == Err::<
                (),
                AvifError,
            >(AvifError::OutOfMemory),
    {
        let planes = category.planes();
        let mut n: usize = 0;
        while n < planes.len()
            invariant
                planes@ == category.spec_planes(),
                0 <= n <= planes@.len() <= 3,
                *self == (Image { planes: self.planes, row_bytes: self.row_bytes, ..*old(self) }),
                forall|j: int|
                    0 <= j < 4 && !category.spec_planes().contains(#[trigger] plane_at(j)) ==> self.planes[j] == old(
                        self,
                    ).planes[j] && self.row_bytes[j] == old(self).row_bytes[j],
                forall|k: int|
                    0 <= k < n ==> #[trigger] self.plane_allocated(
                        planes@[k],
                        default_values[planes@[k].index()],
                    ),
            decreases planes@.len() - n,
        {
            let ghost before = *self;
            let plane = planes[n];
            let plane_index = plane.as_usize();
            proof {
                assert(category.spec_planes()[n as int] == plane);
                assert(category.spec_planes().contains(plane));
                assert forall|j: int| 0 <= j < 4 && !category.spec_planes().contains(#[trigger] plane_at(j)) implies j
                    != plane_index by {
                    if j == plane_index {
                        assert(plane_at(j) == plane);
                    }
                }
            }
            self.allocate_plane(plane, default_values[plane_index])?;
            proof {
                assert forall|k: int| 0 <= k < n + 1 implies #[trigger] self.plane_allocated(
                    planes@[k],
                    default_values[planes@[k].index()],
                ) by {
                    if k < n {
                        let q = planes@[k];
                        assert(q != planes@[n as int]);
                        assert(q.index() != plane_index);
                        assert(before.plane_allocated(q, default_values[q.index()]));
                        assert(self.planes[q.index()] == before.planes[q.index()]);
                        assert(self.row_bytes[q.index()] == before.row_bytes[q.index()]);
                    }
                }
            }
            n += 1;
        }
        Ok(())
    }

    /// Allocates the planes of the category: samples 0, except alpha,
    /// which is opaque (the largest value of the depth).
    pub fn allocate_planes(&mut self, category: Category) -> (r: AvifResult<()>)
        ensures
            *final(self) == (Image { planes: final(self).planes, row_bytes: final(self).row_bytes, ..*old(self) }),
            forall|j: int|
                0 <= j < 4 && !category.spec_planes().contains(#[trigger] plane_at(j)) ==> final(self).planes[j] == old(
                    self,
                ).planes[j] && final(self).row_bytes[j] == old(self).row_bytes[j],
            final(self).width == old(self).width,
            final(self).height == old(self).height,
            final(self).depth == old(self).depth,
            final(self).yuv_format == old(self).yuv_format,
            r is Ok ==> forall|k: int|
                0 <= k < category.spec_planes().len() ==> final(self).plane_allocated(
                    #[trigger] category.spec_planes()[k],
                    opaque_default(category.spec_planes()[k], old(self).spec_max_channel()),
                ),
            r is Err ==> r == Err::<(), AvifError>(AvifError::BmffParseFailed) || r == Err::<
                (),
                AvifError,
            >(AvifError::OutOfMemory),
    {
        let max = self.max_channel();
        let defaults: [u16; 4] = [0, 0, 0, max];
        self.allocate_planes_with_default_values(category, defaults)
    }
}

/// The default sample of a plane: `alpha_max` for alpha, 0 otherwise.
pub open spec fn opaque_default(plane: Plane, alpha_max: u16) -> u16 {
    if plane == Plane::A {
        alpha_max
    } else {
        0
    }
}

/// `v` rounded up to an even number.
pub open spec fn round_even(v: int) -> int {
    v + v % 2
}

/// `v` rounded up to an even number (an odd `usize::MAX` stays odd).
fn round_even_usize(v: usize) -> (r: usize)
    ensures
        v < usize::MAX ==> r == round_even(v as int),
{
    if v % 2 == 1 && v < usize::MAX {
        v + 1
    } else {
        v
    }
}

impl Image {
    /// Frees the planes: none of them holds samples or has a row length.
    pub fn free_planes(&mut self, planes: &[Plane])
        ensures
            forall|i: int| 0 <= i < 4 ==> if exists|k: int| 0 <= k < planes@.len() && (#[trigger] planes@[k]).index() == i {
                final(self).planes[i] is None && final(self).row_bytes[i] == 0
            } else {
                final(self).planes[i] == old(self).planes[i] && final(self).row_bytes[i] == old(self).row_bytes[i]
            },
            final(self).width == old(self).width && final(self).height == old(self).height,
            final(self).depth == old(self).depth && final(self).yuv_format == old(self).yuv_format,
    {
        let mut k: usize = 0;
        while k < planes.len()
            invariant
                0 <= k <= planes@.len(),
                forall|i: int| 0 <= i < 4 ==> if exists|j: int| 0 <= j < k && (#[trigger] planes@[j]).index() == i {
                    self.planes[i] is None && self.row_bytes[i] == 0
                } else {
                    self.planes[i] == old(self).planes[i] && self.row_bytes[i] == old(self).row_bytes[i]
                },
                self.width == old(self).width && self.height == old(self).height,
                self.depth == old(self).depth && self.yuv_format == old(self).yuv_format,
            decreases planes@.len() - k,
        {
            let p = planes[k].as_usize();
            self.planes[p] = None;
            self.row_bytes[p] = 0;
            assert(planes@[k as int].index() == p);
            k += 1;
        }
    }
}

impl Image {
    /// Samples per row of the plane's buffer: its row length over the
    /// sample size.
    pub open spec fn stride(&self, plane: Plane) -> int {
        let i = plane.index();
        if self.planes[i] matches Some(Pixels::Buffer16(_)) {
            (self.row_bytes[i] / 2) as int
        } else {
            self.row_bytes[i] as int
        }
    }

    /// The plane holds samples as wide as the depth asks: 8 bits for depth
    /// 8, else 16.
    pub open spec fn kind_fits(&self, plane: Plane) -> bool {
        self.planes[plane.index()] matches Some(p) && (self.depth == 8) == (p is Buffer)
    }

    /// The plane's rows, each at most a row length long, lie in its buffer.
    pub open spec fn rows_in_buffer(&self, plane: Plane) -> bool {
        &&& self.planes[plane.index()] is Some
        &&& self.spec_width(plane) <= self.stride(plane)
        &&& self.spec_height(plane) * self.stride(plane) <= self.planes[plane.index()]->0.spec_size()
    }

    /// Where the samples of the plane lie: rows of `stride` samples.
    pub open spec fn plane_layout(&self, plane: Plane) -> SlotLayout {
        SlotLayout {
            row_scale: self.stride(plane) as usize,
            row_div: 1,
            row_len: self.stride(plane) as usize,
            step: 1,
            offset: 0,
        }
    }

    pub(crate) fn plane_layout_of(&self, plane: Plane) -> (r: SlotLayout)
        requires
            self.planes[plane.index()] is Some,
        ensures
            r == self.plane_layout(plane),
    {
        let stride = self.stride_of(plane);
        SlotLayout { row_scale: stride, row_div: 1, row_len: stride, step: 1, offset: 0 }
    }

    /// Rows in the buffer give a layout that fits the plane.
    pub(crate) proof fn lemma_plane_layout_fits(&self, plane: Plane)
        requires
            self.rows_in_buffer(plane),
        ensures
            self.plane_layout(plane).fits(
                self.spec_width(plane),
                self.spec_height(plane),
                self.planes[plane.index()]->0.spec_size() as int,
            ),
    {
        let l = self.plane_layout(plane);
        let h = self.spec_height(plane);
        let st = self.stride(plane);
        assert(st >= 0);
        if h > 0 {
            assert((h - 1) * st + st == h * st) by (nonlinear_arith);
            assert(l.row_start(h - 1) == (h - 1) * st);
        }
        if self.spec_width(plane) > 0 {
            assert(st > 0);
        }
    }

    /// The offsets of the plane's rows fit in 32 bits.
    pub open spec fn row_offsets_fit(&self, plane: Plane) -> bool {
        self.spec_height(plane) * self.stride(plane) <= u32::MAX + self.stride(plane)
    }

    /// The plane's rows can be walked: samples of the depth's width, rows
    /// in the buffer, offsets in 32 bits.
    pub open spec fn rows_fit(&self, plane: Plane) -> bool {
        &&& self.kind_fits(plane)
        &&& self.rows_in_buffer(plane)
        &&& self.row_offsets_fit(plane)
    }

    /// The plane's samples are those of `old`, but for the samples in its
    /// rows (within the plane width), which are `f` of the old ones.
    pub open spec fn rows_changed(&self, old: &Image, plane: Plane, new_sample: spec_fn(u16) -> int) -> bool {
        let i = plane.index();
        &&& self.planes[i] matches Some(p)
        &&& old.planes[i] matches Some(q)
        &&& p.same_kind(&q) && p.spec_size() == q.spec_size()
        &&& forall|k: int|
            0 <= k < q.spec_size() ==> #[trigger] p.spec_sample(k) == if in_rows(
                k,
                old.stride(plane),
                old.spec_width(plane),
                old.spec_height(plane),
            ) {
                new_sample(q.spec_sample(k))
            } else {
                q.spec_sample(k) as int
            }
    }

    /// Only the plane's samples differ.
    pub open spec fn others_kept(&self, old: &Image, plane: Plane) -> bool {
        &&& *self == Image { planes: self.planes, ..*old }
        &&& forall|j: int| 0 <= j < 4 && j != plane.index() ==> self.planes[j] == old.planes[j]
    }

    pub(crate) fn stride_of(&self, plane: Plane) -> (r: usize)
        requires
            self.planes[plane.index()] is Some,
        ensures
            r == self.stride(plane),
    {
        let i = plane.as_usize();
        match &self.planes[i] {
            Some(Pixels::Buffer16(_)) => (self.row_bytes[i] / 2) as usize,
            _ => self.row_bytes[i] as usize,
        }
    }

    /// Sets every sample of the plane (within its width) to `value`, the
    /// low byte of it for depth 8. A plane without samples stays as it is.
    pub fn fill_plane_with_value(&mut self, plane: Plane, value: u16) -> (r: AvifResult<()>)
        requires
            old(self).spec_has_plane(plane) ==> old(self).rows_fit(plane),
        ensures
            r is Ok,
            !old(self).spec_has_plane(plane) ==> *final(self) == *old(self),
            old(self).spec_has_plane(plane) ==> final(self).others_kept(old(self), plane)
                && final(self).rows_changed(
                old(self),
                plane,
                |s: u16| (if old(self).depth == 8 { (value as u8) as u16 } else { value }) as int,
            ),
    {
        if !self.has_plane(plane) {
            return Ok(());
        }
        let i = plane.as_usize();
        let width = self.width(plane);
        let height = self.height(plane);
        let stride = self.stride_of(plane);
        match &mut self.planes[i] {
            Some(p) => p.fill_rows(stride, width, height, value),
            None => {},
        }
        Ok(())
    }

    /// What making the image opaque gives: every alpha sample (within the
    /// width) of `before` becomes the largest value of the depth (its low
    /// byte for 8-bit samples); without alpha samples nothing changes.
    pub open spec fn made_opaque(&self, before: &Image) -> bool {
        &&& !before.spec_has_plane(Plane::A) ==> *self == *before
        &&& before.spec_has_plane(Plane::A) ==> self.others_kept(before, Plane::A) && self.rows_changed(
            before,
            Plane::A,
            |s: u16| (if before.depth == 8 {
                (before.spec_max_channel() as u8) as u16
            } else {
                before.spec_max_channel()
            }) as int,
        )
    }

    /// Every alpha sample (within the width) is the largest value of the
    /// depth; an image without alpha samples is opaque.
    pub open spec fn spec_is_opaque(&self) -> bool {
        self.spec_has_plane(Plane::A) ==> forall|k: int|
            0 <= k < self.planes[3]->0.spec_size() && in_rows(
                k,
                self.stride(Plane::A),
                self.spec_width(Plane::A),
                self.spec_height(Plane::A),
            ) ==> #[trigger] self.planes[3]->0.spec_sample(k) == self.planes[3]->0.narrow(self.spec_max_channel())
    }

    /// Makes the image opaque: every alpha sample (within the width) takes
    /// the largest value of the depth. Without alpha samples nothing
    /// changes.
    pub fn set_opaque(&mut self) -> (r: AvifResult<()>)
        requires
            old(self).spec_has_plane(Plane::A) ==> old(self).rows_fit(Plane::A),
        ensures
            r is Ok,
            final(self).made_opaque(old(self)),
    {
        let max_channel = self.max_channel();
        self.fill_plane_with_value(Plane::A, max_channel)
    }

    /// Whether every alpha sample (within the width) is the largest value of
    /// the depth; an image without alpha samples is opaque.
    pub fn is_opaque(&self) -> (r: bool)
        requires
            self.spec_has_plane(Plane::A) ==> self.rows_fit(Plane::A),
        ensures
            r == self.spec_is_opaque(),
    {
        if !self.has_plane(Plane::A) {
            return true;
        }
        let width = self.width(Plane::A);
        let height = self.height(Plane::A);
        let stride = self.stride_of(Plane::A);
        let opaque_value = self.max_channel();
        match &self.planes[3] {
            Some(p) => p.rows_all_equal(stride, width, height, opaque_value),
            None => true,
        }
    }

    /// Rescales the alpha samples (within the width) from limited to full
    /// range, at the image depth (as 8-bit samples for depth 8). Without an
    /// alpha plane nothing changes. Where the image has rows, an alpha plane
    /// without samples or with samples of another width than the depth asks
    /// gives `NoContent`, and one whose row offsets do not fit in 32 bits
    /// `BmffParseFailed`.
    pub fn alpha_to_full_range(&mut self) -> (r: AvifResult<()>)
        requires
            old(self).spec_has_plane(Plane::A) && old(self).kind_fits(Plane::A) ==> old(self).rows_in_buffer(Plane::A),
        ensures
            old(self).planes[3] is None ==> r is Ok && *final(self) == *old(self),
            old(self).planes[3] is Some && !(old(self).spec_has_plane(Plane::A) && old(self).kind_fits(Plane::A))
                ==> *final(self) == *old(self) && if old(self).height == 0 {
                r is Ok
            } else {
                r == Err::<(), AvifError>(AvifError::NoContent)
            },
            old(self).spec_has_plane(Plane::A) && old(self).kind_fits(Plane::A) && !old(self).row_offsets_fit(Plane::A)
                ==> *final(self) == *old(self) && r == Err::<(), AvifError>(AvifError::BmffParseFailed),
            old(self).spec_has_plane(Plane::A) && old(self).rows_fit(Plane::A) ==> r is Ok && final(self).others_kept(old(self), Plane::A)
                && final(self).rows_changed(
                old(self),
                Plane::A,
                |s: u16| spec_limited_to_full_y(if old(self).depth == 8 { 8u8 } else { old(self).depth }, s),
            ),
    {
        if self.planes[3].is_none() {
            return Ok(());
        }
        let kind_ok = match &self.planes[3] {
            Some(Pixels::Buffer(_)) => self.depth == 8,
            Some(Pixels::Buffer16(_)) => self.depth != 8,
            None => false,
        };
        if !self.has_plane(Plane::A) || !kind_ok {
            if self.height == 0 {
                return Ok(());
            }
            return Err(AvifError::NoContent);
        }
        let width = self.width(Plane::A);
        let height = self.height(Plane::A);
        let stride = self.stride_of(Plane::A);
        let size = match &self.planes[3] {
            Some(p) => p.size(),
            None => 0,
        };
        assert(height * stride <= size);
        if ((height * stride) as u128) > 0xffff_ffff + (stride as u128) {
            return Err(AvifError::BmffParseFailed);
        }
        let depth = self.depth;
        match &mut self.planes[3] {
            Some(p) => p.rows_to_full_range(stride, width, height, depth),
            None => {},
        }
        Ok(())
    }
}

fn copy_bytes(v: &Vec<u8>) -> (r: Vec<u8>)
    ensures
        r@ == v@,
{
    let mut c: Vec<u8> = Vec::new();
    let mut i: usize = 0;
    while i < v.len()
        invariant
            0 <= i <= v@.len(),
            c@ == v@.subrange(0, i as int),
        decreases v@.len() - i,
    {
        c.push(v[i]);
        i += 1;
        assert(c@ =~= v@.subrange(0, i as int));
    }
    assert(c@ =~= v@);
    c
}

impl Image {
    /// An image with the same size, format and metadata (Exif, ICC and XMP
    /// copied) but no planes.
    pub fn shallow_clone(&self) -> (r: Image)
        ensures
            r == (Image {
                planes: [None, None, None, None],
                row_bytes: [0, 0, 0, 0],
                exif: r.exif,
                icc: r.icc,
                xmp: r.xmp,
                ..*self
            }),
            r.exif@ == self.exif@ && r.icc@ == self.icc@ && r.xmp@ == self.xmp@,
    {
        Image {
            width: self.width,
            height: self.height,
            depth: self.depth,
            yuv_format: self.yuv_format,
            yuv_range: self.yuv_range,
            chroma_sample_position: self.chroma_sample_position,
            alpha_present: self.alpha_present,
            alpha_premultiplied: self.alpha_premultiplied,
            row_bytes: [0, 0, 0, 0],
            planes: [None, None, None, None],
            color_primaries: self.color_primaries,
            transfer_characteristics: self.transfer_characteristics,
            matrix_coefficients: self.matrix_coefficients,
            clli: self.clli,
            pasp: self.pasp,
            clap: self.clap,
            irot_angle: self.irot_angle,
            imir_axis: self.imir_axis,
            exif: copy_bytes(&self.exif),
            icc: copy_bytes(&self.icc),
            xmp: copy_bytes(&self.xmp),
            image_sequence_track_present: self.image_sequence_track_present,
            progressive_state: self.progressive_state,
        }
    }

    /// Frees the chroma planes.
    pub fn clear_chroma_planes(&mut self)
        ensures
            final(self).planes[1] is None && final(self).row_bytes[1] == 0,
            final(self).planes[2] is None && final(self).row_bytes[2] == 0,
            final(self).planes[0] == old(self).planes[0] && final(self).row_bytes[0] == old(self).row_bytes[0],
            final(self).planes[3] == old(self).planes[3] && final(self).row_bytes[3] == old(self).row_bytes[3],
    {
        let planes = [Plane::U, Plane::V];
        self.free_planes(&planes);
        proof {
            assert(planes@[0].index() == 1);
            assert(planes@[1].index() == 2);
            assert forall|k: int| 0 <= k < planes@.len() implies (#[trigger] planes@[k]).index() != 0 && planes@[k].index() != 3 by {}
        }
    }

    /// The row length of each plane that holds samples, as a signed
    /// number; 0 for the others.
    pub fn plane_row_bytes(&self) -> (r: AvifResult<[i32; 4]>)
        requires
            forall|i: int| 0 <= i < 4 ==> self.row_bytes[i] <= i32::MAX,
        ensures
            r matches Ok(a) && forall|i: int| 0 <= i < 4 ==> #[trigger] a[i] == if self.spec_has_plane(
                plane_at(i),
            ) {
                self.row_bytes[i] as i32
            } else {
                0i32
            },
    {
        let mut a: [i32; 4] = [0, 0, 0, 0];
        let planes = [Plane::Y, Plane::U, Plane::V, Plane::A];
        let mut i: usize = 0;
        while i < 4
            invariant
                0 <= i <= 4,
                planes@ == seq![Plane::Y, Plane::U, Plane::V, Plane::A],
                forall|j: int| 0 <= j < 4 ==> self.row_bytes[j] <= i32::MAX,
                forall|j: int| i <= j < 4 ==> #[trigger] a[j] == 0,
                forall|j: int| 0 <= j < i ==> #[trigger] a[j] == if self.spec_has_plane(plane_at(j)) {
                    self.row_bytes[j] as i32
                } else {
                    0i32
                },
            decreases 4 - i,
        {
            let plane = planes[i];
            assert(plane == plane_at(i as int));
            if self.has_plane(plane) {
                a[i] = self.row_bytes[i] as i32;
            }
            i += 1;
        }
        Ok(a)
    }

    /// Gives the planes of the category copies of those of `src`, with
    /// their row lengths; a plane `src` lacks is freed. `OutOfMemory` where
    /// a copy cannot be made (the planes copied before it stay copied).
    pub fn steal_or_copy_planes_from(&mut self, src: &Image, category: Category) -> (r: AvifResult<()>)
        ensures
            r is Ok ==> forall|k: int| 0 <= k < category.spec_planes().len() ==> {
                let i = #[trigger] category.spec_planes()[k].index();
                &&& final(self).row_bytes[i] == (if src.planes[i] is Some { src.row_bytes[i] } else { 0 })
                &&& match (src.planes[i], final(self).planes[i]) {
                    (Some(a), Some(b)) => b.same_samples(&a),
                    (None, None) => true,
                    _ => false,
                }
            },
            r is Err ==> r == Err::<(), AvifError>(AvifError::OutOfMemory),
            final(self).width == old(self).width && final(self).height == old(self).height,
            final(self).depth == old(self).depth && final(self).yuv_format == old(self).yuv_format,
    {
        let planes = category.planes();
        let mut k: usize = 0;
        while k < planes.len()
            invariant
                0 <= k <= planes@.len(),
                planes@ == category.spec_planes(),
                forall|j: int| 0 <= j < planes@.len() ==> 0 <= (#[trigger] planes@[j]).index() < 4,
                forall|a: int, b: int| 0 <= a < b < planes@.len() ==> (#[trigger] planes@[a]).index() != (#[trigger] planes@[b]).index(),
                forall|j: int| 0 <= j < k ==> {
                    let i = #[trigger] planes@[j].index();
                    &&& self.row_bytes[i] == (if src.planes[i] is Some { src.row_bytes[i] } else { 0 })
                    &&& match (src.planes[i], self.planes[i]) {
                        (Some(a), Some(b)) => b.same_samples(&a),
                        (None, None) => true,
                        _ => false,
                    }
                },
                self.width == old(self).width && self.height == old(self).height,
                self.depth == old(self).depth && self.yuv_format == old(self).yuv_format,
            decreases planes@.len() - k,
        {
            let i = planes[k].as_usize();
            match &src.planes[i] {
                Some(p) => {
                    let copy = p.try_clone()?;
                    self.planes[i] = Some(copy);
                    self.row_bytes[i] = src.row_bytes[i];
                },
                None => {
                    self.planes[i] = None;
                    self.row_bytes[i] = 0;
                },
            }
            k += 1;
        }
        Ok(())
    }
}

/// The plane at index `i` of an image's arrays.
pub open spec fn plane_at(i: int) -> Plane {
    if i == 0 {
        Plane::Y
    } else if i == 1 {
        Plane::U
    } else if i == 2 {
        Plane::V
    } else {
        Plane::A
    }
}

impl Image {
    /// Bytes per sample at the image depth.
    pub open spec fn sample_bytes(&self) -> int {
        if self.depth == 8 {
            1
        } else {
            2
        }
    }

    /// The plane of `image` can be copied row by row into a plane of this
    /// image's size as allocation rounds it up: where it has rows, they are
    /// at least one sample wide, no wider and no more than this image's,
    /// and, holding samples as wide as this image's depth asks, they lie in
    /// their buffer.
    pub open spec fn pads_plane(&self, image: &Image, plane: Plane) -> bool {
        image.spec_has_plane(plane) && image.spec_height(plane) > 0 ==> {
            &&& image.spec_width(plane) > 0
            &&& image.spec_width(plane) <= round_even(self.spec_width(plane))
            &&& image.spec_height(plane) <= round_even(self.spec_height(plane))
            &&& image.kind_for(plane, self.depth != 8) ==> image.rows_in_buffer(plane)
        }
    }

    /// What copying the rows of `image`'s plane into this image finds wrong:
    /// samples of a width other than this image's depth asks (`NoContent`),
    /// or row offsets, there or in the allocated plane, beyond 32 bits
    /// (`BmffParseFailed`).
    pub open spec fn pad_status(&self, image: &Image, plane: Plane) -> Option<AvifError> {
        let h = image.spec_height(plane);
        if !image.spec_has_plane(plane) || h == 0 {
            None
        } else if !image.kind_for(plane, self.depth != 8) {
            Some(AvifError::NoContent)
        } else if (h - 1) * image.stride(plane) > u32::MAX || (h - 1) * round_even(self.spec_width(plane)) > u32::MAX {
            Some(AvifError::BmffParseFailed)
        } else {
            None
        }
    }

    /// The first of the planes Y, U, V and A that cannot be copied.
    pub open spec fn first_pad_error(&self, image: &Image) -> Option<AvifError> {
        if self.pad_status(image, Plane::Y) is Some {
            self.pad_status(image, Plane::Y)
        } else if self.pad_status(image, Plane::U) is Some {
            self.pad_status(image, Plane::U)
        } else if self.pad_status(image, Plane::V) is Some {
            self.pad_status(image, Plane::V)
        } else {
            self.pad_status(image, Plane::A)
        }
    }

    /// The plane was allocated at this image's size, rounded up to even,
    /// and holds the rows of `image`'s plane (where it has one), each padded
    /// with its last sample to the row length; the rows below hold
    /// `default`.
    pub open spec fn padded_from(&self, image: &Image, plane: Plane, default: u16) -> bool {
        let w = round_even(self.spec_width(plane));
        let h = round_even(self.spec_height(plane));
        let i = plane.index();
        let copied = if image.spec_has_plane(plane) {
            image.spec_height(plane)
        } else {
            0
        };
        &&& self.row_bytes[i] == w * self.sample_bytes()
        &&& self.planes[i] matches Some(q) && (q is Buffer) == (self.depth == 8) && q.spec_size() == w * h
        &&& forall|y: int, x: int|
            0 <= y < copied && 0 <= x < w ==> #[trigger] self.planes[i]->0.spec_sample(self.plane_layout(plane).slot(y, x))
                == image.planes[i]->0.spec_sample(image.plane_layout(plane).slot(y, clamp_column(x, image.spec_width(plane))))
        &&& forall|k: int|
            copied * w <= k < w * h ==> #[trigger] self.planes[i]->0.spec_sample(k) == self.planes[i]->0.narrow(default)
    }

    /// Copies the rows of `image`'s plane into the allocated plane.
    fn pad_plane(&mut self, image: &Image, plane: Plane, Ghost(default): Ghost<u16>)
        requires
            old(self).plane_allocated(plane, default),
            old(self).pads_plane(image, plane),
            old(self).pad_status(image, plane) is None,
        ensures
            final(self).others_kept(old(self), plane),
            final(self).padded_from(image, plane, default),
    {
        let ghost i = plane.index();
        let ghost w = round_even(self.spec_width(plane));
        let ghost h = round_even(self.spec_height(plane));
        proof {
            assert(self.stride(plane) == w);
            assert(self.planes[i]->0.spec_size() == w * h);
        }
        if !image.has_plane(plane) || image.height(plane) == 0 {
            proof {
                assert forall|k: int| 0 * w <= k < w * h implies #[trigger] self.planes[i]->0.spec_sample(k)
                    == self.planes[i]->0.narrow(default) by {
                    if self.depth == 8 {
                        assert(self.planes[i] matches Some(Pixels::Buffer(b)) && b@[k] == default as u8);
                    }
                }
            }
            return;
        }
        let ghost before = *self;
        let sw = image.width(plane);
        let sh = image.height(plane);
        let layout = self.plane_layout_of(plane);
        let src_layout = image.plane_layout_of(plane);
        let stride = self.stride_of(plane);
        proof {
            image.lemma_plane_layout_fits(plane);
            assert((sh - 1) * w + w == sh * w) by (nonlinear_arith);
            assert(sh * w <= h * w) by (nonlinear_arith)
                requires
                    sh <= h,
                    w >= 0,
            ;
            assert(layout.row_start(sh - 1) == (sh - 1) * w);
            assert(layout.fits(stride as int, sh as int, self.planes[i]->0.spec_size() as int));
        }
        match self.plane_mut(plane) {
            Some(p) => p.copy_slots_padded(&layout, stride, image.planes[plane.as_usize()].as_ref().unwrap(), &src_layout, sw, sh),
            None => {},
        }
        proof {
            let q = self.planes[i]->0;
            let q0 = before.planes[i]->0;
            assert(self.plane_layout(plane) == layout);
            assert forall|k: int| sh * w <= k < w * h implies #[trigger] self.planes[i]->0.spec_sample(k)
                == self.planes[i]->0.narrow(default) by {
                assert forall|y: int, x: int| 0 <= y < sh && 0 <= x < stride implies k != #[trigger] layout.slot(y, x) by {
                    assert(y * w + x < sh * w) by (nonlinear_arith)
                        requires
                            0 <= y < sh,
                            0 <= x < w,
                    ;
                }
                assert(q.spec_sample(k) == q0.spec_sample(k));
                if self.depth == 8 {
                    assert(before.planes[i] matches Some(Pixels::Buffer(b)) && b@[k] == default as u8);
                }
            }
        }
    }

    /// Copies `image` into this image, which must be at least as wide and
    /// as tall (else `InvalidArgument`): the colour planes, and the alpha
    /// plane if `image` has one, are allocated at this image's size, and
    /// each row of each plane of `image` is copied and padded with its last
    /// sample to the row length. Allocation can fail (`BmffParseFailed`,
    /// `OutOfMemory`), and so can the copy, as `first_pad_error` says.
    pub fn copy_and_pad(&mut self, image: &Image) -> (r: AvifResult<()>)
        requires
            image.width <= old(self).width && image.height <= old(self).height ==> forall|k: int|
                0 <= k < 4 ==> old(self).pads_plane(image, #[trigger] plane_at(k)),
        ensures
            image.width > old(self).width || image.height > old(self).height ==> r == Err::<(), AvifError>(
                AvifError::InvalidArgument,
            ) && *final(self) == *old(self),
            image.width <= old(self).width && image.height <= old(self).height ==> {
                &&& r matches Err(e) ==> e == AvifError::BmffParseFailed || e == AvifError::OutOfMemory || old(
                    self,
                ).first_pad_error(image) == Some(e)
                &&& old(self).first_pad_error(image) is Some ==> r is Err
                &&& r is Ok ==> {
                    &&& *final(self) == (Image { planes: final(self).planes, row_bytes: final(self).row_bytes, ..*old(self) })
                    &&& final(self).padded_from(image, Plane::Y, 0)
                    &&& final(self).padded_from(image, Plane::U, 0)
                    &&& final(self).padded_from(image, Plane::V, 0)
                    &&& image.spec_has_plane(Plane::A) ==> final(self).padded_from(image, Plane::A, old(self).spec_max_channel())
                    &&& !image.spec_has_plane(Plane::A) ==> final(self).planes[3] == old(self).planes[3]
                        && final(self).row_bytes[3] == old(self).row_bytes[3]
                }
            },
    {
        if image.width > self.width || image.height > self.height {
            return Err(AvifError::InvalidArgument);
        }
        let max = self.max_channel();
        let has_alpha = image.has_alpha();
        self.allocate_for_padding(has_alpha)?;
        proof {
            assert(self.pads_plane(image, plane_at(0)));
            assert(self.pads_plane(image, plane_at(1)));
            assert(self.pads_plane(image, plane_at(2)));
            assert(self.pads_plane(image, plane_at(3)));
        }
        self.check_pad(image, Plane::Y)?;
        self.check_pad(image, Plane::U)?;
        self.check_pad(image, Plane::V)?;
        self.check_pad(image, Plane::A)?;
        self.pad_plane(image, Plane::Y, Ghost(0));
        let ghost y_done = *self;
        self.pad_plane(image, Plane::U, Ghost(0));
        let ghost u_done = *self;
        self.pad_plane(image, Plane::V, Ghost(0));
        let ghost v_done = *self;
        if has_alpha {
            self.pad_plane(image, Plane::A, Ghost(max));
        }
        proof {
            lemma_padded_from_kept(u_done, y_done, *image, Plane::Y, 0);
            lemma_padded_from_kept(v_done, u_done, *image, Plane::Y, 0);
            lemma_padded_from_kept(v_done, u_done, *image, Plane::U, 0);
            lemma_padded_from_kept(*self, v_done, *image, Plane::Y, 0);
            lemma_padded_from_kept(*self, v_done, *image, Plane::U, 0);
            lemma_padded_from_kept(*self, v_done, *image, Plane::V, 0);
        }
        Ok(())
    }

    /// Allocates the colour planes, and the alpha plane if asked, for
    /// `copy_and_pad`.
    fn allocate_for_padding(&mut self, alpha: bool) -> (r: AvifResult<()>)
        ensures
            *final(self) == (Image { planes: final(self).planes, row_bytes: final(self).row_bytes, ..*old(self) }),
            !alpha ==> final(self).planes[3] == old(self).planes[3] && final(self).row_bytes[3] == old(self).row_bytes[3],
            r is Ok ==> {
                &&& final(self).plane_allocated(Plane::Y, 0)
                &&& final(self).plane_allocated(Plane::U, 0)
                &&& final(self).plane_allocated(Plane::V, 0)
                &&& alpha ==> final(self).plane_allocated(Plane::A, old(self).spec_max_channel())
            },
            r is Err ==> r == Err::<(), AvifError>(AvifError::BmffParseFailed) || r == Err::<
                (),
                AvifError,
            >(AvifError::OutOfMemory),
    {
        self.allocate_planes(Category::Color)?;
        proof {
            assert(Category::Color.spec_planes()[0] == Plane::Y);
            assert(Category::Color.spec_planes()[1] == Plane::U);
            assert(Category::Color.spec_planes()[2] == Plane::V);
            assert(!Category::Color.spec_planes().contains(plane_at(3)));
        }
        let ghost colored = *self;
        if alpha {
            self.allocate_planes(Category::Alpha)?;
            proof {
                assert(Category::Alpha.spec_planes()[0] == Plane::A);
                assert(!Category::Alpha.spec_planes().contains(plane_at(0)));
                assert(!Category::Alpha.spec_planes().contains(plane_at(1)));
                assert(!Category::Alpha.spec_planes().contains(plane_at(2)));
                assert(colored.plane_allocated(Plane::Y, 0));
                assert(colored.plane_allocated(Plane::U, 0));
                assert(colored.plane_allocated(Plane::V, 0));
            }
        }
        Ok(())
    }

    /// `pad_status` of the plane, as a result.
    fn check_pad(&self, image: &Image, plane: Plane) -> (r: AvifResult<()>)
        requires
            self.pads_plane(image, plane),
        ensures
            r is Ok <==> self.pad_status(image, plane) is None,
            r matches Err(e) ==> self.pad_status(image, plane) == Some(e),
    {
        if !image.has_plane(plane) || image.height(plane) == 0 {
            return Ok(());
        }
        let wide = self.depth != 8;
        let kind_ok = match &image.planes[plane.as_usize()] {
            Some(Pixels::Buffer16(_)) => wide,
            Some(Pixels::Buffer(_)) => !wide,
            None => false,
        };
        if !kind_ok {
            return Err(AvifError::NoContent);
        }
        let rows = (image.height(plane) - 1) as u128;
        let src_stride = image.stride_of(plane) as u128;
        let width = self.width(plane);
        let padded = if width % 2 == 1 {
            width as u128 + 1
        } else {
            width as u128
        };
        assert(rows * src_stride <= 0xffff_ffff_ffff_ffff * 0xffff_ffff_ffff_ffff) by (nonlinear_arith)
            requires
                rows <= 0xffff_ffff_ffff_ffff,
                src_stride <= 0xffff_ffff_ffff_ffff,
        ;
        assert(rows * padded <= 0xffff_ffff_ffff_ffff * 0x1_0000_0000_0000_0000) by (nonlinear_arith)
            requires
                rows <= 0xffff_ffff_ffff_ffff,
                padded <= 0x1_0000_0000_0000_0000,
        ;
        if rows * src_stride > 0xffff_ffff || rows * padded > 0xffff_ffff {
            return Err(AvifError::BmffParseFailed);
        }
        Ok(())
    }
}

/// Padding copied into a plane stays while the plane and the image size
/// stay.
proof fn lemma_padded_from_kept(after: Image, before: Image, image: Image, plane: Plane, default: u16)
    requires
        before.padded_from(&image, plane, default),
        after.planes[plane.index()] == before.planes[plane.index()],
        after.row_bytes[plane.index()] == before.row_bytes[plane.index()],
        after.width == before.width,
        after.height == before.height,
        after.depth == before.depth,
        after.yuv_format == before.yuv_format,
    ensures
        after.padded_from(&image, plane, default),
{
    assert(after.plane_layout(plane) == before.plane_layout(plane));
}

/// An image made opaque is opaque.
pub proof fn lemma_made_opaque_is_opaque(before: Image, after: Image)
    requires
        before.spec_has_plane(Plane::A) ==> before.rows_fit(Plane::A),
        after.made_opaque(&before),
    ensures
        after.spec_is_opaque(),
{
    if before.spec_has_plane(Plane::A) {
        let p = after.planes[3]->0;
        let q = before.planes[3]->0;
        assert(p.same_kind(&q));
        assert(after.stride(Plane::A) == before.stride(Plane::A));
        assert(after.spec_has_plane(Plane::A));
        assert forall|k: int|
            0 <= k < p.spec_size() && in_rows(
                k,
                after.stride(Plane::A),
                after.spec_width(Plane::A),
                after.spec_height(Plane::A),
            ) implies #[trigger] p.spec_sample(k) == p.narrow(after.spec_max_channel()) by {
            assert(0 <= k < q.spec_size());
        }
    }
}

} // verus!
