//! RGB images: channel layouts, sample sizes and their buffers.

use crate::image;
use crate::internal_utils::pixels::Pixels;
use crate::internal_utils::usize_from_u32;
use crate::{AvifError, AvifResult};
use vstd::prelude::*;

verus! {

/// Order of the channels of an RGB pixel.
#[derive(Debug, Default, Clone, Copy, PartialEq, Eq, Structural)]
pub enum Format {
    Rgb,
    #[default]
    Rgba,
    Argb,
    Bgr,
    Bgra,
    Abgr,
    Rgb565,
}

impl Format {
    pub open spec fn spec_offsets(&self) -> [usize; 4] {
        match self {
            Format::Rgb => [0, 1, 2, 0],
            Format::Rgba => [0, 1, 2, 3],
            Format::Argb => [1, 2, 3, 0],
            Format::Bgr => [2, 1, 0, 0],
            Format::Bgra => [2, 1, 0, 3],
            Format::Abgr => [3, 2, 1, 0],
            Format::Rgb565 => [0, 0, 0, 0],
        }
    }

    /// Position of the red, green, blue and alpha channels in a pixel.
    pub fn offsets(&self) -> (r: [usize; 4])
        ensures
            r == self.spec_offsets(),
    {
        match self {
            Format::Rgb => [0, 1, 2, 0],
            Format::Rgba => [0, 1, 2, 3],
            Format::Argb => [1, 2, 3, 0],
            Format::Bgr => [2, 1, 0, 0],
            Format::Bgra => [2, 1, 0, 3],
            Format::Abgr => [3, 2, 1, 0],
            Format::Rgb565 => [0, 0, 0, 0],
        }
    }

    /// Position of the red channel.
    pub fn r_offset(&self) -> (r: usize)
        ensures
            r == self.spec_offsets()[0],
    {
        self.offsets()[0]
    }

    /// Position of the green channel.
    pub fn g_offset(&self) -> (r: usize)
        ensures
            r == self.spec_offsets()[1],
    {
        self.offsets()[1]
    }

    /// Position of the blue channel.
    pub fn b_offset(&self) -> (r: usize)
        ensures
            r == self.spec_offsets()[2],
    {
        self.offsets()[2]
    }

    /// Position of the alpha channel.
    pub fn alpha_offset(&self) -> (r: usize)
        ensures
            r == self.spec_offsets()[3],
    {
        self.offsets()[3]
    }
}

/// How chroma is upsampled.
#[derive(Debug, Default, Clone, Copy, PartialEq, Eq, Structural)]
pub enum ChromaUpsampling {
    #[default]
    Automatic,
    Fastest,
    BestQuality,
    Nearest,
    Bilinear,
}

impl ChromaUpsampling {
    /// Whether nearest neighbour upsampling may be used: for every choice
    /// but bilinear and best quality.
    pub fn nearest_neighbor_filter_allowed(&self) -> (r: bool)
        ensures
            r == !(*self == ChromaUpsampling::Bilinear || *self == ChromaUpsampling::BestQuality),
    {
        match self {
            ChromaUpsampling::Bilinear | ChromaUpsampling::BestQuality => false,
            _ => true,
        }
    }
}

/// How chroma is downsampled.
#[derive(Debug, Default, Clone, Copy, PartialEq, Eq, Structural)]
pub enum ChromaDownsampling {
    #[default]
    Automatic,
    Fastest,
    BestQuality,
    Average,
    SharpYuv,
}

/// What is done to colour with respect to alpha while converting.
#[derive(Debug, Default, Clone, Copy, PartialEq, Eq, Structural)]
pub enum AlphaMultiplyMode {
    #[default]
    NoOp,
    Multiply,
    UnMultiply,
}

/// An RGB image.
#[derive(Debug)]
pub struct Image {
    pub width: u32,
    pub height: u32,
    pub depth: u32,
    pub format: Format,
    pub chroma_upsampling: ChromaUpsampling,
    pub chroma_downsampling: ChromaDownsampling,
    pub ignore_alpha: bool,
    pub alpha_premultiplied: bool,
    pub is_float: bool,
    pub max_threads: i32,
    pub pixels: Option<Pixels>,
    pub row_bytes: u32,
}

impl Image {
    /// The largest sample value of the depth: `2^depth - 1`, kept to its
    /// low 16 bits.
    pub fn max_channel(&self) -> (r: u16)
        requires
            self.depth <= 30,
        ensures
            r == (vstd::arithmetic::power2::pow2(self.depth as nat) - 1) % 0x10000,
    {
        let d = self.depth;
        proof {
            vstd::arithmetic::power2::lemma_pow2_strictly_increases(d as nat, 31);
            vstd::arithmetic::power2::lemma2_to64();
            vstd::bits::lemma_u32_shl_is_mul(1, d);
        }
        let v: u32 = (1u32 << d) - 1;
        assert(v as u16 == v % 0x10000) by (bit_vector);
        v as u16
    }

    /// An RGBA image of the size and depth of the YUV image, with default
    /// settings and no pixels.
    pub fn create_from_yuv(image: &image::Image) -> (r: Self)
        ensures
            r.width == image.width && r.height == image.height && r.depth == image.depth,
            r.format == Format::Rgba,
            r.chroma_upsampling == ChromaUpsampling::Automatic,
            r.chroma_downsampling == ChromaDownsampling::Automatic,
            !r.ignore_alpha && !r.alpha_premultiplied && !r.is_float,
            r.max_threads == 1,
            r.pixels is None,
            r.row_bytes == 0,
    {
        Image {
            width: image.width,
            height: image.height,
            depth: image.depth as u32,
            format: Format::Rgba,
            chroma_upsampling: ChromaUpsampling::Automatic,
            chroma_downsampling: ChromaDownsampling::Automatic,
            ignore_alpha: false,
            alpha_premultiplied: false,
            is_float: false,
            max_threads: 1,
            pixels: None,
            row_bytes: 0,
        }
    }

    /// Row `row` of an image of 8-bit samples: `row_bytes` bytes from
    /// `row * row_bytes`. `NoContent` without pixels or with 16-bit
    /// samples.
    pub fn row(&self, row: u32) -> (r: AvifResult<&[u8]>)
        requires
            row * self.row_bytes <= u32::MAX,
            self.pixels matches Some(Pixels::Buffer(b)) ==> row * self.row_bytes + self.row_bytes
                <= b@.len(),
        ensures
            match self.pixels {
                Some(Pixels::Buffer(b)) => r matches Ok(s) && s@ == b@.subrange(
                    row * self.row_bytes,
                    row * self.row_bytes + self.row_bytes,
                ),
                _ => r == Err::<&[u8], AvifError>(AvifError::NoContent),
            },
    {
        match &self.pixels {
            Some(pixels) => pixels.slice(row * self.row_bytes, self.row_bytes),
            None => Err(AvifError::NoContent),
        }
    }

    /// Row `row` of an image of 16-bit samples: `row_bytes / 2` samples from
    /// `row * row_bytes / 2`. `NoContent` without pixels or with 8-bit
    /// samples.
    pub fn row16(&self, row: u32) -> (r: AvifResult<&[u16]>)
        requires
            row * self.row_bytes <= u32::MAX,
            self.pixels matches Some(Pixels::Buffer16(b)) ==> row * self.row_bytes / 2
                + self.row_bytes / 2 <= b@.len(),
        ensures
            match self.pixels {
                Some(Pixels::Buffer16(b)) => r matches Ok(s) && s@ == b@.subrange(
                    row * self.row_bytes / 2,
                    row * self.row_bytes / 2 + self.row_bytes / 2,
                ),
                _ => r == Err::<&[u16], AvifError>(AvifError::NoContent),
            },
    {
        match &self.pixels {
            Some(pixels) => pixels.slice16(row * self.row_bytes / 2, self.row_bytes / 2),
            None => Err(AvifError::NoContent),
        }
    }

    /// Row `row` of an image of 8-bit samples, to be written in place: as
    /// `row`; the rest of the image stays.
    pub fn row_mut(&mut self, row: u32) -> (r: AvifResult<&mut [u8]>)
        requires
            row * old(self).row_bytes <= u32::MAX,
            old(self).pixels matches Some(Pixels::Buffer(b)) ==> row * old(self).row_bytes + old(self).row_bytes
                <= b@.len(),
        ensures
            match old(self).pixels {
                Some(Pixels::Buffer(b)) => {
                    let start = row * old(self).row_bytes;
                    let end = start + old(self).row_bytes;
                    &&& r matches Ok(s) && s@ == b@.subrange(start, end) && (final(self).pixels matches Some(
                        Pixels::Buffer(fb),
                    ) && fb@ == b@.subrange(0, start) + final(s)@ + b@.subrange(end, b@.len() as int))
                    &&& *final(self) == (Image { pixels: final(self).pixels, ..*old(self) })
                },
                _ => r == Err::<&mut [u8], AvifError>(AvifError::NoContent) && *final(self) == *old(self),
            },
    {
        let row_bytes = self.row_bytes;
        match &mut self.pixels {
            Some(pixels) => pixels.slice_mut(row * row_bytes, row_bytes),
            None => Err(AvifError::NoContent),
        }
    }

    /// Row `row` of an image of 16-bit samples, to be written in place: as
    /// `row16`; the rest of the image stays.
    pub fn row16_mut(&mut self, row: u32) -> (r: AvifResult<&mut [u16]>)
        requires
            row * old(self).row_bytes <= u32::MAX,
            old(self).pixels matches Some(Pixels::Buffer16(b)) ==> row * old(self).row_bytes / 2
                + old(self).row_bytes / 2 <= b@.len(),
        ensures
            match old(self).pixels {
                Some(Pixels::Buffer16(b)) => {
                    let start = row * old(self).row_bytes / 2;
                    let end = start + old(self).row_bytes / 2;
                    &&& r matches Ok(s) && s@ == b@.subrange(start, end) && (final(self).pixels matches Some(
                        Pixels::Buffer16(fb),
                    ) && fb@ == b@.subrange(0, start) + final(s)@ + b@.subrange(end, b@.len() as int))
                    &&& *final(self) == (Image { pixels: final(self).pixels, ..*old(self) })
                },
                _ => r == Err::<&mut [u16], AvifError>(AvifError::NoContent) && *final(self) == *old(self),
            },
    {
        let row_bytes = self.row_bytes;
        match &mut self.pixels {
            Some(pixels) => pixels.slice16_mut(row * row_bytes / 2, row_bytes / 2),
            None => Err(AvifError::NoContent),
        }
    }

    /// Row `row`, to be written in place: its 8-bit samples for depth 8, its
    /// 16-bit samples otherwise, as `row_mut` and `row16_mut` give them.
    pub fn rows_mut(&mut self, row: u32) -> (r: AvifResult<(Option<&mut [u8]>, Option<&mut [u16]>)>)
        requires
            row * old(self).row_bytes <= u32::MAX,
            old(self).depth == 8 ==> (old(self).pixels matches Some(Pixels::Buffer(b)) ==> row * old(self).row_bytes
                + old(self).row_bytes <= b@.len()),
            old(self).depth != 8 ==> (old(self).pixels matches Some(Pixels::Buffer16(b)) ==> row * old(
                self,
            ).row_bytes / 2 + old(self).row_bytes / 2 <= b@.len()),
        ensures
            r is Err ==> *final(self) == *old(self),
            *final(self) == (Image { pixels: final(self).pixels, ..*old(self) }),
            old(self).depth == 8 ==> match old(self).pixels {
                Some(Pixels::Buffer(b)) => {
                    let start = row * old(self).row_bytes;
                    let end = start + old(self).row_bytes;
                    r matches Ok((Some(s), None)) && s@ == b@.subrange(start, end) && (final(self).pixels matches Some(
                        Pixels::Buffer(fb),
                    ) && fb@ == b@.subrange(0, start) + final(s)@ + b@.subrange(end, b@.len() as int))
                },
                _ => r == Err::<(Option<&mut [u8]>, Option<&mut [u16]>), AvifError>(AvifError::NoContent),
            },
            old(self).depth != 8 ==> match old(self).pixels {
                Some(Pixels::Buffer16(b)) => {
                    let start = row * old(self).row_bytes / 2;
                    let end = start + old(self).row_bytes / 2;
                    r matches Ok((None, Some(s))) && s@ == b@.subrange(start, end) && (final(self).pixels matches Some(
                        Pixels::Buffer16(fb),
                    ) && fb@ == b@.subrange(0, start) + final(s)@ + b@.subrange(end, b@.len() as int))
                },
                _ => r == Err::<(Option<&mut [u8]>, Option<&mut [u16]>), AvifError>(AvifError::NoContent),
            },
    {
        if self.depth == 8 {
            Ok((Some(self.row_mut(row)?), None))
        } else {
            Ok((None, Some(self.row16_mut(row)?)))
        }
    }

    pub open spec fn spec_has_alpha(&self) -> bool {
        !(self.format == Format::Rgb || self.format == Format::Bgr || self.format == Format::Rgb565)
    }

    pub open spec fn spec_channel_size(&self) -> u32 {
        if self.depth == 8 {
            1
        } else {
            2
        }
    }

    pub open spec fn spec_channel_count(&self) -> u32 {
        if self.spec_has_alpha() {
            4
        } else {
            3
        }
    }

    pub open spec fn spec_pixel_size(&self) -> u32 {
        if self.format == Format::Rgb565 {
            2
        } else {
            (self.spec_channel_count() * self.spec_channel_size()) as u32
        }
    }

    /// Gives the image a zeroed buffer of `height` rows of `width` pixels,
    /// 8-bit samples for depth 8 and 16-bit ones otherwise, with rows of
    /// `width * pixel_size()` bytes.
    pub fn allocate(&mut self) -> (r: AvifResult<()>)
        requires
            old(self).width * old(self).spec_pixel_size() <= u32::MAX,
            old(self).width * old(self).spec_pixel_size() * old(self).height <= u32::MAX,
        ensures
            r is Ok,
            final(self).row_bytes == old(self).width * old(self).spec_pixel_size(),
            old(self).depth == 8 ==> (final(self).pixels matches Some(Pixels::Buffer(b)) && b@
                == Seq::new((final(self).row_bytes * old(self).height) as nat, |i: int| 0u8)),
            old(self).depth != 8 ==> (final(self).pixels matches Some(Pixels::Buffer16(b)) && b@
                == Seq::new(
                ((final(self).row_bytes / 2) * old(self).height) as nat,
                |i: int| 0u16,
            )),
            *final(self) == (Image {
                pixels: final(self).pixels,
                row_bytes: final(self).row_bytes,
                ..*old(self)
            }),
    {
        let pixel_size = self.pixel_size();
        let row_bytes = self.width * pixel_size;
        if self.channel_size() == 1 {
            let buffer_size: usize = usize_from_u32(row_bytes * self.height)?;
            let buffer: Vec<u8> = vec![0; buffer_size];
            assert(buffer@ =~= Seq::new(buffer_size as nat, |i: int| 0u8));
            self.pixels = Some(Pixels::Buffer(buffer));
        } else {
            proof {
                assert((row_bytes / 2) * self.height <= row_bytes * self.height) by (nonlinear_arith)
                    requires
                        row_bytes >= 0,
                        self.height >= 0,
                ;
            }
            let buffer_size: usize = usize_from_u32((row_bytes / 2) * self.height)?;
            let buffer: Vec<u16> = vec![0; buffer_size];
            assert(buffer@ =~= Seq::new(buffer_size as nat, |i: int| 0u16));
            self.pixels = Some(Pixels::Buffer16(buffer));
        }
        self.row_bytes = row_bytes;
        Ok(())
    }

    /// Whether the depth is supported: 8, 10, 12 or 16.
    pub fn depth_valid(&self) -> (r: bool)
        ensures
            r == (self.depth == 8 || self.depth == 10 || self.depth == 12 || self.depth == 16),
    {
        self.depth == 8 || self.depth == 10 || self.depth == 12 || self.depth == 16
    }

    /// Whether the pixels have an alpha channel: all formats but RGB, BGR
    /// and RGB565.
    pub fn has_alpha(&self) -> (r: bool)
        ensures
            r == self.spec_has_alpha(),
    {
        !(self.format == Format::Rgb || self.format == Format::Bgr || self.format == Format::Rgb565)
    }

    /// Bytes per sample: 1 for depth 8, else 2.
    pub fn channel_size(&self) -> (r: u32)
        ensures
            r == self.spec_channel_size(),
    {
        if self.depth == 8 {
            1
        } else {
            2
        }
    }

    /// Channels per pixel: 4 with alpha, else 3.
    pub fn channel_count(&self) -> (r: u32)
        ensures
            r == self.spec_channel_count(),
    {
        if self.has_alpha() {
            4
        } else {
            3
        }
    }

    /// Bytes per pixel: 2 for RGB565, else channels times bytes per sample.
    pub fn pixel_size(&self) -> (r: u32)
        ensures
            r == self.spec_pixel_size(),
            r <= 8,
    {
        if self.format == Format::Rgb565 {
            return 2;
        }
        self.channel_count() * self.channel_size()
    }
}

/// The channel letters of a format's name, in pixel order (`Rgb565` packs its
/// channels into 16 bits and has no byte order).
pub open spec fn channel_letters(f: Format) -> Seq<char> {
    match f {
        Format::Rgb => seq!['r', 'g', 'b'],
        Format::Rgba => seq!['r', 'g', 'b', 'a'],
        Format::Argb => seq!['a', 'r', 'g', 'b'],
        Format::Bgr => seq!['b', 'g', 'r'],
        Format::Bgra => seq!['b', 'g', 'r', 'a'],
        Format::Abgr => seq!['a', 'b', 'g', 'r'],
        Format::Rgb565 => seq![],
    }
}

/// Law: the channel offsets of every byte-ordered format spell its name: the
/// red, green and blue offsets (and the alpha offset of a four-channel
/// format) point at the letters r, g, b (and a) of the name, so no two
/// channels share a position and every offset lies inside the pixel.
pub proof fn law_offsets_spell_format_name(f: Format)
    ensures
        f != Format::Rgb565 ==> {
            let o = f.spec_offsets();
            let n = channel_letters(f);
            &&& o[0] < n.len() && n[o[0] as int] == 'r'
            &&& o[1] < n.len() && n[o[1] as int] == 'g'
            &&& o[2] < n.len() && n[o[2] as int] == 'b'
            &&& n.len() == 4 ==> o[3] < 4 && n[o[3] as int] == 'a'
        },
{
}

} // verus!
