use crabby_avif::decoder::Category;
use crabby_avif::image::{Image, Plane, YuvRange};
use crabby_avif::internal_utils::pixels::Pixels;
use crabby_avif::reformat::rgb;
use crabby_avif::reformat::rgb::{AlphaMultiplyMode, ChromaUpsampling, Format};
use crabby_avif::reformat::rgb_impl::yuv_to_rgb;
use crabby_avif::{AvifError, MatrixCoefficients, PixelFormat};

#[test]
fn plane_sizes() {
    let image = Image::new(5, 3, 8, PixelFormat::Yuv420);
    assert_eq!(image.width(Plane::Y), 5);
    assert_eq!(image.width(Plane::U), 3);
    assert_eq!(image.height(Plane::V), 2);
    assert_eq!(image.height(Plane::A), 3);
    let image = Image::new(5, 3, 8, PixelFormat::Yuv422);
    assert_eq!(image.width(Plane::U), 3);
    assert_eq!(image.height(Plane::U), 3);
    let image = Image::new(5, 3, 8, PixelFormat::Monochrome);
    assert_eq!(image.width(Plane::U), 0);
    assert_eq!(image.height(Plane::V), 0);
}

#[test]
fn max_channel_of_depths() {
    assert_eq!(Image::new(1, 1, 8, PixelFormat::Yuv444).max_channel(), 255);
    assert_eq!(Image::new(1, 1, 10, PixelFormat::Yuv444).max_channel(), 1023);
    assert_eq!(Image::new(1, 1, 12, PixelFormat::Yuv444).max_channel(), 4095);
    assert_eq!(Image::new(1, 1, 16, PixelFormat::Yuv444).max_channel(), 65535);
    assert_eq!(Image::new(1, 1, 9, PixelFormat::Yuv444).max_channel(), 0);
}

#[test]
fn allocated_planes() {
    let mut image = Image::new(3, 3, 8, PixelFormat::Yuv420);
    assert!(!image.has_plane(Plane::Y));
    image.allocate_planes(Category::Color).unwrap();
    image.allocate_planes(Category::Alpha).unwrap();
    assert!(image.has_plane(Plane::Y));
    assert!(image.has_alpha());
    assert_eq!(image.row_bytes, [4, 2, 2, 4]);
    let y = image.plane_data(Plane::Y).unwrap();
    assert_eq!((y.width, y.height, y.row_bytes, y.pixel_size), (3, 3, 4, 1));
    let u = image.plane_data(Plane::U).unwrap();
    assert_eq!((u.width, u.height), (2, 2));
    assert_eq!(image.row(Plane::A, 1).unwrap(), &[255, 255, 255, 255]);
    assert_eq!(image.row_exact(Plane::Y, 2).unwrap(), &[0, 0, 0]);
    assert_eq!(image.row16(Plane::Y, 0).err(), Some(AvifError::NoContent));
    let mut deep = Image::new(2, 2, 10, PixelFormat::Yuv444);
    deep.allocate_planes(Category::Alpha).unwrap();
    assert_eq!(deep.row16(Plane::A, 1).unwrap(), &[1023, 1023]);
    assert_eq!(deep.row16_exact(Plane::A, 0).unwrap(), &[1023, 1023]);
    assert_eq!(deep.row(Plane::Y, 0).err(), Some(AvifError::NoContent));
}

#[test]
fn same_properties() {
    let a = Image::new(4, 4, 8, PixelFormat::Yuv420);
    let mut b = Image::new(4, 4, 8, PixelFormat::Yuv420);
    assert!(a.has_same_properties_and_cicp(&b));
    b.yuv_range = YuvRange::Limited;
    assert!(!a.has_same_properties_and_cicp(&b));
}

#[test]
fn pixel_buffers() {
    let mut p = Pixels::Buffer(vec![1, 2]);
    assert_eq!(p.size(), 2);
    assert!(p.has_data());
    assert!(!p.is_pointer());
    p.resize(4, 0x1ff).unwrap();
    assert_eq!(p.slice(0, 4).unwrap(), &[1, 2, 0xff, 0xff]);
    assert_eq!(p.slice16(0, 1).err(), Some(AvifError::NoContent));
    let mut q = Pixels::Buffer16(Vec::new());
    assert!(!q.has_data());
    q.resize(2, 7).unwrap();
    assert_eq!(q.slice16(1, 1).unwrap(), &[7]);
}

#[test]
fn rgb_layouts() {
    assert_eq!(Format::Rgba.offsets(), [0, 1, 2, 3]);
    assert_eq!(Format::Argb.r_offset(), 1);
    assert_eq!(Format::Bgra.b_offset(), 0);
    assert_eq!(Format::Abgr.alpha_offset(), 0);
    assert_eq!(Format::Bgr.g_offset(), 1);
    assert!(!ChromaUpsampling::Bilinear.nearest_neighbor_filter_allowed());
    assert!(ChromaUpsampling::Fastest.nearest_neighbor_filter_allowed());
    assert_eq!(AlphaMultiplyMode::default(), AlphaMultiplyMode::NoOp);
}

#[test]
fn rgb_image_buffers() {
    let yuv = Image::new(3, 2, 10, PixelFormat::Yuv444);
    let mut rgb_image = rgb::Image::create_from_yuv(&yuv);
    assert_eq!(rgb_image.format, Format::Rgba);
    assert_eq!(rgb_image.depth, 10);
    assert!(rgb_image.has_alpha());
    assert_eq!(rgb_image.channel_size(), 2);
    assert_eq!(rgb_image.channel_count(), 4);
    assert_eq!(rgb_image.pixel_size(), 8);
    assert_eq!(rgb_image.max_channel(), 1023);
    assert!(rgb_image.depth_valid());
    rgb_image.allocate().unwrap();
    assert_eq!(rgb_image.row_bytes, 24);
    assert_eq!(rgb_image.row16(1).unwrap().len(), 12);
    assert_eq!(rgb_image.row(0).err(), Some(AvifError::NoContent));
    rgb_image.format = Format::Rgb565;
    assert_eq!(rgb_image.pixel_size(), 2);
    rgb_image.format = Format::Bgr;
    rgb_image.depth = 8;
    assert_eq!(rgb_image.pixel_size(), 3);
    rgb_image.allocate().unwrap();
    assert_eq!(rgb_image.row(1).unwrap(), &[0u8; 9]);
}

#[test]
fn fill_plane() {
    // 3 x 3 alpha plane in rows of 4 samples: the padding sample stays.
    let mut image = Image::new(3, 3, 8, PixelFormat::Yuv444);
    image.allocate_planes(Category::Alpha).unwrap();
    assert_eq!(image.fill_plane_with_value(Plane::A, 0x1280), Ok(()));
    assert_eq!(image.row_exact(Plane::A, 1).unwrap(), &[0x80u8, 0x80, 0x80][..]);
    assert_eq!(image.row(Plane::A, 2).unwrap(), &[0x80u8, 0x80, 0x80, 255][..]);
    // A plane without samples is left alone.
    assert_eq!(image.fill_plane_with_value(Plane::Y, 7), Ok(()));
    assert!(!image.has_plane(Plane::Y));
    // 16-bit samples take the whole value.
    let mut image = Image::new(2, 2, 10, PixelFormat::Yuv444);
    image.allocate_planes(Category::Color).unwrap();
    assert_eq!(image.fill_plane_with_value(Plane::U, 0x1280), Ok(()));
    assert_eq!(image.row16_exact(Plane::U, 1).unwrap(), &[0x1280u16, 0x1280][..]);
}

#[test]
fn opaque_alpha() {
    let mut image = Image::new(3, 2, 10, PixelFormat::Yuv444);
    assert!(image.is_opaque());
    image.allocate_planes(Category::Alpha).unwrap();
    assert!(image.is_opaque());
    assert_eq!(image.fill_plane_with_value(Plane::A, 1000), Ok(()));
    assert!(!image.is_opaque());
    assert_eq!(image.fill_plane_with_value(Plane::A, 1023), Ok(()));
    assert!(image.is_opaque());
}

#[test]
fn alpha_to_full_range() {
    let mut image = Image::new(2, 1, 8, PixelFormat::Yuv444);
    // Without an alpha plane nothing happens.
    assert_eq!(image.alpha_to_full_range(), Ok(()));
    image.allocate_planes(Category::Alpha).unwrap();
    assert_eq!(image.fill_plane_with_value(Plane::A, 235), Ok(()));
    assert_eq!(image.alpha_to_full_range(), Ok(()));
    assert_eq!(image.row_exact(Plane::A, 0).unwrap(), &[255u8, 255][..]);
    assert_eq!(image.fill_plane_with_value(Plane::A, 16), Ok(()));
    assert_eq!(image.alpha_to_full_range(), Ok(()));
    assert_eq!(image.row_exact(Plane::A, 0).unwrap(), &[0u8, 0][..]);
    let mut image = Image::new(1, 1, 10, PixelFormat::Yuv444);
    image.allocate_planes(Category::Alpha).unwrap();
    assert_eq!(image.fill_plane_with_value(Plane::A, 502), Ok(()));
    assert_eq!(image.alpha_to_full_range(), Ok(()));
    assert_eq!(image.row16_exact(Plane::A, 0).unwrap(), &[512u16][..]);
    // An alpha plane without samples cannot be converted.
    let mut image = Image::new(1, 1, 8, PixelFormat::Yuv444);
    image.planes[3] = Some(Pixels::Buffer(Vec::new()));
    assert_eq!(image.alpha_to_full_range(), Err(AvifError::NoContent));
}

#[test]
fn clones_and_copies() {
    let mut image = Image::new(2, 2, 8, PixelFormat::Yuv420);
    image.exif = vec![1, 2, 3];
    image.allocate_planes(Category::Color).unwrap();
    let clone = image.shallow_clone();
    assert_eq!(clone.width, 2);
    assert_eq!(clone.exif, vec![1, 2, 3]);
    assert!(clone.planes.iter().all(|p| p.is_none()));
    assert_eq!(clone.row_bytes, [0, 0, 0, 0]);
    let mut copy = Image::new(2, 2, 8, PixelFormat::Yuv420);
    assert_eq!(copy.steal_or_copy_planes_from(&image, Category::Color), Ok(()));
    assert_eq!(copy.row_bytes, [2, 2, 2, 0]);
    assert_eq!(copy.row(Plane::Y, 1).unwrap(), image.row(Plane::Y, 1).unwrap());
    assert_eq!(copy.plane_row_bytes(), Ok([2, 2, 2, 0]));
    copy.clear_chroma_planes();
    assert!(copy.planes[1].is_none() && copy.planes[2].is_none());
    assert!(copy.has_plane(Plane::Y));
    assert_eq!(copy.plane_row_bytes(), Ok([2, 0, 0, 0]));
    copy.free_planes(&[Plane::Y]);
    assert!(!copy.has_plane(Plane::Y));
}

#[test]
fn set_opaque_alpha() {
    let mut image = Image::new(2, 2, 12, PixelFormat::Yuv444);
    // Without alpha samples nothing changes.
    assert_eq!(image.set_opaque(), Ok(()));
    image.allocate_planes(Category::Alpha).unwrap();
    assert_eq!(image.fill_plane_with_value(Plane::A, 7), Ok(()));
    assert!(!image.is_opaque());
    assert_eq!(image.set_opaque(), Ok(()));
    assert!(image.is_opaque());
    assert_eq!(image.row16_exact(Plane::A, 1).unwrap(), &[4095u16, 4095][..]);
}

#[test]
fn rgb_set_opaque() {
    let yuv = Image::new(2, 2, 10, PixelFormat::Yuv444);
    let mut rgb_image = rgb::Image::create_from_yuv(&yuv);
    // Rows without pixels.
    assert_eq!(rgb_image.set_opaque(), Err(AvifError::NoContent));
    rgb_image.allocate().unwrap();
    assert_eq!(rgb_image.set_opaque(), Ok(()));
    assert_eq!(rgb_image.row16(1).unwrap(), &[0u16, 0, 0, 1023, 0, 0, 0, 1023][..]);
    rgb_image.format = Format::Argb;
    rgb_image.depth = 8;
    rgb_image.allocate().unwrap();
    assert_eq!(rgb_image.set_opaque(), Ok(()));
    assert_eq!(rgb_image.row(0).unwrap(), &[255u8, 0, 0, 0, 255, 0, 0, 0][..]);
    // A format without alpha is left alone.
    rgb_image.format = Format::Bgr;
    rgb_image.allocate().unwrap();
    assert_eq!(rgb_image.set_opaque(), Ok(()));
    assert_eq!(rgb_image.row(1).unwrap(), &[0u8; 6][..]);
}

#[test]
fn import_alpha_between_rgb_and_yuv() {
    let mut yuv = Image::new(2, 2, 8, PixelFormat::Yuv444);
    yuv.allocate_planes(Category::Alpha).unwrap();
    yuv.fill_plane_with_value(Plane::A, 9).unwrap();
    let mut rgb_image = rgb::Image::create_from_yuv(&yuv);
    rgb_image.allocate().unwrap();
    assert_eq!(rgb_image.import_alpha_from(&yuv), Ok(()));
    assert_eq!(rgb_image.row(1).unwrap(), &[0u8, 0, 0, 9, 0, 0, 0, 9][..]);
    rgb_image.set_opaque().unwrap();
    assert_eq!(yuv.import_alpha_from(&rgb_image), Ok(()));
    assert_eq!(yuv.row_exact(Plane::A, 0).unwrap(), &[255u8, 255][..]);
    assert!(yuv.is_opaque());
    // Different depths rescale in floating point, which is left to the caller.
    rgb_image.depth = 10;
    assert_eq!(rgb_image.import_alpha_from(&yuv), Err(AvifError::NotImplemented));
    assert_eq!(yuv.import_alpha_from(&rgb_image), Err(AvifError::NotImplemented));
    // Sizes must agree.
    rgb_image.depth = 8;
    rgb_image.width = 3;
    assert_eq!(rgb_image.import_alpha_from(&yuv), Err(AvifError::InvalidArgument));
    assert_eq!(yuv.import_alpha_from(&rgb_image), Err(AvifError::InvalidArgument));
    // Both need alpha.
    rgb_image.width = 2;
    let plain = Image::new(2, 2, 8, PixelFormat::Yuv444);
    assert_eq!(rgb_image.import_alpha_from(&plain), Err(AvifError::InvalidArgument));
    // A 16-bit alpha plane under a depth of 8 has no samples of the kind asked.
    let mut wide = Image::new(2, 2, 10, PixelFormat::Yuv444);
    wide.allocate_planes(Category::Alpha).unwrap();
    wide.depth = 8;
    assert_eq!(rgb_image.import_alpha_from(&wide), Err(AvifError::NoContent));
}

fn rgba8(format: Format, width: u32, samples: Vec<u8>) -> rgb::Image {
    let yuv = Image::new(width, 1, 8, PixelFormat::Yuv444);
    let mut rgb_image = rgb::Image::create_from_yuv(&yuv);
    rgb_image.format = format;
    rgb_image.allocate().unwrap();
    rgb_image.pixels = Some(Pixels::Buffer(samples));
    rgb_image
}

#[test]
fn premultiply_and_unpremultiply_alpha() {
    let mut rgb_image = rgba8(Format::Rgba, 3, vec![200, 100, 50, 128, 10, 20, 30, 0, 7, 8, 9, 255]);
    assert_eq!(rgb_image.premultiply_alpha(), Ok(()));
    assert_eq!(rgb_image.row(0).unwrap(), &[100u8, 50, 25, 128, 0, 0, 0, 0, 7, 8, 9, 255][..]);
    assert_eq!(rgb_image.unpremultiply_alpha(), Ok(()));
    assert_eq!(rgb_image.row(0).unwrap(), &[199u8, 99, 49, 128, 0, 0, 0, 0, 7, 8, 9, 255][..]);
    // Alpha first.
    let mut rgb_image = rgba8(Format::Argb, 1, vec![64, 255, 128, 2]);
    assert_eq!(rgb_image.unpremultiply_alpha(), Ok(()));
    assert_eq!(rgb_image.row(0).unwrap(), &[64u8, 255, 255, 7][..]);
    assert_eq!(rgb_image.premultiply_alpha(), Ok(()));
    assert_eq!(rgb_image.row(0).unwrap(), &[64u8, 64, 64, 1][..]);
}

#[test]
fn alpha_weighing_errors() {
    let mut rgb_image = rgba8(Format::Rgba, 1, vec![1, 2, 3, 4]);
    rgb_image.pixels = None;
    assert_eq!(rgb_image.premultiply_alpha(), Err(AvifError::ReformatFailed));
    let mut rgb_image = rgba8(Format::Rgb, 1, vec![1, 2, 3]);
    assert_eq!(rgb_image.unpremultiply_alpha(), Err(AvifError::InvalidArgument));
    let mut rgb_image = rgba8(Format::Rgba, 1, vec![1, 2, 3, 4]);
    rgb_image.depth = 10;
    assert_eq!(rgb_image.premultiply_alpha(), Err(AvifError::NotImplemented));
    rgb_image.depth = 8;
    rgb_image.pixels = Some(Pixels::Buffer16(vec![1, 2, 3, 4]));
    assert_eq!(rgb_image.premultiply_alpha(), Err(AvifError::NoContent));
    rgb_image.row_bytes = 0;
    assert_eq!(rgb_image.premultiply_alpha(), Err(AvifError::ReformatFailed));
}

#[test]
fn alpha_weighing_matches_floating_point() {
    // On 8-bit samples, rounding down the single-precision quotient gives the
    // integer quotient, for every colour and alpha.
    let mut samples = Vec::new();
    for a in 0..=255u8 {
        for p in 0..=255u8 {
            samples.extend_from_slice(&[p, p, p, a]);
        }
    }
    let width = samples.len() as u32 / 4;
    let mut premultiplied = rgba8(Format::Rgba, width, samples.clone());
    premultiplied.premultiply_alpha().unwrap();
    let mut unpremultiplied = rgba8(Format::Rgba, width, samples);
    unpremultiplied.unpremultiply_alpha().unwrap();
    let pre = premultiplied.row(0).unwrap();
    let unpre = unpremultiplied.row(0).unwrap();
    for a in 0..=255u32 {
        for p in 0..=255u32 {
            let i = ((a * 256 + p) * 4) as usize;
            let expected_pre = match a {
                0 => 0,
                255 => p as u8,
                _ => ((p as f32) * (a as f32) / 255.0).floor() as u8,
            };
            let expected_unpre = match a {
                0 => 0,
                255 => p as u8,
                _ => ((p as f32) * 255.0 / (a as f32)).floor().min(255.0) as u8,
            };
            assert_eq!(pre[i], expected_pre);
            assert_eq!(unpre[i], expected_unpre);
        }
    }
}

#[test]
fn rows_written_in_place() {
    // 3 x 2 alpha plane in rows of 4 samples.
    let mut image = Image::new(3, 2, 8, PixelFormat::Yuv444);
    image.allocate_planes(Category::Alpha).unwrap();
    image.row_mut(Plane::A, 1).unwrap().copy_from_slice(&[1, 2, 3, 4]);
    image.row_exact_mut(Plane::A, 0).unwrap()[2] = 7;
    assert_eq!(image.row(Plane::A, 0).unwrap(), &[255u8, 255, 7, 255][..]);
    assert_eq!(image.row_exact(Plane::A, 1).unwrap(), &[1u8, 2, 3][..]);
    assert_eq!(image.row16_mut(Plane::A, 0).err(), Some(AvifError::NoContent));
    assert_eq!(image.row_mut(Plane::Y, 0).err(), Some(AvifError::NoContent));
    let mut image = Image::new(2, 2, 10, PixelFormat::Yuv444);
    image.allocate_planes(Category::Color).unwrap();
    image.row16_exact_mut(Plane::V, 1).unwrap()[1] = 1000;
    image.row16_mut(Plane::V, 0).unwrap()[0] = 3;
    assert_eq!(image.row16(Plane::V, 0).unwrap(), &[3u16, 0][..]);
    assert_eq!(image.row16_exact(Plane::V, 1).unwrap(), &[0u16, 1000][..]);
    assert_eq!(image.row_exact_mut(Plane::V, 0).err(), Some(AvifError::NoContent));

    let yuv = Image::new(2, 2, 8, PixelFormat::Yuv444);
    let mut rgb_image = rgb::Image::create_from_yuv(&yuv);
    assert_eq!(rgb_image.row_mut(0).err(), Some(AvifError::NoContent));
    rgb_image.allocate().unwrap();
    rgb_image.row_mut(1).unwrap()[7] = 9;
    match rgb_image.rows_mut(0).unwrap() {
        (Some(row), None) => row[0] = 5,
        _ => panic!("8-bit rows expected"),
    }
    assert_eq!(rgb_image.row(0).unwrap(), &[5u8, 0, 0, 0, 0, 0, 0, 0][..]);
    assert_eq!(rgb_image.row(1).unwrap(), &[0u8, 0, 0, 0, 0, 0, 0, 9][..]);
    assert_eq!(rgb_image.row16_mut(0).err(), Some(AvifError::NoContent));
    rgb_image.depth = 10;
    rgb_image.allocate().unwrap();
    match rgb_image.rows_mut(1).unwrap() {
        (None, Some(row)) => row[3] = 1023,
        _ => panic!("16-bit rows expected"),
    }
    assert_eq!(rgb_image.row16(1).unwrap(), &[0u16, 0, 0, 1023, 0, 0, 0, 0][..]);
}

#[test]
fn pixel_slices() {
    let mut pixels = Pixels::Buffer16(vec![1, 2, 3, 4, 5]);
    assert_eq!(pixels.slices(1, 4).unwrap(), (None, Some(&[2u16, 3][..])));
    match pixels.slices_mut(3, 4).unwrap() {
        (None, Some(s)) => s[1] = 9,
        _ => panic!("16-bit samples expected"),
    }
    assert_eq!(pixels.slice16(0, 5).unwrap(), &[1u16, 2, 3, 4, 9][..]);
    assert_eq!(pixels.slice_mut(0, 1).err(), Some(AvifError::NoContent));
    let mut pixels = Pixels::Buffer(vec![1, 2, 3]);
    assert_eq!(pixels.slices(1, 2).unwrap(), (Some(&[2u8, 3][..]), None));
    pixels.slice_mut(0, 2).unwrap()[1] = 8;
    assert_eq!(pixels.slice(0, 3).unwrap(), &[1u8, 8, 3][..]);
    assert_eq!(pixels.slice16_mut(0, 1).err(), Some(AvifError::NoContent));
}

#[test]
fn copy_and_pad_rows() {
    let mut small = Image::new(3, 2, 8, PixelFormat::Yuv444);
    small.allocate_planes(Category::Color).unwrap();
    small.allocate_planes(Category::Alpha).unwrap();
    small.row_exact_mut(Plane::Y, 0).unwrap().copy_from_slice(&[1, 2, 3]);
    small.row_exact_mut(Plane::Y, 1).unwrap().copy_from_slice(&[4, 5, 6]);
    small.row_exact_mut(Plane::A, 1).unwrap().copy_from_slice(&[7, 8, 9]);
    let mut large = Image::new(5, 3, 8, PixelFormat::Yuv444);
    assert_eq!(large.copy_and_pad(&small), Ok(()));
    // Rows of 6 samples: the plane width rounded up to even.
    assert_eq!(large.row(Plane::Y, 0).unwrap(), &[1u8, 2, 3, 3, 3, 3][..]);
    assert_eq!(large.row(Plane::Y, 1).unwrap(), &[4u8, 5, 6, 6, 6, 6][..]);
    assert_eq!(large.row(Plane::Y, 2).unwrap(), &[0u8; 6][..]);
    assert_eq!(large.row(Plane::A, 0).unwrap(), &[255u8; 6][..]);
    assert_eq!(large.row(Plane::A, 1).unwrap(), &[7u8, 8, 9, 9, 9, 9][..]);
    assert_eq!(large.row(Plane::A, 3).unwrap(), &[255u8; 6][..]);
    // The source must fit.
    let mut tiny = Image::new(2, 2, 8, PixelFormat::Yuv444);
    assert_eq!(tiny.copy_and_pad(&small), Err(AvifError::InvalidArgument));
    // Samples of another width than the depth asks.
    let mut wide = Image::new(4, 4, 10, PixelFormat::Yuv444);
    assert_eq!(wide.copy_and_pad(&small), Err(AvifError::NoContent));
}

#[test]
fn alpha_round_trip() {
    let mut yuv = Image::new(3, 2, 10, PixelFormat::Yuv444);
    yuv.allocate_planes(Category::Alpha).unwrap();
    yuv.row16_exact_mut(Plane::A, 0).unwrap().copy_from_slice(&[1, 2, 3]);
    yuv.row16_exact_mut(Plane::A, 1).unwrap().copy_from_slice(&[700, 800, 900]);
    let before: Vec<u16> = yuv.row16(Plane::A, 0).unwrap().iter().chain(yuv.row16(Plane::A, 1).unwrap()).copied().collect();
    let mut rgb_image = rgb::Image::create_from_yuv(&yuv);
    rgb_image.format = Format::Bgra;
    rgb_image.allocate().unwrap();
    assert_eq!(rgb_image.import_alpha_from(&yuv), Ok(()));
    assert_eq!(rgb_image.row16(1).unwrap(), &[0u16, 0, 0, 700, 0, 0, 0, 800, 0, 0, 0, 900][..]);
    assert_eq!(yuv.import_alpha_from(&rgb_image), Ok(()));
    let after: Vec<u16> = yuv.row16(Plane::A, 0).unwrap().iter().chain(yuv.row16(Plane::A, 1).unwrap()).copied().collect();
    assert_eq!(before, after);
}

#[test]
fn identity_yuv_to_rgb() {
    let mut yuv = Image::new(2, 1, 8, PixelFormat::Yuv444);
    yuv.yuv_range = YuvRange::Full;
    yuv.matrix_coefficients = MatrixCoefficients::Identity;
    yuv.allocate_planes(Category::Color).unwrap();
    yuv.row_exact_mut(Plane::Y, 0).unwrap().copy_from_slice(&[1, 2]);
    yuv.row_exact_mut(Plane::U, 0).unwrap().copy_from_slice(&[3, 4]);
    yuv.row_exact_mut(Plane::V, 0).unwrap().copy_from_slice(&[5, 6]);
    let mut rgb_image = rgb::Image::create_from_yuv(&yuv);
    rgb_image.allocate().unwrap();
    assert_eq!(yuv_to_rgb(&yuv, &mut rgb_image), Ok(()));
    assert_eq!(rgb_image.row(0).unwrap(), &[5u8, 1, 3, 0, 6, 2, 4, 0][..]);
    // Three-channel pixels in another order.
    rgb_image.format = Format::Bgr;
    rgb_image.allocate().unwrap();
    assert_eq!(yuv_to_rgb(&yuv, &mut rgb_image), Ok(()));
    assert_eq!(rgb_image.row(0).unwrap(), &[3u8, 1, 5, 4, 2, 6][..]);
    // Other coefficients take floating point.
    yuv.matrix_coefficients = MatrixCoefficients::Bt601;
    assert_eq!(yuv_to_rgb(&yuv, &mut rgb_image), Err(AvifError::NotImplemented));
    // Unsupported coefficients and depths.
    yuv.matrix_coefficients = MatrixCoefficients::Ictcp;
    assert_eq!(yuv_to_rgb(&yuv, &mut rgb_image), Err(AvifError::ReformatFailed));
    yuv.matrix_coefficients = MatrixCoefficients::Identity;
    rgb_image.depth = 9;
    assert_eq!(yuv_to_rgb(&yuv, &mut rgb_image), Err(AvifError::ReformatFailed));
    // Pixels missing.
    rgb_image.depth = 8;
    rgb_image.pixels = None;
    assert_eq!(yuv_to_rgb(&yuv, &mut rgb_image), Err(AvifError::NoContent));
}
