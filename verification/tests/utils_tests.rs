use crabby_avif::internal_utils::{
    check_limits, clamp_i32, clamp_u16, create_vec_exact, find_av1C, find_icc, find_nclx,
    i32_from_u32, limited_to_full_y, u32_from_i32, u32_from_u64, usize_from_u64, IFraction,
};
use crabby_avif::parser::mp4box::{
    CodecConfiguration, ColorInformation, Icc, ImageSpatialExtents, ItemProperty, Nclx,
};
use crabby_avif::{AvifError, ChromaSamplePosition};

#[test]
fn fraction_simplified() {
    assert_eq!(IFraction::simplified(6, -4), IFraction(3, -2));
    assert_eq!(IFraction::simplified(0, 5), IFraction(0, 1));
    let mut f = IFraction(10, 15);
    f.simplify();
    assert_eq!(f, IFraction(2, 3));
}

#[test]
fn fraction_quotients() {
    assert_eq!(IFraction(7, 2).get_i32(), 3);
    assert_eq!(IFraction(-7, 2).get_i32(), -3);
    assert_eq!(IFraction(7, 2).get_u32(), Ok(3));
    assert_eq!(IFraction(-7, 2).get_u32(), Err(AvifError::BmffParseFailed));
    assert!(IFraction(6, 3).is_integer());
    assert!(!IFraction(7, 3).is_integer());
}

#[test]
fn fraction_add_and_sub() {
    let mut f = IFraction(1, 2);
    f.add(&IFraction(1, 3)).unwrap();
    assert_eq!(f, IFraction(5, 6));
    f.sub(&IFraction(1, 6)).unwrap();
    assert_eq!(f, IFraction(2, 3));
    let mut big = IFraction(i32::MAX, 1);
    assert_eq!(big.add(&IFraction(1, 1)), Err(AvifError::UnknownError));
}

#[test]
fn conversions() {
    assert_eq!(u32_from_u64(5), Ok(5));
    assert_eq!(u32_from_u64(1 << 40), Err(AvifError::BmffParseFailed));
    assert_eq!(u32_from_i32(-1), Err(AvifError::BmffParseFailed));
    assert_eq!(i32_from_u32(u32::MAX), Err(AvifError::BmffParseFailed));
    assert_eq!(usize_from_u64(7), Ok(7));
    assert_eq!(clamp_u16(70, 10, 60), 60);
    assert_eq!(clamp_i32(-5, 0, 10), 0);
}

#[test]
fn limits() {
    assert!(check_limits(100, 100, 10000, 0));
    assert!(!check_limits(100, 101, 10000, 0));
    assert!(!check_limits(100, 0, 10000, 0));
    assert!(!check_limits(200, 10, 10000, 100));
}

#[test]
fn limited_range_to_full() {
    assert_eq!(limited_to_full_y(8, 16), 0);
    assert_eq!(limited_to_full_y(8, 235), 255);
    assert_eq!(limited_to_full_y(8, 126), 128);
    assert_eq!(limited_to_full_y(8, 0), 0);
    assert_eq!(limited_to_full_y(8, 255), 255);
    assert_eq!(limited_to_full_y(10, 64), 0);
    assert_eq!(limited_to_full_y(16, 100), 0);
}

#[test]
fn vec_with_room() {
    let v: Vec<u8> = create_vec_exact(16).unwrap();
    assert!(v.is_empty());
}

fn nclx(p: u16) -> ItemProperty {
    ItemProperty::ColorInformation(ColorInformation::Nclx(Nclx {
        color_primaries: p,
        transfer_characteristics: 2,
        matrix_coefficients: 2,
        full_range: true,
    }))
}

#[test]
fn find_color_properties() {
    let props = vec![
        ItemProperty::ImageSpatialExtents(ImageSpatialExtents { width: 1, height: 1 }),
        nclx(1),
        ItemProperty::ColorInformation(ColorInformation::Icc(Icc { offset: 4, size: 9 })),
    ];
    assert_eq!(find_nclx(&props).unwrap().color_primaries, 1);
    let icc = find_icc(&props).unwrap();
    assert_eq!((icc.offset, icc.size), (4, 9));
    let two = vec![nclx(1), nclx(9)];
    assert!(matches!(find_nclx(&two), Err(true)));
    assert!(matches!(find_icc(&two), Err(false)));
    assert!(find_av1C(&two).is_none());
    let av1c = CodecConfiguration {
        seq_profile: 1,
        seq_level_idx0: 0,
        seq_tier0: 0,
        high_bitdepth: true,
        twelve_bit: false,
        monochrome: false,
        chroma_subsampling_x: 0,
        chroma_subsampling_y: 0,
        chroma_sample_position: ChromaSamplePosition::Unknown,
    };
    let with = vec![nclx(1), ItemProperty::CodecConfiguration(av1c)];
    assert_eq!(find_av1C(&with).unwrap().depth(), 10);
}
