use crabby_avif::parser::exif;
use crabby_avif::parser::obu::Av1SequenceHeader;
use crabby_avif::stream::IStream;
use crabby_avif::{AvifError, PixelFormat};

fn bits(s: &str) -> Vec<u8> {
    let b: Vec<u8> = s.bytes().filter(|c| *c == b'0' || *c == b'1').map(|c| c - b'0').collect();
    b.chunks(8)
        .map(|c| {
            let mut v = 0u8;
            for (i, bit) in c.iter().enumerate() {
                v |= bit << (7 - i);
            }
            v
        })
        .collect()
}

fn sequence_header_obu() -> Vec<u8> {
    let payload = bits(
        "000 1 1 00001 0111 0111 00111111 00101111 000 000 0 0 0 1 00 0 0",
    );
    let mut obu = vec![0x0a, payload.len() as u8];
    obu.extend(payload);
    obu
}

#[test]
fn sequence_header() {
    let data = sequence_header_obu();
    let seq = Av1SequenceHeader::parse_from_obus(&data).unwrap();
    assert_eq!((seq.max_width, seq.max_height), (64, 48));
    assert_eq!(seq.bit_depth, 8);
    assert_eq!(seq.yuv_format, PixelFormat::Yuv420);
    assert!(seq.full_range);
    assert_eq!(seq.color_primaries, 2);
    assert!(seq.reduced_still_picture_header);
}

#[test]
fn sequence_header_after_other_obus() {
    // A temporal delimiter OBU (type 2, empty) comes first.
    let mut data = vec![0x12, 0x00];
    data.extend(sequence_header_obu());
    let seq = Av1SequenceHeader::parse_from_obus(&data).unwrap();
    assert_eq!(seq.max_width, 64);
    assert_eq!(
        Av1SequenceHeader::parse_from_obus(&[0x12, 0x00]).err().unwrap(),
        AvifError::BmffParseFailed
    );
}

fn tiff_with_orientation(value: u16) -> Vec<u8> {
    let mut t = b"MM\0*".to_vec();
    t.extend_from_slice(&8u32.to_be_bytes());
    t.extend_from_slice(&1u16.to_be_bytes());
    t.extend_from_slice(&0x0112u16.to_be_bytes());
    t.extend_from_slice(&3u16.to_be_bytes());
    t.extend_from_slice(&1u32.to_be_bytes());
    t.extend_from_slice(&value.to_be_bytes());
    t.extend_from_slice(&[0, 0]);
    t
}

#[test]
fn exif_payload() {
    let mut data = 2u32.to_be_bytes().to_vec();
    data.extend_from_slice(&[9, 9]);
    data.extend(tiff_with_orientation(6));
    let mut stream = IStream::create(&data);
    exif::parse(&mut stream).unwrap();
    assert_eq!(stream.offset, 4);
    let mut wrong = 1u32.to_be_bytes().to_vec();
    wrong.extend_from_slice(&[9, 9]);
    wrong.extend(tiff_with_orientation(6));
    let mut stream = IStream::create(&wrong);
    assert_eq!(exif::parse(&mut stream), Err(AvifError::InvalidExifPayload));
    let mut stream = IStream::create(&[0, 0, 0, 0, 1, 2, 3]);
    assert_eq!(exif::parse(&mut stream), Err(AvifError::InvalidExifPayload));
}

#[test]
fn exif_header_offset() {
    let mut data = vec![1u8, 2, 3];
    data.extend(tiff_with_orientation(1));
    let mut stream = IStream::create(&data);
    assert_eq!(exif::parse_exif_tiff_header_offset(&mut stream), Ok(3));
    assert_eq!(stream.offset, 3);
}

#[test]
fn exif_orientation() {
    let mut exif_data = vec![7u8, 7];
    exif_data.extend(tiff_with_orientation(6));
    assert_eq!(exif::get_orientation_offset(&exif_data), Ok(Some(21)));
    assert_eq!(exif::get_orientation(&exif_data), (Some(3), None));
    exif::set_orientation(&mut exif_data, 1).unwrap();
    assert_eq!(exif_data[21], 1);
    assert_eq!(exif::get_orientation(&exif_data), (None, None));
    let mut no_tag = b"II*\0".to_vec();
    no_tag.extend_from_slice(&8u32.to_le_bytes());
    no_tag.extend_from_slice(&0u16.to_le_bytes());
    assert_eq!(exif::get_orientation_offset(&no_tag), Ok(None));
    assert_eq!(exif::set_orientation(&mut no_tag, 1), Ok(()));
    assert_eq!(exif::set_orientation(&mut no_tag, 2), Err(AvifError::NotImplemented));
    assert_eq!(exif::get_orientation_offset(&[1, 2]), Err(AvifError::InvalidExifPayload));
}

#[test]
fn orientation_read_after_write() {
    // Every orientation from 1 to 8 written is read back.
    for value in 1u8..=8 {
        let mut exif_data = vec![7u8, 7];
        exif_data.extend(tiff_with_orientation(6));
        exif::set_orientation(&mut exif_data, value).unwrap();
        assert_eq!(exif::get_orientation_offset(&exif_data), Ok(Some(21)));
        assert_eq!(exif_data[21], value);
    }
    let mut exif_data = vec![7u8, 7];
    exif_data.extend(tiff_with_orientation(1));
    exif::set_orientation(&mut exif_data, 8).unwrap();
    assert_eq!(exif::get_orientation(&exif_data), (Some(1), None));
    exif::set_orientation(&mut exif_data, 5).unwrap();
    assert_eq!(exif::get_orientation(&exif_data), (Some(1), Some(0)));
}

fn obu_of(payload_bits: &str) -> Vec<u8> {
    let payload = bits(payload_bits);
    let mut obu = vec![0x0a, payload.len() as u8];
    obu.extend(payload);
    obu
}

const DIMS: &str = "0111 0111 00111111 00101111";

#[test]
fn sequence_header_srgb_identity() {
    let data = obu_of(&format!(
        "000 1 1 00101 {DIMS} 000 000 0 0 1 00000001 00001101 00000000 0"
    ));
    let seq = Av1SequenceHeader::parse_from_obus(&data).unwrap();
    assert_eq!(seq.config.seq_profile, 0);
    assert_eq!(seq.config.seq_level_idx0, 5);
    assert!(seq.reduced_still_picture_header);
    assert_eq!((seq.color_primaries, seq.transfer_characteristics, seq.matrix_coefficients), (1, 13, 0));
    assert!(seq.full_range);
    assert_eq!(seq.yuv_format, PixelFormat::Yuv444);
    assert_eq!(seq.bit_depth, 8);
}

#[test]
fn sequence_header_refusals() {
    // Profile 7.
    let data = obu_of(&format!("111 1 1 00101 {DIMS} 000 000 0 0 0 0 0 0"));
    assert_eq!(Av1SequenceHeader::parse_from_obus(&data).err(), Some(AvifError::BmffParseFailed));
    // A reduced header that is not a still picture.
    let data = obu_of(&format!("000 0 1 00101 {DIMS} 000 000 0 0 0 0 0 0"));
    assert_eq!(Av1SequenceHeader::parse_from_obus(&data).err(), Some(AvifError::BmffParseFailed));
    // The payload ends inside the colour configuration.
    let data = obu_of(&format!("000 1 1 00101 {DIMS} 000 000 0 0 1 0000"));
    assert_eq!(Av1SequenceHeader::parse_from_obus(&data).err(), Some(AvifError::BmffParseFailed));
}

#[test]
fn sequence_header_twelve_bit_422() {
    let data = obu_of(&format!("010 1 1 00000 {DIMS} 000 000 1 1 0 0 0 1 0 0"));
    let seq = Av1SequenceHeader::parse_from_obus(&data).unwrap();
    assert_eq!(seq.config.seq_profile, 2);
    assert_eq!(seq.bit_depth, 12);
    assert!(seq.config.twelve_bit);
    assert_eq!(seq.yuv_format, PixelFormat::Yuv422);
    assert_eq!((seq.config.chroma_subsampling_x, seq.config.chroma_subsampling_y), (1, 0));
    assert_eq!((seq.color_primaries, seq.transfer_characteristics, seq.matrix_coefficients), (2, 2, 2));
    assert!(!seq.full_range);
}

#[test]
fn sequence_header_monochrome() {
    let data = obu_of(&format!("000 1 1 00101 {DIMS} 000 000 0 1 0 1"));
    let seq = Av1SequenceHeader::parse_from_obus(&data).unwrap();
    assert_eq!(seq.yuv_format, PixelFormat::Monochrome);
    assert!(seq.config.monochrome);
    assert!(seq.full_range);
    assert_eq!((seq.color_primaries, seq.transfer_characteristics, seq.matrix_coefficients), (2, 2, 2));
}

#[test]
fn sequence_header_full_profile_part() {
    // No timing info, no initial display delay, one operating point of
    // level 9 and tier 1; then frame ids off.
    let data = obu_of(&format!(
        "001 0 0 0 0 00000 000000000000 01001 1 {DIMS} 0 0000000 0 1 0 0 000 0 0 1 0"
    ));
    let seq = Av1SequenceHeader::parse_from_obus(&data).unwrap();
    assert_eq!(seq.config.seq_profile, 1);
    assert!(!seq.reduced_still_picture_header);
    assert_eq!(seq.config.seq_level_idx0, 9);
    assert_eq!(seq.config.seq_tier0, 1);
    assert_eq!(seq.yuv_format, PixelFormat::Yuv444);
    assert_eq!((seq.max_width, seq.max_height), (64, 48));
}
