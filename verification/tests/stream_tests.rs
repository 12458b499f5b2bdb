use crabby_avif::stream::{IBitStream, IStream};
use crabby_avif::AvifError;

#[test]
fn read_u32_big_endian() {
    let data = [0x12u8, 0x34, 0x56, 0x78, 0x9a];
    let mut stream = IStream::create(&data);
    assert_eq!(stream.read_u32().unwrap(), 0x12345678);
    assert_eq!(stream.bytes_left(), 1);
}

#[test]
fn read_integers_of_each_width() {
    let data = [1u8, 2, 3, 4, 5, 6, 7, 8, 9, 10, 11, 12, 13, 14, 15, 16, 17, 18];
    let mut stream = IStream::create(&data);
    assert_eq!(stream.read_u8().unwrap(), 1);
    assert_eq!(stream.read_u16().unwrap(), 0x0203);
    assert_eq!(stream.read_u24().unwrap(), 0x040506);
    assert_eq!(stream.read_u64().unwrap(), 0x0708090a0b0c0d0e);
    assert_eq!(stream.read_u16_le().unwrap(), 0x100f);
    assert_eq!(stream.bytes_left(), 2);
    assert_eq!(stream.read_u32(), Err(AvifError::BmffParseFailed));
    // A failed read leaves the stream where it was.
    assert_eq!(stream.offset, 16);
}

#[test]
fn read_signed_and_fractions() {
    let data = [0xffu8, 0xff, 0xff, 0xfe, 0, 0, 0, 3, 0, 0, 0, 7, 0, 0, 0, 2];
    let mut stream = IStream::create(&data);
    let f = stream.read_fraction().unwrap();
    assert_eq!((f.0, f.1), (-2, 3));
    let u = stream.read_ufraction().unwrap();
    assert_eq!((u.0, u.1), (7, 2));
    assert!(!stream.has_bytes_left());
}

#[test]
fn read_i32_negative() {
    let data = [0x80u8, 0, 0, 0];
    let mut stream = IStream::create(&data);
    assert_eq!(stream.read_i32().unwrap(), i32::MIN);
}

#[test]
fn read_uleb128_values() {
    let data = [0xe5u8, 0x8e, 0x26, 0x7f];
    let mut stream = IStream::create(&data);
    assert_eq!(stream.read_uleb128().unwrap(), 624485);
    assert_eq!(stream.offset, 3);
    assert_eq!(stream.read_uleb128().unwrap(), 127);
    // Eight continuation bytes with no end are refused.
    let long = [0x80u8; 8];
    let mut stream = IStream::create(&long);
    assert_eq!(stream.read_uleb128(), Err(AvifError::BmffParseFailed));
}

#[test]
fn read_strings() {
    let data = [b'a', b'b', 0, b'c', b'd', b'e', b'f'];
    let mut stream = IStream::create(&data);
    assert_eq!(stream.read_c_string().unwrap(), "ab");
    assert_eq!(stream.read_string(4).unwrap(), "cdef");
    let bad = [0xffu8, 0xfe];
    let mut stream = IStream::create(&bad);
    assert_eq!(stream.read_string(2), Err(AvifError::BmffParseFailed));
}

#[test]
fn version_and_flags() {
    let data = [1u8, 0, 0, 5];
    let mut stream = IStream::create(&data);
    assert_eq!(stream.read_version_and_flags().unwrap(), (1, 5));
    let mut stream = IStream::create(&data);
    assert_eq!(
        stream.read_and_enforce_version_and_flags(0),
        Err(AvifError::BmffParseFailed)
    );
}

#[test]
fn read_uxx_sizes() {
    let data = [0u8, 0, 1, 0];
    let mut stream = IStream::create(&data);
    assert_eq!(stream.read_uxx(0).unwrap(), 0);
    assert_eq!(stream.read_uxx(4).unwrap(), 256);
    let mut stream = IStream::create(&data);
    assert_eq!(stream.read_uxx(8), Err(AvifError::NotImplemented));
}

#[test]
fn skip_rewind_and_sub_streams() {
    let data = [1u8, 2, 3, 4, 5, 6];
    let mut stream = IStream::create(&data);
    stream.skip(2).unwrap();
    assert_eq!(stream.skip(10), Err(AvifError::BmffParseFailed));
    let mut sub = stream.sub_stream(3).unwrap();
    assert_eq!(sub.read_u8().unwrap(), 3);
    assert_eq!(sub.bytes_left(), 2);
    assert_eq!(stream.offset, 5);
    stream.rewind(4).unwrap();
    assert_eq!(stream.read_u8().unwrap(), 2);
    assert_eq!(stream.rewind(10), Err(AvifError::BmffParseFailed));
    assert_eq!(stream.get_slice(2).unwrap(), &[3, 4]);
}

#[test]
fn bit_stream_reads() {
    let data = [0b1011_0011u8, 0b0100_0000];
    let mut bits = IBitStream { data: &data, bit_offset: 0 };
    assert_eq!(bits.read(1).unwrap(), 1);
    assert_eq!(bits.read(3).unwrap(), 0b011);
    assert!(!bits.read_bool().unwrap());
    bits.skip(2).unwrap();
    assert_eq!(bits.read(3).unwrap(), 0b101);
    assert_eq!(bits.read(16), Err(AvifError::BmffParseFailed));
}

#[test]
fn bit_stream_skip_uvlc() {
    // Two leading zeros, a one, then two value bits.
    let data = [0b0010_1100u8];
    let mut bits = IBitStream { data: &data, bit_offset: 0 };
    bits.skip_uvlc().unwrap();
    assert_eq!(bits.bit_offset, 5);
    let zeros = [0u8; 8];
    let mut bits = IBitStream { data: &zeros, bit_offset: 0 };
    assert_eq!(bits.skip_uvlc(), Err(AvifError::BmffParseFailed));
}
