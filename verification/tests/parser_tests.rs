use crabby_avif::decoder::item::construct_avif_items;
use crabby_avif::decoder::IO;
use crabby_avif::parser::mp4box::{
    ColorInformation, ItemLocationEntry, ItemProperty, ItemPropertyAssociation, MP4Box,
};
use crabby_avif::stream::IStream;
use crabby_avif::{AvifError, AvifResult};

fn bx(box_type: &[u8; 4], payload: &[u8]) -> Vec<u8> {
    let mut v = Vec::new();
    v.extend_from_slice(&((payload.len() + 8) as u32).to_be_bytes());
    v.extend_from_slice(box_type);
    v.extend_from_slice(payload);
    v
}

fn ftyp_payload(major: &[u8; 4], compatible: &[&[u8; 4]]) -> Vec<u8> {
    let mut v = major.to_vec();
    v.extend_from_slice(&[0, 0, 0, 0]);
    for b in compatible {
        v.extend_from_slice(*b);
    }
    v
}

fn hdlr_payload() -> Vec<u8> {
    let mut v = vec![0u8, 0, 0, 0, 0, 0, 0, 0];
    v.extend_from_slice(b"pict");
    v.extend_from_slice(&[0u8; 12]);
    v.push(0);
    v
}

fn ispe_payload(w: u32, h: u32) -> Vec<u8> {
    let mut v = vec![0u8, 0, 0, 0];
    v.extend_from_slice(&w.to_be_bytes());
    v.extend_from_slice(&h.to_be_bytes());
    v
}

fn av1c_payload() -> Vec<u8> {
    vec![0x81, 0x08, 0x0c, 0x00]
}

fn meta_payload() -> Vec<u8> {
    let mut v = vec![0u8, 0, 0, 0];
    v.extend(bx(b"hdlr", &hdlr_payload()));
    // Item information: one av01 item with id 1.
    let mut infe = vec![2u8, 0, 0, 0, 0, 1, 0, 0];
    infe.extend_from_slice(b"av01");
    infe.push(0);
    let mut iinf = vec![0u8, 0, 0, 0, 0, 1];
    iinf.extend(bx(b"infe", &infe));
    v.extend(bx(b"iinf", &iinf));
    // Item location: item 1 at offset 100, 50 bytes.
    let iloc = vec![
        0u8, 0, 0, 0, 0x44, 0x00, 0, 1, 0, 1, 0, 0, 0, 1, 0, 0, 0, 100, 0, 0, 0, 50,
    ];
    v.extend(bx(b"iloc", &iloc));
    v.extend(bx(b"pitm", &[0, 0, 0, 0, 0, 1]));
    let mut ipco = bx(b"ispe", &ispe_payload(64, 48));
    ipco.extend(bx(b"av1C", &av1c_payload()));
    let mut iprp = bx(b"ipco", &ipco);
    iprp.extend(bx(b"ipma", &[0, 0, 0, 0, 0, 0, 0, 1, 0, 1, 2, 0x01, 0x82]));
    v.extend(bx(b"iprp", &iprp));
    v
}

fn avif_file() -> Vec<u8> {
    let mut v = bx(b"ftyp", &ftyp_payload(b"avif", &[b"mif1", b"avif"]));
    v.extend(bx(b"meta", &meta_payload()));
    v
}

struct MemoryIO {
    data: Vec<u8>,
}

impl IO for MemoryIO {
    fn read(&mut self, offset: u64, size: usize) -> AvifResult<&[u8]> {
        let start = (offset as usize).min(self.data.len());
        let end = start.saturating_add(size).min(self.data.len());
        Ok(&self.data[start..end])
    }

    fn size_hint(&self) -> u64 {
        self.data.len() as u64
    }

    fn persistent(&self) -> bool {
        true
    }
}

#[test]
fn box_header() {
    let data = bx(b"abcd", &[1, 2, 3]);
    let mut stream = IStream::create(&data);
    let header = MP4Box::parse_header(&mut stream).unwrap();
    assert_eq!(header.size, 3);
    assert_eq!(header.box_type, "abcd");
    assert_eq!(stream.offset, 8);
    // A size smaller than the header itself is refused.
    let bad = [0u8, 0, 0, 4, b'a', b'b', b'c', b'd'];
    let mut stream = IStream::create(&bad);
    assert!(MP4Box::parse_header(&mut stream).is_err());
}

#[test]
fn file_type_brands() {
    let payload = ftyp_payload(b"avis", &[b"msf1", b"avif"]);
    let mut stream = IStream::create(&payload);
    let ftyp = MP4Box::parse_ftyp(&mut stream).unwrap();
    assert_eq!(ftyp.major_brand, "avis");
    assert_eq!(ftyp.compatible_brands.len(), 2);
    assert!(ftyp.is_avif());
    assert!(ftyp.needs_meta());
    assert!(ftyp.needs_moov());
    let other = ftyp_payload(b"heic", &[b"mif1"]);
    let mut stream = IStream::create(&other);
    let ftyp = MP4Box::parse_ftyp(&mut stream).unwrap();
    assert!(!ftyp.is_avif());
    // Brands must come whole.
    let cut = [b'a', b'v', b'i', b'f', 0, 0, 0, 0, b'x'];
    let mut stream = IStream::create(&cut);
    assert_eq!(MP4Box::parse_ftyp(&mut stream).err(), Some(AvifError::BmffParseFailed));
}

#[test]
fn peek_file_type() {
    let avif = bx(b"ftyp", &ftyp_payload(b"avif", &[]));
    assert_eq!(MP4Box::peek_compatible_file_type(&avif), Ok(true));
    let heic = bx(b"ftyp", &ftyp_payload(b"heic", &[b"mif1"]));
    assert_eq!(MP4Box::peek_compatible_file_type(&heic), Ok(false));
    let other = bx(b"free", &[0, 0, 0, 0]);
    assert_eq!(MP4Box::peek_compatible_file_type(&other), Ok(false));
    assert_eq!(
        MP4Box::peek_compatible_file_type(&[0, 0]),
        Err(AvifError::BmffParseFailed)
    );
}

#[test]
fn spatial_extents_and_pixel_information() {
    let ispe = ispe_payload(640, 480);
    let mut stream = IStream::create(&ispe);
    match MP4Box::parse_ispe(&mut stream).unwrap() {
        ItemProperty::ImageSpatialExtents(e) => assert_eq!((e.width, e.height), (640, 480)),
        _ => panic!("not ispe"),
    }
    let pixi = [0u8, 0, 0, 0, 3, 8, 8, 8];
    let mut stream = IStream::create(&pixi);
    match MP4Box::parse_pixi(&mut stream).unwrap() {
        ItemProperty::PixelInformation(p) => {
            assert_eq!(p.plane_count, 3);
            assert_eq!(p.plane_depths, [8, 8, 8, 0]);
        }
        _ => panic!("not pixi"),
    }
    let too_many = [0u8, 0, 0, 0, 5, 8, 8, 8, 8, 8];
    let mut stream = IStream::create(&too_many);
    assert!(MP4Box::parse_pixi(&mut stream).is_err());
}

#[test]
fn codec_configuration() {
    let data = av1c_payload();
    let mut stream = IStream::create(&data);
    match MP4Box::parse_av1C(&mut stream).unwrap() {
        ItemProperty::CodecConfiguration(c) => {
            assert_eq!(c.seq_profile, 0);
            assert_eq!(c.seq_level_idx0, 8);
            assert_eq!(c.chroma_subsampling_x, 1);
            assert_eq!(c.chroma_subsampling_y, 1);
            assert_eq!(c.depth(), 8);
        }
        _ => panic!("not av1C"),
    }
    let bad_marker = [0x01u8, 0x08, 0x0c];
    let mut stream = IStream::create(&bad_marker);
    assert!(MP4Box::parse_av1C(&mut stream).is_err());
}

#[test]
fn colour_information() {
    let mut nclx = b"nclx".to_vec();
    nclx.extend_from_slice(&[0, 1, 0, 13, 0, 6, 0x80]);
    let mut stream = IStream::create(&nclx);
    match MP4Box::parse_colr(&mut stream).unwrap() {
        Some(ItemProperty::ColorInformation(ColorInformation::Nclx(n))) => {
            assert_eq!(
                (n.color_primaries, n.transfer_characteristics, n.matrix_coefficients),
                (1, 13, 6)
            );
            assert!(n.full_range);
        }
        _ => panic!("not nclx"),
    }
    let mut prof = b"prof".to_vec();
    prof.extend_from_slice(&[1, 2, 3]);
    let mut stream = IStream::create(&prof);
    match MP4Box::parse_colr(&mut stream).unwrap() {
        Some(ItemProperty::ColorInformation(ColorInformation::Icc(i))) => {
            assert_eq!((i.offset, i.size), (4, 3))
        }
        _ => panic!("not icc"),
    }
    let other = b"abcd".to_vec();
    let mut stream = IStream::create(&other);
    assert!(MP4Box::parse_colr(&mut stream).unwrap().is_none());
}

#[test]
fn small_properties() {
    let mut stream = IStream::create(&[0x03]);
    assert!(matches!(MP4Box::parse_irot(&mut stream), Ok(ItemProperty::ImageRotation(3))));
    let mut stream = IStream::create(&[0x01]);
    assert!(matches!(MP4Box::parse_imir(&mut stream), Ok(ItemProperty::ImageMirror(1))));
    let mut stream = IStream::create(&[0x80]);
    assert!(MP4Box::parse_irot(&mut stream).is_err());
    let mut stream = IStream::create(&[32]);
    assert!(MP4Box::parse_a1op(&mut stream).is_err());
    let mut stream = IStream::create(&[0, 2]);
    assert!(matches!(MP4Box::parse_lsel(&mut stream), Ok(ItemProperty::LayerSelector(2))));
    let mut stream = IStream::create(&[0, 7]);
    assert!(MP4Box::parse_lsel(&mut stream).is_err());
    let mut stream = IStream::create(&[0, 0, 10, 0, 20, 0, 30]);
    assert!(matches!(
        MP4Box::parse_a1lx(&mut stream),
        Ok(ItemProperty::AV1LayeredImageIndexing([10, 20, 30]))
    ));
    let mut stream = IStream::create(&[0, 0, 0, 0, 0, 1]);
    assert_eq!(MP4Box::parse_pitm(&mut stream), Ok(1));
}

#[test]
fn item_location_box() {
    let iloc = [
        0u8, 0, 0, 0, 0x44, 0x00, 0, 1, 0, 7, 0, 0, 0, 2, 0, 0, 0, 10, 0, 0, 0, 5, 0, 0, 0, 20,
        0, 0, 0, 6,
    ];
    let mut stream = IStream::create(&iloc);
    let b = MP4Box::parse_iloc(&mut stream).unwrap();
    assert_eq!(b.items.len(), 1);
    assert_eq!(b.items[0].item_id, 7);
    assert_eq!(b.items[0].extents.len(), 2);
    assert_eq!((b.items[0].extents[1].offset, b.items[0].extents[1].length), (20, 6));
    // Eight-byte offsets are not implemented.
    let iloc8 = [0u8, 0, 0, 0, 0x84, 0x00, 0, 1, 0, 7, 0, 0, 0, 1];
    let mut stream = IStream::create(&iloc8);
    assert_eq!(MP4Box::parse_iloc(&mut stream).err(), Some(AvifError::NotImplemented));
}

#[test]
fn property_associations() {
    let ipma = [0u8, 0, 0, 0, 0, 0, 0, 2, 0, 1, 1, 0x81, 0, 3, 1, 0x02];
    let mut stream = IStream::create(&ipma);
    let v = MP4Box::parse_ipma(&mut stream).unwrap();
    assert_eq!(v.len(), 2);
    assert_eq!(v[0].associations, vec![(1, true)]);
    assert_eq!(v[1].item_id, 3);
    // Item ids must increase.
    let unordered = [0u8, 0, 0, 0, 0, 0, 0, 2, 0, 3, 0, 0, 1, 0];
    let mut stream = IStream::create(&unordered);
    assert!(MP4Box::parse_ipma(&mut stream).is_err());
}

#[test]
fn item_data_box() {
    let mut stream = IStream::create(&[4, 5, 6]);
    assert_eq!(MP4Box::parse_idat(&mut stream).unwrap(), vec![4, 5, 6]);
    let mut stream = IStream::create(&[]);
    assert!(MP4Box::parse_idat(&mut stream).is_err());
}

#[test]
fn meta_box_and_items() {
    let payload = meta_payload();
    let mut stream = IStream::create(&payload);
    let meta = MP4Box::parse_meta(&mut stream).unwrap();
    assert_eq!(meta.primary_item_id, 1);
    assert_eq!(meta.iinf.len(), 1);
    assert_eq!(meta.iinf[0].item_type, "av01");
    assert_eq!(meta.iprp.properties.len(), 2);
    assert_eq!(meta.iprp.associations[0].associations, vec![(1, false), (2, true)]);
    let items = construct_avif_items(&meta).unwrap();
    let item = items.get(&1).unwrap();
    assert_eq!(item.size, 50);
    assert_eq!(item.extents[0].offset, 100);
    assert_eq!(item.properties.len(), 2);
    assert!(item.av1C().is_some());
    // A second handler box is refused.
    let mut twice = meta_payload();
    twice.extend(bx(b"hdlr", &hdlr_payload()));
    let mut stream = IStream::create(&twice);
    assert!(MP4Box::parse_meta(&mut stream).is_err());
}

#[test]
fn item_construction_failures() {
    let payload = meta_payload();
    // A second association for the same item.
    let mut meta = MP4Box::parse_meta(&mut IStream::create(&payload)).unwrap();
    let mut again = ItemPropertyAssociation::default();
    again.item_id = 1;
    again.associations = vec![(1, false)];
    meta.iprp.associations.push(again);
    assert_eq!(construct_avif_items(&meta).err(), Some(AvifError::BmffParseFailed));
    // A property index past the properties.
    let mut meta = MP4Box::parse_meta(&mut IStream::create(&payload)).unwrap();
    meta.iprp.associations[0].associations[0] = (3, false);
    assert_eq!(construct_avif_items(&meta).err(), Some(AvifError::BmffParseFailed));
    // Index 0 stands for no property.
    let mut meta = MP4Box::parse_meta(&mut IStream::create(&payload)).unwrap();
    meta.iprp.associations[0].associations[0] = (0, false);
    let items = construct_avif_items(&meta).unwrap();
    assert_eq!(items.get(&1).unwrap().properties.len(), 1);
    // A location entry for an item with no information entry.
    let mut meta = MP4Box::parse_meta(&mut IStream::create(&payload)).unwrap();
    meta.iloc.items[0].item_id = 7;
    assert_eq!(construct_avif_items(&meta).err(), Some(AvifError::BmffParseFailed));
    // A second location entry for an item already placed.
    let mut meta = MP4Box::parse_meta(&mut IStream::create(&payload)).unwrap();
    let mut second = ItemLocationEntry::default();
    second.item_id = 1;
    meta.iloc.items.push(second);
    assert_eq!(construct_avif_items(&meta).err(), Some(AvifError::BmffParseFailed));
    // An entry without extents before the one with extents: size from the latter.
    let mut meta = MP4Box::parse_meta(&mut IStream::create(&payload)).unwrap();
    let mut empty = ItemLocationEntry::default();
    empty.item_id = 1;
    meta.iloc.items.insert(0, empty);
    let items = construct_avif_items(&meta).unwrap();
    assert_eq!(items.get(&1).unwrap().size, 50);
    // An entry without extents alone gives size 0.
    let mut meta = MP4Box::parse_meta(&mut IStream::create(&payload)).unwrap();
    meta.iloc.items[0].extents.clear();
    let items = construct_avif_items(&meta).unwrap();
    assert_eq!(items.get(&1).unwrap().size, 0);
    assert!(items.get(&1).unwrap().extents.is_empty());
}

#[test]
fn whole_file() {
    let mut io = MemoryIO { data: avif_file() };
    let boxes = MP4Box::parse(&mut io).unwrap();
    assert!(boxes.ftyp.is_avif());
    assert_eq!(boxes.meta.primary_item_id, 1);
    assert!(boxes.tracks.is_empty());
    // Without a meta box the still image brand is not satisfied.
    let mut io = MemoryIO { data: bx(b"ftyp", &ftyp_payload(b"avif", &[])) };
    assert_eq!(MP4Box::parse(&mut io).err(), Some(AvifError::TruncatedData));
    let mut io = MemoryIO { data: bx(b"ftyp", &ftyp_payload(b"heic", &[])) };
    assert_eq!(MP4Box::parse(&mut io).err(), Some(AvifError::InvalidFtyp));
    let mut io = MemoryIO { data: Vec::new() };
    assert_eq!(MP4Box::parse(&mut io).err(), Some(AvifError::InvalidFtyp));
}

fn trak_box(repeat: bool) -> Vec<u8> {
    let mut tkhd = vec![0u8, 0, 0, 0];
    tkhd.extend_from_slice(&[0u8; 8]);
    tkhd.extend_from_slice(&5u32.to_be_bytes());
    tkhd.extend_from_slice(&[0u8; 4]);
    tkhd.extend_from_slice(&10u32.to_be_bytes());
    tkhd.extend_from_slice(&[0u8; 52]);
    tkhd.extend_from_slice(&(64u32 << 16).to_be_bytes());
    tkhd.extend_from_slice(&(48u32 << 16).to_be_bytes());
    let mut v = bx(b"tkhd", &tkhd);
    let elst = if repeat {
        vec![0u8, 0, 0, 1, 0, 0, 0, 1, 0, 0, 0, 3]
    } else {
        vec![0u8, 0, 0, 0]
    };
    v.extend(bx(b"edts", &bx(b"elst", &elst)));
    bx(b"trak", &v)
}

#[test]
fn track_boxes() {
    let moov = trak_box(true);
    let mut stream = IStream::create(&moov);
    let tracks = MP4Box::parse_moov(&mut stream).unwrap();
    assert_eq!(tracks.len(), 1);
    let t = &tracks[0];
    assert_eq!((t.id, t.width, t.height, t.track_duration), (5, 64, 48, 10));
    assert!(t.elst_seen && t.is_repeating);
    assert_eq!(t.segment_duration, 3);
    // A zero segment duration is refused.
    let zero = bx(b"elst", &[0u8, 0, 0, 1, 0, 0, 0, 1, 0, 0, 0, 0]);
    let mut stream = IStream::create(&zero);
    assert!(MP4Box::parse_edts(&mut stream, &mut tracks.into_iter().next().unwrap()).is_err());
}

#[test]
fn sample_table_boxes() {
    let mut stbl = bx(b"stco", &[0, 0, 0, 0, 0, 0, 0, 2, 0, 0, 0, 8, 0, 0, 0, 16]);
    stbl.extend(bx(b"stsc", &[0, 0, 0, 0, 0, 0, 0, 1, 0, 0, 0, 1, 0, 0, 0, 2, 0, 0, 0, 1]));
    stbl.extend(bx(b"stsz", &[0, 0, 0, 0, 0, 0, 0, 0, 0, 0, 0, 2, 0, 0, 0, 4, 0, 0, 0, 5]));
    stbl.extend(bx(b"stts", &[0, 0, 0, 0, 0, 0, 0, 1, 0, 0, 0, 4, 0, 0, 0, 9]));
    let mut stream = IStream::create(&stbl);
    let moov = trak_box(false);
    let mut s2 = IStream::create(&moov);
    let mut track = MP4Box::parse_moov(&mut s2).unwrap().into_iter().next().unwrap();
    MP4Box::parse_stbl(&mut stream, &mut track).unwrap();
    let st = track.sample_table.as_ref().unwrap();
    assert_eq!(st.chunk_offsets, vec![8, 16]);
    assert_eq!(st.sample_to_chunk.len(), 1);
    assert_eq!(st.get_sample_count_of_chunk(1), 2);
    assert_eq!(st.sample_size(1), Ok(5));
    assert_eq!(st.sample_size(2), Err(AvifError::BmffParseFailed));
    assert_eq!(st.image_delta(3), 9);
    // A second sample table is refused.
    let mut stream = IStream::create(&stbl);
    assert!(MP4Box::parse_stbl(&mut stream, &mut track).is_err());
    // Sample-to-chunk entries must start at chunk 1.
    let bad = [0u8, 0, 0, 0, 0, 0, 0, 1, 0, 0, 0, 2, 0, 0, 0, 2, 0, 0, 0, 1];
    let mut stream = IStream::create(&bad);
    assert!(MP4Box::parse_stsc(&mut stream, track.sample_table.as_mut().unwrap()).is_err());
}
