use crabby_avif::decoder::tile::{DecodeInput, DecodeSample, Grid, Tile, TileInfo};
use crabby_avif::decoder::{
    Category, Decoder, Extent, NthImageStep, ParseState, ProgressiveState, Settings, Source,
    Strictness, IO,
};
use crabby_avif::image::{Image, YuvRange};
use crabby_avif::{
    AvifError, AvifResult, ColorPrimaries, MatrixCoefficients, PixelFormat, TransferCharacteristics,
};

fn bx(box_type: &[u8; 4], payload: &[u8]) -> Vec<u8> {
    let mut v = Vec::new();
    v.extend_from_slice(&((payload.len() + 8) as u32).to_be_bytes());
    v.extend_from_slice(box_type);
    v.extend_from_slice(payload);
    v
}

fn ftyp_payload(major: &[u8; 4], compatible: &[&[u8; 4]]) -> Vec<u8> {
    let mut v = major.to_vec();
    v.extend_from_slice(&[0, 0, 0, 0]);
    for b in compatible {
        v.extend_from_slice(*b);
    }
    v
}

fn hdlr_payload() -> Vec<u8> {
    let mut v = vec![0u8, 0, 0, 0, 0, 0, 0, 0];
    v.extend_from_slice(b"pict");
    v.extend_from_slice(&[0u8; 12]);
    v.push(0);
    v
}

fn ispe_payload(w: u32, h: u32) -> Vec<u8> {
    let mut v = vec![0u8, 0, 0, 0];
    v.extend_from_slice(&w.to_be_bytes());
    v.extend_from_slice(&h.to_be_bytes());
    v
}

/// A 4:2:0, 8-bit AV1 configuration.
fn av1c_payload() -> Vec<u8> {
    vec![0x81, 0x08, 0x0c, 0x00]
}

fn pixi_payload() -> Vec<u8> {
    vec![0, 0, 0, 0, 3, 8, 8, 8]
}

fn nclx_payload() -> Vec<u8> {
    let mut v = b"nclx".to_vec();
    v.extend_from_slice(&[0, 9, 0, 16, 0, 9, 0x80]);
    v
}

/// A meta box with one AV1 item (id 1) of `size` bytes at `offset`, the
/// primary item `primary`, and its properties: spatial extents, the codec
/// configuration, pixel information, and code points where `with_nclx`.
fn meta_payload(offset: u32, size: u32, primary: u16, with_nclx: bool) -> Vec<u8> {
    let mut v = vec![0u8, 0, 0, 0];
    v.extend(bx(b"hdlr", &hdlr_payload()));
    let mut infe = vec![2u8, 0, 0, 0, 0, 1, 0, 0];
    infe.extend_from_slice(b"av01");
    infe.push(0);
    let mut iinf = vec![0u8, 0, 0, 0, 0, 1];
    iinf.extend(bx(b"infe", &infe));
    v.extend(bx(b"iinf", &iinf));
    let mut iloc = vec![0u8, 0, 0, 0, 0x44, 0x00, 0, 1, 0, 1, 0, 0, 0, 1];
    iloc.extend_from_slice(&offset.to_be_bytes());
    iloc.extend_from_slice(&size.to_be_bytes());
    v.extend(bx(b"iloc", &iloc));
    let mut pitm = vec![0u8, 0, 0, 0];
    pitm.extend_from_slice(&primary.to_be_bytes());
    v.extend(bx(b"pitm", &pitm));
    let mut ipco = bx(b"ispe", &ispe_payload(64, 48));
    ipco.extend(bx(b"av1C", &av1c_payload()));
    ipco.extend(bx(b"pixi", &pixi_payload()));
    let mut ipma = vec![0u8, 0, 0, 0, 0, 0, 0, 1, 0, 1];
    if with_nclx {
        ipco.extend(bx(b"colr", &nclx_payload()));
        ipma.extend_from_slice(&[4, 0x01, 0x82, 0x03, 0x04]);
    } else {
        ipma.extend_from_slice(&[3, 0x01, 0x82, 0x03]);
    }
    let mut iprp = bx(b"ipco", &ipco);
    iprp.extend(bx(b"ipma", &ipma));
    v.extend(bx(b"iprp", &iprp));
    v
}

/// A still image file: file type, meta box and the item's data in a media
/// data box.
fn still_image(primary: u16, with_nclx: bool) -> (Vec<u8>, u32) {
    let head_len = {
        let mut v = bx(b"ftyp", &ftyp_payload(b"avif", &[b"mif1", b"avif"]));
        v.extend(bx(b"meta", &meta_payload(0, 0, primary, with_nclx)));
        v.len()
    };
    let offset = (head_len + 8) as u32;
    let mut v = bx(b"ftyp", &ftyp_payload(b"avif", &[b"mif1", b"avif"]));
    v.extend(bx(b"meta", &meta_payload(offset, 50, primary, with_nclx)));
    v.extend(bx(b"mdat", &[0u8; 50]));
    (v, offset)
}

struct MemoryIO {
    data: Vec<u8>,
}

impl IO for MemoryIO {
    fn read(&mut self, offset: u64, size: usize) -> AvifResult<&[u8]> {
        let start = (offset as usize).min(self.data.len());
        let end = start.saturating_add(size).min(self.data.len());
        Ok(&self.data[start..end])
    }

    fn size_hint(&self) -> u64 {
        self.data.len() as u64
    }

    fn persistent(&self) -> bool {
        true
    }
}

#[test]
fn parse_still_image() {
    let (data, offset) = still_image(1, true);
    let mut io = MemoryIO { data };
    let mut decoder = Decoder::create(Settings::default());
    assert_eq!(decoder.parse(&mut io), Ok(()));
    assert_eq!(decoder.parse_state, ParseState::Complete);
    assert_eq!(decoder.source, Source::PrimaryItem);
    assert_eq!(decoder.image_count, 1);
    assert_eq!(decoder.image_index, -1);
    assert_eq!(decoder.timescale, 1);
    let image = decoder.image();
    assert_eq!(image.width, 64);
    assert_eq!(image.height, 48);
    assert_eq!(image.depth, 8);
    assert_eq!(image.yuv_format, PixelFormat::Yuv420);
    assert!(!image.alpha_present);
    assert_eq!(image.color_primaries, ColorPrimaries::Bt2020);
    assert_eq!(image.transfer_characteristics, TransferCharacteristics::Pq);
    assert_eq!(image.matrix_coefficients, MatrixCoefficients::Bt2020Ncl);
    assert_eq!(image.yuv_range, YuvRange::Full);
    assert_eq!(image.progressive_state, ProgressiveState::Unavailable);
    assert!(!image.image_sequence_track_present);
    assert_eq!(decoder.tiles[0].len(), 1);
    assert!(decoder.tiles[1].is_empty());
    assert_eq!(decoder.tile_info[0].tile_count, 1);
    let sample = decoder.tiles[0][0].input.samples[0];
    assert_eq!(sample.item_id, 1);
    assert_eq!(sample.offset, offset as u64);
    assert_eq!(sample.size, 50);
    assert!(sample.sync);
    assert!(decoder.is_keyframe(0));
    assert!(!decoder.is_keyframe(1));
    assert_eq!(decoder.nearest_keyframe(0), 0);
    assert!(decoder.can_use_single_codec());
    // A second parse starts over and finds the same.
    assert_eq!(decoder.parse(&mut io), Ok(()));
    assert_eq!(decoder.tiles[0].len(), 1);
    assert_eq!(decoder.image().width, 64);
}

#[test]
fn parse_without_code_points_reads_sequence_header() {
    let (data, _) = still_image(1, false);
    let mut io = MemoryIO { data };
    let mut decoder = Decoder::create(Settings::default());
    assert_eq!(decoder.parse(&mut io), Ok(()));
    // The media data holds no sequence header: the code points stay.
    assert_eq!(decoder.parse_state, ParseState::Complete);
    assert_eq!(decoder.image().color_primaries, ColorPrimaries::Unspecified);
    assert_eq!(decoder.image().depth, 8);
}

#[test]
fn parse_missing_primary_item() {
    let (data, _) = still_image(2, true);
    let mut io = MemoryIO { data };
    let mut decoder = Decoder::create(Settings::default());
    assert_eq!(decoder.parse(&mut io), Err(AvifError::NoContent));
}

#[test]
fn parse_tracks_of_a_still_image() {
    let (data, _) = still_image(1, true);
    let mut io = MemoryIO { data };
    let settings = Settings { source: Source::Tracks, ..Settings::default() };
    let mut decoder = Decoder::create(settings);
    assert_eq!(decoder.parse(&mut io), Err(AvifError::NoContent));
}

#[test]
fn parse_requires_pixel_information_when_strict() {
    // Without pixel information the default strictness refuses the item;
    // without strictness it is accepted.
    let head_len = {
        let mut v = bx(b"ftyp", &ftyp_payload(b"avif", &[b"mif1"]));
        v.extend(bx(b"meta", &meta_payload(0, 0, 1, false)));
        v.len()
    };
    let offset = (head_len + 8) as u32;
    let mut meta = meta_payload(offset, 50, 1, false);
    // Associate the spatial extents a second time in place of the pixel
    // information, so that no pixel information is associated.
    let n = meta.len();
    let pos = (0..=n - 3).find(|&i| meta[i..i + 3] == [0x01, 0x82, 0x03]).unwrap();
    meta[pos + 2] = 0x01;
    let mut data = bx(b"ftyp", &ftyp_payload(b"avif", &[b"mif1"]));
    data.extend(bx(b"meta", &meta));
    data.extend(bx(b"mdat", &[0u8; 50]));
    let mut io = MemoryIO { data };
    let mut strict = Decoder::create(Settings::default());
    assert_eq!(strict.parse(&mut io), Err(AvifError::BmffParseFailed));
    let lax = Settings { strictness: Strictness::NoneRequired, ..Settings::default() };
    let mut decoder = Decoder::create(lax);
    assert_eq!(decoder.parse(&mut io), Ok(()));
    assert_eq!(decoder.image().width, 64);
}

#[test]
fn parse_not_an_avif_file() {
    let mut data = bx(b"ftyp", &ftyp_payload(b"heic", &[b"mif1"]));
    data.extend(bx(b"free", &[0u8; 4]));
    let mut io = MemoryIO { data };
    let mut decoder = Decoder::create(Settings::default());
    assert!(decoder.parse(&mut io).is_err());
}

#[test]
fn peek_compatible_file_type() {
    let avif = bx(b"ftyp", &ftyp_payload(b"avif", &[]));
    assert!(Decoder::peek_compatible_file_type(&avif));
    let heic = bx(b"ftyp", &ftyp_payload(b"heic", &[b"mif1"]));
    assert!(!Decoder::peek_compatible_file_type(&heic));
    assert!(!Decoder::peek_compatible_file_type(&[0, 1]));
}

fn sample(sync: bool) -> DecodeSample {
    DecodeSample { item_id: 0, offset: 0, size: 10, spatial_id: 0xff, sync }
}

fn tile(samples: Vec<DecodeSample>, operating_point: u8, height: u32) -> Tile {
    Tile {
        width: 16,
        height,
        operating_point,
        image: Image::new(0, 0, 0, PixelFormat::Yuv420),
        input: DecodeInput { samples, all_layers: false, category: Category::Color },
        codec_index: 0,
    }
}

fn sequence(syncs: &[bool]) -> Decoder {
    let mut decoder = Decoder::create(Settings::default());
    decoder.tiles[0].push(tile(syncs.iter().map(|s| sample(*s)).collect(), 0, 16));
    decoder.tile_info[0].tile_count = 1;
    decoder.image_count = syncs.len() as u32;
    decoder.parse_state = ParseState::Complete;
    decoder
}

#[test]
fn keyframes() {
    let decoder = sequence(&[true, false, false, true, false]);
    assert!(decoder.is_keyframe(0));
    assert!(!decoder.is_keyframe(1));
    assert!(decoder.is_keyframe(3));
    assert!(!decoder.is_keyframe(5));
    assert_eq!(decoder.nearest_keyframe(0), 0);
    assert_eq!(decoder.nearest_keyframe(2), 0);
    assert_eq!(decoder.nearest_keyframe(3), 0);
    assert_eq!(decoder.nearest_keyframe(4), 3);
    assert_eq!(decoder.nearest_keyframe(5), 3);
    // Before parsing completes nothing is a keyframe.
    let mut unparsed = sequence(&[true]);
    unparsed.parse_state = ParseState::AwaitingSequenceHeader;
    assert!(!unparsed.is_keyframe(0));
    assert_eq!(unparsed.nearest_keyframe(1), 0);
}

#[test]
fn single_codec() {
    // One tile: always.
    let decoder = sequence(&[true, true]);
    assert!(decoder.can_use_single_codec());
    // Several images with several tiles: never.
    let mut decoder = sequence(&[true, true]);
    decoder.tiles[1].push(tile(vec![sample(true), sample(true)], 0, 16));
    decoder.tile_info[1].tile_count = 1;
    assert!(!decoder.can_use_single_codec());
    // One image, tiles that agree.
    decoder.image_count = 1;
    assert!(decoder.can_use_single_codec());
    // ... but not when their operating points differ.
    decoder.tiles[1][0].operating_point = 1;
    assert!(!decoder.can_use_single_codec());
    // A grid category next to another category cannot share.
    let mut grid = sequence(&[true]);
    grid.tiles[0].push(tile(vec![sample(true)], 0, 16));
    grid.tile_info[0].tile_count = 2;
    assert!(grid.can_use_single_codec());
    grid.tiles[1].push(tile(vec![sample(true)], 0, 16));
    grid.tile_info[1].tile_count = 1;
    assert!(!grid.can_use_single_codec());
}

#[test]
fn decoded_rows() {
    let mut decoder = sequence(&[true]);
    decoder.image.height = 100;
    // A single tile that is not decoded yet.
    assert_eq!(decoder.decoded_row_count(), 0);
    decoder.tile_info[0].decoded_tile_count = 1;
    assert_eq!(decoder.decoded_row_count(), 100);
    // A grid of 2 x 2 tiles of 60 rows, one row of tiles decoded.
    let mut grid = sequence(&[true]);
    grid.image.height = 100;
    for _ in 0..3 {
        grid.tiles[0].push(tile(vec![sample(true)], 0, 60));
    }
    grid.tiles[0][0].height = 60;
    grid.tile_info[0] = TileInfo {
        tile_count: 4,
        decoded_tile_count: 2,
        grid: Grid { rows: 2, columns: 2, width: 32, height: 100 },
    };
    assert_eq!(grid.decoded_row_count(), 60);
    grid.tile_info[0].decoded_tile_count = 3;
    assert_eq!(grid.decoded_row_count(), 60);
    grid.tile_info[0].decoded_tile_count = 4;
    assert_eq!(grid.decoded_row_count(), 100);
}

#[test]
fn merged_extents_cover_both() {
    let mut e = Extent { offset: 10, size: 20 };
    assert_eq!(e.merge(&Extent { offset: 50, size: 100 }), Ok(()));
    assert_eq!(e, Extent { offset: 10, size: 140 });
    let mut e = Extent { offset: 100, size: 20 };
    assert_eq!(e.merge(&Extent { offset: 50, size: 100 }), Ok(()));
    assert_eq!(e, Extent { offset: 50, size: 100 });
    let mut empty = Extent::default();
    assert_eq!(empty.merge(&Extent { offset: 7, size: 3 }), Ok(()));
    assert_eq!(empty, Extent { offset: 7, size: 3 });
}

#[test]
fn nth_image_steps() {
    let mut decoder = sequence(&[true, false, false, true, false]);
    decoder.image_index = -1;
    // Past the last image.
    assert_eq!(decoder.nth_image_step(5), Err(AvifError::NoImagesRemaining));
    // The next image is decoded directly.
    assert_eq!(decoder.nth_image_step(0), Ok(NthImageStep::DecodeAfter(-1)));
    // Image 4 starts from the keyframe at 3.
    assert_eq!(decoder.nth_image_step(4), Ok(NthImageStep::DecodeAfter(2)));
    // Image 2 is reached from the current image.
    decoder.image_index = 0;
    assert_eq!(decoder.nth_image_step(2), Ok(NthImageStep::DecodeAfter(0)));
    // Going back restarts at the keyframe.
    decoder.image_index = 3;
    assert_eq!(decoder.nth_image_step(1), Ok(NthImageStep::DecodeAfter(-1)));
    // The current image, fully decoded.
    decoder.tile_info[0].decoded_tile_count = 1;
    assert_eq!(decoder.nth_image_step(3), Ok(NthImageStep::Done));
    // Before parsing completes.
    decoder.parse_state = ParseState::AwaitingSequenceHeader;
    assert_eq!(decoder.nth_image_step(3), Err(AvifError::NoContent));
}

fn infe(id: u16, item_type: &[u8; 4]) -> Vec<u8> {
    let mut v = vec![2u8, 0, 0, 0];
    v.extend_from_slice(&id.to_be_bytes());
    v.extend_from_slice(&[0, 0]);
    v.extend_from_slice(item_type);
    v.push(0);
    bx(b"infe", &v)
}

/// A colour item (1), its gain map (2) and a tone mapped image (3) whose
/// inputs are the two, each of 50 bytes from `offset` on.
fn gain_map_meta(offset: u32) -> Vec<u8> {
    let mut v = vec![0u8, 0, 0, 0];
    v.extend(bx(b"hdlr", &hdlr_payload()));
    let mut iinf = vec![0u8, 0, 0, 0, 0, 3];
    iinf.extend(infe(1, b"av01"));
    iinf.extend(infe(2, b"av01"));
    iinf.extend(infe(3, b"tmap"));
    v.extend(bx(b"iinf", &iinf));
    let mut iloc = vec![0u8, 0, 0, 0, 0x44, 0x00, 0, 3];
    for id in 1u16..=3 {
        iloc.extend_from_slice(&id.to_be_bytes());
        iloc.extend_from_slice(&[0, 0, 0, 1]);
        iloc.extend_from_slice(&(offset + 50 * (id as u32 - 1)).to_be_bytes());
        iloc.extend_from_slice(&50u32.to_be_bytes());
    }
    v.extend(bx(b"iloc", &iloc));
    v.extend(bx(b"pitm", &[0, 0, 0, 0, 0, 1]));
    let mut iref = vec![0u8, 0, 0, 0];
    iref.extend(bx(b"dimg", &[0, 3, 0, 2, 0, 1, 0, 2]));
    v.extend(bx(b"iref", &iref));
    let mut ipco = bx(b"ispe", &ispe_payload(64, 48));
    ipco.extend(bx(b"av1C", &av1c_payload()));
    ipco.extend(bx(b"pixi", &pixi_payload()));
    ipco.extend(bx(b"colr", &nclx_payload()));
    let ipma = vec![
        0u8, 0, 0, 0, 0, 0, 0, 2, 0, 1, 4, 0x01, 0x82, 0x03, 0x04, 0, 2, 3, 0x01, 0x82, 0x03,
    ];
    let mut iprp = bx(b"ipco", &ipco);
    iprp.extend(bx(b"ipma", &ipma));
    v.extend(bx(b"iprp", &iprp));
    v
}

fn gain_map_file() -> Vec<u8> {
    let head_len = {
        let mut v = bx(b"ftyp", &ftyp_payload(b"avif", &[b"mif1"]));
        v.extend(bx(b"meta", &gain_map_meta(0)));
        v.len()
    };
    let mut v = bx(b"ftyp", &ftyp_payload(b"avif", &[b"mif1"]));
    v.extend(bx(b"meta", &gain_map_meta((head_len + 8) as u32)));
    v.extend(bx(b"mdat", &[0u8; 150]));
    v
}

#[test]
fn parse_with_gain_map() {
    let mut io = MemoryIO { data: gain_map_file() };
    let mut decoder = Decoder::create(Settings::default());
    assert_eq!(decoder.parse(&mut io), Ok(()));
    assert!(decoder.gainmap_present);
    assert_eq!(decoder.tiles[0].len(), 1);
    assert!(decoder.tiles[2].is_empty());
    let settings = Settings { enable_decoding_gainmap: true, ..Settings::default() };
    let mut decoder = Decoder::create(settings);
    assert_eq!(decoder.parse(&mut io), Ok(()));
    assert!(decoder.gainmap_present);
    assert_eq!(decoder.tiles[2].len(), 1);
    assert_eq!(decoder.tile_info[2].tile_count, 1);
    assert_eq!(decoder.tiles[2][0].input.samples[0].item_id, 2);
    assert_eq!(decoder.tiles[2][0].input.category, Category::Gainmap);
}

#[test]
fn codec_assignment() {
    // One codec for everything where one can decode every tile.
    let mut decoder = sequence(&[true]);
    decoder.tiles[0].push(tile(vec![sample(true)], 0, 16));
    decoder.tile_info[0].tile_count = 2;
    decoder.tiles[0][1].codec_index = 7;
    assert_eq!(decoder.assign_codecs(), vec![(0u8, false)]);
    assert_eq!(decoder.tiles[0][1].codec_index, 0);
    // Otherwise one per tile, category after category.
    let mut decoder = sequence(&[true, true]);
    decoder.tiles[0].push(tile(vec![sample(true), sample(true)], 2, 16));
    decoder.tile_info[0].tile_count = 2;
    decoder.tiles[1].push(tile(vec![sample(true), sample(true)], 1, 16));
    decoder.tile_info[1].tile_count = 1;
    assert_eq!(decoder.assign_codecs(), vec![(0u8, false), (2, false), (1, false)]);
    assert_eq!(decoder.tiles[0][1].codec_index, 1);
    assert_eq!(decoder.tiles[1][0].codec_index, 2);
    // Tracks: one for colour, one for alpha.
    decoder.source = Source::Tracks;
    assert_eq!(decoder.assign_codecs(), vec![(0u8, false), (1, false)]);
    assert_eq!(decoder.tiles[1][0].codec_index, 1);
    assert_eq!(decoder.tiles[0][1].codec_index, 1);
}

#[test]
fn parse_resumes_without_colour_tiles() {
    let mut io = MemoryIO { data: Vec::new() };
    let mut decoder = Decoder::create(Settings::default());
    decoder.parse_state = ParseState::AwaitingSequenceHeader;
    assert_eq!(decoder.parse(&mut io), Ok(()));
    assert_eq!(decoder.parse_state, ParseState::Complete);
    // A colour tile without samples has no sequence header to read.
    let mut decoder = Decoder::create(Settings::default());
    decoder.tiles[0].push(tile(vec![], 0, 16));
    decoder.parse_state = ParseState::AwaitingSequenceHeader;
    assert_eq!(decoder.parse(&mut io), Err(AvifError::NoImagesRemaining));
}
