use crabby_avif::decoder::item::{parse_grid, Item};
use crabby_avif::decoder::tile::{Grid, Tile, TileInfo};
use crabby_avif::decoder::track::{
    RepetitionCount, SampleDescription, SampleSize, SampleTable, SampleToChunk, TimeToSample,
    Track,
};
use crabby_avif::decoder::{
    Category, CodecChoice, Extent, Settings, Source, Strictness, StrictnessFlag,
    DEFAULT_IMAGE_COUNT_LIMIT,
};
use crabby_avif::image::Plane;
use crabby_avif::parser::mp4box::{
    CodecConfiguration, ImageSpatialExtents, ItemLocationExtent, ItemProperty, MP4Box, PixelInformation,
};
use crabby_avif::stream::IStream;
use crabby_avif::{AvifError, ChromaSamplePosition};
use std::collections::HashMap;

fn empty_track() -> Track {
    Track {
        id: 1,
        aux_for_id: 0,
        prem_by_id: 0,
        media_timescale: 0,
        media_duration: 0,
        track_duration: 10,
        segment_duration: 3,
        is_repeating: true,
        width: 0,
        height: 0,
        sample_table: None,
        elst_seen: true,
        meta: None,
    }
}

fn table() -> SampleTable {
    SampleTable {
        chunk_offsets: vec![100, 200],
        sample_to_chunk: vec![
            SampleToChunk { first_chunk: 1, samples_per_chunk: 2, sample_description_index: 1 },
            SampleToChunk { first_chunk: 2, samples_per_chunk: 1, sample_description_index: 1 },
        ],
        sample_size: SampleSize::Sizes(vec![10, 20, 30]),
        sync_samples: vec![3],
        time_to_sample: vec![
            TimeToSample { sample_count: 2, sample_delta: 10 },
            TimeToSample { sample_count: 3, sample_delta: 20 },
        ],
        sample_descriptions: vec![SampleDescription {
            format: String::from("av01"),
            properties: Vec::new(),
        }],
    }
}

#[test]
fn repetition_counts() {
    let mut t = empty_track();
    assert_eq!(t.repetition_count(), Ok(RepetitionCount::Finite(3)));
    t.track_duration = 9;
    assert_eq!(t.repetition_count(), Ok(RepetitionCount::Finite(2)));
    t.track_duration = u64::MAX;
    assert_eq!(t.repetition_count(), Ok(RepetitionCount::Infinite));
    t.track_duration = 0;
    assert_eq!(t.repetition_count(), Err(AvifError::BmffParseFailed));
    t.is_repeating = false;
    assert_eq!(t.repetition_count(), Ok(RepetitionCount::Finite(0)));
    t.elst_seen = false;
    assert_eq!(t.repetition_count(), Ok(RepetitionCount::Unknown));
    let mut huge = empty_track();
    huge.track_duration = u64::MAX - 1;
    huge.segment_duration = 1;
    assert_eq!(huge.repetition_count(), Ok(RepetitionCount::Infinite));
}

#[test]
fn sample_table_queries() {
    let st = table();
    assert!(st.has_av1_sample());
    assert_eq!(st.get_sample_count_of_chunk(0), 2);
    assert_eq!(st.get_sample_count_of_chunk(1), 1);
    assert_eq!(st.get_sample_count_of_chunk(7), 1);
    assert_eq!(st.image_delta(0), 10);
    assert_eq!(st.image_delta(2), 20);
    assert_eq!(st.image_delta(99), 20);
    assert!(st.get_properties().is_some());
    let empty = SampleTable {
        chunk_offsets: Vec::new(),
        sample_to_chunk: Vec::new(),
        sample_size: SampleSize::FixedSize(7),
        sync_samples: Vec::new(),
        time_to_sample: Vec::new(),
        sample_descriptions: Vec::new(),
    };
    assert_eq!(empty.get_sample_count_of_chunk(0), 0);
    assert_eq!(empty.image_delta(0), 1);
    assert_eq!(empty.sample_size(5), Ok(7));
    assert!(!empty.has_av1_sample());
}

#[test]
fn track_roles() {
    let mut t = empty_track();
    assert!(!t.is_color());
    t.sample_table = Some(table());
    assert!(t.is_color());
    assert!(!t.is_aux(1));
    t.aux_for_id = 1;
    assert!(t.is_aux(1));
    assert!(!t.is_color());
    t.width = 100;
    t.height = 100;
    assert!(t.check_limits(10000, 0));
    assert!(!t.check_limits(9999, 0));
}

#[test]
fn tiles_from_track() {
    let mut t = empty_track();
    t.sample_table = Some(table());
    let tile = Tile::create_from_track(&t, 0).unwrap();
    let s = &tile.input.samples;
    assert_eq!(s.len(), 3);
    assert_eq!((s[0].offset, s[0].size, s[0].sync), (100, 10, true));
    assert_eq!((s[1].offset, s[1].size, s[1].sync), (110, 20, false));
    assert_eq!((s[2].offset, s[2].size, s[2].sync), (200, 30, true));
    assert_eq!(Tile::create_from_track(&t, 2).err(), Some(AvifError::BmffParseFailed));
    assert!(Tile::create_from_track(&t, 3).is_ok());
}

fn two_chunk_table() -> SampleTable {
    let mut st = table();
    st.chunk_offsets = vec![100, 500];
    st.sample_to_chunk =
        vec![SampleToChunk { first_chunk: 1, samples_per_chunk: 2, sample_description_index: 1 }];
    st.sample_size = SampleSize::FixedSize(10);
    st.sync_samples = vec![3];
    st
}

#[test]
fn track_tile_offsets_and_failures() {
    let mut t = empty_track();
    t.width = 64;
    t.height = 48;
    t.sample_table = Some(two_chunk_table());
    let tile = Tile::create_from_track(&t, 0).unwrap();
    assert_eq!((tile.width, tile.height), (64, 48));
    let got: Vec<(u32, u64, usize, u8, bool)> = tile
        .input
        .samples
        .iter()
        .map(|s| (s.item_id, s.offset, s.size, s.spatial_id, s.sync))
        .collect();
    assert_eq!(
        got,
        vec![
            (0, 100, 10, 0xff, true),
            (0, 110, 10, 0xff, false),
            (0, 500, 10, 0xff, true),
            (0, 510, 10, 0xff, false)
        ]
    );
    assert_eq!(Tile::create_from_track(&t, 3).err(), Some(AvifError::BmffParseFailed));
    assert!(Tile::create_from_track(&t, 4).is_ok());
    // A size table shorter than the sample count.
    let mut short = two_chunk_table();
    short.sample_size = SampleSize::Sizes(vec![1, 2, 3]);
    t.sample_table = Some(short);
    assert_eq!(Tile::create_from_track(&t, 0).err(), Some(AvifError::BmffParseFailed));
    // The end of a sample past 64 bits.
    let mut far = two_chunk_table();
    far.chunk_offsets = vec![100, u64::MAX - 15];
    t.sample_table = Some(far);
    assert_eq!(Tile::create_from_track(&t, 0).err(), Some(AvifError::BmffParseFailed));
    // A chunk with no samples.
    let mut none = two_chunk_table();
    none.sample_to_chunk =
        vec![SampleToChunk { first_chunk: 1, samples_per_chunk: 0, sample_description_index: 1 }];
    t.sample_table = Some(none);
    assert_eq!(Tile::create_from_track(&t, 0).err(), Some(AvifError::BmffParseFailed));
}

fn av1_item(size: usize, properties: Vec<ItemProperty>) -> Item {
    let mut item = Item::new(1, String::from("av01"));
    item.size = size;
    item.properties = properties;
    item.extents = vec![ItemLocationExtent { offset: 1000, length: size as u64 }];
    item
}

#[test]
fn tile_of_a_whole_item() {
    let mut item = av1_item(100, Vec::new());
    let tile = Tile::create_from_item(&mut item, true, 0).unwrap();
    assert_eq!(tile.input.samples.len(), 1);
    assert_eq!(tile.input.samples[0].offset, 1000);
    assert_eq!(tile.input.samples[0].size, 100);
    assert!(!item.progressive);
}

#[test]
fn tiles_of_layers() {
    let layered = vec![ItemProperty::AV1LayeredImageIndexing([10, 20, 0])];
    let mut item = av1_item(100, layered);
    let tile = Tile::create_from_item(&mut item, true, 0).unwrap();
    assert!(item.progressive);
    let sizes: Vec<usize> = tile.input.samples.iter().map(|s| s.size).collect();
    let offsets: Vec<u64> = tile.input.samples.iter().map(|s| s.offset).collect();
    assert_eq!(sizes, vec![10, 20, 70]);
    assert_eq!(offsets, vec![1000, 1010, 1030]);
    assert_eq!(sizes.iter().sum::<usize>(), 100);
    assert!(tile.input.samples[0].sync && !tile.input.samples[1].sync);
    // Without permission the item is one sample.
    let mut item = av1_item(100, vec![ItemProperty::AV1LayeredImageIndexing([10, 20, 0])]);
    let tile = Tile::create_from_item(&mut item, false, 0).unwrap();
    assert_eq!(tile.input.samples.len(), 1);
    // Too many layers for the limit.
    let mut item = av1_item(100, vec![ItemProperty::AV1LayeredImageIndexing([10, 20, 30])]);
    assert_eq!(Tile::create_from_item(&mut item, true, 2).err(), Some(AvifError::BmffParseFailed));
    // A layer that does not fit.
    let mut item = av1_item(100, vec![ItemProperty::AV1LayeredImageIndexing([100, 0, 0])]);
    assert_eq!(Tile::create_from_item(&mut item, true, 0).err(), Some(AvifError::BmffParseFailed));
}

#[test]
fn tile_of_a_selected_layer() {
    let props = vec![
        ItemProperty::AV1LayeredImageIndexing([10, 20, 0]),
        ItemProperty::LayerSelector(1),
    ];
    let mut item = av1_item(100, props);
    let tile = Tile::create_from_item(&mut item, true, 0).unwrap();
    assert!(!item.progressive);
    assert_eq!(tile.input.samples.len(), 1);
    assert_eq!(tile.input.samples[0].size, 30);
    assert_eq!(tile.input.samples[0].spatial_id, 1);
    let props = vec![
        ItemProperty::AV1LayeredImageIndexing([10, 0, 0]),
        ItemProperty::LayerSelector(3),
    ];
    let mut item = av1_item(100, props);
    assert_eq!(Tile::create_from_item(&mut item, true, 0).err(), Some(AvifError::InvalidImageGrid));
}

#[test]
fn tile_info_counts() {
    let info = TileInfo {
        tile_count: 6,
        decoded_tile_count: 4,
        grid: Grid { rows: 2, columns: 3, width: 300, height: 200 },
    };
    assert!(info.is_grid());
    assert_eq!(info.grid_tile_count(), 6);
    assert_eq!(info.decoded_row_count(200, 100), 100);
    assert!(!info.is_fully_decoded());
    let single = TileInfo { tile_count: 1, decoded_tile_count: 0, grid: Grid::default() };
    assert_eq!(single.grid_tile_count(), 1);
    assert_eq!(single.decoded_row_count(200, 100), 0);
}

#[test]
fn grid_descriptions() {
    let data = [0u8, 0, 1, 2, 0, 100, 0, 50];
    let mut stream = IStream::create(&data);
    let g = parse_grid(&mut stream).unwrap();
    assert_eq!((g.rows, g.columns, g.width, g.height), (2, 3, 100, 50));
    let large = [0u8, 1, 0, 0, 0, 0, 1, 0, 0, 0, 0, 2];
    let mut stream = IStream::create(&large);
    let g = parse_grid(&mut stream).unwrap();
    assert_eq!((g.rows, g.columns, g.width, g.height), (1, 1, 256, 2));
    let mut stream = IStream::create(&[1u8, 0, 0, 0, 0, 1, 0, 1]);
    assert_eq!(parse_grid(&mut stream).err(), Some(AvifError::InvalidImageGrid));
    let mut stream = IStream::create(&[0u8, 0, 0, 0, 0, 0, 0, 1]);
    assert_eq!(parse_grid(&mut stream).err(), Some(AvifError::InvalidImageGrid));
    let mut stream = IStream::create(&[0u8, 0, 0]);
    assert_eq!(parse_grid(&mut stream).err(), Some(AvifError::BmffParseFailed));
}

fn config(high_bitdepth: bool) -> CodecConfiguration {
    CodecConfiguration {
        seq_profile: 0,
        seq_level_idx0: 0,
        seq_tier0: 0,
        high_bitdepth,
        twelve_bit: false,
        monochrome: false,
        chroma_subsampling_x: 1,
        chroma_subsampling_y: 1,
        chroma_sample_position: ChromaSamplePosition::Unknown,
    }
}

#[test]
fn item_properties() {
    let mut item = av1_item(
        10,
        vec![
            ItemProperty::ImageSpatialExtents(ImageSpatialExtents { width: 8, height: 6 }),
            ItemProperty::OperatingPointSelector(2),
            ItemProperty::CodecConfiguration(config(false)),
            ItemProperty::AuxiliaryType(String::from("urn:mpeg:hevc:2015:auxid:1")),
        ],
    );
    assert_eq!(item.operating_point(), 2);
    assert!(item.is_auxiliary_alpha());
    assert!(item.lsel().is_none());
    assert!(item.a1lx().is_none());
    item.harvest_ispe(true).unwrap();
    assert_eq!((item.width, item.height), (8, 6));
    assert!(!item.should_skip());
    let items = HashMap::new();
    assert_eq!(item.validate_properties(&items, false), Ok(()));
    assert_eq!(item.validate_properties(&items, true), Err(AvifError::BmffParseFailed));
    item.properties.push(ItemProperty::PixelInformation(PixelInformation {
        plane_count: 1,
        plane_depths: [10, 0, 0, 0],
    }));
    assert_eq!(item.validate_properties(&items, false), Err(AvifError::BmffParseFailed));
}

#[test]
fn item_without_spatial_extents() {
    let mut item = av1_item(10, Vec::new());
    assert_eq!(item.harvest_ispe(false), Err(AvifError::BmffParseFailed));
    let mut alpha = av1_item(
        10,
        vec![ItemProperty::AuxiliaryType(String::from(
            "urn:mpeg:mpegB:cicp:systems:auxiliary:alpha",
        ))],
    );
    assert_eq!(alpha.harvest_ispe(false), Ok(()));
    assert_eq!(alpha.harvest_ispe(true), Err(AvifError::BmffParseFailed));
    let mut exif = Item::new(3, String::from("Exif"));
    exif.size = 5;
    assert_eq!(exif.harvest_ispe(true), Ok(()));
    assert!(exif.is_exif(0));
    assert!(exif.should_skip());
    assert!(!exif.is_xmp(0));
    assert!(!exif.is_tmap());
}

#[test]
fn grid_tiles_share_configuration() {
    let mut grid = Item::new(9, String::from("grid"));
    grid.properties = vec![ItemProperty::CodecConfiguration(config(false))];
    grid.grid_item_ids = vec![1];
    let mut items = HashMap::new();
    items.insert(1u32, av1_item(10, vec![ItemProperty::CodecConfiguration(config(true))]));
    assert_eq!(grid.validate_properties(&items, false), Err(AvifError::BmffParseFailed));
    items.insert(1u32, av1_item(10, vec![ItemProperty::CodecConfiguration(config(false))]));
    assert_eq!(grid.validate_properties(&items, false), Ok(()));
}

#[test]
fn strictness_flags() {
    assert!(Strictness::All.pixi_required());
    assert!(!Strictness::NoneRequired.alpha_ispe_required());
    let listed = Strictness::SpecificInclude(vec![StrictnessFlag::AlphaIspeRequired]);
    assert!(listed.alpha_ispe_required());
    assert!(!listed.pixi_required());
    let exclude = Strictness::SpecificExclude(vec![StrictnessFlag::AlphaIspeRequired]);
    assert!(!exclude.alpha_ispe_required());
    assert!(exclude.pixi_required());
}

#[test]
fn default_settings() {
    let s = Settings::default();
    assert_eq!(s.source, Source::Auto);
    assert_eq!(s.codec_choice, CodecChoice::Auto);
    assert_eq!(s.image_count_limit, DEFAULT_IMAGE_COUNT_LIMIT);
    assert_eq!(s.image_size_limit, 16384 * 16384);
    assert_eq!(s.image_dimension_limit, 32768);
    assert!(!s.allow_progressive);
}

#[test]
fn extents_merge() {
    let mut e = Extent { offset: 0, size: 0 };
    e.merge(&Extent { offset: 10, size: 5 }).unwrap();
    assert_eq!(e, Extent { offset: 10, size: 5 });
    e.merge(&Extent { offset: 30, size: 10 }).unwrap();
    assert_eq!(e, Extent { offset: 10, size: 30 });
    e.merge(&Extent { offset: 0, size: 0 }).unwrap();
    assert_eq!(e, Extent { offset: 10, size: 30 });
    e.merge(&Extent { offset: 5, size: 2 }).unwrap();
    assert_eq!(e, Extent { offset: 5, size: 35 });
}

#[test]
fn category_planes() {
    assert_eq!(Category::Alpha.planes(), vec![Plane::A]);
    assert_eq!(Category::Color.planes(), vec![Plane::Y, Plane::U, Plane::V]);
    assert_eq!(Category::Gainmap.planes(), vec![Plane::Y, Plane::U, Plane::V]);
}

fn boxed(box_type: &[u8; 4], payload: &[u8]) -> Vec<u8> {
    let mut v = Vec::new();
    v.extend_from_slice(&((payload.len() + 8) as u32).to_be_bytes());
    v.extend_from_slice(box_type);
    v.extend_from_slice(payload);
    v
}

#[test]
fn track_reference_boxes() {
    let mut data = boxed(b"auxl", &[0, 0, 0, 7, 0, 0, 0, 9]);
    data.extend_from_slice(&boxed(b"xxxx", &[1, 2]));
    data.extend_from_slice(&boxed(b"prem", &[0, 0, 1, 0]));
    let mut track = empty_track();
    assert_eq!(MP4Box::parse_tref(&mut IStream::create(&data), &mut track), Ok(()));
    assert_eq!((track.aux_for_id, track.prem_by_id), (7, 256));
    // A reference box shorter than a track id.
    let data = boxed(b"auxl", &[0, 0, 1]);
    assert_eq!(MP4Box::parse_tref(&mut IStream::create(&data), &mut empty_track()), Err(AvifError::BmffParseFailed));
    // A box that does not fit.
    let mut data = boxed(b"prem", &[0, 0, 0, 1]);
    data.truncate(10);
    assert!(MP4Box::parse_tref(&mut IStream::create(&data), &mut empty_track()).is_err());
}

#[test]
fn boxes_without_known_children() {
    let data = [boxed(b"abcd", &[1]), boxed(b"efgh", &[])].concat();
    let mut track = empty_track();
    assert_eq!(MP4Box::parse_minf(&mut IStream::create(&data), &mut track), Ok(()));
    assert_eq!(MP4Box::parse_mdia(&mut IStream::create(&data), &mut track), Ok(()));
    assert!(track.sample_table.is_none());
    let properties = MP4Box::parse_ipco(&mut IStream::create(&data)).unwrap();
    assert_eq!(properties.len(), 2);
    assert!(matches!(&properties[1], ItemProperty::Unknown(t) if t == "efgh"));
    let broken = &data[..data.len() - 1];
    assert!(MP4Box::parse_minf(&mut IStream::create(broken), &mut empty_track()).is_err());
    assert!(MP4Box::parse_ipco(&mut IStream::create(broken)).is_err());
    // An item property box starts with its container.
    assert!(MP4Box::parse_iprp(&mut IStream::create(&data)).is_err());
    let iprp = boxed(b"ipco", &boxed(b"abcd", &[]));
    assert_eq!(MP4Box::parse_iprp(&mut IStream::create(&iprp)).unwrap().properties.len(), 1);
    // A meta box starts with its version and a handler box.
    assert!(MP4Box::parse_meta(&mut IStream::create(&data)).is_err());
}

#[test]
fn timing_in_timescales() {
    let mut track = empty_track();
    track.media_timescale = 30;
    assert_eq!(track.image_timing_in_timescales(0), Err(AvifError::NoContent));
    track.sample_table = Some(table());
    assert_eq!(track.image_timing_in_timescales(0), Ok((30, 0, 10)));
    assert_eq!(track.image_timing_in_timescales(3), Ok((30, 40, 20)));
    // Past the last entry the last duration goes on.
    assert_eq!(track.image_timing_in_timescales(6), Ok((30, 100, 20)));
}
