//! Decoder-side logic: settings, items, tracks and tiles.

pub mod item;
pub mod tile;
pub mod track;

use crate::decoder::item::{construct_avif_items, info_ids, Item};
use crate::decoder::tile::{Grid, Tile, TileInfo};
use crate::decoder::track::{first_av1_description, RepetitionCount, Track};
use crate::image::{Image, Plane};
use crate::internal_utils::{i32_from_u32, spec_check_limits, u32_from_usize, u64_from_usize, usize_from_u64};
use crate::internal_utils::{find_av1C, find_icc, find_nclx};
use crate::image::YuvRange;
use crate::parser::mp4box::{
    count_where, first_where, spec_peek, AvifBoxes, MP4Box, is_av1c, is_icc, is_nclx, lemma_first_where_bounds, ClearAperture,
    CodecConfiguration, ColorInformation, ContentLightLevelInformation, ItemInfo, ItemProperty, MetaBox,
    Nclx, PixelAspectRatio,
};
use crate::parser::exif;
use crate::parser::obu::{sequence_header_of, Av1SequenceHeader};
use crate::stream::string_is;
use crate::{AvifError, AvifResult, ColorPrimaries, MatrixCoefficients, PixelFormat, TransferCharacteristics};
use std::collections::HashMap;
use vstd::prelude::*;

verus! {

broadcast use vstd::std_specs::hash::group_hash_axioms;

/// Where the decoder reads its input from. `read` hands back at most `size`
/// bytes starting at `offset`: fewer at the end of the input, none past it.
pub trait IO {
    fn read(&mut self, offset: u64, size: usize) -> AvifResult<&[u8]>;

    fn size_hint(&self) -> u64;

    fn persistent(&self) -> bool;
}

/// Which decoder library to use.
#[derive(Debug, Default, Clone, Copy, PartialEq, Eq, Structural)]
pub enum CodecChoice {
    #[default]
    Auto,
    Dav1d,
    Libgav1,
    MediaCodec,
}

/// Where the images come from: the primary item, the tracks, or whichever
/// the file has.
#[derive(Debug, Default, Clone, Copy, PartialEq, Eq, Structural)]
pub enum Source {
    #[default]
    Auto,
    PrimaryItem,
    Tracks,
}

/// Largest number of pixels of an image by default.
pub const DEFAULT_IMAGE_SIZE_LIMIT: u32 = 268435456;

/// Largest width or height of an image by default.
pub const DEFAULT_IMAGE_DIMENSION_LIMIT: u32 = 32768;

/// Largest number of images of a sequence by default.
pub const DEFAULT_IMAGE_COUNT_LIMIT: u32 = 2592000;

/// A check that a strict decoder makes.
#[derive(Debug, Clone, Copy, PartialEq, Eq, Structural)]
pub enum StrictnessFlag {
    PixiRequired,
    ClapValid,
    AlphaIspeRequired,
}

/// Which checks the decoder makes: none, all, only those listed, or all
/// but those listed.
#[derive(Debug, Default)]
pub enum Strictness {
    NoneRequired,
    #[default]
    All,
    SpecificInclude(Vec<StrictnessFlag>),
    SpecificExclude(Vec<StrictnessFlag>),
}

impl Strictness {
    /// Whether the check `flag` is made.
    pub open spec fn requires_flag(&self, flag: StrictnessFlag) -> bool {
        match self {
            Strictness::NoneRequired => false,
            Strictness::All => true,
            Strictness::SpecificInclude(flags) => flags@.contains(flag),
            Strictness::SpecificExclude(flags) => !flags@.contains(flag),
        }
    }

    fn has_flag(flags: &Vec<StrictnessFlag>, flag: StrictnessFlag) -> (r: bool)
        ensures
            r == flags@.contains(flag),
    {
        let mut i: usize = 0;
        while i < flags.len()
            invariant
                0 <= i <= flags@.len(),
                forall|j: int| 0 <= j < i ==> flags@[j] != flag,
            decreases flags@.len() - i,
        {
            if flags[i] == flag {
                assert(flags@[i as int] == flag);
                return true;
            }
            i += 1;
        }
        false
    }

    /// Whether a pixel information property is required.
    pub fn pixi_required(&self) -> (r: bool)
        ensures
            r == self.requires_flag(StrictnessFlag::PixiRequired),
    {
        match self {
            Strictness::NoneRequired => false,
            Strictness::All => true,
            Strictness::SpecificInclude(flags) => Self::has_flag(flags, StrictnessFlag::PixiRequired),
            Strictness::SpecificExclude(flags) => !Self::has_flag(
                flags,
                StrictnessFlag::PixiRequired,
            ),
        }
    }

    /// Whether an alpha auxiliary image must have spatial extents.
    pub fn alpha_ispe_required(&self) -> (r: bool)
        ensures
            r == self.requires_flag(StrictnessFlag::AlphaIspeRequired),
    {
        match self {
            Strictness::NoneRequired => false,
            Strictness::All => true,
            Strictness::SpecificInclude(flags) => Self::has_flag(
                flags,
                StrictnessFlag::AlphaIspeRequired,
            ),
            Strictness::SpecificExclude(flags) => !Self::has_flag(
                flags,
                StrictnessFlag::AlphaIspeRequired,
            ),
        }
    }
}

/// Decoder settings.
#[derive(Debug)]
pub struct Settings {
    pub source: Source,
    pub ignore_exif: bool,
    pub ignore_xmp: bool,
    pub strictness: Strictness,
    pub allow_progressive: bool,
    pub allow_incremental: bool,
    pub enable_decoding_gainmap: bool,
    pub enable_parsing_gainmap_metadata: bool,
    pub codec_choice: CodecChoice,
    pub image_size_limit: u32,
    pub image_dimension_limit: u32,
    pub image_count_limit: u32,
}

impl Default for Settings {
    fn default() -> (r: Self)
        ensures
            r.source == Source::Auto,
            !r.ignore_exif && !r.ignore_xmp,
            r.strictness is All,
            !r.allow_progressive && !r.allow_incremental,
            !r.enable_decoding_gainmap && !r.enable_parsing_gainmap_metadata,
            r.codec_choice == CodecChoice::Auto,
            r.image_size_limit == DEFAULT_IMAGE_SIZE_LIMIT,
            r.image_dimension_limit == DEFAULT_IMAGE_DIMENSION_LIMIT,
            r.image_count_limit == DEFAULT_IMAGE_COUNT_LIMIT,
    {
        Settings {
            source: Source::Auto,
            ignore_exif: false,
            ignore_xmp: false,
            strictness: Strictness::All,
            allow_progressive: false,
            allow_incremental: false,
            enable_decoding_gainmap: false,
            enable_parsing_gainmap_metadata: false,
            codec_choice: CodecChoice::Auto,
            image_size_limit: DEFAULT_IMAGE_SIZE_LIMIT,
            image_dimension_limit: DEFAULT_IMAGE_DIMENSION_LIMIT,
            image_count_limit: DEFAULT_IMAGE_COUNT_LIMIT,
        }
    }
}

/// A range of bytes of the input.
#[derive(Debug, Default, Clone, Copy, PartialEq, Eq, Structural)]
pub struct Extent {
    pub offset: u64,
    pub size: usize,
}

/// The extent `outer` holds every byte of `inner`.
pub open spec fn covers(outer: Extent, inner: Extent) -> bool {
    outer.offset <= inner.offset && inner.offset + inner.size <= outer.offset + outer.size
}

impl Extent {
    /// Grows the extent to the smallest one that covers both; an empty
    /// extent covers nothing.
    pub fn merge(&mut self, extent: &Extent) -> (r: AvifResult<()>)
        requires
            old(self).offset + old(self).size <= u64::MAX,
            extent.offset + extent.size <= u64::MAX,
        ensures
            old(self).size == 0 ==> r is Ok && *final(self) == *extent,
            old(self).size != 0 && extent.size == 0 ==> r is Ok && *final(self) == *old(self),
            r is Ok && old(self).size != 0 ==> covers(*final(self), *old(self)),
            r is Ok && extent.size != 0 ==> covers(*final(self), *extent),
            old(self).size != 0 && extent.size != 0 ==> {
                let lo = vstd::math::min(old(self).offset as int, extent.offset as int);
                let hi = vstd::math::max(
                    old(self).offset + old(self).size,
                    extent.offset + extent.size,
                );
                &&& hi - lo <= usize::MAX ==> r is Ok && final(self).offset == lo && final(self).size
                    == hi - lo
                &&& hi - lo > usize::MAX ==> r == Err::<(), AvifError>(AvifError::BmffParseFailed)
            },
    {
        if self.size == 0 {
            *self = *extent;
            return Ok(());
        }
        if extent.size == 0 {
            return Ok(());
        }
        let max_extent_1 = self.offset + u64_from_usize(self.size)?;
        let max_extent_2 = extent.offset + u64_from_usize(extent.size)?;
        let lo = if self.offset < extent.offset {
            self.offset
        } else {
            extent.offset
        };
        let hi = if max_extent_1 > max_extent_2 {
            max_extent_1
        } else {
            max_extent_2
        };
        let size = usize_from_u64(hi - lo)?;
        self.offset = lo;
        self.size = size;
        Ok(())
    }
}

/// Whether a progressive image is offered layer by layer.
#[derive(Debug, Default, Clone, Copy, PartialEq, Eq, Structural)]
pub enum ProgressiveState {
    #[default]
    Unavailable,
    Available,
    Active,
}

/// The kind of image an item or track carries.
#[derive(Debug, Default, Clone, Copy, PartialEq, Eq, Structural)]
pub enum Category {
    #[default]
    Color,
    Alpha,
    Gainmap,
}

impl Category {
    pub open spec fn spec_planes(&self) -> Seq<Plane> {
        if *self == Category::Alpha {
            seq![Plane::A]
        } else {
            seq![Plane::Y, Plane::U, Plane::V]
        }
    }

    /// The planes of the category: Y, U and V for colour and gain map, A
    /// for alpha.
    pub fn planes(&self) -> (r: Vec<Plane>)
        ensures
            r@ == self.spec_planes(),
    {
        match self {
            Category::Alpha => vec![Plane::A],
            _ => vec![Plane::Y, Plane::U, Plane::V],
        }
    }
}

/// How far parsing has come.
#[derive(Debug, Default, Clone, Copy, PartialEq, Eq, Structural)]
pub enum ParseState {
    #[default]
    NotStarted,
    AwaitingSequenceHeader,
    Complete,
}

/// The source of the images: the one the settings name, or for `Auto` the
/// one that the major brand asks for (the tracks for `avis`, the primary
/// item for `avif`), else the tracks where there are any.
pub open spec fn spec_source(setting: Source, major_brand: Seq<char>, has_tracks: bool) -> Source {
    match setting {
        Source::Auto => if major_brand == "avis"@ {
            Source::Tracks
        } else if major_brand == "avif"@ {
            Source::PrimaryItem
        } else if has_tracks {
            Source::Tracks
        } else {
            Source::PrimaryItem
        },
        _ => setting,
    }
}

/// Law: an explicit source setting is kept; with `Auto` the file's major
/// brand decides: an image sequence (`avis`) is read from its tracks, a still
/// image (`avif`) from its primary item, and any other brand from its tracks
/// exactly when it has some. The choice is never `Auto`.
pub proof fn law_source_choice(setting: Source, major_brand: Seq<char>, has_tracks: bool)
    ensures
        setting != Source::Auto ==> spec_source(setting, major_brand, has_tracks) == setting,
        setting == Source::Auto ==> spec_source(setting, major_brand, has_tracks) != Source::Auto,
        setting == Source::Auto ==> (spec_source(setting, major_brand, has_tracks) == Source::Tracks <==> (
        major_brand == "avis"@ || (major_brand != "avif"@ && has_tracks))),
{
}

fn choose_source(setting: Source, major_brand: &String, has_tracks: bool) -> (r: Source)
    ensures
        r == spec_source(setting, major_brand@, has_tracks),
{
    match setting {
        Source::Auto => {
            if string_is(major_brand, "avis") {
                Source::Tracks
            } else if string_is(major_brand, "avif") {
                Source::PrimaryItem
            } else if has_tracks {
                Source::Tracks
            } else {
                Source::PrimaryItem
            }
        },
        Source::Tracks => Source::Tracks,
        Source::PrimaryItem => Source::PrimaryItem,
    }
}

fn empty_tile_info() -> (r: TileInfo)
    ensures
        r.tile_count == 0 && r.decoded_tile_count == 0 && r.grid == (Grid {
            rows: 0,
            columns: 0,
            width: 0,
            height: 0,
        }),
{
    TileInfo { tile_count: 0, decoded_tile_count: 0, grid: Grid { rows: 0, columns: 0, width: 0, height: 0 } }
}

/// The index of the first track that satisfies `is_aux(primary_track_id)`.
pub open spec fn first_aux_track(tracks: Seq<Track>, primary_track_id: u32) -> Option<int> {
    if exists|i: int| 0 <= i < tracks.len() && (#[trigger] tracks[i]).spec_is_aux(primary_track_id) {
        Some(choose|i: int|
            0 <= i < tracks.len() && (#[trigger] tracks[i]).spec_is_aux(primary_track_id) && forall|j: int|
                0 <= j < i ==> !(#[trigger] tracks[j]).spec_is_aux(primary_track_id))
    } else {
        None
    }
}

fn find_aux_track(tracks: &Vec<Track>, primary_track_id: u32) -> (r: Option<usize>)
    ensures
        match r {
            Some(i) => i < tracks@.len() && tracks@[i as int].spec_is_aux(primary_track_id)
                && forall|j: int| 0 <= j < i ==> !(#[trigger] tracks@[j]).spec_is_aux(primary_track_id),
            None => forall|j: int| 0 <= j < tracks@.len() ==> !(#[trigger] tracks@[j]).spec_is_aux(primary_track_id),
        },
        r matches Some(i) ==> first_aux_track(tracks@, primary_track_id) == Some(i as int),
        r is None ==> first_aux_track(tracks@, primary_track_id) is None,
{
    let mut i: usize = 0;
    while i < tracks.len()
        invariant
            0 <= i <= tracks@.len(),
            forall|j: int| 0 <= j < i ==> !(#[trigger] tracks@[j]).spec_is_aux(primary_track_id),
        decreases tracks@.len() - i,
    {
        if tracks[i].is_aux(primary_track_id) {
            proof {
                let k = i as int;
                assert(0 <= k < tracks@.len() && tracks@[k].spec_is_aux(primary_track_id));
                let c = choose|c: int|
                    0 <= c < tracks@.len() && (#[trigger] tracks@[c]).spec_is_aux(primary_track_id) && forall|j: int|
                        0 <= j < c ==> !(#[trigger] tracks@[j]).spec_is_aux(primary_track_id);
                assert(c == k) by {
                    if c < k {
                    } else if c > k {
                        assert(!tracks@[k].spec_is_aux(primary_track_id));
                    }
                }
            }
            return Some(i);
        }
        i += 1;
    }
    None
}

/// A track's tile can be built from it: the sample table is there, the
/// chunk count fits and the sync sample numbers count from 1.
pub open spec fn track_tile_ready(track: Track) -> bool {
    &&& track.sample_table is Some
    &&& track.sample_table->0.chunk_offsets@.len() < u32::MAX
    &&& forall|j: int|
        0 <= j < track.sample_table->0.sync_samples@.len() ==> #[trigger] track.sample_table->0.sync_samples@[j] > 0
}

#[verifier::loop_isolation(false)]
fn check_track_tile_ready(track: &Track) -> (r: bool)
    ensures
        r == track_tile_ready(*track),
{
    match &track.sample_table {
        None => false,
        Some(st) => {
            if st.chunk_offsets.len() >= 0xffff_ffff {
                return false;
            }
            let mut j: usize = 0;
            while j < st.sync_samples.len()
                invariant
                    0 <= j <= st.sync_samples@.len(),
                    forall|k: int| 0 <= k < j ==> #[trigger] st.sync_samples@[k] > 0,
                decreases st.sync_samples@.len() - j,
            {
                if st.sync_samples[j] == 0 {
                    assert(track.sample_table->0.sync_samples@[j as int] == 0);
                    return false;
                }
                j += 1;
            }
            true
        },
    }
}

/// An AVIF decoder: its settings and what parsing found.
pub struct Decoder {
    pub settings: Settings,
    pub image_count: u32,
    pub image_index: i32,
    pub timescale: u64,
    pub duration_in_timescales: u64,
    pub repetition_count: RepetitionCount,
    pub gainmap_present: bool,
    pub image: Image,
    pub source: Source,
    pub tile_info: [TileInfo; 3],
    pub tiles: [Vec<Tile>; 3],
    pub items: HashMap<u32, Item>,
    pub tracks: Vec<Track>,
    pub color_track_id: Option<u32>,
    pub parse_state: ParseState,
}

impl Decoder {
    /// No image is found yet: no tiles, no timing, a blank image.
    pub open spec fn nothing_found(&self) -> bool {
        &&& self.image_count == 0
        &&& self.image_index == 0
        &&& self.timescale == 0
        &&& self.duration_in_timescales == 0
        &&& self.repetition_count == RepetitionCount::Unknown
        &&& !self.gainmap_present
        &&& self.tiles[0]@.len() == 0 && self.tiles[1]@.len() == 0 && self.tiles[2]@.len() == 0
        &&& self.tile_info[0].tile_count == 0 && self.tile_info[1].tile_count == 0 && self.tile_info[2].tile_count == 0
        &&& self.color_track_id is None
        &&& !self.image.alpha_present && !self.image.alpha_premultiplied
        &&& self.image.progressive_state == ProgressiveState::Unavailable
    }

    /// Nothing is parsed yet: no images, tiles, items or tracks.
    pub open spec fn is_empty(&self) -> bool {
        &&& self.nothing_found()
        &&& self.items@.len() == 0
        &&& self.tracks@.len() == 0
        &&& self.parse_state == ParseState::NotStarted
    }

    /// A decoder with the given settings that has parsed nothing.
    pub fn create(settings: Settings) -> (r: Decoder)
        ensures
            r.settings == settings,
            r.source == Source::Auto,
            r.is_empty(),
    {
        Decoder {
            settings,
            image_count: 0,
            image_index: 0,
            timescale: 0,
            duration_in_timescales: 0,
            repetition_count: RepetitionCount::Unknown,
            gainmap_present: false,
            image: Image::new(0, 0, 0, PixelFormat::Yuv420),
            source: Source::Auto,
            tile_info: [empty_tile_info(), empty_tile_info(), empty_tile_info()],
            tiles: [Vec::new(), Vec::new(), Vec::new()],
            items: HashMap::new(),
            tracks: Vec::new(),
            color_track_id: None,
            parse_state: ParseState::NotStarted,
        }
    }

    /// Forgets what an earlier parse found; the settings and the source
    /// stay.
    fn reset(&mut self)
        ensures
            final(self).settings == old(self).settings,
            final(self).source == old(self).source,
            final(self).is_empty(),
            !final(self).image.image_sequence_track_present,
    {
        self.image_count = 0;
        self.image_index = 0;
        self.timescale = 0;
        self.duration_in_timescales = 0;
        self.repetition_count = RepetitionCount::Unknown;
        self.gainmap_present = false;
        self.image = Image::new(0, 0, 0, PixelFormat::Yuv420);
        self.tile_info = [empty_tile_info(), empty_tile_info(), empty_tile_info()];
        self.tiles = [Vec::new(), Vec::new(), Vec::new()];
        self.items = HashMap::new();
        self.tracks = Vec::new();
        self.color_track_id = None;
        self.parse_state = ParseState::NotStarted;
    }
}

impl Decoder {
    /// Takes the images from the first colour track and, where there is
    /// one, the first track auxiliary to it as alpha.
    fn parse_tracks(&mut self) -> (r: AvifResult<()>)
        requires
            old(self).nothing_found(),
            forall|i: int| 0 <= i < old(self).tracks@.len() ==> (#[trigger] old(self).tracks@[i]).edit_list_ok(),
        ensures
            final(self).settings == old(self).settings,
            final(self).source == old(self).source,
            final(self).tracks@ == old(self).tracks@,
            final(self).items@ == old(self).items@,
            final(self).parse_state == old(self).parse_state,
            final(self).image.image_sequence_track_present == old(self).image.image_sequence_track_present,
            first_aux_track(old(self).tracks@, 0) is None ==> r == Err::<(), AvifError>(AvifError::NoContent),
            r is Ok ==> (first_aux_track(old(self).tracks@, 0) matches Some(i) && {
                let color = old(self).tracks@[i];
                &&& final(self).color_track_id == Some(color.id)
                &&& final(self).tiles[0]@.len() == 1
                &&& final(self).tile_info[0].tile_count == 1
                &&& final(self).image.width == color.width
                &&& final(self).image.height == color.height
                &&& final(self).timescale == color.media_timescale
                &&& final(self).duration_in_timescales == color.media_duration
                &&& final(self).image_count == final(self).tiles[0]@[0].input.samples@.len() as u32
                &&& final(self).image_index == -1
                &&& final(self).tiles[2]@.len() == 0 && final(self).tile_info[2].tile_count == 0
                &&& match first_aux_track(old(self).tracks@, color.id) {
                    Some(j) => {
                        &&& final(self).tiles[1]@.len() == 1
                        &&& final(self).tile_info[1].tile_count == 1
                        &&& final(self).image.alpha_present
                        &&& final(self).image.alpha_premultiplied == (color.prem_by_id == old(self).tracks@[j].id)
                    },
                    None => {
                        &&& final(self).tiles[1]@.len() == 0
                        &&& final(self).tile_info[1].tile_count == 0
                        &&& !final(self).image.alpha_present
                    },
                }
            }),
    {
        let ci = match find_aux_track(&self.tracks, 0) {
            Some(i) => i,
            None => {
                return Err(AvifError::NoContent);
            },
        };
        if self.tracks[ci].get_properties().is_none() {
            return Err(AvifError::BmffParseFailed);
        }
        let color_id = self.tracks[ci].id;
        self.color_track_id = Some(color_id);
        if !check_track_tile_ready(&self.tracks[ci]) {
            return Err(AvifError::BmffParseFailed);
        }
        let color_tile = Tile::create_from_track(&self.tracks[ci], self.settings.image_count_limit)?;
        let mut color_tiles: Vec<Tile> = Vec::new();
        let sample_count = color_tile.input.samples.len();
        color_tiles.push(color_tile);
        let mut alpha_tiles: Vec<Tile> = Vec::new();
        match find_aux_track(&self.tracks, color_id) {
            Some(ai) => {
                if !check_track_tile_ready(&self.tracks[ai]) {
                    return Err(AvifError::BmffParseFailed);
                }
                let alpha_tile = Tile::create_from_track(&self.tracks[ai], self.settings.image_count_limit)?;
                alpha_tiles.push(alpha_tile);
                self.image.alpha_present = true;
                self.image.alpha_premultiplied = self.tracks[ci].prem_by_id == self.tracks[ai].id;
            },
            None => {},
        }
        let alpha_count: u32 = if alpha_tiles.len() == 0 { 0 } else { 1 };
        self.tiles = [color_tiles, alpha_tiles, Vec::new()];
        self.tile_info = [
            TileInfo { tile_count: 1, ..self.tile_info[0] },
            TileInfo { tile_count: alpha_count, ..self.tile_info[1] },
            self.tile_info[2],
        ];
        self.image_index = -1;
        #[verifier::truncate]
        let count = sample_count as u32;
        self.image_count = count;
        self.timescale = self.tracks[ci].media_timescale as u64;
        self.duration_in_timescales = self.tracks[ci].media_duration;
        self.repetition_count = self.tracks[ci].repetition_count()?;
        self.image.width = self.tracks[ci].width;
        self.image.height = self.tracks[ci].height;
        Ok(())
    }
}

/// Every item is filed under its id.
pub open spec fn keyed_by_id(items: Map<u32, Item>) -> bool {
    forall|id: u32| #[trigger] items.contains_key(id) ==> items[id].id == id
}

/// The item is one that `find_item` looks for with `kind`, relative to the
/// item `target`: an alpha plane for it that is not skipped (0), any alpha
/// plane for it (1), its Exif metadata (2) or its XMP metadata (3).
pub open spec fn item_matches(kind: u8, item: Item, target: u32) -> bool {
    if kind == 0 {
        !item.spec_should_skip() && item.aux_for_id == target && item.spec_is_auxiliary_alpha()
    } else if kind == 1 {
        item.aux_for_id == target && item.spec_is_auxiliary_alpha()
    } else if kind == 2 {
        item.spec_is_metadata("Exif"@, target)
    } else {
        item.spec_is_metadata("mime"@, target) && item.content_type@ == "application/rdf+xml"@
    }
}

/// The `k`-th item information entry names an item of `items` that
/// matches.
pub open spec fn entry_matches(items: Map<u32, Item>, iinf: Seq<ItemInfo>, k: int, kind: u8, target: u32) -> bool {
    items.contains_key(iinf[k].item_id) && item_matches(kind, items[iinf[k].item_id], target)
}

/// Some entry of the item information names an item that matches.
pub open spec fn has_entry(items: Map<u32, Item>, iinf: Seq<ItemInfo>, kind: u8, target: u32) -> bool {
    exists|k: int| 0 <= k < iinf.len() && #[trigger] entry_matches(items, iinf, k, kind, target)
}

/// The first item, in the order of the item information entries, that
/// matches.
fn find_item(items: &HashMap<u32, Item>, iinf: &Vec<ItemInfo>, kind: u8, target: u32) -> (r: Option<u32>)
    ensures
        r matches Some(id) ==> items@.contains_key(id) && item_matches(kind, items@[id], target)
            && exists|k: int|
            0 <= k < iinf@.len() && iinf@[k].item_id == id && forall|j: int|
                0 <= j < k ==> !entry_matches(items@, iinf@, j, kind, target),
        r is None ==> forall|k: int| 0 <= k < iinf@.len() ==> !entry_matches(items@, iinf@, k, kind, target),
        r is Some <==> has_entry(items@, iinf@, kind, target),
{
    let mut i: usize = 0;
    while i < iinf.len()
        invariant
            0 <= i <= iinf@.len(),
            forall|j: int| 0 <= j < i ==> !entry_matches(items@, iinf@, j, kind, target),
        decreases iinf@.len() - i,
    {
        let id = iinf[i].item_id;
        match items.get(&id) {
            Some(item) => {
                let hit = if kind == 0 {
                    !item.should_skip() && item.aux_for_id == target && item.is_auxiliary_alpha()
                } else if kind == 1 {
                    item.aux_for_id == target && item.is_auxiliary_alpha()
                } else if kind == 2 {
                    item.is_exif(target)
                } else {
                    item.is_xmp(target)
                };
                if hit {
                    assert(entry_matches(items@, iinf@, i as int, kind, target));
                    return Some(id);
                }
            },
            None => {},
        }
        i += 1;
    }
    None
}

/// The items of the meta box, each with its spatial extents taken in.
fn build_items(meta: &MetaBox, alpha_ispe_required: bool) -> (r: AvifResult<HashMap<u32, Item>>)
    ensures
        r matches Ok(m) ==> m@.dom() == info_ids(meta) && keyed_by_id(m@),
{
    let mut items = construct_avif_items(meta)?;
    let mut i: usize = 0;
    while i < meta.iinf.len()
        invariant
            0 <= i <= meta.iinf@.len(),
            items@.dom() == info_ids(meta),
            keyed_by_id(items@),
        decreases meta.iinf@.len() - i,
    {
        let id = meta.iinf[i].item_id;
        let ghost before = items@;
        match items.remove(&id) {
            Some(mut item) => {
                item.harvest_ispe(alpha_ispe_required)?;
                items.insert(id, item);
                assert(items@.dom() =~= before.dom());
            },
            None => {},
        }
        i += 1;
    }
    Ok(items)
}

/// The item `id` is an AV1 item whose `dimg` reference names `grid_id`.
pub open spec fn is_tile_of(items: Map<u32, Item>, id: u32, grid_id: u32) -> bool {
    items.contains_key(id) && items[id].dimg_for_id == grid_id && items[id].item_type@ == "av01"@
}

/// Whether the grid's tile count fits in 32 bits.
fn grid_count_fits(grid: &Grid) -> (r: bool)
    ensures
        r == (grid.rows * grid.columns <= u32::MAX),
{
    let a = grid.rows as u64;
    let b = grid.columns as u64;
    assert(a * b <= 0xffff_ffff_ffff_ffff) by (nonlinear_arith)
        requires
            a <= 0xffff_ffff,
            b <= 0xffff_ffff,
    ;
    a * b <= 0xffff_ffff
}

/// For a `grid` item, the ids of the items that it derives its image from:
/// those whose `dimg` reference names it, in the order of the item
/// information entries. They must be AV1 items without an unsupported
/// essential property, there must be as many as the grid has tiles, and
/// the grid item adopts the codec configuration of the first. Other items
/// stay as they are.
fn populate_grid_item_ids(items: &mut HashMap<u32, Item>, iinf: &Vec<ItemInfo>, item_id: u32, tile_info: &TileInfo) -> (r: AvifResult<()>)
    requires
        old(items)@.contains_key(item_id),
        keyed_by_id(old(items)@),
    ensures
        final(items)@.dom() == old(items)@.dom(),
        keyed_by_id(final(items)@),
        old(items)@[item_id].item_type@ != "grid"@ ==> r is Ok && final(items)@ == old(items)@,
        r is Ok ==> forall|id: u32| #[trigger] final(items)@.contains_key(id) && id != item_id ==> final(items)@[id] == old(items)@[id],
        r is Ok && old(items)@[item_id].item_type@ == "grid"@ ==> {
            let ids = final(items)@[item_id].grid_item_ids@;
            &&& ids.len() > 0
            &&& forall|k: int| 0 <= k < ids.len() ==> is_tile_of(old(items)@, #[trigger] ids[k], item_id)
            &&& final(items)@[item_id].properties@ == old(items)@[item_id].properties@.push(
                ItemProperty::CodecConfiguration(old(items)@[ids[0]].spec_av1c().unwrap()),
            )
            &&& old(items)@[ids[0]].spec_av1c() is Some
        },
{
    let is_grid = match items.get(&item_id) {
        Some(item) => string_is(&item.item_type, "grid"),
        None => false,
    };
    if !is_grid {
        return Ok(());
    }
    let mut grid_item_ids: Vec<u32> = Vec::new();
    let mut first_av1c: Option<CodecConfiguration> = None;
    let mut i: usize = 0;
    while i < iinf.len()
        invariant
            0 <= i <= iinf@.len(),
            items@ == old(items)@,
            keyed_by_id(items@),
            items@.contains_key(item_id),
            items@[item_id].item_type@ == "grid"@,
            forall|k: int| 0 <= k < grid_item_ids@.len() ==> is_tile_of(items@, #[trigger] grid_item_ids@[k], item_id),
            grid_item_ids@.len() == 0 <==> first_av1c is None,
            first_av1c matches Some(c) ==> items@[grid_item_ids@[0]].spec_av1c() == Some(c),
        decreases iinf@.len() - i,
    {
        let id = iinf[i].item_id;
        let dimg_item = match items.get(&id) {
            Some(x) => x,
            None => {
                return Err(AvifError::InvalidImageGrid);
            },
        };
        if dimg_item.dimg_for_id == item_id {
            if !string_is(&dimg_item.item_type, "av01") {
                return Err(AvifError::InvalidImageGrid);
            }
            if dimg_item.has_unsupported_essential_property {
                return Err(AvifError::InvalidImageGrid);
            }
            if first_av1c.is_none() {
                match dimg_item.av1C() {
                    Some(c) => {
                        first_av1c = Some(*c);
                    },
                    None => {
                        return Err(AvifError::BmffParseFailed);
                    },
                }
            }
            assert(items@.contains_key(id) && items@[id] == *dimg_item);
            let ghost prev = grid_item_ids@;
            grid_item_ids.push(id);
            assert(is_tile_of(items@, id, item_id));
            assert forall|k: int| 0 <= k < grid_item_ids@.len() implies is_tile_of(items@, #[trigger] grid_item_ids@[k], item_id) by {
                if k < prev.len() {
                    assert(grid_item_ids@[k] == prev[k]);
                }
            }
        }
        i += 1;
    }
    if !grid_count_fits(&tile_info.grid) {
        return Err(AvifError::InvalidImageGrid);
    }
    let expected = tile_info.grid_tile_count();
    if grid_item_ids.len() as u64 != expected as u64 {
        return Err(AvifError::InvalidImageGrid);
    }
    let c = match first_av1c {
        Some(c) => c,
        None => {
            return Err(AvifError::InvalidImageGrid);
        },
    };
    let ghost before = items@;
    let mut item = match items.remove(&item_id) {
        Some(x) => x,
        None => {
            return Err(AvifError::InvalidImageGrid);
        },
    };
    item.properties.push(ItemProperty::CodecConfiguration(c));
    item.grid_item_ids = grid_item_ids;
    items.insert(item_id, item);
    assert(items@.dom() =~= before.dom());
    Ok(())
}

/// The largest item id of the item information entries (0 without any).
fn max_item_id(iinf: &Vec<ItemInfo>) -> (r: u32)
    ensures
        forall|k: int| 0 <= k < iinf@.len() ==> (#[trigger] iinf@[k]).item_id <= r,
        iinf@.len() == 0 ==> r == 0,
        iinf@.len() > 0 ==> exists|k: int| 0 <= k < iinf@.len() && (#[trigger] iinf@[k]).item_id == r,
{
    let mut m: u32 = 0;
    let mut i: usize = 0;
    while i < iinf.len()
        invariant
            0 <= i <= iinf@.len(),
            forall|k: int| 0 <= k < i ==> (#[trigger] iinf@[k]).item_id <= m,
            i == 0 ==> m == 0,
            i > 0 ==> exists|k: int| 0 <= k < i && (#[trigger] iinf@[k]).item_id == m,
        decreases iinf@.len() - i,
    {
        if i == 0 || iinf[i].item_id > m {
            m = iinf[i].item_id;
            assert(iinf@[i as int].item_id == m);
        }
        i += 1;
    }
    m
}

/// The alpha item of the colour item `color_id`. It is the first item, in
/// the order of the item information entries, that is an alpha plane for it
/// and is not skipped; its id comes back. Failing that, where the colour
/// item is a grid and every tile has an alpha plane, a new grid item is
/// made of those alpha planes (the first for each tile): of the colour
/// item's size, with the codec configuration of the first of them, under
/// the id after the largest; it comes back with id 0. Else there is none.
fn find_alpha_item(items: &HashMap<u32, Item>, meta: &MetaBox, color_id: u32) -> (r: (u32, Option<Item>))
    requires
        items@.contains_key(color_id),
        keyed_by_id(items@),
        items@.dom() == info_ids(meta),
        meta.valid(),
    ensures
        r.0 != 0 ==> r.1 is None && items@.contains_key(r.0) && item_matches(0, items@[r.0], color_id),
        r.0 == 0 ==> forall|k: int| 0 <= k < meta.iinf@.len() ==> !entry_matches(items@, meta.iinf@, k, 0, color_id),
        r.1 matches Some(a) ==> {
            let color = items@[color_id];
            &&& r.0 == 0
            &&& a.id != 0 && !items@.contains_key(a.id)
            &&& a.item_type@ == "grid"@
            &&& a.width == color.width && a.height == color.height
            &&& a.grid_item_ids@.len() == color.grid_item_ids@.len() && color.grid_item_ids@.len() > 0
            &&& color.item_type@ == "grid"@
            &&& forall|k: int| 0 <= k < a.grid_item_ids@.len() ==> {
                let t = #[trigger] a.grid_item_ids@[k];
                items@.contains_key(t) && item_matches(1, items@[t], color.grid_item_ids@[k])
            }
            &&& items@[a.grid_item_ids@[0]].spec_av1c() is Some
            &&& a.properties@ == seq![ItemProperty::CodecConfiguration(items@[a.grid_item_ids@[0]].spec_av1c().unwrap())]
            &&& a.size == 0 && a.extents@.len() == 0 && a.idat@.len() == 0
            &&& !a.has_unsupported_essential_property && a.thumbnail_for_id == 0 && a.aux_for_id == 0
        },
{
    match find_item(items, &meta.iinf, 0, color_id) {
        Some(id) => {
            assert(id != 0) by {
                assert(info_ids(meta).contains(id));
                let k = choose|k: int| 0 <= k < meta.iinf@.len() && (#[trigger] meta.iinf@[k]).item_id == id;
                assert(meta.iinf@[k].item_id != 0);
            }
            return (id, None);
        },
        None => {},
    }
    let color_item = match items.get(&color_id) {
        Some(x) => x,
        None => {
            return (0, None);
        },
    };
    if !string_is(&color_item.item_type, "grid") || color_item.grid_item_ids.len() == 0 {
        return (0, None);
    }
    let mut alpha_ids: Vec<u32> = Vec::new();
    let mut i: usize = 0;
    while i < color_item.grid_item_ids.len()
        invariant
            0 <= i <= color_item.grid_item_ids@.len(),
            alpha_ids@.len() == i,
            items@.contains_key(color_id) && items@[color_id] == *color_item,
            forall|k: int| 0 <= k < meta.iinf@.len() ==> !entry_matches(items@, meta.iinf@, k, 0, color_id),
            forall|k: int| 0 <= k < i ==> {
                let t = #[trigger] alpha_ids@[k];
                items@.contains_key(t) && item_matches(1, items@[t], color_item.grid_item_ids@[k])
            },
        decreases color_item.grid_item_ids@.len() - i,
    {
        match find_item(items, &meta.iinf, 1, color_item.grid_item_ids[i]) {
            Some(t) => {
                let ghost prev = alpha_ids@;
                alpha_ids.push(t);
                assert forall|k: int| 0 <= k < i + 1 implies {
                    let t2 = #[trigger] alpha_ids@[k];
                    items@.contains_key(t2) && item_matches(1, items@[t2], color_item.grid_item_ids@[k])
                } by {
                    if k < i {
                        assert(alpha_ids@[k] == prev[k]);
                    }
                }
            },
            None => {
                return (0, None);
            },
        }
        i += 1;
    }
    let first = match items.get(&alpha_ids[0]) {
        Some(x) => x,
        None => {
            return (0, None);
        },
    };
    let c = match first.av1C() {
        Some(c) => *c,
        None => {
            return (0, None);
        },
    };
    let max_id = max_item_id(&meta.iinf);
    if max_id == 0xffff_ffff {
        return (0, None);
    }
    let new_id = max_id + 1;
    assert(!items@.contains_key(new_id)) by {
        if items@.contains_key(new_id) {
            assert(info_ids(meta).contains(new_id));
            let k = choose|k: int| 0 <= k < meta.iinf@.len() && (#[trigger] meta.iinf@[k]).item_id == new_id;
            assert(meta.iinf@[k].item_id <= max_id);
        }
    }
    let mut item = Item::new(new_id, "grid".to_owned());
    item.width = color_item.width;
    item.height = color_item.height;
    item.grid_item_ids = alpha_ids;
    item.properties.push(ItemProperty::CodecConfiguration(c));
    (0, Some(item))
}

/// The layer offsets of the item fit in 64 bits.
fn item_offsets_fit(item: &Item) -> (r: bool)
    ensures
        r == (Tile::base_offset(item) + item.size <= u64::MAX),
{
    if item.extents.len() == 1 {
        item.extents[0].offset.checked_add(item.size as u64).is_some()
    } else {
        true
    }
}

/// Copies the ids.
fn copy_ids(ids: &Vec<u32>) -> (r: Vec<u32>)
    ensures
        r@ == ids@,
{
    let mut r: Vec<u32> = Vec::new();
    let mut i: usize = 0;
    while i < ids.len()
        invariant
            0 <= i <= ids@.len(),
            r@ == ids@.subrange(0, i as int),
        decreases ids@.len() - i,
    {
        r.push(ids[i]);
        i += 1;
        assert(r@ =~= ids@.subrange(0, i as int));
    }
    assert(r@ =~= ids@);
    r
}

/// The items hold `id`, its layer offsets fit in 64 bits and a tile can be
/// made of it.
pub open spec fn tile_ok_in(items: Map<u32, Item>, id: u32, allow_progressive: bool, image_count_limit: u32) -> bool {
    &&& items.contains_key(id)
    &&& Tile::base_offset(&items[id]) + items[id].size <= u64::MAX
    &&& Tile::tile_made(&items[id], allow_progressive, image_count_limit)
}

/// Whether `generate_tiles` succeeds: the item is there; a grid item needs
/// a grid description and tiles of all its tile items; another item needs
/// data and a tile of itself.
pub open spec fn tiles_ok_in(items: Map<u32, Item>, item_id: u32, tile_info: TileInfo, allow_progressive: bool, image_count_limit: u32) -> bool {
    &&& items.contains_key(item_id)
    &&& if items[item_id].grid_item_ids@.len() > 0 {
        &&& tile_info.spec_is_grid()
        &&& forall|k: int|
            0 <= k < items[item_id].grid_item_ids@.len() ==> tile_ok_in(
                items,
                #[trigger] items[item_id].grid_item_ids@[k],
                allow_progressive,
                image_count_limit,
            )
    } else {
        items[item_id].size != 0 && tile_ok_in(items, item_id, allow_progressive, image_count_limit)
    }
}

/// Makes the tile of an item taken out of the items, and puts it back
/// (marked progressive where it is).
fn make_item_tile(items: &mut HashMap<u32, Item>, id: u32, category: Category, allow_progressive: bool, image_count_limit: u32, missing: AvifError) -> (r: AvifResult<Tile>)
    requires
        keyed_by_id(old(items)@),
    ensures
        final(items)@.dom() == old(items)@.dom(),
        keyed_by_id(final(items)@),
        !old(items)@.contains_key(id) ==> r == Err::<Tile, AvifError>(missing),
        forall|k: u32| #[trigger] final(items)@.contains_key(k) ==> final(items)@[k] == (Item { progressive: final(items)@[k].progressive, ..old(items)@[k] }),
        r matches Ok(t) ==> t.input.category == category && old(items)@.contains_key(id)
            && t.width == old(items)@[id].width && t.height == old(items)@[id].height,
        r is Ok <==> tile_ok_in(old(items)@, id, allow_progressive, image_count_limit),
{
    let ghost before = items@;
    let mut item = match items.remove(&id) {
        Some(x) => x,
        None => {
            return Err(missing);
        },
    };
    if !item_offsets_fit(&item) {
        items.insert(id, item);
        assert(items@ =~= before);
        return Err(AvifError::BmffParseFailed);
    }
    let made = Tile::create_from_item(&mut item, allow_progressive, image_count_limit);
    items.insert(id, item);
    assert(items@.dom() =~= before.dom());
    let mut tile = made?;
    tile.input.category = category;
    Ok(tile)
}

/// The tiles of an item: one per tile item of a grid (in the order of its
/// tile ids; the grid description must be there), else the one of the item
/// itself, which must have data. A colour grid whose first tile is
/// progressive becomes progressive itself.
fn generate_tiles(items: &mut HashMap<u32, Item>, item_id: u32, category: Category, tile_info: &TileInfo, allow_progressive: bool, image_count_limit: u32) -> (r: AvifResult<Vec<Tile>>)
    requires
        keyed_by_id(old(items)@),
    ensures
        final(items)@.dom() == old(items)@.dom(),
        keyed_by_id(final(items)@),
        forall|k: u32| #[trigger] final(items)@.contains_key(k) ==> final(items)@[k] == (Item { progressive: final(items)@[k].progressive, ..old(items)@[k] }),
        !old(items)@.contains_key(item_id) ==> r == Err::<Vec<Tile>, AvifError>(AvifError::MissingImageItem),
        r matches Ok(tiles) ==> old(items)@.contains_key(item_id) && tiles@.len() == if old(items)@[item_id].grid_item_ids@.len() > 0 {
            old(items)@[item_id].grid_item_ids@.len()
        } else {
            1
        } && forall|k: int| 0 <= k < tiles@.len() ==> (#[trigger] tiles@[k]).input.category == category,
        r is Ok && old(items)@[item_id].grid_item_ids@.len() > 0 ==> tile_info.spec_is_grid(),
        r is Ok && old(items)@[item_id].grid_item_ids@.len() == 0 ==> old(items)@[item_id].size != 0,
        r is Ok <==> tiles_ok_in(old(items)@, item_id, *tile_info, allow_progressive, image_count_limit),
{
    let (grid_ids, size) = match items.get(&item_id) {
        Some(item) => (copy_ids(&item.grid_item_ids), item.size),
        None => {
            return Err(AvifError::MissingImageItem);
        },
    };
    let ghost start = items@;
    let mut tiles: Vec<Tile> = Vec::new();
    if grid_ids.len() > 0 {
        if !tile_info.is_grid() {
            return Err(AvifError::InvalidImageGrid);
        }
        let mut i: usize = 0;
        while i < grid_ids.len()
            invariant
                0 <= i <= grid_ids@.len(),
                tiles@.len() == i,
                forall|k: int| 0 <= k < tiles@.len() ==> (#[trigger] tiles@[k]).input.category == category,
                start == old(items)@,
                start.contains_key(item_id),
                items@.dom() == start.dom(),
                keyed_by_id(items@),
                forall|k: u32| #[trigger] items@.contains_key(k) ==> items@[k] == (Item { progressive: items@[k].progressive, ..start[k] }),
                grid_ids@ == start[item_id].grid_item_ids@,
                tile_info.spec_is_grid(),
                forall|j: int| 0 <= j < i ==> tile_ok_in(start, #[trigger] grid_ids@[j], allow_progressive, image_count_limit),
            decreases grid_ids@.len() - i,
        {
            let ghost mid = items@;
            proof {
                let g = grid_ids@[i as int];
                if mid.contains_key(g) {
                    assert(mid[g].properties@ == start[g].properties@);
                    assert(Tile::spec_layers(&mid[g]) == Tile::spec_layers(&start[g]));
                    assert(Tile::spec_lsel(&mid[g]) == Tile::spec_lsel(&start[g]));
                    assert(Tile::base_offset(&mid[g]) == Tile::base_offset(&start[g]));
                }
                assert(tile_ok_in(mid, g, allow_progressive, image_count_limit) == tile_ok_in(start, g, allow_progressive, image_count_limit));
            }
            let tile = make_item_tile(items, grid_ids[i], category, allow_progressive, image_count_limit, AvifError::InvalidImageGrid)?;
            assert forall|k: u32| #[trigger] items@.contains_key(k) implies items@[k] == (Item { progressive: items@[k].progressive, ..start[k] }) by {
                assert(mid.contains_key(k));
            }
            tiles.push(tile);
            i += 1;
        }
        if category == Category::Color {
            let first_progressive = match items.get(&grid_ids[0]) {
                Some(x) => x.progressive,
                None => false,
            };
            if first_progressive {
                let ghost mid = items@;
                match items.remove(&item_id) {
                    Some(mut item) => {
                        item.progressive = true;
                        items.insert(item_id, item);
                        assert(items@.dom() =~= mid.dom());
                        assert forall|k: u32| #[trigger] items@.contains_key(k) implies items@[k] == (Item { progressive: items@[k].progressive, ..start[k] }) by {
                            assert(mid.contains_key(k));
                        }
                    },
                    None => {
                        return Err(AvifError::MissingImageItem);
                    },
                }
            }
        }
    } else {
        if size == 0 {
            return Err(AvifError::MissingImageItem);
        }
        let tile = make_item_tile(items, item_id, category, allow_progressive, image_count_limit, AvifError::MissingImageItem)?;
        tiles.push(tile);
    }
    Ok(tiles)
}

/// The property is of the display kind `kind`: content light level (0),
/// pixel aspect ratio (1), clean aperture (2), rotation (3) or mirror (4).
pub open spec fn is_display_kind(kind: u8, p: ItemProperty) -> bool {
    match p {
        ItemProperty::ContentLightLevelInformation(_) => kind == 0,
        ItemProperty::PixelAspectRatio(_) => kind == 1,
        ItemProperty::ClearAperture(_) => kind == 2,
        ItemProperty::ImageRotation(_) => kind == 3,
        ItemProperty::ImageMirror(_) => kind == 4,
        _ => false,
    }
}

/// Index of the first property of the display kind.
fn first_of_kind(properties: &[ItemProperty], kind: u8) -> (r: Option<usize>)
    ensures
        r matches Some(i) ==> i < properties@.len() && first_where(properties@, |p: ItemProperty| is_display_kind(kind, p)) == Some(i as int),
        r is None ==> first_where(properties@, |p: ItemProperty| is_display_kind(kind, p)) is None,
{
    let ghost f = |p: ItemProperty| is_display_kind(kind, p);
    proof {
        lemma_first_where_bounds(properties@, f);
    }
    let mut i: usize = 0;
    while i < properties.len()
        invariant
            0 <= i <= properties@.len(),
            forall|j: int| 0 <= j < i ==> !f(#[trigger] properties@[j]),
            f == (|p: ItemProperty| is_display_kind(kind, p)),
            first_where(properties@, f) matches Some(k) ==> 0 <= k < properties@.len() && f(properties@[k]) && forall|j: int|
                0 <= j < k ==> !f(#[trigger] properties@[j]),
            first_where(properties@, f) is None ==> forall|j: int| 0 <= j < properties@.len() ==> !f(#[trigger] properties@[j]),
        decreases properties@.len() - i,
    {
        let hit = match &properties[i] {
            ItemProperty::ContentLightLevelInformation(_) => kind == 0,
            ItemProperty::PixelAspectRatio(_) => kind == 1,
            ItemProperty::ClearAperture(_) => kind == 2,
            ItemProperty::ImageRotation(_) => kind == 3,
            ItemProperty::ImageMirror(_) => kind == 4,
            _ => false,
        };
        if hit {
            assert(f(properties@[i as int]));
            return Some(i);
        }
        i += 1;
    }
    None
}

/// The first content light level information.
pub open spec fn spec_clli(s: Seq<ItemProperty>) -> Option<ContentLightLevelInformation> {
    match first_where(s, |p: ItemProperty| is_display_kind(0, p)) {
        Some(i) => match s[i] {
            ItemProperty::ContentLightLevelInformation(c) => Some(c),
            _ => None,
        },
        None => None,
    }
}

/// The first pixel aspect ratio.
pub open spec fn spec_pasp(s: Seq<ItemProperty>) -> Option<PixelAspectRatio> {
    match first_where(s, |p: ItemProperty| is_display_kind(1, p)) {
        Some(i) => match s[i] {
            ItemProperty::PixelAspectRatio(c) => Some(c),
            _ => None,
        },
        None => None,
    }
}

/// The first clean aperture.
pub open spec fn spec_clap(s: Seq<ItemProperty>) -> Option<ClearAperture> {
    match first_where(s, |p: ItemProperty| is_display_kind(2, p)) {
        Some(i) => match s[i] {
            ItemProperty::ClearAperture(c) => Some(c),
            _ => None,
        },
        None => None,
    }
}

/// The angle of the first rotation.
pub open spec fn spec_irot(s: Seq<ItemProperty>) -> Option<u8> {
    match first_where(s, |p: ItemProperty| is_display_kind(3, p)) {
        Some(i) => match s[i] {
            ItemProperty::ImageRotation(c) => Some(c),
            _ => None,
        },
        None => None,
    }
}

/// The axis of the first mirror.
pub open spec fn spec_imir(s: Seq<ItemProperty>) -> Option<u8> {
    match first_where(s, |p: ItemProperty| is_display_kind(4, p)) {
        Some(i) => match s[i] {
            ItemProperty::ImageMirror(c) => Some(c),
            _ => None,
        },
        None => None,
    }
}

/// The code points of the first colour box with code points.
pub open spec fn spec_nclx(s: Seq<ItemProperty>) -> Option<Nclx> {
    match first_where(s, |p: ItemProperty| is_nclx(p)) {
        Some(i) => match s[i] {
            ItemProperty::ColorInformation(ColorInformation::Nclx(n)) => Some(n),
            _ => None,
        },
        None => None,
    }
}

/// The first codec configuration.
pub open spec fn spec_first_av1c(s: Seq<ItemProperty>) -> Option<CodecConfiguration> {
    match first_where(s, |p: ItemProperty| is_av1c(p)) {
        Some(i) => match s[i] {
            ItemProperty::CodecConfiguration(c) => Some(c),
            _ => None,
        },
        None => None,
    }
}

/// The range of the samples: full or limited.
pub open spec fn spec_range(full_range: bool) -> YuvRange {
    if full_range {
        YuvRange::Full
    } else {
        YuvRange::Limited
    }
}

/// The colour properties may be adopted: at most one colour box with code
/// points, at most one with an ICC profile, and a codec configuration.
pub open spec fn color_properties_ok(s: Seq<ItemProperty>) -> bool {
    &&& count_where(s, |p: ItemProperty| is_nclx(p)) <= 1
    &&& count_where(s, |p: ItemProperty| is_icc(p)) <= 1
    &&& spec_first_av1c(s) is Some
}

/// The image has the colour properties `s`: the code points where there
/// are some, the display properties, and the depth, format and chroma
/// sample position of the codec configuration.
pub open spec fn takes_properties(image: Image, s: Seq<ItemProperty>) -> bool {
    let c = spec_first_av1c(s).unwrap();
    &&& spec_nclx(s) matches Some(n) ==> {
        &&& image.color_primaries == ColorPrimaries::spec_from_u16(n.color_primaries)
        &&& image.transfer_characteristics == TransferCharacteristics::spec_from_u16(n.transfer_characteristics)
        &&& image.matrix_coefficients == MatrixCoefficients::spec_from_u16(n.matrix_coefficients)
        &&& image.yuv_range == spec_range(n.full_range)
    }
    &&& image.clli == spec_clli(s)
    &&& image.pasp == spec_pasp(s)
    &&& image.clap == spec_clap(s)
    &&& image.irot_angle == spec_irot(s)
    &&& image.imir_axis == spec_imir(s)
    &&& image.depth == c.spec_depth()
    &&& image.yuv_format == c.spec_pixel_format()
    &&& image.chroma_sample_position == c.chroma_sample_position
}

/// The image takes the colour properties `s` (see `takes_properties`);
/// without code points it keeps its own, and it keeps its size, alpha and
/// progressive state.
pub open spec fn adopted(old_image: Image, new_image: Image, s: Seq<ItemProperty>) -> bool {
    &&& takes_properties(new_image, s)
    &&& spec_nclx(s) is None ==> {
        &&& new_image.color_primaries == old_image.color_primaries
        &&& new_image.transfer_characteristics == old_image.transfer_characteristics
        &&& new_image.matrix_coefficients == old_image.matrix_coefficients
        &&& new_image.yuv_range == old_image.yuv_range
    }
    &&& new_image.width == old_image.width && new_image.height == old_image.height
    &&& new_image.alpha_present == old_image.alpha_present
    &&& new_image.alpha_premultiplied == old_image.alpha_premultiplied
    &&& new_image.progressive_state == old_image.progressive_state
    &&& new_image.image_sequence_track_present == old_image.image_sequence_track_present
}

/// Where none of the properties is of a kind, none of them is.
proof fn lemma_count_zero(s: Seq<ItemProperty>, f: spec_fn(ItemProperty) -> bool)
    requires
        count_where(s, f) == 0,
    ensures
        forall|j: int| 0 <= j < s.len() ==> !f(#[trigger] s[j]),
        first_where(s, f) is None,
    decreases s.len(),
{
    if s.len() > 0 {
        lemma_count_zero(s.drop_last(), f);
        assert forall|j: int| 0 <= j < s.len() implies !f(#[trigger] s[j]) by {
            if j < s.len() - 1 {
                assert(s.drop_last()[j] == s[j]);
            }
        }
    }
    lemma_first_where_bounds(s, f);
}

/// Adopts the colour properties `properties` into the image (see
/// `adopted`), where they may be adopted; returns whether there were code
/// points.
fn adopt_color_properties(image: &mut Image, properties: &[ItemProperty]) -> (r: AvifResult<bool>)
    ensures
        !color_properties_ok(properties@) <==> r == Err::<bool, AvifError>(AvifError::BmffParseFailed),
        r is Err ==> r == Err::<bool, AvifError>(AvifError::BmffParseFailed),
        r matches Ok(cicp) ==> cicp == (spec_nclx(properties@) is Some) && adopted(*old(image), *final(image), properties@),
{
    proof {
        lemma_first_where_bounds(properties@, |p: ItemProperty| is_nclx(p));
        lemma_first_where_bounds(properties@, |p: ItemProperty| is_av1c(p));
    }
    let nclx: Option<Nclx> = match find_nclx(properties) {
        Ok(n) => Some(*n),
        Err(multiple) => {
            if multiple {
                return Err(AvifError::BmffParseFailed);
            }
            proof {
                lemma_count_zero(properties@, |p: ItemProperty| is_nclx(p));
            }
            None
        },
    };
    match find_icc(properties) {
        Ok(_) => {},
        Err(multiple) => {
            if multiple {
                return Err(AvifError::BmffParseFailed);
            }
        },
    }
    let c = match find_av1C(properties) {
        Some(c) => *c,
        None => {
            return Err(AvifError::BmffParseFailed);
        },
    };
    let cicp = match nclx {
        Some(n) => {
            image.color_primaries = ColorPrimaries::from_u16(n.color_primaries);
            image.transfer_characteristics = TransferCharacteristics::from_u16(n.transfer_characteristics);
            image.matrix_coefficients = MatrixCoefficients::from_u16(n.matrix_coefficients);
            image.yuv_range = if n.full_range {
                YuvRange::Full
            } else {
                YuvRange::Limited
            };
            true
        },
        None => false,
    };
    image.clli = match first_of_kind(properties, 0) {
        Some(i) => match &properties[i] {
            ItemProperty::ContentLightLevelInformation(x) => Some(*x),
            _ => None,
        },
        None => None,
    };
    image.pasp = match first_of_kind(properties, 1) {
        Some(i) => match &properties[i] {
            ItemProperty::PixelAspectRatio(x) => Some(*x),
            _ => None,
        },
        None => None,
    };
    image.clap = match first_of_kind(properties, 2) {
        Some(i) => match &properties[i] {
            ItemProperty::ClearAperture(x) => Some(*x),
            _ => None,
        },
        None => None,
    };
    image.irot_angle = match first_of_kind(properties, 3) {
        Some(i) => match &properties[i] {
            ItemProperty::ImageRotation(x) => Some(*x),
            _ => None,
        },
        None => None,
    };
    image.imir_axis = match first_of_kind(properties, 4) {
        Some(i) => match &properties[i] {
            ItemProperty::ImageMirror(x) => Some(*x),
            _ => None,
        },
        None => None,
    };
    image.depth = c.depth();
    image.yuv_format = c.pixel_format();
    image.chroma_sample_position = c.chroma_sample_position;
    Ok(cicp)
}

/// The bytes of an item with several extents, one extent after the other,
/// as `io` gives them; what it gives is not stated (the reader is the
/// caller's), but an item without extents gives no bytes.
fn read_extents<T: IO + ?Sized>(io: &mut T, item: &Item) -> (r: AvifResult<Vec<u8>>)
    ensures
        item.extents@.len() == 0 ==> (r matches Ok(v) && v@.len() == 0),
{
    let mut data: Vec<u8> = Vec::new();
    let mut i: usize = 0;
    while i < item.extents.len()
        invariant
            item.extents@.len() == 0 ==> data@.len() == 0,
        decreases item.extents@.len() - i,
    {
        let size = usize_from_u64(item.extents[i].length)?;
        let bytes = io.read(item.extents[i].offset, size)?;
        data.extend_from_slice(bytes);
        i += 1;
    }
    Ok(data)
}

impl Decoder {
    /// Adds the Exif and XMP metadata of the colour item to the image,
    /// unless the settings ignore them: the first item of each kind in the
    /// order of the item information entries. The Exif data must hold a
    /// TIFF header; what follows its offset field is kept.
    #[verifier::rlimit(40)]
    fn search_exif_or_xmp_metadata<T: IO + ?Sized>(&mut self, io: &mut T, iinf: &Vec<ItemInfo>, color_id: u32) -> (r: AvifResult<()>)
        ensures
            final(self).items@ == old(self).items@,
            final(self).tracks@ == old(self).tracks@,
            final(self).settings == old(self).settings,
            final(self).source == old(self).source,
            final(self).tiles == old(self).tiles,
            final(self).tile_info == old(self).tile_info,
            final(self).image == (Image { exif: final(self).image.exif, xmp: final(self).image.xmp, ..old(self).image }),
            final(self).image_count == old(self).image_count,
            final(self).parse_state == old(self).parse_state,
            final(self).color_track_id == old(self).color_track_id,
            final(self).image_index == old(self).image_index,
            final(self).timescale == old(self).timescale,
            final(self).duration_in_timescales == old(self).duration_in_timescales,
            final(self).repetition_count == old(self).repetition_count,
            final(self).gainmap_present == old(self).gainmap_present,
            old(self).settings.ignore_exif ==> final(self).image.exif@ == old(self).image.exif@,
            old(self).settings.ignore_xmp ==> final(self).image.xmp@ == old(self).image.xmp@,
            (old(self).settings.ignore_exif || !has_entry(old(self).items@, iinf@, 2, color_id)) && (old(self).settings.ignore_xmp
                || !has_entry(old(self).items@, iinf@, 3, color_id)) ==> r is Ok && final(self).image.exif@ == old(
                self,
            ).image.exif@ && final(self).image.xmp@ == old(self).image.xmp@,
    {
        if self.settings.ignore_exif && self.settings.ignore_xmp {
            return Ok(());
        }
        if !self.settings.ignore_exif {
            match find_item(&self.items, iinf, 2, color_id) {
                Some(id) => {
                    let item = match self.items.get(&id) {
                        Some(x) => x,
                        None => {
                            return Err(AvifError::BmffParseFailed);
                        },
                    };
                    if item.idat.len() == 0 && item.extents.len() == 0 {
                        return Err(AvifError::BmffParseFailed);
                    }
                    let mut stream = item.stream(io)?;
                    exif::parse(&mut stream)?;
                    let left = stream.bytes_left();
                    let bytes = stream.get_slice(left)?;
                    self.image.exif.extend_from_slice(bytes);
                },
                None => {},
            }
        }
        if !self.settings.ignore_xmp {
            match find_item(&self.items, iinf, 3, color_id) {
                Some(id) => {
                    let item = match self.items.get(&id) {
                        Some(x) => x,
                        None => {
                            return Err(AvifError::BmffParseFailed);
                        },
                    };
                    if item.idat.len() == 0 && item.extents.len() == 0 {
                        return Err(AvifError::BmffParseFailed);
                    }
                    let mut stream = item.stream(io)?;
                    let left = stream.bytes_left();
                    let bytes = stream.get_slice(left)?;
                    self.image.xmp.extend_from_slice(bytes);
                },
                None => {},
            }
        }
        Ok(())
    }

    /// Takes the colour code points from the AV1 sequence header at the
    /// start of the first sample of the first colour tile, looking at its
    /// first 64, 128, ... bytes (less than 4096) until a sequence header is
    /// found. An item with several extents is read into one buffer first;
    /// the search ends where the buffer ends.
    #[verifier::loop_isolation(false)]
    #[verifier::rlimit(50)]
    #[verifier::spinoff_prover]
    fn harvest_cicp_from_sequence_header<T: IO + ?Sized>(&mut self, io: &mut T) -> (r: AvifResult<()>)
        ensures
            final(self).items@ == old(self).items@,
            final(self).tracks@ == old(self).tracks@,
            final(self).settings == old(self).settings,
            final(self).source == old(self).source,
            final(self).tiles == old(self).tiles,
            final(self).tile_info == old(self).tile_info,
            final(self).image == (Image {
                color_primaries: final(self).image.color_primaries,
                transfer_characteristics: final(self).image.transfer_characteristics,
                matrix_coefficients: final(self).image.matrix_coefficients,
                yuv_range: final(self).image.yuv_range,
                ..old(self).image
            }),
            final(self).image_count == old(self).image_count,
            final(self).parse_state == old(self).parse_state,
            final(self).color_track_id == old(self).color_track_id,
            final(self).image_index == old(self).image_index,
            final(self).timescale == old(self).timescale,
            final(self).duration_in_timescales == old(self).duration_in_timescales,
            final(self).repetition_count == old(self).repetition_count,
            final(self).gainmap_present == old(self).gainmap_present,
            old(self).tiles[0]@.len() == 0 ==> r is Ok && final(self).image == old(self).image,
            old(self).tiles[0]@.len() > 0 && old(self).tiles[0]@[0].input.samples@.len() == 0 ==> r == Err::<(), AvifError>(
                AvifError::NoImagesRemaining,
            ) && final(self).image == old(self).image,
            ({
                let t = old(self).tiles[0]@;
                t.len() > 0 && t[0].input.samples@.len() > 0 && t[0].input.samples@[0].item_id != 0
                    && !old(self).items@.contains_key(t[0].input.samples@[0].item_id) ==> r == Err::<(), AvifError>(
                    AvifError::BmffParseFailed,
                ) && final(self).image == old(self).image
            }),
            r is Ok ==> final(self).image == old(self).image || exists|b: Seq<u8>|
                #[trigger] sequence_header_of(b) matches Some(h) && cicp_from_header(final(self).image, h),
    {
        if self.tiles[0].len() == 0 {
            return Ok(());
        }
        if self.tiles[0][0].input.samples.len() == 0 {
            return Err(AvifError::NoImagesRemaining);
        }
        let sample = self.tiles[0][0].input.samples[0];
        let buffer: Option<Vec<u8>> = if sample.item_id == 0 {
            None
        } else {
            let item = match self.items.get(&sample.item_id) {
                Some(x) => x,
                None => {
                    return Err(AvifError::BmffParseFailed);
                },
            };
            if item.extents.len() == 1 {
                None
            } else {
                Some(read_extents(io, item)?)
            }
        };
        let mut found: Option<Av1SequenceHeader> = None;
        let ghost mut seen: Seq<u8> = Seq::empty();
        let mut search_size: usize = 64;
        while search_size < 4096
            invariant
                search_size <= 4160,
                found is None,
            decreases 4160 - search_size,
        {
            match &buffer {
                Some(b) => {
                    if sample.offset > b.len() as u64 || search_size as u64 > b.len() as u64 - sample.offset {
                        break;
                    }
                },
                None => {},
            }
            let data = sample.partial_data(io, &buffer, search_size)?;
            match Av1SequenceHeader::parse_from_obus(data) {
                Ok(sequence_header) => {
                    proof {
                        seen = data@;
                    }
                    found = Some(sequence_header);
                    break;
                },
                Err(_) => {},
            }
            search_size += 64;
        }
        match found {
            Some(sequence_header) => {
                self.image.color_primaries = ColorPrimaries::from_u16(sequence_header.color_primaries);
                self.image.transfer_characteristics = TransferCharacteristics::from_u16(sequence_header.transfer_characteristics);
                self.image.matrix_coefficients = MatrixCoefficients::from_u16(sequence_header.matrix_coefficients);
                self.image.yuv_range = if sequence_header.full_range {
                    YuvRange::Full
                } else {
                    YuvRange::Limited
                };
                assert(sequence_header_of(seen) == Some(sequence_header));
                assert(cicp_from_header(self.image, sequence_header));
            },
            None => {},
        }
        Ok(())
    }
}

/// The image's colour code points and range are those of the sequence
/// header (unknown code points read as unspecified).
pub open spec fn cicp_from_header(image: Image, h: Av1SequenceHeader) -> bool {
    &&& image.color_primaries == ColorPrimaries::spec_from_u16(h.color_primaries)
    &&& image.transfer_characteristics == TransferCharacteristics::spec_from_u16(h.transfer_characteristics)
    &&& image.matrix_coefficients == MatrixCoefficients::spec_from_u16(h.matrix_coefficients)
    &&& image.yuv_range == (if h.full_range {
        YuvRange::Full
    } else {
        YuvRange::Limited
    })
}

/// The item is a tone mapped image that is no thumbnail.
pub open spec fn is_tone_mapped(item: Item) -> bool {
    item.spec_is_metadata("tmap"@, 0) && item.thumbnail_for_id == 0
}

/// The ids of the entries whose items have a `dimg` reference naming
/// `id`, in order.
pub open spec fn derived_ids(items: Map<u32, Item>, iinf: Seq<ItemInfo>, id: u32) -> Seq<u32>
    decreases iinf.len(),
{
    if iinf.len() == 0 {
        Seq::empty()
    } else {
        let prev = derived_ids(items, iinf.drop_last(), id);
        let x = iinf.last().item_id;
        if items.contains_key(x) && items[x].dimg_for_id == id {
            prev.push(x)
        } else {
            prev
        }
    }
}

/// The ids of the items whose `dimg` reference names `id`, in the order of
/// the item information entries.
fn derived_inputs(items: &HashMap<u32, Item>, iinf: &Vec<ItemInfo>, id: u32) -> (r: Vec<u32>)
    ensures
        r@ == derived_ids(items@, iinf@, id),
        forall|k: int| 0 <= k < r@.len() ==> items@.contains_key(#[trigger] r@[k]) && items@[r@[k]].dimg_for_id == id,
{
    let mut r: Vec<u32> = Vec::new();
    let mut i: usize = 0;
    while i < iinf.len()
        invariant
            0 <= i <= iinf@.len(),
            r@ == derived_ids(items@, iinf@.take(i as int), id),
            forall|k: int| 0 <= k < r@.len() ==> items@.contains_key(#[trigger] r@[k]) && items@[r@[k]].dimg_for_id == id,
        decreases iinf@.len() - i,
    {
        assert(iinf@.take(i + 1).drop_last() =~= iinf@.take(i as int));
        let item_id = iinf[i].item_id;
        match items.get(&item_id) {
            Some(item) => {
                if item.dimg_for_id == id {
                    let ghost prev = r@;
                    r.push(item_id);
                    assert forall|k: int| 0 <= k < r@.len() implies items@.contains_key(#[trigger] r@[k])
                        && items@[r@[k]].dimg_for_id == id by {
                        if k < prev.len() {
                            assert(r@[k] == prev[k]);
                        }
                    }
                }
            },
            None => {},
        }
        i += 1;
    }
    assert(iinf@.take(iinf@.len() as int) =~= iinf@);
    r
}

/// What the search for the tone mapped image of the colour item finds
/// from entry `i` of the item information on: `find_tone_mapped_image_item`.
pub open spec fn tone_mapped_from(items: Map<u32, Item>, iinf: Seq<ItemInfo>, color_item_id: u32, i: int) -> AvifResult<(u32, u32)>
    decreases iinf.len() - i,
{
    if i >= iinf.len() || i < 0 {
        Ok((0, 0))
    } else {
        let x = iinf[i].item_id;
        if items.contains_key(x) && is_tone_mapped(items[x]) {
            let inputs = derived_ids(items, iinf, items[x].id);
            if inputs.len() != 2 {
                Err(AvifError::InvalidToneMappedImage)
            } else {
                let (base, gainmap) = if items[inputs[0]].dimg_index == 0 {
                    (inputs[0], inputs[1])
                } else {
                    (inputs[1], inputs[0])
                };
                if items[base].id == color_item_id {
                    Ok((items[x].id, items[gainmap].id))
                } else {
                    tone_mapped_from(items, iinf, color_item_id, i + 1)
                }
            }
        } else {
            tone_mapped_from(items, iinf, color_item_id, i + 1)
        }
    }
}

/// The tone mapped image of the colour item and its gain map: the first
/// tone mapped image item, in the order of the item information entries,
/// whose input of index 0 is the colour item, with its other input. Every
/// tone mapped image looked at must have exactly two inputs, else
/// `InvalidToneMappedImage`. `(0, 0)` where there is none.
fn find_tone_mapped_image_item(items: &HashMap<u32, Item>, iinf: &Vec<ItemInfo>, color_item_id: u32) -> (r: AvifResult<(u32, u32)>)
    requires
        keyed_by_id(items@),
    ensures
        r == tone_mapped_from(items@, iinf@, color_item_id, 0),
        r is Err ==> r == Err::<(u32, u32), AvifError>(AvifError::InvalidToneMappedImage),
        r matches Ok((t, g)) ==> (t == 0 && g == 0) || (items@.contains_key(t) && is_tone_mapped(items@[t])
            && items@.contains_key(g) && items@[g].dimg_for_id == items@[t].id),
{
    let mut i: usize = 0;
    while i < iinf.len()
        invariant
            keyed_by_id(items@),
            tone_mapped_from(items@, iinf@, color_item_id, 0) == tone_mapped_from(items@, iinf@, color_item_id, i as int),
        decreases iinf@.len() - i,
    {
        let id = iinf[i].item_id;
        match items.get(&id) {
            Some(item) => {
                assert(items@.contains_key(id) && items@[id] == *item);
                if item.is_tmap() {
                    let inputs = derived_inputs(items, iinf, item.id);
                    if inputs.len() != 2 {
                        return Err(AvifError::InvalidToneMappedImage);
                    }
                    let (first, second) = match (items.get(&inputs[0]), items.get(&inputs[1])) {
                        (Some(a), Some(b)) => (a, b),
                        _ => {
                            return Err(AvifError::InvalidToneMappedImage);
                        },
                    };
                    let (base, gainmap) = if first.dimg_index == 0 {
                        (first, second)
                    } else {
                        (second, first)
                    };
                    if base.id == color_item_id {
                        assert(items@.contains_key(inputs@[0]) && items@.contains_key(inputs@[1]));
                        return Ok((item.id, gainmap.id));
                    }
                }
            },
            None => {},
        }
        i += 1;
    }
    Ok((0, 0))
}

/// The grid of an item that is no grid.
pub open spec fn no_grid() -> Grid {
    Grid { rows: 0, columns: 0, width: 0, height: 0 }
}

/// What `find_gainmap_item` gives: the tone mapped image and gain map that
/// `tone_mapped_from` finds, where the gain map is there and not skipped.
pub open spec fn gainmap_of(items: Map<u32, Item>, iinf: Seq<ItemInfo>, color_item_id: u32) -> AvifResult<(u32, u32)> {
    match tone_mapped_from(items, iinf, color_item_id, 0) {
        Err(e) => Err(e),
        Ok((t, g)) => if t == 0 || g == 0 {
            Ok((0, 0))
        } else if !items.contains_key(g) || items[g].spec_should_skip() {
            Err(AvifError::InvalidToneMappedImage)
        } else {
            Ok((t, g))
        },
    }
}

/// What `validate_gainmap_item` gives.
pub open spec fn gainmap_check(items: Map<u32, Item>, gainmap_id: u32, tonemap_id: u32) -> AvifResult<()> {
    if !items.contains_key(gainmap_id) {
        Err(AvifError::InvalidToneMappedImage)
    } else if tonemap_id == 0 {
        Ok(())
    } else if !items.contains_key(tonemap_id) {
        Err(AvifError::InvalidToneMappedImage)
    } else if count_where(items[tonemap_id].properties@, |p: ItemProperty| is_nclx(p)) > 1 || count_where(
        items[tonemap_id].properties@,
        |p: ItemProperty| is_icc(p),
    ) > 1 || (items[tonemap_id].spec_pixi() matches Some(p) && p.plane_count == 0) {
        Err(AvifError::BmffParseFailed)
    } else {
        Ok(())
    }
}

/// The tone mapped image and gain map of the colour item (see
/// `find_tone_mapped_image_item`); the gain map must be there and not be
/// skipped.
fn find_gainmap_item(items: &HashMap<u32, Item>, iinf: &Vec<ItemInfo>, color_item_id: u32) -> (r: AvifResult<(u32, u32)>)
    requires
        keyed_by_id(items@),
    ensures
        r == gainmap_of(items@, iinf@, color_item_id),
        r is Err ==> r == Err::<(u32, u32), AvifError>(AvifError::InvalidToneMappedImage),
        r matches Ok((t, g)) ==> (t == 0 && g == 0) || (t != 0 && g != 0 && items@.contains_key(t) && is_tone_mapped(items@[t])
            && items@.contains_key(g) && items@[g].dimg_for_id == t && !items@[g].spec_should_skip()),
{
    let (tonemap_id, gainmap_id) = find_tone_mapped_image_item(items, iinf, color_item_id)?;
    if tonemap_id == 0 || gainmap_id == 0 {
        return Ok((0, 0));
    }
    match items.get(&gainmap_id) {
        Some(gainmap_item) => {
            if gainmap_item.should_skip() {
                return Err(AvifError::InvalidToneMappedImage);
            }
        },
        None => {
            return Err(AvifError::InvalidToneMappedImage);
        },
    }
    Ok((tonemap_id, gainmap_id))
}

/// The checks on a gain map and its tone mapped image: the tone mapped
/// image may have at most one colour box of each kind, and its pixel
/// information, where there is one, must have planes.
fn validate_gainmap_item(items: &HashMap<u32, Item>, gainmap_id: u32, tonemap_id: u32) -> (r: AvifResult<()>)
    ensures
        r == gainmap_check(items@, gainmap_id, tonemap_id),
        r is Ok ==> items@.contains_key(gainmap_id),
        r is Ok && tonemap_id != 0 ==> items@.contains_key(tonemap_id)
            && count_where(items@[tonemap_id].properties@, |p: ItemProperty| is_nclx(p)) <= 1
            && count_where(items@[tonemap_id].properties@, |p: ItemProperty| is_icc(p)) <= 1
            && (items@[tonemap_id].spec_pixi() matches Some(p) ==> p.plane_count != 0),
{
    if !items.contains_key(&gainmap_id) {
        return Err(AvifError::InvalidToneMappedImage);
    }
    if tonemap_id == 0 {
        return Ok(());
    }
    let tonemap_item = match items.get(&tonemap_id) {
        Some(x) => x,
        None => {
            return Err(AvifError::InvalidToneMappedImage);
        },
    };
    match find_nclx(tonemap_item.properties.as_slice()) {
        Ok(_) => {},
        Err(multiple) => {
            if multiple {
                return Err(AvifError::BmffParseFailed);
            }
        },
    }
    match find_icc(tonemap_item.properties.as_slice()) {
        Ok(_) => {},
        Err(multiple) => {
            if multiple {
                return Err(AvifError::BmffParseFailed);
            }
        },
    }
    match tonemap_item.pixi() {
        Some(p) => {
            if p.plane_count == 0 {
                return Err(AvifError::BmffParseFailed);
            }
        },
        None => {},
    }
    Ok(())
}

/// Reads the grid description of the item `id` into `grid` (items of other
/// types leave it as it is).
fn read_grid<T: IO + ?Sized>(items: &HashMap<u32, Item>, io: &mut T, id: u32, grid: &mut Grid) -> (r: AvifResult<()>)
    ensures
        !items@.contains_key(id) ==> r == Err::<(), AvifError>(AvifError::MissingImageItem),
        items@.contains_key(id) && items@[id].item_type@ != "grid"@ ==> r is Ok && *final(grid) == *old(grid),
{
    let item = match items.get(&id) {
        Some(x) => x,
        None => {
            return Err(AvifError::MissingImageItem);
        },
    };
    if string_is(&item.item_type, "grid") && item.idat.len() == 0 && item.extents.len() == 0 {
        return Err(AvifError::BmffParseFailed);
    }
    item.read_and_parse(io, grid)
}

/// What `validate_item` gives.
pub open spec fn item_check(items: Map<u32, Item>, id: u32, pixi_required: bool) -> AvifResult<()> {
    if !items.contains_key(id) {
        Err(AvifError::MissingImageItem)
    } else if items[id].item_type@ == "grid"@ && exists|k: int|
        0 <= k < items[id].grid_item_ids@.len() && !items.contains_key(#[trigger] items[id].grid_item_ids@[k]) {
        Err(AvifError::InvalidImageGrid)
    } else if items[id].spec_pixi() matches Some(p) && p.plane_count > 4 {
        Err(AvifError::BmffParseFailed)
    } else if !items[id].spec_properties_valid(items, pixi_required) {
        Err(AvifError::BmffParseFailed)
    } else {
        Ok(())
    }
}

/// Items that differ only in whether they are progressive check alike.
proof fn lemma_check_kept(a: Map<u32, Item>, b: Map<u32, Item>, id: u32, pixi_required: bool)
    requires
        a.dom() == b.dom(),
        forall|k: u32| #[trigger] b.contains_key(k) ==> b[k] == (Item { progressive: b[k].progressive, ..a[k] }),
    ensures
        item_check(a, id, pixi_required) == item_check(b, id, pixi_required),
{
    if a.contains_key(id) {
        assert(b[id].properties@ == a[id].properties@);
        assert(b[id].spec_pixi() == a[id].spec_pixi());
        assert(b[id].spec_av1c() == a[id].spec_av1c());
        assert forall|k: u32| #[trigger] a.contains_key(k) implies b[k].spec_av1c() == a[k].spec_av1c() by {
            assert(b[k].properties@ == a[k].properties@);
        }
        if a[id].spec_av1c() is Some {
            let c = a[id].spec_av1c().unwrap();
            if a[id].item_type@ == "grid"@ && forall|k: int|
                0 <= k < a[id].grid_item_ids@.len() ==> a.contains_key(#[trigger] a[id].grid_item_ids@[k]) {
                assert(a[id].grid_av1c_match(a, c) == b[id].grid_av1c_match(b, c)) by {
                    assert forall|k: int| 0 <= k < a[id].grid_item_ids@.len() implies a[#[trigger] a[id].grid_item_ids@[k]].spec_av1c()
                        == b[b[id].grid_item_ids@[k]].spec_av1c() by {
                        assert(a.contains_key(a[id].grid_item_ids@[k]));
                    }
                }
            }
        }
    }
}

/// Checks the properties of the item `id` against the items (see
/// `Item::validate_properties`).
fn validate_item(items: &HashMap<u32, Item>, id: u32, pixi_required: bool) -> (r: AvifResult<()>)
    ensures
        r == item_check(items@, id, pixi_required),
        r is Ok ==> items@.contains_key(id) && items@[id].spec_properties_valid(items@, pixi_required),
        r is Ok && items@[id].item_type@ == "grid"@ ==> forall|k: int|
            0 <= k < items@[id].grid_item_ids@.len() ==> items@.contains_key(#[trigger] items@[id].grid_item_ids@[k]),
{
    let item = match items.get(&id) {
        Some(x) => x,
        None => {
            return Err(AvifError::MissingImageItem);
        },
    };
    assert(*item == items@[id]);
    if string_is(&item.item_type, "grid") {
        let mut k: usize = 0;
        while k < item.grid_item_ids.len()
            invariant
                0 <= k <= item.grid_item_ids@.len(),
                items@.contains_key(id),
                *item == items@[id],
                item.item_type@ == "grid"@,
                forall|j: int| 0 <= j < k ==> items@.contains_key(#[trigger] item.grid_item_ids@[j]),
            decreases item.grid_item_ids@.len() - k,
        {
            if !items.contains_key(&item.grid_item_ids[k]) {
                assert(!items@.contains_key(items@[id].grid_item_ids@[k as int]));
                return Err(AvifError::InvalidImageGrid);
            }
            k += 1;
        }
        assert(forall|j: int| 0 <= j < items@[id].grid_item_ids@.len() ==> items@.contains_key(#[trigger] items@[id].grid_item_ids@[j]));
    }
    match item.pixi() {
        Some(p) => {
            if p.plane_count > 4 {
                return Err(AvifError::BmffParseFailed);
            }
        },
        None => {},
    }
    assert(!(items@[id].item_type@ == "grid"@ && exists|k: int|
        0 <= k < items@[id].grid_item_ids@.len() && !items@.contains_key(#[trigger] items@[id].grid_item_ids@[k])));
    assert(!(items@[id].spec_pixi() matches Some(p) && p.plane_count > 4));
    let r = item.validate_properties(items, pixi_required);
    assert(r is Ok <==> items@[id].spec_properties_valid(items@, pixi_required));
    match r {
        Ok(()) => Ok(()),
        Err(_) => Err(AvifError::BmffParseFailed),
    }
}

/// The items keep their properties, types and grid tiles.
pub open spec fn same_properties(a: Map<u32, Item>, b: Map<u32, Item>) -> bool {
    &&& a.dom() == b.dom()
    &&& forall|k: u32| #[trigger] a.contains_key(k) ==> b[k].properties@ == a[k].properties@
        && b[k].item_type@ == a[k].item_type@ && b[k].grid_item_ids@ == a[k].grid_item_ids@
}

/// Validity of an item's properties depends on the properties, types and
/// grid tiles of the items alone.
proof fn lemma_valid_kept(a: Map<u32, Item>, b: Map<u32, Item>, id: u32, pixi_required: bool)
    requires
        same_properties(a, b),
        a.contains_key(id),
        a[id].spec_properties_valid(a, pixi_required),
        a[id].item_type@ == "grid"@ ==> forall|k: int|
            0 <= k < a[id].grid_item_ids@.len() ==> a.contains_key(#[trigger] a[id].grid_item_ids@[k]),
    ensures
        b[id].spec_properties_valid(b, pixi_required),
{
    let x = a[id];
    let y = b[id];
    assert(y.spec_av1c() == x.spec_av1c());
    assert(y.spec_pixi() == x.spec_pixi());
    let c = x.spec_av1c().unwrap();
    if y.item_type@ == "grid"@ {
        assert forall|k: int| 0 <= k < y.grid_item_ids@.len() implies b[#[trigger] y.grid_item_ids@[k]].spec_av1c() == Some(c) by {
            let t = y.grid_item_ids@[k];
            assert(x.grid_item_ids@[k] == t);
            assert(a[t].spec_av1c() == Some(c));
            assert(a.contains_key(t));
            assert(b[t].properties@ == a[t].properties@);
        }
    }
}

/// The tile information of a category: its tile count and grid.
fn tile_info_of(tile_count: u32, grid: Grid) -> (r: TileInfo)
    ensures
        r.tile_count == tile_count && r.decoded_tile_count == 0 && r.grid == grid,
{
    TileInfo { tile_count, decoded_tile_count: 0, grid }
}

fn empty_grid() -> (r: Grid)
    ensures
        r == (Grid { rows: 0, columns: 0, width: 0, height: 0 }),
{
    Grid { rows: 0, columns: 0, width: 0, height: 0 }
}

/// The alpha item of the colour item (see `find_alpha_item`): an item
/// found among the items has its grid description read and its grid tiles
/// collected; a made-up grid item joins the items and takes the colour
/// grid. Returns its id (0 without one), its grid, and whether its pixel
/// information is not to be checked (for a made-up item).
fn prepare_alpha_item<T: IO + ?Sized>(items: &mut HashMap<u32, Item>, io: &mut T, meta: &MetaBox, color_id: u32, grid0: Grid) -> (r: AvifResult<(u32, Grid, bool)>)
    requires
        old(items)@.contains_key(color_id),
        keyed_by_id(old(items)@),
        old(items)@.dom() == info_ids(meta),
        meta.valid(),
    ensures
        keyed_by_id(final(items)@),
        final(items)@.contains_key(color_id),
        r matches Ok((a, _g, _i)) ==> a != 0 ==> final(items)@.contains_key(a),
        r matches Ok((_a, g, i)) ==> (i ==> g == grid0),
        (forall|id: u32| old(items)@.contains_key(id) && item_matches(0, #[trigger] old(items)@[id], color_id)
            ==> old(items)@[id].item_type@ != "grid"@) ==> r is Ok,
{
    let mut grid1 = empty_grid();
    let (found_alpha_id, made_alpha) = find_alpha_item(items, meta, color_id);
    if found_alpha_id != 0 {
        read_grid(items, io, found_alpha_id, &mut grid1)?;
        populate_grid_item_ids(items, &meta.iinf, found_alpha_id, &tile_info_of(0, grid1))?;
        return Ok((found_alpha_id, grid1, false));
    }
    match made_alpha {
        Some(item) => {
            let id = item.id;
            items.insert(id, item);
            Ok((id, grid0, true))
        },
        None => Ok((0, grid1, false)),
    }
}

/// The gain map of the colour item (see `find_gainmap_item`), with its
/// grid description read, its grid tiles collected and the checks of
/// `validate_gainmap_item` made. Returns the ids of the tone mapped image
/// and the gain map (both 0 without them) and the gain map's grid.
fn prepare_gainmap_item<T: IO + ?Sized>(items: &mut HashMap<u32, Item>, io: &mut T, meta: &MetaBox, color_id: u32) -> (r: AvifResult<(u32, u32, Grid)>)
    requires
        old(items)@.contains_key(color_id),
        keyed_by_id(old(items)@),
    ensures
        keyed_by_id(final(items)@),
        final(items)@.contains_key(color_id),
        r matches Ok((t, g, _grid)) ==> (t == 0 && g == 0) || (t != 0 && g != 0 && final(items)@.contains_key(g)),
        ({
            let found = gainmap_of(old(items)@, meta.iinf@, color_id);
            &&& found matches Err(e) ==> r == Err::<(u32, u32, Grid), AvifError>(e)
            &&& found == Ok::<(u32, u32), AvifError>((0, 0)) ==> r == Ok::<(u32, u32, Grid), AvifError>((0, 0, no_grid()))
            &&& (found matches Ok((t, g)) && t != 0 && g != 0 && old(items)@[g].item_type@ != "grid"@ && gainmap_check(
                old(items)@,
                g,
                t,
            ) is Ok) ==> r == Ok::<(u32, u32, Grid), AvifError>((found->Ok_0.0, found->Ok_0.1, no_grid()))
            &&& (found matches Ok((t, g)) && t != 0 && g != 0 && old(items)@[g].item_type@ != "grid"@ && gainmap_check(
                old(items)@,
                g,
                t,
            ) is Err) ==> r == Err::<(u32, u32, Grid), AvifError>(gainmap_check(old(items)@, found->Ok_0.1, found->Ok_0.0)->Err_0)
        }),
{
    let mut grid2 = empty_grid();
    let (tonemap_id, gainmap_id) = find_gainmap_item(items, &meta.iinf, color_id)?;
    if tonemap_id != 0 && gainmap_id != 0 {
        read_grid(items, io, gainmap_id, &mut grid2)?;
        populate_grid_item_ids(items, &meta.iinf, gainmap_id, &tile_info_of(0, grid2))?;
        validate_gainmap_item(items, gainmap_id, tonemap_id)?;
    }
    Ok((tonemap_id, gainmap_id, grid2))
}

/// The items with the alpha item of no size given the colour item's size.
pub open spec fn alpha_sized(items: Map<u32, Item>, alpha_id: u32, color_id: u32) -> Map<u32, Item> {
    if items[alpha_id].width == 0 && items[alpha_id].height == 0 {
        items.insert(alpha_id, Item { width: items[color_id].width, height: items[color_id].height, ..items[alpha_id] })
    } else {
        items
    }
}

/// Whether `make_alpha_tiles` succeeds: both items are there, an alpha
/// item without size is allowed one, tiles can be made of it and its
/// properties pass `validate_item`.
pub open spec fn alpha_tiles_ok(items: Map<u32, Item>, alpha_id: u32, color_id: u32, grid1: Grid, settings: Settings, pixi_required: bool) -> bool {
    let sized = alpha_sized(items, alpha_id, color_id);
    &&& items.contains_key(alpha_id) && items.contains_key(color_id)
    &&& !(items[alpha_id].width == 0 && items[alpha_id].height == 0 && settings.strictness.requires_flag(
        StrictnessFlag::AlphaIspeRequired,
    ))
    &&& tiles_ok_in(
        sized,
        alpha_id,
        TileInfo { tile_count: 0, decoded_tile_count: 0, grid: grid1 },
        settings.allow_progressive,
        settings.image_count_limit,
    )
    &&& item_check(sized, alpha_id, pixi_required) is Ok
}

/// The tiles of the alpha item, which takes the size of the colour item
/// where it has none (only where alpha need not have spatial extents); its
/// properties are checked.
fn make_alpha_tiles(items: &mut HashMap<u32, Item>, alpha_id: u32, color_id: u32, grid1: Grid, settings: &Settings, pixi_required: bool) -> (r: AvifResult<Vec<Tile>>)
    requires
        keyed_by_id(old(items)@),
    ensures
        keyed_by_id(final(items)@),
        same_properties(old(items)@, final(items)@),
        forall|k: u32| #[trigger] final(items)@.contains_key(k) ==> final(items)@[k].size == old(items)@[k].size
            && final(items)@[k].has_unsupported_essential_property == old(items)@[k].has_unsupported_essential_property
            && final(items)@[k].thumbnail_for_id == old(items)@[k].thumbnail_for_id,
        r matches Ok(t) ==> t@.len() >= 1,
        r is Ok <==> alpha_tiles_ok(old(items)@, alpha_id, color_id, grid1, *settings, pixi_required),
{
    let ghost start = items@;
    let (aw, ah, cw, ch) = match (items.get(&alpha_id), items.get(&color_id)) {
        (Some(a), Some(c)) => (a.width, a.height, c.width, c.height),
        _ => {
            return Err(AvifError::MissingImageItem);
        },
    };
    if aw == 0 && ah == 0 {
        if settings.strictness.alpha_ispe_required() {
            return Err(AvifError::BmffParseFailed);
        }
        match items.remove(&alpha_id) {
            Some(mut a) => {
                a.width = cw;
                a.height = ch;
                items.insert(alpha_id, a);
                assert(items@.dom() =~= start.dom());
            },
            None => {
                return Err(AvifError::MissingImageItem);
            },
        }
    }
    assert(same_properties(start, items@));
    let ghost mid = items@;
    let tiles = generate_tiles(
        items,
        alpha_id,
        Category::Alpha,
        &tile_info_of(0, grid1),
        settings.allow_progressive,
        settings.image_count_limit,
    )?;
    assert(same_properties(mid, items@));
    proof {
        assert(mid =~= alpha_sized(start, alpha_id, color_id));
        lemma_check_kept(mid, items@, alpha_id, pixi_required);
    }
    validate_item(items, alpha_id, pixi_required)?;
    Ok(tiles)
}

impl Decoder {
    /// Takes the images from the primary item (the colour item), its alpha
    /// item where it has one, and their tiles; returns the colour item's
    /// id.
    #[verifier::rlimit(100)]
    #[verifier::spinoff_prover]
    fn parse_primary_item<T: IO + ?Sized>(&mut self, io: &mut T, meta: &MetaBox) -> (r: AvifResult<u32>)
        requires
            old(self).nothing_found(),
            old(self).items@.dom() == info_ids(meta),
            keyed_by_id(old(self).items@),
            meta.valid(),
        ensures
            final(self).settings == old(self).settings,
            final(self).source == old(self).source,
            final(self).tracks@ == old(self).tracks@,
            final(self).parse_state == old(self).parse_state,
            final(self).image.image_sequence_track_present == old(self).image.image_sequence_track_present,
            keyed_by_id(final(self).items@),
            !(old(self).items@.contains_key(meta.primary_item_id) && !old(self).items@[meta.primary_item_id].spec_should_skip())
                ==> r == Err::<u32, AvifError>(AvifError::NoContent),
            r matches Ok(cid) ==> {
                let color = final(self).items@[cid];
                &&& cid == meta.primary_item_id
                &&& old(self).items@.contains_key(cid) && !old(self).items@[cid].spec_should_skip()
                &&& final(self).items@.contains_key(cid)
                &&& !color.spec_should_skip()
                &&& final(self).tiles[0]@.len() >= 1
                &&& final(self).tiles[2]@.len() > 0 ==> final(self).settings.enable_decoding_gainmap && final(self).gainmap_present
                &&& forall|c: int| 0 <= c < 3 ==> #[trigger] final(self).tile_info[c].tile_count == final(self).tiles[c]@.len()
                &&& final(self).image.width == color.width && final(self).image.height == color.height
                &&& final(self).image.alpha_present == (final(self).tiles[1]@.len() > 0)
                &&& final(self).image_index == -1
                &&& final(self).image_count >= 1
                &&& final(self).timescale == 1 && final(self).duration_in_timescales == 1
                &&& final(self).image.progressive_state == if color.progressive {
                    if final(self).tiles[0]@[0].input.samples@.len() > 1 {
                        ProgressiveState::Active
                    } else {
                        ProgressiveState::Available
                    }
                } else {
                    old(self).image.progressive_state
                }
                &&& color.spec_properties_valid(final(self).items@, final(self).settings.strictness.requires_flag(StrictnessFlag::PixiRequired))
            },
    {
        let color_id = meta.primary_item_id;
        let found = match self.items.get(&color_id) {
            Some(item) => !item.should_skip() && item.id != 0,
            None => false,
        };
        if !found {
            return Err(AvifError::NoContent);
        }
        let mut grid0 = empty_grid();
        read_grid(&self.items, io, color_id, &mut grid0)?;
        populate_grid_item_ids(&mut self.items, &meta.iinf, color_id, &tile_info_of(0, grid0))?;
        assert(self.items@.dom() == info_ids(meta));
        let (alpha_id, grid1, ignore_pixi_validation_for_alpha) = prepare_alpha_item(&mut self.items, io, meta, color_id, grid0)?;
        let (tonemap_id, gainmap_id, grid2) = prepare_gainmap_item(&mut self.items, io, meta, color_id)?;
        if tonemap_id != 0 && gainmap_id != 0 {
            self.gainmap_present = true;
        }
        let decode_gainmap = tonemap_id != 0 && gainmap_id != 0 && self.settings.enable_decoding_gainmap;
        self.search_exif_or_xmp_metadata(io, &meta.iinf, color_id)?;
        self.image_index = -1;
        self.image_count = 1;
        self.timescale = 1;
        self.duration_in_timescales = 1;
        let pixi_required = self.settings.strictness.pixi_required();
        let color_tiles = generate_tiles(
            &mut self.items,
            color_id,
            Category::Color,
            &tile_info_of(0, grid0),
            self.settings.allow_progressive,
            self.settings.image_count_limit,
        )?;
        validate_item(&self.items, color_id, pixi_required)?;
        let ghost validated = self.items@;
        let alpha_tiles = if alpha_id != 0 {
            make_alpha_tiles(
                &mut self.items,
                alpha_id,
                color_id,
                grid1,
                &self.settings,
                pixi_required && !ignore_pixi_validation_for_alpha,
            )?
        } else {
            Vec::new()
        };
        assert(same_properties(validated, self.items@));
        let mut gainmap_tiles: Vec<Tile> = Vec::new();
        if decode_gainmap {
            let ghost before_gainmap = self.items@;
            gainmap_tiles = generate_tiles(
                &mut self.items,
                gainmap_id,
                Category::Gainmap,
                &tile_info_of(0, grid2),
                self.settings.allow_progressive,
                self.settings.image_count_limit,
            )?;
            assert(same_properties(before_gainmap, self.items@));
            assert(same_properties(validated, self.items@));
            validate_item(&self.items, gainmap_id, pixi_required)?;
        }
        proof {
            lemma_valid_kept(validated, self.items@, color_id, pixi_required);
        }
        let color_count = u32_from_usize(color_tiles.len())?;
        let alpha_count = u32_from_usize(alpha_tiles.len())?;
        let gainmap_count = u32_from_usize(gainmap_tiles.len())?;
        let (width, height, progressive) = match self.items.get(&color_id) {
            Some(c) => {
                if c.should_skip() {
                    return Err(AvifError::NoContent);
                }
                (c.width, c.height, c.progressive)
            },
            None => {
                return Err(AvifError::MissingImageItem);
            },
        };
        let sample_count = color_tiles[0].input.samples.len();
        self.tiles = [color_tiles, alpha_tiles, gainmap_tiles];
        self.tile_info = [tile_info_of(color_count, grid0), tile_info_of(alpha_count, grid1), tile_info_of(gainmap_count, grid2)];
        self.image.width = width;
        self.image.height = height;
        self.image.alpha_present = alpha_id != 0;
        if progressive {
            self.image.progressive_state = ProgressiveState::Available;
            if sample_count > 1 {
                self.image.progressive_state = ProgressiveState::Active;
                self.image_count = u32_from_usize(sample_count)?;
            }
        }
        Ok(color_id)
    }
}

/// Every sample of every tile has data.
pub open spec fn all_samples_nonzero(tiles: [Vec<Tile>; 3]) -> bool {
    forall|c: int, t: int, k: int|
        0 <= c < 3 && 0 <= t < tiles[c]@.len() && 0 <= k < tiles[c]@[t].input.samples@.len()
            ==> (#[trigger] tiles[c]@[t].input.samples@[k]).size > 0
}

fn samples_nonzero(tiles: &[Vec<Tile>; 3]) -> (r: bool)
    ensures
        r == all_samples_nonzero(*tiles),
{
    let mut c: usize = 0;
    while c < 3
        invariant
            0 <= c <= 3,
            forall|c2: int, t: int, k: int|
                0 <= c2 < c && 0 <= t < tiles[c2]@.len() && 0 <= k < tiles[c2]@[t].input.samples@.len()
                    ==> (#[trigger] tiles[c2]@[t].input.samples@[k]).size > 0,
        decreases 3 - c,
    {
        let mut t: usize = 0;
        while t < tiles[c].len()
            invariant
                0 <= c < 3,
                0 <= t <= tiles[c as int]@.len(),
                forall|c2: int, t2: int, k: int|
                    0 <= c2 < c && 0 <= t2 < tiles[c2]@.len() && 0 <= k < tiles[c2]@[t2].input.samples@.len()
                        ==> (#[trigger] tiles[c2]@[t2].input.samples@[k]).size > 0,
                forall|t2: int, k: int|
                    0 <= t2 < t && 0 <= k < tiles[c as int]@[t2].input.samples@.len()
                        ==> (#[trigger] tiles[c as int]@[t2].input.samples@[k]).size > 0,
            decreases tiles[c as int]@.len() - t,
        {
            let samples = &tiles[c][t].input.samples;
            let mut k: usize = 0;
            while k < samples.len()
                invariant
                    0 <= c < 3,
                    0 <= t < tiles[c as int]@.len(),
                    *samples == tiles[c as int]@[t as int].input.samples,
                    0 <= k <= samples@.len(),
                    forall|k2: int| 0 <= k2 < k ==> (#[trigger] samples@[k2]).size > 0,
                decreases samples@.len() - k,
            {
                if samples[k].size == 0 {
                    assert(tiles[c as int]@[t as int].input.samples@[k as int].size == 0);
                    return false;
                }
                k += 1;
            }
            assert forall|t2: int, k2: int|
                0 <= t2 < t + 1 && 0 <= k2 < tiles[c as int]@[t2].input.samples@.len()
                    implies (#[trigger] tiles[c as int]@[t2].input.samples@[k2]).size > 0 by {
                if t2 == t {
                    assert(samples@[k2] == tiles[c as int]@[t2].input.samples@[k2]);
                }
            }
            t += 1;
        }
        assert forall|c2: int, t2: int, k: int|
            0 <= c2 < c + 1 && 0 <= t2 < tiles[c2]@.len() && 0 <= k < tiles[c2]@[t2].input.samples@.len()
                implies (#[trigger] tiles[c2]@[t2].input.samples@[k]).size > 0 by {
            if c2 == c as int {
                assert(t == tiles[c as int]@.len());
                assert(tiles[c as int]@[t2].input.samples@[k].size > 0);
            } else {
                assert(c2 < c);
                assert(tiles[c2]@[t2].input.samples@[k].size > 0);
            }
        }
        c += 1;
    }
    true
}

/// Whether every track fits the size limits.
fn tracks_within_limits(tracks: &Vec<Track>, size_limit: u32, dimension_limit: u32) -> (r: bool)
    ensures
        r == forall|j: int| 0 <= j < tracks@.len() ==> spec_check_limits(
            (#[trigger] tracks@[j]).width,
            tracks@[j].height,
            size_limit,
            dimension_limit,
        ),
{
    let mut i: usize = 0;
    while i < tracks.len()
        invariant
            0 <= i <= tracks@.len(),
            forall|j: int| 0 <= j < i ==> spec_check_limits(
                (#[trigger] tracks@[j]).width,
                tracks@[j].height,
                size_limit,
                dimension_limit,
            ),
        decreases tracks@.len() - i,
    {
        if !tracks[i].check_limits(size_limit, dimension_limit) {
            return false;
        }
        i += 1;
    }
    true
}

/// The properties of a track's first AV1 sample description.
pub open spec fn track_properties(t: Track) -> Seq<ItemProperty> {
    match t.sample_table {
        Some(st) => match first_av1_description(st.sample_descriptions@) {
            Some(i) => st.sample_descriptions@[i].properties@,
            None => Seq::empty(),
        },
        None => Seq::empty(),
    }
}

impl Decoder {
    /// What a successful parse leaves: colour tiles and, where there is
    /// alpha, alpha tiles (none for the gain map), each category counted
    /// in its tile information, every sample with data, and no image
    /// decoded yet.
    pub open spec fn has_images(&self) -> bool {
        &&& self.tiles[0]@.len() >= 1
        &&& self.tiles[2]@.len() > 0 ==> self.settings.enable_decoding_gainmap && self.gainmap_present
        &&& forall|c: int| 0 <= c < 3 ==> #[trigger] self.tile_info[c].tile_count == self.tiles[c]@.len()
        &&& all_samples_nonzero(self.tiles)
        &&& self.image_index == -1
        &&& self.image.alpha_present == (self.tiles[1]@.len() > 0)
        &&& self.image.depth == 8 || self.image.depth == 10 || self.image.depth == 12
    }

    /// The colour properties that parsing adopted: those of the colour
    /// track, or of the primary item `primary_item_id`.
    pub open spec fn color_properties(&self, primary_item_id: u32) -> Seq<ItemProperty> {
        if self.source == Source::Tracks {
            match first_aux_track(self.tracks@, 0) {
                Some(i) => track_properties(self.tracks@[i]),
                None => Seq::empty(),
            }
        } else {
            self.items@[primary_item_id].properties@
        }
    }

    /// Takes in the boxes of a file. The tracks must fit the size limits.
    /// The source is chosen (see `spec_source`); from the tracks, the
    /// first colour track gives the images (see `parse_tracks`), else the
    /// primary item does (see `parse_primary_item`). Every sample must
    /// have data, and the colour properties are adopted (see
    /// `takes_properties`). Parsing is complete where they hold code
    /// points; else the sequence header is still to be read.
    #[verifier::rlimit(40)]
    pub fn parse_boxes<T: IO + ?Sized>(&mut self, io: &mut T, boxes: AvifBoxes) -> (r: AvifResult<()>)
        requires
            old(self).nothing_found(),
            !old(self).image.image_sequence_track_present,
            boxes.meta.valid(),
            forall|i: int| 0 <= i < boxes.tracks@.len() ==> (#[trigger] boxes.tracks@[i]).edit_list_ok(),
        ensures
            final(self).settings == old(self).settings,
            final(self).tracks@ == boxes.tracks@,
            (exists|i: int| 0 <= i < boxes.tracks@.len() && !spec_check_limits(
                (#[trigger] boxes.tracks@[i]).width,
                boxes.tracks@[i].height,
                old(self).settings.image_size_limit,
                old(self).settings.image_dimension_limit,
            )) ==> r == Err::<(), AvifError>(AvifError::BmffParseFailed),
            r is Ok ==> {
                let props = final(self).color_properties(boxes.meta.primary_item_id);
                &&& final(self).source == spec_source(old(self).settings.source, boxes.ftyp.major_brand@, boxes.tracks@.len() > 0)
                &&& final(self).has_images()
                &&& color_properties_ok(props)
                &&& takes_properties(final(self).image, props)
                &&& final(self).parse_state == if spec_nclx(props) is Some {
                    ParseState::Complete
                } else {
                    ParseState::AwaitingSequenceHeader
                }
                &&& final(self).image.image_sequence_track_present == (boxes.tracks@.len() > 0)
                &&& final(self).source == Source::Tracks ==> (first_aux_track(boxes.tracks@, 0) matches Some(i) && {
                    let color = boxes.tracks@[i];
                    &&& final(self).color_track_id == Some(color.id)
                    &&& final(self).image.width == color.width && final(self).image.height == color.height
                    &&& final(self).timescale == color.media_timescale
                    &&& final(self).duration_in_timescales == color.media_duration
                    &&& final(self).image_count == final(self).tiles[0]@[0].input.samples@.len() as u32
                    &&& final(self).tiles[1]@.len() > 0 <==> first_aux_track(boxes.tracks@, color.id) is Some
                })
                &&& final(self).source == Source::PrimaryItem ==> {
                    let color = final(self).items@[boxes.meta.primary_item_id];
                    &&& final(self).items@.contains_key(boxes.meta.primary_item_id)
                    &&& !color.spec_should_skip()
                    &&& final(self).image.width == color.width && final(self).image.height == color.height
                    &&& final(self).image_count >= 1
                    &&& color.spec_properties_valid(final(self).items@, final(self).settings.strictness.requires_flag(StrictnessFlag::PixiRequired))
                }
            },
    {
        let AvifBoxes { ftyp, meta, tracks } = boxes;
        self.tracks = tracks;
        if self.tracks.len() > 0 {
            self.image.image_sequence_track_present = true;
            if !tracks_within_limits(&self.tracks, self.settings.image_size_limit, self.settings.image_dimension_limit) {
                return Err(AvifError::BmffParseFailed);
            }
        }
        let items = build_items(&meta, self.settings.strictness.alpha_ispe_required())?;
        self.items = items;
        self.source = choose_source(self.settings.source, &ftyp.major_brand, self.tracks.len() > 0);
        let cicp = if self.source == Source::Tracks {
            self.parse_tracks()?;
            if !samples_nonzero(&self.tiles) {
                return Err(AvifError::BmffParseFailed);
            }
            let ci = match find_aux_track(&self.tracks, 0) {
                Some(i) => i,
                None => {
                    return Err(AvifError::NoContent);
                },
            };
            let props = match self.tracks[ci].get_properties() {
                Some(p) => p,
                None => {
                    return Err(AvifError::BmffParseFailed);
                },
            };
            adopt_color_properties(&mut self.image, props.as_slice())?
        } else {
            let cid = self.parse_primary_item(io, &meta)?;
            if !samples_nonzero(&self.tiles) {
                return Err(AvifError::BmffParseFailed);
            }
            let props = match self.items.get(&cid) {
                Some(item) => &item.properties,
                None => {
                    return Err(AvifError::MissingImageItem);
                },
            };
            adopt_color_properties(&mut self.image, props.as_slice())?
        };
        self.parse_state = if cicp {
            ParseState::Complete
        } else {
            ParseState::AwaitingSequenceHeader
        };
        Ok(())
    }

    /// Parses the input: reads its boxes (see `MP4Box::parse`) and takes
    /// them in (see `parse_boxes`); where the colour properties hold no
    /// code points, they come from the AV1 sequence header of the first
    /// colour sample. A parse that was complete starts over; one that
    /// waits for the sequence header goes on with it.
    pub fn parse<T: IO + ?Sized>(&mut self, io: &mut T) -> (r: AvifResult<()>)
        ensures
            final(self).settings == old(self).settings,
            r is Ok ==> final(self).parse_state == ParseState::Complete,
            r is Ok && old(self).parse_state != ParseState::AwaitingSequenceHeader ==> final(self).has_images(),
            old(self).parse_state == ParseState::AwaitingSequenceHeader && old(self).tiles[0]@.len() == 0 ==> r is Ok
                && final(self).image == old(self).image,
            old(self).parse_state == ParseState::AwaitingSequenceHeader && old(self).tiles[0]@.len() > 0
                && old(self).tiles[0]@[0].input.samples@.len() == 0 ==> r == Err::<(), AvifError>(
                AvifError::NoImagesRemaining,
            ),
            old(self).parse_state == ParseState::AwaitingSequenceHeader && r is Ok ==> final(self).image
                == old(self).image || exists|b: Seq<u8>|
                #[trigger] sequence_header_of(b) matches Some(h) && cicp_from_header(final(self).image, h)
                    && final(self).image == (Image {
                    color_primaries: final(self).image.color_primaries,
                    transfer_characteristics: final(self).image.transfer_characteristics,
                    matrix_coefficients: final(self).image.matrix_coefficients,
                    yuv_range: final(self).image.yuv_range,
                    ..old(self).image
                }),
    {
        if self.parse_state == ParseState::Complete {
            self.parse_state = ParseState::NotStarted;
        }
        if self.parse_state == ParseState::NotStarted {
            self.reset();
            let boxes = MP4Box::parse(io)?;
            self.parse_boxes(io, boxes)?;
            if self.parse_state == ParseState::Complete {
                return Ok(());
            }
        }
        self.harvest_cicp_from_sequence_header(io)?;
        self.parse_state = ParseState::Complete;
        Ok(())
    }
}

impl Decoder {
    /// Every tile of every category has a sample at `index` and it is a
    /// sync sample.
    pub open spec fn spec_is_keyframe(&self, index: int) -> bool {
        &&& self.parse_state == ParseState::Complete
        &&& forall|c: int, t: int|
            0 <= c < 3 && 0 <= t < self.tiles[c]@.len() ==> index < (#[trigger] self.tiles[c]@[t]).input.samples@.len()
                && self.tiles[c]@[t].input.samples@[index].sync
    }

    /// The last keyframe before image `n` (0 where there is none).
    pub open spec fn keyframe_before(&self, n: int) -> int
        decreases n,
    {
        if n <= 0 {
            0
        } else if self.spec_is_keyframe(n - 1) {
            n - 1
        } else {
            self.keyframe_before(n - 1)
        }
    }

    /// Whether image `index` can be decoded on its own: parsing is complete
    /// and every tile's sample for it is a sync sample.
    pub fn is_keyframe(&self, index: u32) -> (r: bool)
        ensures
            r == self.spec_is_keyframe(index as int),
    {
        if self.parse_state != ParseState::Complete {
            return false;
        }
        let idx = index as usize;
        let mut c: usize = 0;
        while c < 3
            invariant
                0 <= c <= 3,
                idx == index,
                self.parse_state == ParseState::Complete,
                forall|c2: int, t: int|
                    0 <= c2 < c && 0 <= t < self.tiles[c2]@.len() ==> index < (#[trigger] self.tiles[c2]@[t]).input.samples@.len()
                        && self.tiles[c2]@[t].input.samples@[index as int].sync,
            decreases 3 - c,
        {
            let mut t: usize = 0;
            while t < self.tiles[c].len()
                invariant
                    0 <= c < 3,
                    idx == index,
                    0 <= t <= self.tiles[c as int]@.len(),
                    forall|c2: int, t2: int|
                        0 <= c2 < c && 0 <= t2 < self.tiles[c2]@.len() ==> index < (#[trigger] self.tiles[c2]@[t2]).input.samples@.len()
                            && self.tiles[c2]@[t2].input.samples@[index as int].sync,
                    forall|t2: int|
                        0 <= t2 < t ==> index < (#[trigger] self.tiles[c as int]@[t2]).input.samples@.len()
                            && self.tiles[c as int]@[t2].input.samples@[index as int].sync,
                decreases self.tiles[c as int]@.len() - t,
            {
                let tile = &self.tiles[c][t];
                if idx >= tile.input.samples.len() || !tile.input.samples[idx].sync {
                    assert(!(index < self.tiles[c as int]@[t as int].input.samples@.len()
                        && self.tiles[c as int]@[t as int].input.samples@[index as int].sync));
                    assert(0 <= c < 3 && 0 <= t < self.tiles[c as int]@.len());
                    assert(!self.spec_is_keyframe(index as int));
                    return false;
                }
                t += 1;
            }
            c += 1;
        }
        true
    }

    /// The last keyframe before image `index`, or 0 where there is none or
    /// parsing is not complete.
    pub fn nearest_keyframe(&self, index: u32) -> (r: u32)
        ensures
            self.parse_state != ParseState::Complete ==> r == 0,
            self.parse_state == ParseState::Complete ==> r == self.keyframe_before(index as int),
    {
        if self.parse_state != ParseState::Complete {
            return 0;
        }
        let mut i: u32 = index;
        while i > 0
            invariant
                i <= index,
                self.parse_state == ParseState::Complete,
                self.keyframe_before(index as int) == self.keyframe_before(i as int),
            decreases i,
        {
            if self.is_keyframe(i - 1) {
                return i - 1;
            }
            i -= 1;
        }
        0
    }

    /// Whether every tile of the current image is decoded.
    fn is_current_frame_fully_decoded(&self) -> (r: bool)
        ensures
            r == (self.parse_state == ParseState::Complete && forall|c: int|
                0 <= c < 3 ==> #[trigger] self.tile_info[c].tile_count == self.tile_info[c].decoded_tile_count),
    {
        if self.parse_state != ParseState::Complete {
            return false;
        }
        let mut c: usize = 0;
        while c < 3
            invariant
                0 <= c <= 3,
                forall|c2: int| 0 <= c2 < c ==> #[trigger] self.tile_info[c2].tile_count == self.tile_info[c2].decoded_tile_count,
            decreases 3 - c,
        {
            if !self.tile_info[c].is_fully_decoded() {
                return false;
            }
            c += 1;
        }
        true
    }

    /// Rows of the category `c` that are decoded: all rows without tiles,
    /// else what its tile information gives for the first tile's height.
    pub open spec fn category_rows(&self, c: int) -> int {
        if self.tiles[c]@.len() == 0 {
            self.image.height as int
        } else {
            self.tile_info[c].spec_decoded_row_count(self.image.height, self.tiles[c]@[0].height) as int
        }
    }

    /// The tile rows decoded so far fit in 32 bits.
    pub open spec fn row_counts_fit(&self) -> bool {
        forall|c: int|
            0 <= c < 3 && self.tiles[c]@.len() > 0 && #[trigger] self.tile_info[c].spec_is_grid() ==> (
            self.tile_info[c].decoded_tile_count / self.tile_info[c].grid.columns) * self.tiles[c]@[0].height
                <= u32::MAX
    }

    /// Number of rows of the image that every category has decoded.
    pub fn decoded_row_count(&self) -> (r: u32)
        requires
            self.row_counts_fit(),
        ensures
            r == vstd::math::min(
                self.image.height as int,
                vstd::math::min(self.category_rows(0), vstd::math::min(self.category_rows(1), self.category_rows(2))),
            ),
    {
        let mut min_row_count = self.image.height;
        let mut c: usize = 0;
        while c < 3
            invariant
                0 <= c <= 3,
                self.row_counts_fit(),
                min_row_count == (if c == 0 {
                    self.image.height as int
                } else if c == 1 {
                    vstd::math::min(self.image.height as int, self.category_rows(0))
                } else if c == 2 {
                    vstd::math::min(self.image.height as int, vstd::math::min(self.category_rows(0), self.category_rows(1)))
                } else {
                    vstd::math::min(
                        self.image.height as int,
                        vstd::math::min(self.category_rows(0), vstd::math::min(self.category_rows(1), self.category_rows(2))),
                    )
                }),
            decreases 3 - c,
        {
            if self.tiles[c].len() > 0 {
                assert(self.tile_info[c as int].spec_is_grid() ==> (self.tile_info[c as int].decoded_tile_count
                    / self.tile_info[c as int].grid.columns) * self.tiles[c as int]@[0].height <= u32::MAX);
                let first_tile_height = self.tiles[c][0].height;
                let row_count = self.tile_info[c].decoded_row_count(self.image.height, first_tile_height);
                if row_count < min_row_count {
                    min_row_count = row_count;
                }
            }
            c += 1;
        }
        min_row_count
    }

    /// The image that parsing and decoding filled.
    pub fn image(&self) -> (r: &Image)
        ensures
            *r == self.image,
    {
        &self.image
    }

    /// Whether `data` starts with a file type box of an AVIF file; input
    /// that cannot be parsed is no AVIF file.
    pub fn peek_compatible_file_type(data: &[u8]) -> (r: bool)
        ensures
            r == (spec_peek(data@) == Ok::<bool, AvifError>(true)),
    {
        match MP4Box::peek_compatible_file_type(data) {
            Ok(b) => b,
            Err(_) => false,
        }
    }
}

/// The keyframe that decoding image `n` starts from comes before it (or is
/// image 0 where none does), is a keyframe where it is not image 0, and no
/// image between it and `n` is a keyframe.
pub proof fn lemma_keyframe_before(decoder: &Decoder, n: int)
    requires
        n >= 0,
    ensures
        decoder.keyframe_before(n) == 0 || decoder.keyframe_before(n) < n,
        decoder.keyframe_before(n) >= 0,
        decoder.keyframe_before(n) != 0 ==> decoder.spec_is_keyframe(decoder.keyframe_before(n)),
        forall|j: int| decoder.keyframe_before(n) < j < n ==> !#[trigger] decoder.spec_is_keyframe(j),
    decreases n,
{
    if n > 0 && !decoder.spec_is_keyframe(n - 1) {
        lemma_keyframe_before(decoder, n - 1);
        assert forall|j: int| decoder.keyframe_before(n) < j < n implies !#[trigger] decoder.spec_is_keyframe(j) by {
            if j < n - 1 {
            }
        }
    }
}

impl Decoder {
    /// Number of categories with at least `n` tiles.
    pub open spec fn categories_with(&self, n: u32) -> int {
        (if self.tile_info[0].tile_count >= n { 1int } else { 0int }) + (if self.tile_info[1].tile_count >= n {
            1int
        } else {
            0int
        }) + (if self.tile_info[2].tile_count >= n { 1int } else { 0int })
    }

    /// Every tile has the operating point and layer choice of the first
    /// colour tile.
    pub open spec fn tiles_agree(&self) -> bool {
        forall|c: int, t: int|
            0 <= c < 3 && 0 <= t < self.tiles[c]@.len() ==> (#[trigger] self.tiles[c]@[t]).operating_point
                == self.tiles[0]@[0].operating_point && self.tiles[c]@[t].input.all_layers
                == self.tiles[0]@[0].input.all_layers
    }

    pub open spec fn spec_can_use_single_codec(&self) -> bool {
        if self.tiles[0]@.len() + self.tiles[1]@.len() + self.tiles[2]@.len() == 1 {
            true
        } else if self.image_count != 1 {
            false
        } else if self.categories_with(2) > 0 && self.categories_with(1) > 1 {
            false
        } else {
            self.tiles_agree()
        }
    }

    /// Whether one codec instance can decode every tile: always for a
    /// single tile; otherwise only for a single image, where no category
    /// with several tiles shares the codec with another category, and all
    /// tiles have the same operating point and layer choice.
    #[verifier::loop_isolation(false)]
    pub fn can_use_single_codec(&self) -> (r: bool)
        requires
            self.tiles[0]@.len() + self.tiles[1]@.len() + self.tiles[2]@.len() == 1 || self.image_count != 1
                || self.tiles[0]@.len() > 0,
        ensures
            r == self.spec_can_use_single_codec(),
    {
        let total_tile_count = self.tiles[0].len() as u128 + self.tiles[1].len() as u128 + self.tiles[2].len() as u128;
        if total_tile_count == 1 {
            return true;
        }
        if self.image_count != 1 {
            return false;
        }
        let mut image_buffers: u32 = 0;
        let mut stolen_image_buffers: u32 = 0;
        let mut c: usize = 0;
        while c < 3
            invariant
                0 <= c <= 3,
                image_buffers == (if c > 0 && self.tile_info[0].tile_count >= 1 { 1int } else { 0int }) + (if c > 1
                    && self.tile_info[1].tile_count >= 1 { 1int } else { 0int }) + (if c > 2 && self.tile_info[2].tile_count
                    >= 1 { 1int } else { 0int }),
                stolen_image_buffers == (if c > 0 && self.tile_info[0].tile_count >= 2 { 1int } else { 0int }) + (if c
                    > 1 && self.tile_info[1].tile_count >= 2 { 1int } else { 0int }) + (if c > 2
                    && self.tile_info[2].tile_count >= 2 { 1int } else { 0int }),
            decreases 3 - c,
        {
            if self.tile_info[c].tile_count > 0 {
                image_buffers += 1;
            }
            if self.tile_info[c].tile_count > 1 {
                stolen_image_buffers += 1;
            }
            c += 1;
        }
        if stolen_image_buffers > 0 && image_buffers > 1 {
            return false;
        }
        let operating_point = self.tiles[0][0].operating_point;
        let all_layers = self.tiles[0][0].input.all_layers;
        let mut c: usize = 0;
        while c < 3
            invariant
                0 <= c <= 3,
                self.tiles[0]@.len() > 0,
                operating_point == self.tiles[0]@[0].operating_point,
                all_layers == self.tiles[0]@[0].input.all_layers,
                forall|c2: int, t: int|
                    0 <= c2 < c && 0 <= t < self.tiles[c2]@.len() ==> (#[trigger] self.tiles[c2]@[t]).operating_point
                        == operating_point && self.tiles[c2]@[t].input.all_layers == all_layers,
            decreases 3 - c,
        {
            let mut t: usize = 0;
            while t < self.tiles[c].len()
                invariant
                    0 <= c < 3,
                    0 <= t <= self.tiles[c as int]@.len(),
                    forall|c2: int, t2: int|
                        0 <= c2 < c && 0 <= t2 < self.tiles[c2]@.len() ==> (#[trigger] self.tiles[c2]@[t2]).operating_point
                            == operating_point && self.tiles[c2]@[t2].input.all_layers == all_layers,
                    forall|t2: int|
                        0 <= t2 < t ==> (#[trigger] self.tiles[c as int]@[t2]).operating_point == operating_point
                            && self.tiles[c as int]@[t2].input.all_layers == all_layers,
                decreases self.tiles[c as int]@.len() - t,
            {
                let tile = &self.tiles[c][t];
                if tile.operating_point != operating_point || tile.input.all_layers != all_layers {
                    assert(0 <= c < 3 && 0 <= t < self.tiles[c as int]@.len());
                    assert(!self.tiles_agree());
                    return false;
                }
                t += 1;
            }
            c += 1;
        }
        true
    }
}

/// What decoding a requested image takes.
#[derive(Debug, Clone, Copy, PartialEq, Eq, Structural)]
pub enum NthImageStep {
    /// The image is the current one and fully decoded.
    Done,
    /// Decode image after image, starting after the image with this index,
    /// until the requested one is decoded.
    DecodeAfter(i32),
}

impl Decoder {
    /// Whether every tile of the current image is decoded.
    pub open spec fn fully_decoded(&self) -> bool {
        self.parse_state == ParseState::Complete && forall|c: int|
            0 <= c < 3 ==> #[trigger] self.tile_info[c].tile_count == self.tile_info[c].decoded_tile_count
    }

    /// How to reach image `index`: the next image is decoded directly; the
    /// current one, fully decoded, needs nothing; otherwise decoding starts
    /// at the last keyframe before it where that lies ahead of the next
    /// image or the image is not ahead of the current one, else it goes on
    /// from the current image. `NoContent` before parsing is complete,
    /// `NoImagesRemaining` past the last image.
    pub fn nth_image_step(&self, index: u32) -> (r: AvifResult<NthImageStep>)
        requires
            self.image_index < i32::MAX,
        ensures
            self.parse_state != ParseState::Complete ==> r == Err::<NthImageStep, AvifError>(AvifError::NoContent),
            self.parse_state == ParseState::Complete && index >= self.image_count ==> r == Err::<
                NthImageStep,
                AvifError,
            >(AvifError::NoImagesRemaining),
            self.parse_state == ParseState::Complete && index < self.image_count ==> {
                let k = self.keyframe_before(index as int);
                &&& index > i32::MAX ==> r == Err::<NthImageStep, AvifError>(AvifError::BmffParseFailed)
                &&& index <= i32::MAX ==> if index == self.image_index + 1 {
                    r == Ok::<NthImageStep, AvifError>(NthImageStep::DecodeAfter(self.image_index))
                } else if index == self.image_index && self.fully_decoded() {
                    r == Ok::<NthImageStep, AvifError>(NthImageStep::Done)
                } else if k > self.image_index + 1 || index <= self.image_index {
                    r == Ok::<NthImageStep, AvifError>(NthImageStep::DecodeAfter((k - 1) as i32))
                } else {
                    r == Ok::<NthImageStep, AvifError>(NthImageStep::DecodeAfter(self.image_index))
                }
            },
    {
        if self.parse_state != ParseState::Complete {
            return Err(AvifError::NoContent);
        }
        if index >= self.image_count {
            return Err(AvifError::NoImagesRemaining);
        }
        let requested_index = i32_from_u32(index)?;
        if requested_index == self.image_index + 1 {
            return Ok(NthImageStep::DecodeAfter(self.image_index));
        }
        if requested_index == self.image_index && self.is_current_frame_fully_decoded() {
            return Ok(NthImageStep::Done);
        }
        let keyframe = self.nearest_keyframe(index);
        proof {
            lemma_keyframe_before(self, index as int);
        }
        let nearest_keyframe = i32_from_u32(keyframe)?;
        if nearest_keyframe > self.image_index + 1 || requested_index <= self.image_index {
            return Ok(NthImageStep::DecodeAfter(nearest_keyframe - 1));
        }
        Ok(NthImageStep::DecodeAfter(self.image_index))
    }
}

/// The codec instance a tile asks for: its operating point and whether all
/// its layers are decoded.
pub open spec fn codec_config(t: Tile) -> (u8, bool) {
    (t.operating_point, t.input.all_layers)
}

impl Decoder {
    /// Number of tiles of the categories before `c`.
    pub open spec fn tiles_before(&self, c: int) -> int {
        if c <= 0 {
            0
        } else if c == 1 {
            self.tiles[0]@.len() as int
        } else if c == 2 {
            (self.tiles[0]@.len() + self.tiles[1]@.len()) as int
        } else {
            (self.tiles[0]@.len() + self.tiles[1]@.len() + self.tiles[2]@.len()) as int
        }
    }

    /// Only the codec indices of the tiles differ from `before`.
    pub open spec fn codec_indices_set(&self, before: &Decoder) -> bool {
        &&& *self == (Decoder { tiles: self.tiles, ..*before })
        &&& forall|c: int| 0 <= c < 3 ==> #[trigger] self.tiles[c]@.len() == before.tiles[c]@.len()
        &&& forall|c: int, i: int|
            0 <= c < 3 && 0 <= i < before.tiles[c]@.len() ==> #[trigger] self.tiles[c]@[i] == (Tile {
                codec_index: self.tiles[c]@[i].codec_index,
                ..before.tiles[c]@[i]
            })
    }

    fn set_codec_index(&mut self, c: usize, i: usize, index: usize)
        requires
            c < 3,
            i < old(self).tiles[c as int]@.len(),
        ensures
            *final(self) == (Decoder { tiles: final(self).tiles, ..*old(self) }),
            final(self).tiles[c as int]@ == old(self).tiles[c as int]@.update(
                i as int,
                Tile { codec_index: index, ..old(self).tiles[c as int]@[i as int] },
            ),
            forall|c2: int| 0 <= c2 < 3 && c2 != c ==> #[trigger] final(self).tiles[c2] == old(self).tiles[c2],
    {
        match c {
            0 => self.tiles[0][i].codec_index = index,
            1 => self.tiles[1][i].codec_index = index,
            _ => self.tiles[2][i].codec_index = index,
        }
    }

    /// Decides the codec instances that decoding needs, in the order in
    /// which to create them, and gives each tile the index of its instance.
    /// For tracks: one for the colour tile and one for the alpha tile, if
    /// any. Where one instance can decode every tile: that one for all.
    /// Otherwise one per tile, colour tiles first, then alpha, then gain
    /// map. Other tiles keep their indices.
    pub fn assign_codecs(&mut self) -> (r: Vec<(u8, bool)>)
        requires
            old(self).source == Source::Tracks ==> old(self).tiles[0]@.len() > 0,
            old(self).source != Source::Tracks ==> old(self).tiles[0]@.len() > 0 || (old(self).tiles[0]@.len()
                + old(self).tiles[1]@.len() + old(self).tiles[2]@.len() != 1 && old(self).image_count != 1),
        ensures
            final(self).codec_indices_set(old(self)),
            old(self).source == Source::Tracks ==> {
                &&& r@ == if old(self).tiles[1]@.len() > 0 {
                    seq![codec_config(old(self).tiles[0]@[0]), codec_config(old(self).tiles[1]@[0])]
                } else {
                    seq![codec_config(old(self).tiles[0]@[0])]
                }
                &&& final(self).tiles[0]@[0].codec_index == 0
                &&& old(self).tiles[1]@.len() > 0 ==> final(self).tiles[1]@[0].codec_index == 1
                &&& forall|c: int, i: int|
                    0 <= c < 3 && 0 < i < old(self).tiles[c]@.len() ==> #[trigger] final(self).tiles[c]@[i]
                        == old(self).tiles[c]@[i]
                &&& final(self).tiles[2] == old(self).tiles[2]
            },
            old(self).source != Source::Tracks && old(self).spec_can_use_single_codec() ==> {
                &&& r@ == seq![codec_config(old(self).tiles[0]@[0])]
                &&& forall|c: int, i: int|
                    0 <= c < 3 && 0 <= i < old(self).tiles[c]@.len() ==> #[trigger] final(self).tiles[c]@[i].codec_index == 0
            },
            old(self).source != Source::Tracks && !old(self).spec_can_use_single_codec() ==> {
                &&& r@.len() == old(self).tiles_before(3)
                &&& forall|c: int, i: int|
                    0 <= c < 3 && 0 <= i < old(self).tiles[c]@.len() ==> r@[old(self).tiles_before(c) + i] == codec_config(
                        old(self).tiles[c]@[i],
                    ) && #[trigger] final(self).tiles[c]@[i].codec_index == old(self).tiles_before(c) + i
            },
    {
        let ghost before = *self;
        let mut r: Vec<(u8, bool)> = Vec::new();
        if self.source == Source::Tracks {
            r.push((self.tiles[0][0].operating_point, self.tiles[0][0].input.all_layers));
            self.set_codec_index(0, 0, 0);
            if self.tiles[1].len() > 0 {
                r.push((self.tiles[1][0].operating_point, self.tiles[1][0].input.all_layers));
                self.set_codec_index(1, 0, 1);
            }
            proof {
                assert(self.tiles[2] == before.tiles[2]);
                assert forall|c: int, i: int|
                    0 <= c < 3 && 0 < i < before.tiles[c]@.len() implies #[trigger] self.tiles[c]@[i] == before.tiles[c]@[i] by {
                }
            }
            return r;
        }
        let single = self.can_use_single_codec();
        let mut c: usize = 0;
        if single {
            r.push((self.tiles[0][0].operating_point, self.tiles[0][0].input.all_layers));
        }
        while c < 3
            invariant
                0 <= c <= 3,
                *self == (Decoder { tiles: self.tiles, ..before }),
                forall|c2: int| 0 <= c2 < 3 ==> #[trigger] self.tiles[c2]@.len() == before.tiles[c2]@.len(),
                forall|c2: int, i: int|
                    0 <= c2 < 3 && 0 <= i < before.tiles[c2]@.len() ==> #[trigger] self.tiles[c2]@[i] == (Tile {
                        codec_index: self.tiles[c2]@[i].codec_index,
                        ..before.tiles[c2]@[i]
                    }),
                forall|c2: int, i: int|
                    c <= c2 < 3 && 0 <= i < before.tiles[c2]@.len() ==> #[trigger] self.tiles[c2]@[i] == before.tiles[c2]@[i],
                single ==> r@ == seq![codec_config(before.tiles[0]@[0])],
                single ==> forall|c2: int, i: int|
                    0 <= c2 < c && 0 <= i < before.tiles[c2]@.len() ==> #[trigger] self.tiles[c2]@[i].codec_index == 0,
                !single ==> r@.len() == before.tiles_before(c as int),
                !single ==> forall|c2: int, i: int|
                    0 <= c2 < c && 0 <= i < before.tiles[c2]@.len() ==> r@[before.tiles_before(c2) + i] == codec_config(
                        before.tiles[c2]@[i],
                    ) && #[trigger] self.tiles[c2]@[i].codec_index == before.tiles_before(c2) + i,
            decreases 3 - c,
        {
            let mut i: usize = 0;
            while i < self.tiles[c].len()
                invariant
                    0 <= c < 3,
                    0 <= i <= before.tiles[c as int]@.len(),
                    *self == (Decoder { tiles: self.tiles, ..before }),
                    forall|c2: int| 0 <= c2 < 3 ==> #[trigger] self.tiles[c2]@.len() == before.tiles[c2]@.len(),
                    forall|c2: int, i2: int|
                        0 <= c2 < 3 && 0 <= i2 < before.tiles[c2]@.len() ==> #[trigger] self.tiles[c2]@[i2] == (Tile {
                            codec_index: self.tiles[c2]@[i2].codec_index,
                            ..before.tiles[c2]@[i2]
                        }),
                    forall|c2: int, i2: int|
                        (c < c2 < 3 || (c2 == c && i <= i2)) && 0 <= i2 < before.tiles[c2]@.len() ==> #[trigger] self.tiles[c2]@[i2]
                            == before.tiles[c2]@[i2],
                    single ==> r@ == seq![codec_config(before.tiles[0]@[0])],
                    single ==> forall|c2: int, i2: int|
                        (0 <= c2 < c || (c2 == c && 0 <= i2 < i)) && 0 <= i2 < before.tiles[c2]@.len() ==> #[trigger] self.tiles[c2]@[i2].codec_index
                            == 0,
                    !single ==> r@.len() == before.tiles_before(c as int) + i,
                    !single ==> forall|c2: int, i2: int|
                        (0 <= c2 < c || (c2 == c && 0 <= i2 < i)) && 0 <= i2 < before.tiles[c2]@.len() ==> r@[before.tiles_before(c2) + i2]
                            == codec_config(before.tiles[c2]@[i2]) && #[trigger] self.tiles[c2]@[i2].codec_index
                            == before.tiles_before(c2) + i2,
                decreases before.tiles[c as int]@.len() - i,
            {
                let index = if single {
                    0
                } else {
                    let config = (self.tiles[c][i].operating_point, self.tiles[c][i].input.all_layers);
                    r.push(config);
                    r.len() - 1
                };
                self.set_codec_index(c, i, index);
                i += 1;
            }
            c += 1;
        }
        r
    }
}

} // verus!
