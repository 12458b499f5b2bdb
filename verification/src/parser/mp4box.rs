//! The ISO base media file format boxes that AVIF uses, and their parsers.

use crate::internal_utils::{u64_from_usize, usize_from_u64};
use crate::layout::{be_u16, be_u24, be_u32, be_u64};
use crate::stream::{bits_value, c_string_len, string_is, IBitStream, IStream};
use crate::internal_utils::{usize_from_u16, usize_from_u32};
use crate::decoder::IO;
use crate::decoder::track::{SampleDescription, SampleSize, SampleTable, SampleToChunk, TimeToSample, Track};
use crate::{AvifError, AvifResult, ChromaSamplePosition, PixelFormat};
use vstd::prelude::*;
use vstd::utf8::{decode_utf8, valid_utf8};

verus! {

broadcast use crate::layout::group_number_bounds;

// ---------------------------------------------------------------------------
// Byte layout model shared by the parsers.
// ---------------------------------------------------------------------------

/// The unread bytes of a stream.
pub open spec fn unread(s: &IStream) -> Seq<u8> {
    s.data@.subrange(s.offset as int, s.data@.len() as int)
}

/// The characters that `n` bytes at `o` encode.
pub open spec fn text_at(d: Seq<u8>, o: int, n: int) -> Seq<char> {
    decode_utf8(d.subrange(o, o + n))
}

/// The `n` bytes at `o` are valid UTF-8.
pub open spec fn utf8_at(d: Seq<u8>, o: int, n: int) -> bool {
    valid_utf8(d.subrange(o, o + n))
}

/// The header of the box that starts at `o`: the size of its payload, the
/// bytes of its four-character type, and the length of the header. `None`
/// when the header is cut short, its type is not UTF-8, or its size is
/// smaller than the header.
pub open spec fn spec_box_header(d: Seq<u8>, o: int) -> Option<(int, Seq<u8>, int)> {
    if d.len() - o < 8 {
        None
    } else if !valid_utf8(d.subrange(o + 4, o + 8)) {
        None
    } else {
        let large = be_u32(d, o) == 1;
        if large && d.len() - o < 16 {
            None
        } else {
            let size = if large { be_u64(d, o + 8) } else { be_u32(d, o) };
            let len0 = if large { 16int } else { 8int };
            let uuid = decode_utf8(d.subrange(o + 4, o + 8)) == "uuid"@;
            if uuid && d.len() - o < len0 + 16 {
                None
            } else {
                let len = if uuid { len0 + 16 } else { len0 };
                if size < len {
                    None
                } else {
                    Some((size - len, d.subrange(o + 4, o + 8), len))
                }
            }
        }
    }
}

// ---------------------------------------------------------------------------
// Box contents.
// ---------------------------------------------------------------------------

/// A box header: the size of the payload that follows it, and its type.
#[derive(Debug)]
pub struct BoxHeader {
    pub size: u64,
    pub box_type: String,
}

/// The file type box.
#[derive(Debug)]
pub struct FileTypeBox {
    pub major_brand: String,
    pub minor_version: u32,
    pub compatible_brands: Vec<String>,
}

impl FileTypeBox {
    /// The brand is the major brand or one of the compatible brands.
    pub open spec fn spec_has_brand(&self, brand: Seq<char>) -> bool {
        ||| self.major_brand@ == brand
        ||| exists|i: int|
            0 <= i < self.compatible_brands@.len() && #[trigger] self.compatible_brands@[i]@
                == brand
    }

    fn has_brand(&self, brand: &str) -> (r: bool)
        ensures
            r == self.spec_has_brand(brand@),
    {
        if string_is(&self.major_brand, brand) {
            return true;
        }
        let mut i: usize = 0;
        while i < self.compatible_brands.len()
            invariant
                0 <= i <= self.compatible_brands@.len(),
                self.major_brand@ != brand@,
                forall|j: int| 0 <= j < i ==> #[trigger] self.compatible_brands@[j]@ != brand@,
            decreases self.compatible_brands@.len() - i,
        {
            if string_is(&self.compatible_brands[i], brand) {
                return true;
            }
            i += 1;
        }
        false
    }

    pub open spec fn spec_is_avif(&self) -> bool {
        self.spec_has_brand("avif"@) || self.spec_has_brand("avis"@)
    }

    /// The file declares an AVIF brand (still image `avif` or image
    /// sequence `avis`).
    pub fn is_avif(&self) -> (r: bool)
        ensures
            r == self.spec_is_avif(),
    {
        self.has_brand("avif") || self.has_brand("avis")
    }

    /// The file declares the still image brand, so a meta box is required.
    pub fn needs_meta(&self) -> (r: bool)
        ensures
            r == self.spec_has_brand("avif"@),
    {
        self.has_brand("avif")
    }

    /// The file declares the image sequence brand, so a movie box is
    /// required.
    pub fn needs_moov(&self) -> (r: bool)
        ensures
            r == self.spec_has_brand("avis"@),
    {
        self.has_brand("avis")
    }
}

/// One extent of an item: where its bytes lie and how many there are.
#[derive(Debug, Clone, Copy)]
pub struct ItemLocationExtent {
    pub offset: u64,
    pub length: u64,
}

/// Where the bytes of one item lie.
#[derive(Debug, Default)]
pub struct ItemLocationEntry {
    pub item_id: u32,
    pub construction_method: u8,
    pub base_offset: u64,
    pub extent_count: u16,
    pub extents: Vec<ItemLocationExtent>,
}

/// The item location box.
#[derive(Debug, Default)]
pub struct ItemLocationBox {
    pub offset_size: u8,
    pub length_size: u8,
    pub base_offset_size: u8,
    pub items: Vec<ItemLocationEntry>,
}

impl ItemLocationExtent {
    /// A field of width zero reads as zero.
    pub open spec fn fits(&self, offset_size: u8, length_size: u8) -> bool {
        &&& offset_size == 0 ==> self.offset == 0
        &&& length_size == 0 ==> self.length == 0
    }
}

impl ItemLocationEntry {
    /// The entry is one that an item location box with the given field
    /// widths can hold: a nonzero id, construction method 0 or 1, as many
    /// extents as it counts, and zero for every field of width zero.
    pub open spec fn fits(&self, offset_size: u8, length_size: u8, base_offset_size: u8) -> bool {
        &&& self.item_id != 0
        &&& self.construction_method <= 1
        &&& self.extents@.len() == self.extent_count
        &&& base_offset_size == 0 ==> self.base_offset == 0
        &&& forall|j: int|
            0 <= j < self.extents@.len() ==> #[trigger] self.extents@[j].fits(offset_size, length_size)
    }
}

/// Width and height of an image item.
#[derive(Debug, Clone, Copy, PartialEq, Eq, Structural)]
pub struct ImageSpatialExtents {
    pub width: u32,
    pub height: u32,
}

/// Number of planes and the bit depth of each.
#[derive(Debug, Default, Clone, Copy)]
pub struct PixelInformation {
    pub plane_count: u8,
    pub plane_depths: [u8; 4],
}

/// The AV1 codec configuration.
#[derive(Debug, Default, Clone, Copy, PartialEq, Eq, Structural)]
pub struct CodecConfiguration {
    pub seq_profile: u8,
    pub seq_level_idx0: u8,
    pub seq_tier0: u8,
    pub high_bitdepth: bool,
    pub twelve_bit: bool,
    pub monochrome: bool,
    pub chroma_subsampling_x: u8,
    pub chroma_subsampling_y: u8,
    pub chroma_sample_position: ChromaSamplePosition,
}

impl CodecConfiguration {
    pub open spec fn spec_depth(&self) -> u8 {
        if self.twelve_bit {
            12
        } else if self.high_bitdepth {
            10
        } else {
            8
        }
    }

    /// Bit depth: 12 with `twelve_bit`, else 10 with `high_bitdepth`, else 8.
    pub fn depth(&self) -> (r: u8)
        ensures
            r == self.spec_depth(),
    {
        match self.twelve_bit {
            true => 12,
            false => match self.high_bitdepth {
                true => 10,
                false => 8,
            },
        }
    }

    pub open spec fn spec_pixel_format(&self) -> PixelFormat {
        if self.monochrome {
            PixelFormat::Monochrome
        } else if self.chroma_subsampling_x == 1 && self.chroma_subsampling_y == 1 {
            PixelFormat::Yuv420
        } else if self.chroma_subsampling_x == 1 {
            PixelFormat::Yuv422
        } else {
            PixelFormat::Yuv444
        }
    }

    /// Chroma subsampling: monochrome, else 4:2:0 when both directions are
    /// subsampled, 4:2:2 when only the horizontal one is, else 4:4:4.
    pub fn pixel_format(&self) -> (r: PixelFormat)
        ensures
            r == self.spec_pixel_format(),
    {
        if self.monochrome {
            PixelFormat::Monochrome
        } else if self.chroma_subsampling_x == 1 && self.chroma_subsampling_y == 1 {
            PixelFormat::Yuv420
        } else if self.chroma_subsampling_x == 1 {
            PixelFormat::Yuv422
        } else {
            PixelFormat::Yuv444
        }
    }
}

/// Where an ICC profile lies inside its property box.
#[derive(Debug, Default, Clone, Copy)]
pub struct Icc {
    pub offset: u64,
    pub size: usize,
}

/// Colour information given as code points.
#[derive(Debug, Default, Clone, Copy, PartialEq, Eq, Structural)]
pub struct Nclx {
    pub color_primaries: u16,
    pub transfer_characteristics: u16,
    pub matrix_coefficients: u16,
    pub full_range: bool,
}

/// Colour information: an ICC profile or code points.
#[derive(Debug, Clone, Copy)]
pub enum ColorInformation {
    Icc(Icc),
    Nclx(Nclx),
}

/// Pixel aspect ratio.
#[derive(Debug, Clone, Copy, PartialEq, Eq, Structural)]
pub struct PixelAspectRatio {
    pub h_spacing: u32,
    pub v_spacing: u32,
}

/// Clean aperture, as fractions.
#[derive(Debug, Clone, Copy, PartialEq, Eq, Structural)]
pub struct ClearAperture {
    pub width_n: u32,
    pub width_d: u32,
    pub height_n: u32,
    pub height_d: u32,
    pub horiz_off_n: u32,
    pub horiz_off_d: u32,
    pub vert_off_n: u32,
    pub vert_off_d: u32,
}

/// Content light level information.
#[derive(Debug, Clone, Copy, PartialEq, Eq, Structural)]
pub struct ContentLightLevelInformation {
    pub max_cll: u16,
    pub max_pall: u16,
}

/// An item property.
#[derive(Debug)]
pub enum ItemProperty {
    ImageSpatialExtents(ImageSpatialExtents),
    PixelInformation(PixelInformation),
    CodecConfiguration(CodecConfiguration),
    ColorInformation(ColorInformation),
    PixelAspectRatio(PixelAspectRatio),
    AuxiliaryType(String),
    ClearAperture(ClearAperture),
    ImageRotation(u8),
    ImageMirror(u8),
    OperatingPointSelector(u8),
    LayerSelector(u16),
    AV1LayeredImageIndexing([usize; 3]),
    ContentLightLevelInformation(ContentLightLevelInformation),
    Unknown(String),
}

impl ItemProperty {
    /// The same property: equal fields, and strings with the same
    /// characters.
    pub open spec fn same_as(&self, other: &ItemProperty) -> bool {
        match (*self, *other) {
            (ItemProperty::AuxiliaryType(a), ItemProperty::AuxiliaryType(b)) => a@ == b@,
            (ItemProperty::Unknown(a), ItemProperty::Unknown(b)) => a@ == b@,
            (ItemProperty::AuxiliaryType(_), _) | (ItemProperty::Unknown(_), _) => false,
            (a, b) => a == b,
        }
    }

    /// The kinds of property that items keep; others are dropped, or make
    /// the item unsupported when essential.
    pub open spec fn spec_is_supported(&self) -> bool {
        !(*self is Unknown)
    }

    /// A copy of the property.
    pub fn copy(&self) -> (r: ItemProperty)
        ensures
            r.same_as(self),
    {
        match self {
            ItemProperty::ImageSpatialExtents(x) => ItemProperty::ImageSpatialExtents(*x),
            ItemProperty::PixelInformation(x) => ItemProperty::PixelInformation(*x),
            ItemProperty::CodecConfiguration(x) => ItemProperty::CodecConfiguration(*x),
            ItemProperty::ColorInformation(x) => ItemProperty::ColorInformation(*x),
            ItemProperty::PixelAspectRatio(x) => ItemProperty::PixelAspectRatio(*x),
            ItemProperty::AuxiliaryType(x) => ItemProperty::AuxiliaryType(x.clone()),
            ItemProperty::ClearAperture(x) => ItemProperty::ClearAperture(*x),
            ItemProperty::ImageRotation(x) => ItemProperty::ImageRotation(*x),
            ItemProperty::ImageMirror(x) => ItemProperty::ImageMirror(*x),
            ItemProperty::OperatingPointSelector(x) => ItemProperty::OperatingPointSelector(*x),
            ItemProperty::LayerSelector(x) => ItemProperty::LayerSelector(*x),
            ItemProperty::AV1LayeredImageIndexing(x) => ItemProperty::AV1LayeredImageIndexing(*x),
            ItemProperty::ContentLightLevelInformation(x) => {
                ItemProperty::ContentLightLevelInformation(*x)
            },
            ItemProperty::Unknown(x) => ItemProperty::Unknown(x.clone()),
        }
    }

    /// Whether items keep the property: every known kind.
    pub fn is_supported(&self) -> (r: bool)
        ensures
            r == self.spec_is_supported(),
    {
        match self {
            ItemProperty::Unknown(_) => false,
            _ => true,
        }
    }
}

/// Index of the first property in `s` of which `f` holds.
pub open spec fn first_where(s: Seq<ItemProperty>, f: spec_fn(ItemProperty) -> bool) -> Option<int>
    decreases s.len(),
{
    if s.len() == 0 {
        None
    } else if f(s[0]) {
        Some(0)
    } else {
        match first_where(s.drop_first(), f) {
            Some(i) => Some(i + 1),
            None => None,
        }
    }
}

/// Number of properties in `s` of which `f` holds.
pub open spec fn count_where(s: Seq<ItemProperty>, f: spec_fn(ItemProperty) -> bool) -> nat
    decreases s.len(),
{
    if s.len() == 0 {
        0
    } else {
        count_where(s.drop_last(), f) + if f(s.last()) {
            1nat
        } else {
            0nat
        }
    }
}

pub proof fn lemma_first_where_bounds(s: Seq<ItemProperty>, f: spec_fn(ItemProperty) -> bool)
    ensures
        first_where(s, f) matches Some(i) ==> 0 <= i < s.len() && f(s[i]) && forall|j: int|
            0 <= j < i ==> !f(#[trigger] s[j]),
        first_where(s, f) is None ==> forall|j: int| 0 <= j < s.len() ==> !f(#[trigger] s[j]),
    decreases s.len(),
{
    if s.len() > 0 {
        lemma_first_where_bounds(s.drop_first(), f);
        if !f(s[0]) {
            assert forall|j: int| 1 <= j < s.len() implies s.drop_first()[j - 1] == #[trigger] s[j] by {}
        }
    }
}

/// The property is a colour box of code points.
pub open spec fn is_nclx(p: ItemProperty) -> bool {
    p matches ItemProperty::ColorInformation(ColorInformation::Nclx(_))
}

/// The property is a colour box with an ICC profile.
pub open spec fn is_icc(p: ItemProperty) -> bool {
    p matches ItemProperty::ColorInformation(ColorInformation::Icc(_))
}

/// The property is an AV1 codec configuration.
pub open spec fn is_av1c(p: ItemProperty) -> bool {
    p matches ItemProperty::CodecConfiguration(_)
}

/// The property is a pixel information box.
pub open spec fn is_pixi(p: ItemProperty) -> bool {
    p matches ItemProperty::PixelInformation(_)
}

/// The property is an image spatial extents box.
pub open spec fn is_ispe(p: ItemProperty) -> bool {
    p matches ItemProperty::ImageSpatialExtents(_)
}

/// The property is an auxiliary type box.
pub open spec fn is_auxc(p: ItemProperty) -> bool {
    p matches ItemProperty::AuxiliaryType(_)
}

/// The property is an operating point selector.
pub open spec fn is_a1op(p: ItemProperty) -> bool {
    p matches ItemProperty::OperatingPointSelector(_)
}

/// The property is a layer selector.
pub open spec fn is_lsel(p: ItemProperty) -> bool {
    p matches ItemProperty::LayerSelector(_)
}

/// The property is a layered image indexing box.
pub open spec fn is_a1lx(p: ItemProperty) -> bool {
    p matches ItemProperty::AV1LayeredImageIndexing(_)
}

/// The properties associated with one item: (property index, essential).
#[derive(Debug, Default)]
pub struct ItemPropertyAssociation {
    pub version: u8,
    pub flags: u32,
    pub item_id: u32,
    pub associations: Vec<(u16, bool)>,
}

/// An entry of the item information box.
#[derive(Debug, Default)]
pub struct ItemInfo {
    pub item_id: u32,
    pub item_protection_index: u16,
    pub item_type: String,
    pub item_name: String,
    pub content_type: String,
    pub content_encoding: String,
}

/// The item property box: the properties and their associations.
#[derive(Debug, Default)]
pub struct ItemPropertyBox {
    pub properties: Vec<ItemProperty>,
    pub associations: Vec<ItemPropertyAssociation>,
}

/// Read this reference as "`from_item_id` is a `reference_type` for
/// `to_item_id`" (in the opposite direction for `dimg`).
#[derive(Debug)]
pub struct ItemReference {
    pub from_item_id: u32,
    pub to_item_id: u32,
    pub reference_type: String,
}

/// The meta box.
#[derive(Debug, Default)]
pub struct MetaBox {
    pub iinf: Vec<ItemInfo>,
    pub iloc: ItemLocationBox,
    pub primary_item_id: u32,
    pub iprp: ItemPropertyBox,
    pub iref: Vec<ItemReference>,
    pub idat: Vec<u8>,
}

/// The top-level boxes of a file: its file type, its meta box (empty when
/// it has none) and the tracks of its movie box (none when it has none).
#[derive(Debug)]
pub struct AvifBoxes {
    pub ftyp: FileTypeBox,
    pub meta: MetaBox,
    pub tracks: Vec<Track>,
}

impl MetaBox {
    /// What the parsers guarantee of a meta box: nonzero item ids in the
    /// item information, references and property associations, and item
    /// locations that fit their box.
    pub open spec fn valid(&self) -> bool {
        &&& forall|i: int| 0 <= i < self.iinf@.len() ==> (#[trigger] self.iinf@[i]).item_id != 0
        &&& forall|i: int|
            0 <= i < self.iref@.len() ==> (#[trigger] self.iref@[i]).from_item_id != 0
                && self.iref@[i].to_item_id != 0
        &&& forall|i: int|
            0 <= i < self.iprp.associations@.len() ==> (
            #[trigger] self.iprp.associations@[i]).item_id != 0
        &&& forall|i: int|
            0 <= i < self.iloc.items@.len() ==> (#[trigger] self.iloc.items@[i]).fits(
                self.iloc.offset_size,
                self.iloc.length_size,
                self.iloc.base_offset_size,
            )
    }
}

/// The parsers of the boxes.
pub struct MP4Box;

impl MP4Box {
    /// Parses a box header; the stream is left at the start of the payload.
    pub fn parse_header(stream: &mut IStream) -> (r: AvifResult<BoxHeader>)
        requires
            old(stream).wf(),
        ensures
            final(stream).wf(),
            final(stream).data@ == old(stream).data@,
            final(stream).offset >= old(stream).offset,
            ({
                let h = spec_box_header(old(stream).data@, old(stream).offset as int);
                &&& r is Ok <==> h is Some
                &&& r matches Ok(b) ==> b.size == h.unwrap().0 && b.box_type@ == decode_utf8(
                    h.unwrap().1,
                ) && final(stream).offset == old(stream).offset + h.unwrap().2
                &&& r is Err ==> r == Err::<BoxHeader, AvifError>(AvifError::BmffParseFailed)
            }),
    {
        let ghost d = stream.data@;
        let ghost o = stream.offset as int;
        let start_offset = stream.offset;
        let size32 = stream.read_u32()?;
        let box_type = stream.read_string(4)?;
        let mut size: u64 = size32 as u64;
        if size32 == 1 {
            size = stream.read_u64()?;
        }
        if string_is(&box_type, "uuid") {
            stream.skip(16)?;
        }
        let header_len = (stream.offset - start_offset) as u64;
        if size < header_len {
            return Err(AvifError::BmffParseFailed);
        }
        Ok(BoxHeader { box_type, size: size - header_len })
    }

    /// Parses the payload of a file type box: major brand, minor version,
    /// then compatible brands to the end.
    pub fn parse_ftyp(stream: &mut IStream) -> (r: AvifResult<FileTypeBox>)
        requires
            old(stream).wf(),
        ensures
            final(stream).wf(),
            final(stream).data@ == old(stream).data@,
            r is Ok <==> spec_ftyp_ok(unread(old(stream))),
            r matches Ok(f) ==> spec_ftyp_parsed(unread(old(stream)), f),
            r is Err ==> r == Err::<FileTypeBox, AvifError>(AvifError::BmffParseFailed),
    {
        let ghost u = unread(stream);
        let ghost o = stream.offset as int;
        let ghost n = stream.data@.len() as int;
        let major_brand = match stream.read_string(4) {
            Ok(b) => b,
            Err(e) => {
                proof {
                    if u.len() >= 4 {
                        assert(u.subrange(0, 4) == stream.data@.subrange(o, o + 4));
                    }
                }
                return Err(e);
            },
        };
        assert(u.subrange(0, 4) == stream.data@.subrange(o, o + 4));
        let minor_version = stream.read_u32()?;
        assert(be_u32(u, 4) == be_u32(stream.data@, o + 4));
        let mut compatible_brands: Vec<String> = Vec::new();
        while stream.has_bytes_left()
            invariant
                stream.wf(),
                n == stream.data@.len(),
                n == o + u.len(),
                u == old(stream).data@.subrange(o, n),
                stream.data@ == old(stream).data@,
                o == old(stream).offset,
                stream.offset == o + 8 + 4 * compatible_brands@.len(),
                major_brand@ == text_at(u, 0, 4),
                utf8_at(u, 0, 4),
                minor_version == be_u32(u, 4),
                forall|k: int|
                    0 <= k < compatible_brands@.len() ==> #[trigger] utf8_at(u, 8 + 4 * k, 4)
                        && compatible_brands@[k]@ == text_at(u, 8 + 4 * k, 4),
            decreases stream.data@.len() - stream.offset,
        {
            let ghost k = compatible_brands@.len() as int;
            let ghost cur = stream.offset as int;
            let brand = match stream.read_string(4) {
                Ok(b) => b,
                Err(e) => {
                    assert(!spec_ftyp_ok(u)) by {
                        if spec_ftyp_ok(u) {
                            assert((u.len() - 8) % 4 == 0);
                            assert(k < (u.len() - 8) / 4);
                            assert(utf8_at(u, 8 + 4 * k, 4));
                            assert(u.subrange(8 + 4 * k, 8 + 4 * k + 4) == stream.data@.subrange(
                                cur,
                                cur + 4,
                            ));
                        }
                    }
                    return Err(e);
                },
            };
            assert(u.subrange(8 + 4 * k, 8 + 4 * k + 4) == stream.data@.subrange(
                o + 8 + 4 * k,
                o + 8 + 4 * k + 4,
            ));
            compatible_brands.push(brand);
            assert(utf8_at(u, 8 + 4 * k, 4));
        }
        let f = FileTypeBox { major_brand, minor_version, compatible_brands };
        assert(u.len() == 8 + 4 * f.compatible_brands@.len());
        assert((u.len() - 8) / 4 == f.compatible_brands@.len());
        assert(spec_ftyp_ok(u)) by {
            assert forall|k: int| 0 <= k < (u.len() - 8) / 4 implies #[trigger] utf8_at(u, 8 + 4 * k, 4) by {
                assert(utf8_at(u, 8 + 4 * k, 4) && f.compatible_brands@[k]@ == text_at(u, 8 + 4 * k, 4));
            }
        }
        assert forall|k: int| 0 <= k < f.compatible_brands@.len() implies #[trigger] f.compatible_brands@[k]@ == text_at(u, 8 + 4 * k, 4) by {
            assert(utf8_at(u, 8 + 4 * k, 4));
        }
        assert(spec_ftyp_parsed(u, f));
        Ok(f)
    }
}


impl MP4Box {
    /// Parses an image spatial extents property (full box, version 0).
    pub fn parse_ispe(stream: &mut IStream) -> (r: AvifResult<ItemProperty>)
        requires
            old(stream).wf(),
        ensures
            final(stream).wf(),
            final(stream).data@ == old(stream).data@,
            ({
                let d = old(stream).data@;
                let o = old(stream).offset as int;
                &&& r is Ok <==> old(stream).left() >= 12 && d[o] == 0
                &&& r matches Ok(p) ==> p == ItemProperty::ImageSpatialExtents(
                    ImageSpatialExtents {
                        width: be_u32(d, o + 4) as u32,
                        height: be_u32(d, o + 8) as u32,
                    },
                )
                &&& r is Err ==> r == Err::<ItemProperty, AvifError>(AvifError::BmffParseFailed)
            }),
    {
        let (_version, _flags) = stream.read_and_enforce_version_and_flags(0)?;
        let width = stream.read_u32()?;
        let height = stream.read_u32()?;
        Ok(ItemProperty::ImageSpatialExtents(ImageSpatialExtents { width, height }))
    }

    /// Parses a pixel information property (full box, version 0): a plane
    /// count of at most four, then one depth byte per plane.
    pub fn parse_pixi(stream: &mut IStream) -> (r: AvifResult<ItemProperty>)
        requires
            old(stream).wf(),
        ensures
            final(stream).wf(),
            final(stream).data@ == old(stream).data@,
            ({
                let d = old(stream).data@;
                let o = old(stream).offset as int;
                &&& r is Ok <==> old(stream).left() >= 5 && d[o] == 0 && d[o + 4] <= 4
                    && old(stream).left() >= 5 + d[o + 4]
                &&& r matches Ok(p) ==> (p matches ItemProperty::PixelInformation(x) && x.plane_count
                    == d[o + 4] && forall|i: int|
                    0 <= i < 4 ==> #[trigger] x.plane_depths[i] == if i < d[o + 4] {
                        d[o + 5 + i]
                    } else {
                        0u8
                    })
                &&& r is Err ==> r == Err::<ItemProperty, AvifError>(AvifError::BmffParseFailed)
            }),
    {
        let ghost d = stream.data@;
        let ghost o = stream.offset as int;
        let (_version, _flags) = stream.read_and_enforce_version_and_flags(0)?;
        let plane_count = stream.read_u8()?;
        if plane_count as usize > 4 {
            return Err(AvifError::BmffParseFailed);
        }
        let mut plane_depths: [u8; 4] = [0; 4];
        let mut i: u8 = 0;
        while i < plane_count
            invariant
                stream.wf(),
                stream.data@ == d,
                d == old(stream).data@,
                o == old(stream).offset,
                plane_count == d[o + 4],
                plane_count <= 4,
                0 <= i <= plane_count,
                stream.offset == o + 5 + i,
                forall|j: int| 0 <= j < 4 ==> #[trigger] plane_depths[j] == if j < i {
                    d[o + 5 + j]
                } else {
                    0u8
                },
            decreases plane_count - i,
        {
            let depth = stream.read_u8()?;
            plane_depths[i as usize] = depth;
            i += 1;
        }
        Ok(ItemProperty::PixelInformation(PixelInformation { plane_count, plane_depths }))
    }

    /// Parses an AV1 codec configuration property: marker 1, version 1, then
    /// the profile, level, tier, depth, monochrome and subsampling fields.
    /// The bytes after the first three are not read.
    #[allow(non_snake_case)]
    pub fn parse_av1C(stream: &mut IStream) -> (r: AvifResult<ItemProperty>)
        requires
            old(stream).wf(),
        ensures
            final(stream).wf(),
            final(stream).data@ == old(stream).data@,
            ({
                let b = old(stream).data@.subrange(old(stream).offset as int, old(stream).offset + 3);
                &&& r is Ok <==> old(stream).left() >= 3 && bits_value(b, 0, 1) == 1 && bits_value(
                    b,
                    1,
                    7,
                ) == 1
                &&& r matches Ok(p) ==> p == ItemProperty::CodecConfiguration(
                    CodecConfiguration {
                        seq_profile: bits_value(b, 8, 3) as u8,
                        seq_level_idx0: bits_value(b, 11, 5) as u8,
                        seq_tier0: bits_value(b, 16, 1) as u8,
                        high_bitdepth: bits_value(b, 17, 1) == 1,
                        twelve_bit: bits_value(b, 18, 1) == 1,
                        monochrome: bits_value(b, 19, 1) == 1,
                        chroma_subsampling_x: bits_value(b, 20, 1) as u8,
                        chroma_subsampling_y: bits_value(b, 21, 1) as u8,
                        chroma_sample_position: ChromaSamplePosition::spec_from_u32(
                            bits_value(b, 22, 2) as u32,
                        ),
                    },
                )
                &&& r is Err ==> r == Err::<ItemProperty, AvifError>(AvifError::BmffParseFailed)
            }),
    {
        proof {
            vstd::arithmetic::power2::lemma2_to64();
        }
        let mut bits = stream.sub_bit_stream(3)?;
        let marker = bits.read(1)?;
        if marker != 1 {
            return Err(AvifError::BmffParseFailed);
        }
        let version = bits.read(7)?;
        if version != 1 {
            return Err(AvifError::BmffParseFailed);
        }
        let seq_profile = bits.read(3)? as u8;
        let seq_level_idx0 = bits.read(5)? as u8;
        let seq_tier0 = bits.read(1)? as u8;
        let high_bitdepth = bits.read(1)? == 1;
        let twelve_bit = bits.read(1)? == 1;
        let monochrome = bits.read(1)? == 1;
        let chroma_subsampling_x = bits.read(1)? as u8;
        let chroma_subsampling_y = bits.read(1)? as u8;
        let chroma_sample_position = ChromaSamplePosition::from_u32(bits.read(2)?);
        Ok(
            ItemProperty::CodecConfiguration(
                CodecConfiguration {
                    seq_profile,
                    seq_level_idx0,
                    seq_tier0,
                    high_bitdepth,
                    twelve_bit,
                    monochrome,
                    chroma_subsampling_x,
                    chroma_subsampling_y,
                    chroma_sample_position,
                },
            ),
        )
    }

    /// Parses a colour information property: an ICC profile (`rICC` or
    /// `prof`, recorded by position and size), code points (`nclx`, whose
    /// seven reserved bits must be zero), or nothing for other colour types.
    pub fn parse_colr(stream: &mut IStream) -> (r: AvifResult<Option<ItemProperty>>)
        requires
            old(stream).wf(),
        ensures
            final(stream).wf(),
            final(stream).data@ == old(stream).data@,
            ({
                let d = old(stream).data@;
                let o = old(stream).offset as int;
                let left = old(stream).left();
                let t = text_at(d, o, 4);
                let typed = left >= 4 && utf8_at(d, o, 4);
                let nclx = typed && t == "nclx"@;
                let icc = typed && (t == "rICC"@ || t == "prof"@);
                let b = d.subrange(o + 10, o + 11);
                &&& r is Ok <==> typed && (!nclx || (left >= 11 && bits_value(b, 1, 7) == 0))
                &&& icc && r is Ok ==> r == Ok::<Option<ItemProperty>, AvifError>(
                    Some(
                        ItemProperty::ColorInformation(
                            ColorInformation::Icc(Icc { offset: (o + 4) as u64, size: (left - 4) as usize }),
                        ),
                    ),
                )
                &&& nclx && r is Ok ==> r == Ok::<Option<ItemProperty>, AvifError>(
                    Some(
                        ItemProperty::ColorInformation(
                            ColorInformation::Nclx(
                                Nclx {
                                    color_primaries: be_u16(d, o + 4) as u16,
                                    transfer_characteristics: be_u16(d, o + 6) as u16,
                                    matrix_coefficients: be_u16(d, o + 8) as u16,
                                    full_range: bits_value(b, 0, 1) == 1,
                                },
                            ),
                        ),
                    ),
                )
                &&& !icc && !nclx && r is Ok ==> r == Ok::<Option<ItemProperty>, AvifError>(None)
                &&& r is Err ==> r == Err::<Option<ItemProperty>, AvifError>(
                    AvifError::BmffParseFailed,
                )
            }),
    {
        let ghost d = stream.data@;
        let ghost o = stream.offset as int;
        proof {
            vstd::arithmetic::power2::lemma2_to64();
            reveal_strlit("rICC");
            reveal_strlit("prof");
            reveal_strlit("nclx");
            assert("rICC"@[0] != "nclx"@[0]);
            assert("prof"@[0] != "nclx"@[0]);
        }
        let color_type = stream.read_string(4)?;
        if string_is(&color_type, "rICC") || string_is(&color_type, "prof") {
            let icc = Icc { offset: stream.offset as u64, size: stream.bytes_left() };
            return Ok(Some(ItemProperty::ColorInformation(ColorInformation::Icc(icc))));
        }
        if string_is(&color_type, "nclx") {
            let color_primaries = stream.read_u16()?;
            let transfer_characteristics = stream.read_u16()?;
            let matrix_coefficients = stream.read_u16()?;
            let mut bits = stream.sub_bit_stream(1)?;
            assert(bits.data@ == d.subrange(o + 10, o + 11));
            let full_range = bits.read(1)? == 1;
            if bits.read(7)? != 0 {
                return Err(AvifError::BmffParseFailed);
            }
            return Ok(
                Some(
                    ItemProperty::ColorInformation(
                        ColorInformation::Nclx(
                            Nclx {
                                color_primaries,
                                transfer_characteristics,
                                matrix_coefficients,
                                full_range,
                            },
                        ),
                    ),
                ),
            );
        }
        Ok(None)
    }

    /// Parses a pixel aspect ratio property.
    pub fn parse_pasp(stream: &mut IStream) -> (r: AvifResult<ItemProperty>)
        requires
            old(stream).wf(),
        ensures
            final(stream).wf(),
            final(stream).data@ == old(stream).data@,
            ({
                let d = old(stream).data@;
                let o = old(stream).offset as int;
                &&& r is Ok <==> old(stream).left() >= 8
                &&& r matches Ok(p) ==> p == ItemProperty::PixelAspectRatio(
                    PixelAspectRatio {
                        h_spacing: be_u32(d, o) as u32,
                        v_spacing: be_u32(d, o + 4) as u32,
                    },
                )
                &&& r is Err ==> r == Err::<ItemProperty, AvifError>(AvifError::BmffParseFailed)
            }),
    {
        let h_spacing = stream.read_u32()?;
        let v_spacing = stream.read_u32()?;
        Ok(ItemProperty::PixelAspectRatio(PixelAspectRatio { h_spacing, v_spacing }))
    }

    /// Parses an auxiliary type property (full box, version 0): a
    /// zero-terminated UTF-8 type name.
    #[allow(non_snake_case)]
    pub fn parse_auxC(stream: &mut IStream) -> (r: AvifResult<ItemProperty>)
        requires
            old(stream).wf(),
        ensures
            final(stream).wf(),
            final(stream).data@ == old(stream).data@,
            ({
                let d = old(stream).data@;
                let o = old(stream).offset as int;
                let c = c_string_len(d, o + 4);
                &&& r is Ok <==> old(stream).left() >= 4 && d[o] == 0 && (c matches Some(n)
                    && utf8_at(d, o + 4, n))
                &&& r matches Ok(p) ==> (p matches ItemProperty::AuxiliaryType(t) && t@ == text_at(
                    d,
                    o + 4,
                    c.unwrap(),
                ))
                &&& r is Err ==> r == Err::<ItemProperty, AvifError>(AvifError::BmffParseFailed)
            }),
    {
        let (_version, _flags) = stream.read_and_enforce_version_and_flags(0)?;
        let auxiliary_type = stream.read_c_string()?;
        Ok(ItemProperty::AuxiliaryType(auxiliary_type))
    }

    /// Parses a clean aperture property: eight 32-bit numbers.
    pub fn parse_clap(stream: &mut IStream) -> (r: AvifResult<ItemProperty>)
        requires
            old(stream).wf(),
        ensures
            final(stream).wf(),
            final(stream).data@ == old(stream).data@,
            ({
                let d = old(stream).data@;
                let o = old(stream).offset as int;
                &&& r is Ok <==> old(stream).left() >= 32
                &&& r matches Ok(p) ==> p == ItemProperty::ClearAperture(
                    ClearAperture {
                        width_n: be_u32(d, o) as u32,
                        width_d: be_u32(d, o + 4) as u32,
                        height_n: be_u32(d, o + 8) as u32,
                        height_d: be_u32(d, o + 12) as u32,
                        horiz_off_n: be_u32(d, o + 16) as u32,
                        horiz_off_d: be_u32(d, o + 20) as u32,
                        vert_off_n: be_u32(d, o + 24) as u32,
                        vert_off_d: be_u32(d, o + 28) as u32,
                    },
                )
                &&& r is Err ==> r == Err::<ItemProperty, AvifError>(AvifError::BmffParseFailed)
            }),
    {
        let width_n = stream.read_u32()?;
        let width_d = stream.read_u32()?;
        let height_n = stream.read_u32()?;
        let height_d = stream.read_u32()?;
        let horiz_off_n = stream.read_u32()?;
        let horiz_off_d = stream.read_u32()?;
        let vert_off_n = stream.read_u32()?;
        let vert_off_d = stream.read_u32()?;
        Ok(
            ItemProperty::ClearAperture(
                ClearAperture {
                    width_n,
                    width_d,
                    height_n,
                    height_d,
                    horiz_off_n,
                    horiz_off_d,
                    vert_off_n,
                    vert_off_d,
                },
            ),
        )
    }

    /// Parses an image rotation property: six reserved zero bits, then the
    /// angle in two bits.
    pub fn parse_irot(stream: &mut IStream) -> (r: AvifResult<ItemProperty>)
        requires
            old(stream).wf(),
        ensures
            final(stream).wf(),
            final(stream).data@ == old(stream).data@,
            ({
                let b = old(stream).data@.subrange(old(stream).offset as int, old(stream).offset + 1);
                &&& r is Ok <==> old(stream).left() >= 1 && bits_value(b, 0, 6) == 0
                &&& r matches Ok(p) ==> p == ItemProperty::ImageRotation(bits_value(b, 6, 2) as u8)
                &&& r is Err ==> r == Err::<ItemProperty, AvifError>(AvifError::BmffParseFailed)
            }),
    {
        proof {
            vstd::arithmetic::power2::lemma2_to64();
        }
        let mut bits = stream.sub_bit_stream(1)?;
        if bits.read(6)? != 0 {
            return Err(AvifError::BmffParseFailed);
        }
        let angle = bits.read(2)? as u8;
        Ok(ItemProperty::ImageRotation(angle))
    }

    /// Parses an image mirror property: seven reserved zero bits, then the
    /// axis bit.
    pub fn parse_imir(stream: &mut IStream) -> (r: AvifResult<ItemProperty>)
        requires
            old(stream).wf(),
        ensures
            final(stream).wf(),
            final(stream).data@ == old(stream).data@,
            ({
                let b = old(stream).data@.subrange(old(stream).offset as int, old(stream).offset + 1);
                &&& r is Ok <==> old(stream).left() >= 1 && bits_value(b, 0, 7) == 0
                &&& r matches Ok(p) ==> p == ItemProperty::ImageMirror(bits_value(b, 7, 1) as u8)
                &&& r is Err ==> r == Err::<ItemProperty, AvifError>(AvifError::BmffParseFailed)
            }),
    {
        proof {
            vstd::arithmetic::power2::lemma2_to64();
        }
        let mut bits = stream.sub_bit_stream(1)?;
        if bits.read(7)? != 0 {
            return Err(AvifError::BmffParseFailed);
        }
        let axis = bits.read(1)? as u8;
        Ok(ItemProperty::ImageMirror(axis))
    }

    /// Parses an operating point selector property (at most 31).
    pub fn parse_a1op(stream: &mut IStream) -> (r: AvifResult<ItemProperty>)
        requires
            old(stream).wf(),
        ensures
            final(stream).wf(),
            final(stream).data@ == old(stream).data@,
            ({
                let d = old(stream).data@;
                let o = old(stream).offset as int;
                &&& r is Ok <==> old(stream).left() >= 1 && d[o] <= 31
                &&& r matches Ok(p) ==> p == ItemProperty::OperatingPointSelector(d[o])
                &&& r is Err ==> r == Err::<ItemProperty, AvifError>(AvifError::BmffParseFailed)
            }),
    {
        let op_index = stream.read_u8()?;
        if op_index > 31 {
            return Err(AvifError::BmffParseFailed);
        }
        Ok(ItemProperty::OperatingPointSelector(op_index))
    }

    /// Parses a layer selector property: a layer below 4, or 0xFFFF.
    pub fn parse_lsel(stream: &mut IStream) -> (r: AvifResult<ItemProperty>)
        requires
            old(stream).wf(),
        ensures
            final(stream).wf(),
            final(stream).data@ == old(stream).data@,
            ({
                let d = old(stream).data@;
                let o = old(stream).offset as int;
                let id = be_u16(d, o);
                &&& r is Ok <==> old(stream).left() >= 2 && (id == 0xFFFF || id < 4)
                &&& r matches Ok(p) ==> p == ItemProperty::LayerSelector(id as u16)
                &&& r is Err ==> r == Err::<ItemProperty, AvifError>(AvifError::BmffParseFailed)
            }),
    {
        let layer_id = stream.read_u16()?;
        if layer_id != 0xFFFF && layer_id >= 4 {
            return Err(AvifError::BmffParseFailed);
        }
        Ok(ItemProperty::LayerSelector(layer_id))
    }

    /// Parses a layered image indexing property: seven reserved zero bits,
    /// a size flag, then three layer sizes of 16 bits (32 with the flag).
    pub fn parse_a1lx(stream: &mut IStream) -> (r: AvifResult<ItemProperty>)
        requires
            old(stream).wf(),
        ensures
            final(stream).wf(),
            final(stream).data@ == old(stream).data@,
            ({
                let d = old(stream).data@;
                let o = old(stream).offset as int;
                let b = d.subrange(o, o + 1);
                let large = bits_value(b, 7, 1) == 1;
                let need = if large { 13int } else { 7int };
                &&& r is Ok <==> old(stream).left() >= need && bits_value(b, 0, 7) == 0
                &&& r matches Ok(p) ==> (p matches ItemProperty::AV1LayeredImageIndexing(s)
                    && forall|i: int|
                    0 <= i < 3 ==> #[trigger] s[i] == if large {
                        be_u32(d, o + 1 + 4 * i)
                    } else {
                        be_u16(d, o + 1 + 2 * i)
                    })
                &&& r is Err ==> r == Err::<ItemProperty, AvifError>(AvifError::BmffParseFailed)
            }),
    {
        let ghost d = stream.data@;
        let ghost o = stream.offset as int;
        proof {
            vstd::arithmetic::power2::lemma2_to64();
        }
        let mut bits = stream.sub_bit_stream(1)?;
        if bits.read(7)? != 0 {
            return Err(AvifError::BmffParseFailed);
        }
        let large_size = bits.read(1)? == 1;
        let mut layer_sizes: [usize; 3] = [0; 3];
        let mut i: usize = 0;
        while i < 3
            invariant
                stream.wf(),
                stream.data@ == d,
                d == old(stream).data@,
                o == old(stream).offset,
                large_size == (bits_value(d.subrange(o, o + 1), 7, 1) == 1),
                0 <= i <= 3,
                stream.offset == o + 1 + i * (if large_size { 4int } else { 2int }),
                forall|j: int| 0 <= j < i ==> #[trigger] layer_sizes[j] == if large_size {
                    be_u32(d, o + 1 + 4 * j)
                } else {
                    be_u16(d, o + 1 + 2 * j)
                },
            decreases 3 - i,
        {
            let size = if large_size {
                usize_from_u32(stream.read_u32()?)?
            } else {
                usize_from_u16(stream.read_u16()?)?
            };
            layer_sizes[i] = size;
            i += 1;
        }
        Ok(ItemProperty::AV1LayeredImageIndexing(layer_sizes))
    }

    /// Parses a content light level property.
    pub fn parse_clli(stream: &mut IStream) -> (r: AvifResult<ItemProperty>)
        requires
            old(stream).wf(),
        ensures
            final(stream).wf(),
            final(stream).data@ == old(stream).data@,
            ({
                let d = old(stream).data@;
                let o = old(stream).offset as int;
                &&& r is Ok <==> old(stream).left() >= 4
                &&& r matches Ok(p) ==> p == ItemProperty::ContentLightLevelInformation(
                    ContentLightLevelInformation {
                        max_cll: be_u16(d, o) as u16,
                        max_pall: be_u16(d, o + 2) as u16,
                    },
                )
                &&& r is Err ==> r == Err::<ItemProperty, AvifError>(AvifError::BmffParseFailed)
            }),
    {
        let max_cll = stream.read_u16()?;
        let max_pall = stream.read_u16()?;
        Ok(
            ItemProperty::ContentLightLevelInformation(
                ContentLightLevelInformation { max_cll, max_pall },
            ),
        )
    }

    /// Parses the primary item box: a 16-bit item id for version 0, else a
    /// 32-bit one.
    pub fn parse_pitm(stream: &mut IStream) -> (r: AvifResult<u32>)
        requires
            old(stream).wf(),
        ensures
            final(stream).wf(),
            final(stream).data@ == old(stream).data@,
            ({
                let d = old(stream).data@;
                let o = old(stream).offset as int;
                let small = old(stream).left() >= 4 && d[o] == 0;
                &&& r is Ok <==> old(stream).left() >= 4 && (if small {
                    old(stream).left() >= 6
                } else {
                    old(stream).left() >= 8
                })
                &&& r matches Ok(id) ==> id == if small {
                    be_u16(d, o + 4)
                } else {
                    be_u32(d, o + 4)
                }
                &&& r is Err ==> r == Err::<u32, AvifError>(AvifError::BmffParseFailed)
            }),
    {
        let (version, _flags) = stream.read_version_and_flags()?;
        let primary_item_id = if version == 0 {
            stream.read_u16()? as u32
        } else {
            stream.read_u32()?
        };
        Ok(primary_item_id)
    }
}


/// The header of the next box fits in the stream and its payload too; the
/// stream then moves past the header.
pub open spec fn next_box_fits(d: Seq<u8>, o: int) -> bool {
    spec_box_header(d, o) matches Some((size, _t, hl)) && o + hl + size <= d.len()
}

/// Where the box at `o` of `d` ends, where it fits.
pub open spec fn box_end(d: Seq<u8>, o: int) -> int {
    let h = spec_box_header(d, o).unwrap();
    o + h.2 + h.0
}

/// The type of the box at `o` of `d`.
pub open spec fn box_kind(d: Seq<u8>, o: int) -> Seq<char> {
    decode_utf8(spec_box_header(d, o).unwrap().1)
}

/// The boxes from `o` to the end of `d` follow one another and each fits.
pub open spec fn boxes_fit(d: Seq<u8>, o: int) -> bool
    decreases d.len() - o,
{
    if o < 0 || o >= d.len() {
        true
    } else if !next_box_fits(d, o) || box_end(d, o) <= o {
        false
    } else {
        boxes_fit(d, box_end(d, o))
    }
}

/// The boxes from `o` to the end of `d` fit and none has a type of
/// `kinds`.
pub open spec fn boxes_avoid(d: Seq<u8>, o: int, kinds: Set<Seq<char>>) -> bool
    decreases d.len() - o,
{
    if o < 0 || o >= d.len() {
        true
    } else if !next_box_fits(d, o) || box_end(d, o) <= o {
        false
    } else {
        !kinds.contains(box_kind(d, o)) && boxes_avoid(d, box_end(d, o), kinds)
    }
}

/// The types of the boxes from `o` to the end of `d`, as far as they fit.
pub open spec fn box_kinds(d: Seq<u8>, o: int) -> Seq<Seq<char>>
    decreases d.len() - o,
{
    if o < 0 || o >= d.len() {
        Seq::empty()
    } else if !next_box_fits(d, o) || box_end(d, o) <= o {
        Seq::empty()
    } else {
        seq![box_kind(d, o)] + box_kinds(d, box_end(d, o))
    }
}

/// The boxes from `o` to the end of `d` fit and all have type `kind`.
pub open spec fn boxes_only(d: Seq<u8>, o: int, kind: Seq<char>) -> bool
    decreases d.len() - o,
{
    if o < 0 || o >= d.len() {
        true
    } else if !next_box_fits(d, o) || box_end(d, o) <= o {
        false
    } else {
        box_kind(d, o) == kind && boxes_only(d, box_end(d, o), kind)
    }
}

/// The boxes of an item property box: an item property container that
/// fits, then only association boxes.
pub open spec fn iprp_layout(d: Seq<u8>, o: int) -> bool {
    &&& 0 <= o < d.len()
    &&& next_box_fits(d, o)
    &&& box_end(d, o) > o
    &&& box_kind(d, o) == "ipco"@
    &&& boxes_only(d, box_end(d, o), "ipma"@)
}

/// The layout of a meta box: a full box header of version 0, then a
/// handler box that fits, then boxes that fit, none a handler box.
pub open spec fn meta_layout(d: Seq<u8>, o: int) -> bool {
    let h = o + 4;
    &&& 0 <= o && h <= d.len()
    &&& d[o] == 0
    &&& h < d.len()
    &&& next_box_fits(d, h)
    &&& box_end(d, h) > h
    &&& box_kind(d, h) == "hdlr"@
    &&& boxes_avoid(d, box_end(d, h), set!["hdlr"@])
}

/// The types of the properties that have a parser of their own.
pub open spec fn known_property_kinds() -> Set<Seq<char>> {
    set![
        "ispe"@, "pixi"@, "av1C"@, "colr"@, "pasp"@, "auxC"@, "clap"@, "irot"@, "imir"@, "a1op"@, "lsel"@,
        "a1lx"@, "clli"@,
    ]
}

/// The auxiliary and premultiplication track references that the boxes
/// from `o` to the end of `d` give, starting from `aux` and `prem`: each
/// `auxl` or `prem` box sets its reference to its first four bytes, read
/// big-endian. `None` where a box does not fit, or a reference box is
/// shorter than four bytes.
pub open spec fn tref_refs(d: Seq<u8>, o: int, aux: u32, prem: u32) -> Option<(u32, u32)>
    decreases d.len() - o,
{
    if o < 0 || o >= d.len() {
        Some((aux, prem))
    } else if !next_box_fits(d, o) {
        None
    } else {
        let h = spec_box_header(d, o).unwrap();
        let p = d.subrange(o + h.2, o + h.2 + h.0);
        let kind = decode_utf8(h.1);
        let next = o + h.2 + h.0;
        if next <= o {
            None
        } else if kind == "auxl"@ {
            if p.len() < 4 {
                None
            } else {
                tref_refs(d, next, be_u32(p, 0) as u32, prem)
            }
        } else if kind == "prem"@ {
            if p.len() < 4 {
                None
            } else {
                tref_refs(d, next, aux, be_u32(p, 0) as u32)
            }
        } else {
            tref_refs(d, next, aux, prem)
        }
    }
}

impl MP4Box {
    fn parse_box<'a>(stream: &mut IStream<'a>) -> (r: AvifResult<(BoxHeader, IStream<'a>)>)
        requires
            old(stream).wf(),
        ensures
            final(stream).wf(),
            final(stream).data@ == old(stream).data@,
            final(stream).offset >= old(stream).offset,
            r is Ok ==> final(stream).offset > old(stream).offset,
            r matches Ok((h, sub)) ==> (spec_box_header(
                old(stream).data@,
                old(stream).offset as int,
            ) matches Some((size, t, hl)) && sub.wf() && sub.offset == 0 && h.size == size && h.box_type@ == decode_utf8(t)
                && sub.data@ == old(stream).data@.subrange(
                old(stream).offset + hl,
                old(stream).offset + hl + size,
            ) && final(stream).offset == old(stream).offset + hl + size),
            r is Ok <==> next_box_fits(old(stream).data@, old(stream).offset as int),
            r is Err ==> r == Err::<(BoxHeader, IStream<'a>), AvifError>(AvifError::BmffParseFailed),
    {
        let header = Self::parse_header(stream)?;
        let size = usize_from_u64(header.size)?;
        let sub_stream = stream.sub_stream(size)?;
        Ok((header, sub_stream))
    }

    /// Parses a handler box (full box, version 0): pre-defined zero, handler
    /// type `pict`, twelve reserved bytes and a UTF-8 name.
    pub fn parse_hdlr(stream: &mut IStream) -> (r: AvifResult<()>)
        requires
            old(stream).wf(),
        ensures
            final(stream).wf(),
            final(stream).data@ == old(stream).data@,
            ({
                let d = old(stream).data@;
                let o = old(stream).offset as int;
                let c = c_string_len(d, o + 24);
                &&& r is Ok <==> old(stream).left() >= 24 && d[o] == 0 && be_u32(d, o + 4) == 0
                    && utf8_at(d, o + 8, 4) && text_at(d, o + 8, 4) == "pict"@ && (c matches Some(n)
                    && utf8_at(d, o + 24, n))
                &&& r is Err ==> r == Err::<(), AvifError>(AvifError::BmffParseFailed)
            }),
    {
        let (_version, _flags) = stream.read_and_enforce_version_and_flags(0)?;
        let predefined = stream.read_u32()?;
        if predefined != 0 {
            return Err(AvifError::BmffParseFailed);
        }
        let handler_type = stream.read_string(4)?;
        if !string_is(&handler_type, "pict") {
            return Err(AvifError::BmffParseFailed);
        }
        stream.skip(4 * 3)?;
        let _name = stream.read_c_string()?;
        Ok(())
    }

    /// Parses an item location box (versions 0 to 2). Offsets, lengths and
    /// base offsets may be 0 or 4 bytes long; other sizes are not
    /// implemented.
    #[verifier::loop_isolation(false)]
    pub fn parse_iloc(stream: &mut IStream) -> (r: AvifResult<ItemLocationBox>)
        requires
            old(stream).wf(),
        ensures
            final(stream).wf(),
            final(stream).data@ == old(stream).data@,
            ({
                let d = old(stream).data@;
                let o = old(stream).offset as int;
                let b = d.subrange(o + 4, o + 6);
                let version = d[o];
                &&& r matches Ok(iloc) ==> {
                    &&& old(stream).left() >= 6
                    &&& version <= 2
                    &&& iloc.offset_size == bits_value(b, 0, 4)
                    &&& iloc.length_size == bits_value(b, 4, 4)
                    &&& iloc.base_offset_size == bits_value(b, 8, 4)
                    &&& (version == 1 || version == 2) ==> iloc.base_offset_size == 0
                    &&& iloc.items@.len() == if version < 2 {
                        be_u16(d, o + 6)
                    } else {
                        be_u32(d, o + 6)
                    }
                    &&& forall|i: int|
                        0 <= i < iloc.items@.len() ==> #[trigger] iloc.items@[i].fits(
                            iloc.offset_size,
                            iloc.length_size,
                            iloc.base_offset_size,
                        )
                }
                &&& old(stream).left() < 6 || version > 2 ==> r == Err::<ItemLocationBox, AvifError>(
                    AvifError::BmffParseFailed,
                )
                &&& r is Err ==> r == Err::<ItemLocationBox, AvifError>(AvifError::BmffParseFailed)
                    || r == Err::<ItemLocationBox, AvifError>(AvifError::NotImplemented)
            }),
    {
        proof {
            vstd::arithmetic::power2::lemma2_to64();
        }
        let ghost d0 = stream.data@;
        let ghost o = stream.offset as int;
        let (version, _flags) = stream.read_version_and_flags()?;
        if version > 2 {
            return Err(AvifError::BmffParseFailed);
        }
        let mut bits = stream.sub_bit_stream(2)?;
        let offset_size = bits.read(4)? as u8;
        let length_size = bits.read(4)? as u8;
        let base_offset_size = bits.read(4)? as u8;
        let mut iloc = ItemLocationBox { offset_size, length_size, base_offset_size, items: Vec::new() };
        if (version == 1 || version == 2) && iloc.base_offset_size != 0 {
            return Err(AvifError::BmffParseFailed);
        }
        let item_count: u32 = if version < 2 {
            stream.read_u16()? as u32
        } else {
            stream.read_u32()?
        };
        let ghost d = stream.data@;
        let mut i: u32 = 0;
        while i < item_count
            invariant
                stream.wf(),
                stream.data@ == d,
                d == old(stream).data@,
                0 <= i <= item_count,
                iloc.items@.len() == i,
                version <= 2,
                version == 1 || version == 2 ==> base_offset_size == 0,
                iloc.offset_size == offset_size,
                iloc.length_size == length_size,
                iloc.base_offset_size == base_offset_size,
                forall|k: int|
                    0 <= k < iloc.items@.len() ==> #[trigger] iloc.items@[k].fits(
                        offset_size,
                        length_size,
                        base_offset_size,
                    ),
            decreases item_count - i,
        {
            let entry = Self::parse_iloc_entry(
                stream,
                version,
                offset_size,
                length_size,
                base_offset_size,
            )?;
            iloc.items.push(entry);
            i += 1;
        }
        Ok(iloc)
    }

    /// Parses one entry of an item location box of the given version and
    /// field widths.
    fn parse_iloc_entry(
        stream: &mut IStream,
        version: u8,
        offset_size: u8,
        length_size: u8,
        base_offset_size: u8,
    ) -> (r: AvifResult<ItemLocationEntry>)
        requires
            old(stream).wf(),
            version <= 2,
        ensures
            final(stream).wf(),
            final(stream).data@ == old(stream).data@,
            r matches Ok(e) ==> e.fits(offset_size, length_size, base_offset_size),
            r is Err ==> r == Err::<ItemLocationEntry, AvifError>(AvifError::BmffParseFailed)
                || r == Err::<ItemLocationEntry, AvifError>(AvifError::NotImplemented),
    {
        proof {
            vstd::arithmetic::power2::lemma2_to64();
        }
        let item_id = if version < 2 {
            stream.read_u16()? as u32
        } else {
            stream.read_u32()?
        };
        if item_id == 0 {
            return Err(AvifError::BmffParseFailed);
        }
        let mut construction_method: u8 = 0;
        if version == 1 || version == 2 {
            stream.skip(1)?;
            let mut bits = stream.sub_bit_stream(1)?;
            bits.read(4)?;
            construction_method = bits.read(4)? as u8;
            if construction_method != 0 && construction_method != 1 {
                return Err(AvifError::BmffParseFailed);
            }
        }
        stream.skip(2)?;
        let base_offset = stream.read_uxx(base_offset_size)?;
        let extent_count = stream.read_u16()?;
        let mut extents: Vec<ItemLocationExtent> = Vec::new();
        let ghost d = stream.data@;
        let mut j: u16 = 0;
        while j < extent_count
            invariant
                stream.wf(),
                stream.data@ == d,
                d == old(stream).data@,
                0 <= j <= extent_count,
                extents@.len() == j,
                forall|x: int|
                    0 <= x < extents@.len() ==> #[trigger] extents@[x].fits(offset_size, length_size),
            decreases extent_count - j,
        {
            let offset = stream.read_uxx(offset_size)?;
            let length = stream.read_uxx(length_size)?;
            extents.push(ItemLocationExtent { offset, length });
            j += 1;
        }
        Ok(ItemLocationEntry { item_id, construction_method, base_offset, extent_count, extents })
    }

    /// Parses the boxes of an item property container. Known property types
    /// are parsed with their own parser, a colour box of another colour type
    /// is dropped, and any other type is kept as `Unknown` with its type.
    #[allow(non_snake_case)]
    #[verifier::loop_isolation(false)]
    pub fn parse_ipco(stream: &mut IStream) -> (r: AvifResult<Vec<ItemProperty>>)
        requires
            old(stream).wf(),
        ensures
            final(stream).wf(),
            final(stream).data@ == old(stream).data@,
            r is Err ==> r == Err::<Vec<ItemProperty>, AvifError>(AvifError::BmffParseFailed),
            !boxes_fit(old(stream).data@, old(stream).offset as int) ==> r is Err,
            boxes_avoid(old(stream).data@, old(stream).offset as int, known_property_kinds()) ==> {
                let kinds = box_kinds(old(stream).data@, old(stream).offset as int);
                r matches Ok(v) && v@.len() == kinds.len() && forall|i: int|
                    0 <= i < kinds.len() ==> (#[trigger] v@[i] matches ItemProperty::Unknown(t) && t@ == kinds[i])
            },
        decreases old(stream).data@.len() - old(stream).offset,
    {
        let mut properties: Vec<ItemProperty> = Vec::new();
        let ghost d = stream.data@;
        let ghost o = stream.offset as int;
        let ghost mut seen: Seq<Seq<char>> = Seq::empty();
        proof {
            assert(seen + box_kinds(d, o) =~= box_kinds(d, o));
        }
        while stream.has_bytes_left()
            invariant
                stream.wf(),
                stream.data@ == d,
                d == old(stream).data@,
                o == old(stream).offset,
                !boxes_fit(d, o) ==> !boxes_fit(d, stream.offset as int),
                boxes_avoid(d, o, known_property_kinds()) ==> {
                    &&& boxes_avoid(d, stream.offset as int, known_property_kinds())
                    &&& box_kinds(d, o) == seen + box_kinds(d, stream.offset as int)
                    &&& properties@.len() == seen.len()
                    &&& forall|i: int|
                        0 <= i < seen.len() ==> (#[trigger] properties@[i] matches ItemProperty::Unknown(t) && t@ == seen[i])
                },
            decreases stream.data@.len() - stream.offset,
        {
            let ghost off = stream.offset as int;
            let (header, mut sub_stream) = Self::parse_box(stream)?;
            proof {
                if boxes_avoid(d, o, known_property_kinds()) {
                    let rest = box_kinds(d, stream.offset as int);
                    assert(box_kinds(d, off) == seq![box_kind(d, off)] + rest);
                    assert(seen + (seq![box_kind(d, off)] + rest) =~= seen.push(box_kind(d, off)) + rest);
                    assert(!known_property_kinds().contains(header.box_type@));
                }
                seen = seen.push(header.box_type@);
            }
            let t = &header.box_type;
            if string_is(t, "ispe") {
                properties.push(Self::parse_ispe(&mut sub_stream)?);
            } else if string_is(t, "pixi") {
                properties.push(Self::parse_pixi(&mut sub_stream)?);
            } else if string_is(t, "av1C") {
                properties.push(Self::parse_av1C(&mut sub_stream)?);
            } else if string_is(t, "colr") {
                if let Some(colr) = Self::parse_colr(&mut sub_stream)? {
                    properties.push(colr);
                }
            } else if string_is(t, "pasp") {
                properties.push(Self::parse_pasp(&mut sub_stream)?);
            } else if string_is(t, "auxC") {
                properties.push(Self::parse_auxC(&mut sub_stream)?);
            } else if string_is(t, "clap") {
                properties.push(Self::parse_clap(&mut sub_stream)?);
            } else if string_is(t, "irot") {
                properties.push(Self::parse_irot(&mut sub_stream)?);
            } else if string_is(t, "imir") {
                properties.push(Self::parse_imir(&mut sub_stream)?);
            } else if string_is(t, "a1op") {
                properties.push(Self::parse_a1op(&mut sub_stream)?);
            } else if string_is(t, "lsel") {
                properties.push(Self::parse_lsel(&mut sub_stream)?);
            } else if string_is(t, "a1lx") {
                properties.push(Self::parse_a1lx(&mut sub_stream)?);
            } else if string_is(t, "clli") {
                properties.push(Self::parse_clli(&mut sub_stream)?);
            } else {
                properties.push(ItemProperty::Unknown(header.box_type));
            }
        }
        proof {
            if boxes_avoid(d, o, known_property_kinds()) {
                assert(seen + box_kinds(d, stream.offset as int) =~= seen);
            }
        }
        Ok(properties)
    }

    /// Parses an item property association box: entries ordered by strictly
    /// increasing, nonzero item id, each with its (property index, essential)
    /// pairs; indices are 15 bits when `flags & 1`, else 7 bits.
    #[verifier::loop_isolation(false)]
    pub fn parse_ipma(stream: &mut IStream) -> (r: AvifResult<Vec<ItemPropertyAssociation>>)
        requires
            old(stream).wf(),
        ensures
            final(stream).wf(),
            final(stream).data@ == old(stream).data@,
            ({
                let d = old(stream).data@;
                let o = old(stream).offset as int;
                &&& r matches Ok(v) ==> {
                    &&& old(stream).left() >= 8
                    &&& v@.len() == be_u32(d, o + 4)
                    &&& forall|i: int|
                        0 <= i < v@.len() ==> {
                            let e = #[trigger] v@[i];
                            &&& e.version == d[o]
                            &&& e.flags == be_u24(d, o + 1)
                            &&& e.item_id != 0
                            &&& forall|k: int|
                                0 <= k < e.associations@.len() ==> #[trigger] e.associations@[k].0
                                    < if e.flags % 2 == 1 { 0x8000int } else { 0x80int }
                        }
                    &&& forall|i: int, j: int|
                        0 <= i < j < v@.len() ==> #[trigger] v@[i].item_id < #[trigger] v@[j].item_id
                }
                &&& r is Err ==> r == Err::<Vec<ItemPropertyAssociation>, AvifError>(
                    AvifError::BmffParseFailed,
                )
            }),
    {
        proof {
            vstd::arithmetic::power2::lemma2_to64();
        }
        let ghost d = stream.data@;
        let ghost o = stream.offset as int;
        let (version, flags) = stream.read_version_and_flags()?;
        let entry_count = stream.read_u32()?;
        let mut previous_item_id: u32 = 0;
        let mut ipma: Vec<ItemPropertyAssociation> = Vec::new();
        let mut i: u32 = 0;
        assert(flags & 1 == flags % 2) by (bit_vector);
        while i < entry_count
            invariant
                stream.wf(),
                stream.data@ == d,
                d == old(stream).data@,
                o == old(stream).offset,
                version == d[o],
                flags == be_u24(d, o + 1),
                flags & 1 == flags % 2,
                entry_count == be_u32(d, o + 4),
                0 <= i <= entry_count,
                ipma@.len() == i,
                i > 0 ==> previous_item_id == ipma@[i - 1].item_id,
                forall|k: int|
                    0 <= k < ipma@.len() ==> {
                        let e = #[trigger] ipma@[k];
                        &&& e.version == version
                        &&& e.flags == flags
                        &&& e.item_id != 0
                        &&& forall|m: int|
                            0 <= m < e.associations@.len() ==> #[trigger] e.associations@[m].0
                                < if e.flags % 2 == 1 { 0x8000int } else { 0x80int }
                    },
                forall|a: int, b: int|
                    0 <= a < b < ipma@.len() ==> #[trigger] ipma@[a].item_id < #[trigger] ipma@[b].item_id,
            decreases entry_count - i,
        {
            let item_id = if version < 1 {
                stream.read_u16()? as u32
            } else {
                stream.read_u32()?
            };
            if item_id == 0 {
                return Err(AvifError::BmffParseFailed);
            }
            if item_id <= previous_item_id {
                return Err(AvifError::BmffParseFailed);
            }
            previous_item_id = item_id;
            let association_count = stream.read_u8()?;
            let mut associations: Vec<(u16, bool)> = Vec::new();
            let mut j: u8 = 0;
            while j < association_count
                invariant
                    stream.wf(),
                    stream.data@ == d,
                    d == old(stream).data@,
                    flags & 1 == flags % 2,
                    0 <= j <= association_count,
                    associations@.len() == j,
                    forall|m: int|
                        0 <= m < associations@.len() ==> #[trigger] associations@[m].0 < if flags
                            % 2 == 1 {
                            0x8000int
                        } else {
                            0x80int
                        },
                decreases association_count - j,
            {
                let mut bits = stream.sub_bit_stream(1)?;
                let essential = bits.read(1)? == 1;
                let mut property_index: u16 = bits.read(7)? as u16;
                if (flags & 0x1) == 1 {
                    let property_index_lsb: u16 = stream.read_u8()? as u16;
                    assert((property_index << 8u16) | property_index_lsb < 0x8000) by (bit_vector)
                        requires
                            property_index < 0x80,
                            property_index_lsb < 0x100,
                    ;
                    property_index <<= 8;
                    property_index |= property_index_lsb;
                }
                associations.push((property_index, essential));
                j += 1;
            }
            let entry = ItemPropertyAssociation { version, flags, item_id, associations };
            ipma.push(entry);
            i += 1;
        }
        Ok(ipma)
    }

    /// Parses an item property box: an item property container first, then
    /// only association boxes.
    #[verifier::loop_isolation(false)]
    pub fn parse_iprp(stream: &mut IStream) -> (r: AvifResult<ItemPropertyBox>)
        requires
            old(stream).wf(),
        ensures
            final(stream).wf(),
            final(stream).data@ == old(stream).data@,
            r matches Ok(b) ==> forall|a: int|
                0 <= a < b.associations@.len() ==> #[trigger] b.associations@[a].item_id != 0,
            r is Err ==> r == Err::<ItemPropertyBox, AvifError>(AvifError::BmffParseFailed),
            !iprp_layout(old(stream).data@, old(stream).offset as int) ==> r is Err,
    {
        let ghost o = stream.offset as int;
        let (header, mut sub_stream) = Self::parse_box(stream)?;
        if !string_is(&header.box_type, "ipco") {
            return Err(AvifError::BmffParseFailed);
        }
        let properties = Self::parse_ipco(&mut sub_stream)?;
        let mut iprp = ItemPropertyBox { properties, associations: Vec::new() };
        let ghost d = stream.data@;
        while stream.has_bytes_left()
            invariant
                stream.wf(),
                stream.data@ == d,
                d == old(stream).data@,
                !iprp_layout(d, o) ==> !boxes_only(d, stream.offset as int, "ipma"@),
                forall|a: int|
                    0 <= a < iprp.associations@.len() ==> #[trigger] iprp.associations@[a].item_id
                        != 0,
            decreases stream.data@.len() - stream.offset,
        {
            let (header, mut sub_stream) = Self::parse_box(stream)?;
            if !string_is(&header.box_type, "ipma") {
                return Err(AvifError::BmffParseFailed);
            }
            let mut entries = Self::parse_ipma(&mut sub_stream)?;
            let ghost before = iprp.associations@;
            let ghost added = entries@;
            iprp.associations.append(&mut entries);
            assert forall|a: int|
                0 <= a < iprp.associations@.len() implies #[trigger] iprp.associations@[a].item_id
                    != 0 by {
                if a >= before.len() {
                    assert(iprp.associations@[a] == added[a - before.len()]);
                }
            }
        }
        Ok(iprp)
    }
    /// Parses an item information box: the entry count (16 bits for version
    /// 0, else 32 bits), then that many `infe` boxes of version 2 or 3.
    pub fn parse_iinf(stream: &mut IStream) -> (r: AvifResult<Vec<ItemInfo>>)
        requires
            old(stream).wf(),
        ensures
            final(stream).wf(),
            final(stream).data@ == old(stream).data@,
            ({
                let d = old(stream).data@;
                let o = old(stream).offset as int;
                &&& r matches Ok(v) ==> {
                    &&& old(stream).left() >= 4
                    &&& v@.len() == if d[o] == 0 {
                        be_u16(d, o + 4)
                    } else {
                        be_u32(d, o + 4)
                    }
                    &&& forall|i: int| 0 <= i < v@.len() ==> (#[trigger] v@[i]).item_id != 0
                }
                &&& r is Err ==> r == Err::<Vec<ItemInfo>, AvifError>(AvifError::BmffParseFailed)
            }),
    {
        let (version, _flags) = stream.read_version_and_flags()?;
        let entry_count: u32 = if version == 0 {
            stream.read_u16()? as u32
        } else {
            stream.read_u32()?
        };
        let mut iinf: Vec<ItemInfo> = Vec::new();
        let ghost d = stream.data@;
        let mut i: u32 = 0;
        while i < entry_count
            invariant
                stream.wf(),
                stream.data@ == d,
                d == old(stream).data@,
                0 <= i <= entry_count,
                iinf@.len() == i,
                forall|k: int| 0 <= k < iinf@.len() ==> (#[trigger] iinf@[k]).item_id != 0,
            decreases entry_count - i,
        {
            let entry = Self::parse_infe(stream)?;
            iinf.push(entry);
            i += 1;
        }
        Ok(iinf)
    }

    /// Parses one `infe` box of an item information box.
    fn parse_infe(stream: &mut IStream) -> (r: AvifResult<ItemInfo>)
        requires
            old(stream).wf(),
        ensures
            final(stream).wf(),
            final(stream).data@ == old(stream).data@,
            r matches Ok(e) ==> e.item_id != 0,
            r is Err ==> r == Err::<ItemInfo, AvifError>(AvifError::BmffParseFailed),
    {
        let header = Self::parse_header(stream)?;
        if !string_is(&header.box_type, "infe") {
            return Err(AvifError::BmffParseFailed);
        }
        let (version, _flags) = stream.read_version_and_flags()?;
        if version != 2 && version != 3 {
            return Err(AvifError::BmffParseFailed);
        }
        let item_id: u32 = if version == 2 {
            stream.read_u16()? as u32
        } else {
            stream.read_u32()?
        };
        if item_id == 0 {
            return Err(AvifError::BmffParseFailed);
        }
        let item_protection_index = stream.read_u16()?;
        let item_type = stream.read_string(4)?;
        let item_name = stream.read_c_string()?;
        let mut content_type = String::new();
        let mut content_encoding = String::new();
        if string_is(&item_type, "mime") {
            content_type = stream.read_c_string()?;
            content_encoding = stream.read_c_string()?;
        } else if string_is(&item_type, "uri") {
            let _uri_type = stream.read_c_string()?;
        }
        Ok(
            ItemInfo {
                item_id,
                item_protection_index,
                item_type,
                item_name,
                content_type,
                content_encoding,
            },
        )
    }

    /// Parses an item reference box. Versions above 1 are skipped (no
    /// references); otherwise each reference box names a nonzero source item
    /// and its nonzero targets.
    pub fn parse_iref(stream: &mut IStream) -> (r: AvifResult<Vec<ItemReference>>)
        requires
            old(stream).wf(),
        ensures
            final(stream).wf(),
            final(stream).data@ == old(stream).data@,
            r matches Ok(v) ==> {
                &&& old(stream).left() >= 4
                &&& old(stream).at(0) > 1 ==> v@.len() == 0
                &&& forall|i: int|
                    0 <= i < v@.len() ==> (#[trigger] v@[i]).from_item_id != 0 && v@[i].to_item_id
                        != 0
            },
            r is Err ==> r == Err::<Vec<ItemReference>, AvifError>(AvifError::BmffParseFailed),
    {
        let (version, _flags) = stream.read_version_and_flags()?;
        let mut iref: Vec<ItemReference> = Vec::new();
        if version <= 1 {
            let ghost d = stream.data@;
            while stream.has_bytes_left()
                invariant
                    stream.wf(),
                    stream.data@ == d,
                    d == old(stream).data@,
                    version <= 1,
                    forall|i: int|
                        0 <= i < iref@.len() ==> (#[trigger] iref@[i]).from_item_id != 0
                            && iref@[i].to_item_id != 0,
                decreases stream.data@.len() - stream.offset,
            {
                let ghost before = stream.offset;
                let header = Self::parse_header(stream)?;
                let from_item_id: u32 = if version == 0 {
                    stream.read_u16()? as u32
                } else {
                    stream.read_u32()?
                };
                if from_item_id == 0 {
                    return Err(AvifError::BmffParseFailed);
                }
                let reference_count = stream.read_u16()?;
                let mut j: u16 = 0;
                while j < reference_count
                    invariant
                        stream.wf(),
                        stream.data@ == d,
                        d == old(stream).data@,
                        from_item_id != 0,
                        stream.offset > before,
                        j <= reference_count,
                        forall|i: int|
                            0 <= i < iref@.len() ==> (#[trigger] iref@[i]).from_item_id != 0
                                && iref@[i].to_item_id != 0,
                    decreases reference_count - j,
                {
                    let to_item_id: u32 = if version == 0 {
                        stream.read_u16()? as u32
                    } else {
                        stream.read_u32()?
                    };
                    if to_item_id == 0 {
                        return Err(AvifError::BmffParseFailed);
                    }
                    iref.push(
                        ItemReference {
                            from_item_id,
                            to_item_id,
                            reference_type: header.box_type.clone(),
                        },
                    );
                    j += 1;
                }
            }
        }
        Ok(iref)
    }

    /// Parses an item data box: all its bytes, of which there must be at
    /// least one.
    pub fn parse_idat(stream: &mut IStream) -> (r: AvifResult<Vec<u8>>)
        requires
            old(stream).wf(),
        ensures
            final(stream).wf(),
            final(stream).data@ == old(stream).data@,
            r is Ok <==> old(stream).left() > 0,
            r matches Ok(v) ==> v@ == unread(old(stream)),
            r is Err ==> r == Err::<Vec<u8>, AvifError>(AvifError::BmffParseFailed),
    {
        if !stream.has_bytes_left() {
            return Err(AvifError::BmffParseFailed);
        }
        let size = stream.bytes_left();
        stream.get_vec(size)
    }

    /// Parses a meta box (full box, version 0): a handler box first, then at
    /// most one each of the item location, primary item, item property,
    /// item information, item reference and item data boxes, in any order;
    /// other boxes are skipped.
    pub fn parse_meta(stream: &mut IStream) -> (r: AvifResult<MetaBox>)
        requires
            old(stream).wf(),
        ensures
            final(stream).wf(),
            final(stream).data@ == old(stream).data@,
            r matches Ok(m) ==> m.valid(),
            r is Err ==> r == Err::<MetaBox, AvifError>(AvifError::BmffParseFailed) || r == Err::<
                MetaBox,
                AvifError,
            >(AvifError::NotImplemented),
            !meta_layout(old(stream).data@, old(stream).offset as int) ==> r is Err,
    {
        let ghost o = stream.offset as int;
        let (_version, _flags) = stream.read_and_enforce_version_and_flags(0)?;
        let ghost o4 = stream.offset as int;
        let (header, mut sub_stream) = Self::parse_box(stream)?;
        if !string_is(&header.box_type, "hdlr") {
            return Err(AvifError::BmffParseFailed);
        }
        Self::parse_hdlr(&mut sub_stream)?;
        let mut meta = MetaBox {
            iinf: Vec::new(),
            iloc: ItemLocationBox {
                offset_size: 0,
                length_size: 0,
                base_offset_size: 0,
                items: Vec::new(),
            },
            primary_item_id: 0,
            iprp: ItemPropertyBox { properties: Vec::new(), associations: Vec::new() },
            iref: Vec::new(),
            idat: Vec::new(),
        };
        let mut seen_iloc = false;
        let mut seen_pitm = false;
        let mut seen_iprp = false;
        let mut seen_iinf = false;
        let mut seen_iref = false;
        let mut seen_idat = false;
        let ghost d = stream.data@;
        while stream.has_bytes_left()
            invariant
                stream.wf(),
                stream.data@ == d,
                d == old(stream).data@,
                meta.valid(),
                !meta_layout(d, o) ==> !boxes_avoid(d, stream.offset as int, set!["hdlr"@]),
            decreases stream.data@.len() - stream.offset,
        {
            let (header, mut sub_stream) = Self::parse_box(stream)?;
            let t = &header.box_type;
            if string_is(t, "hdlr") {
                return Err(AvifError::BmffParseFailed);
            } else if string_is(t, "iloc") {
                if seen_iloc {
                    return Err(AvifError::BmffParseFailed);
                }
                seen_iloc = true;
                meta.iloc = Self::parse_iloc(&mut sub_stream)?;
            } else if string_is(t, "pitm") {
                if seen_pitm {
                    return Err(AvifError::BmffParseFailed);
                }
                seen_pitm = true;
                meta.primary_item_id = Self::parse_pitm(&mut sub_stream)?;
            } else if string_is(t, "iprp") {
                if seen_iprp {
                    return Err(AvifError::BmffParseFailed);
                }
                seen_iprp = true;
                meta.iprp = Self::parse_iprp(&mut sub_stream)?;
            } else if string_is(t, "iinf") {
                if seen_iinf {
                    return Err(AvifError::BmffParseFailed);
                }
                seen_iinf = true;
                meta.iinf = Self::parse_iinf(&mut sub_stream)?;
            } else if string_is(t, "iref") {
                if seen_iref {
                    return Err(AvifError::BmffParseFailed);
                }
                seen_iref = true;
                meta.iref = Self::parse_iref(&mut sub_stream)?;
            } else if string_is(t, "idat") {
                if seen_idat {
                    return Err(AvifError::BmffParseFailed);
                }
                seen_idat = true;
                meta.idat = Self::parse_idat(&mut sub_stream)?;
            }
        }
        Ok(meta)
    }
    /// Parses a track header box (version 0 or 1): the track id, the track
    /// duration and the width and height (16.16 fixed point, integer part
    /// kept), which must be nonzero. Nothing else of the track changes.
    pub fn parse_tkhd(stream: &mut IStream, track: &mut Track) -> (r: AvifResult<()>)
        requires
            old(stream).wf(),
        ensures
            final(stream).wf(),
            final(stream).data@ == old(stream).data@,
            ({
                let d = old(stream).data@;
                let o = old(stream).offset as int;
                let v1 = d[o] == 1;
                let id_at = if v1 { o + 20 } else { o + 12 };
                let dims_at = if v1 { o + 88 } else { o + 76 };
                let w = be_u32(d, dims_at) / 0x10000;
                let h = be_u32(d, dims_at + 4) / 0x10000;
                &&& r is Ok <==> old(stream).left() >= 4 && d[o] <= 1 && old(stream).left()
                    >= dims_at + 8 - o && w != 0 && h != 0
                &&& r is Ok ==> *final(track) == (Track {
                    id: be_u32(d, id_at) as u32,
                    track_duration: if v1 {
                        be_u64(d, o + 28) as u64
                    } else {
                        be_u32(d, o + 20) as u64
                    },
                    width: w as u32,
                    height: h as u32,
                    ..*old(track)
                })
                &&& r is Err ==> r == Err::<(), AvifError>(AvifError::BmffParseFailed)
                    && *final(track) == *old(track)
            }),
    {
        let (version, _flags) = stream.read_version_and_flags()?;
        let id: u32;
        let track_duration: u64;
        if version == 1 {
            stream.skip_u64()?;
            stream.skip_u64()?;
            id = stream.read_u32()?;
            stream.skip_u32()?;
            track_duration = stream.read_u64()?;
        } else if version == 0 {
            stream.skip_u32()?;
            stream.skip_u32()?;
            id = stream.read_u32()?;
            stream.skip_u32()?;
            track_duration = stream.read_u32()? as u64;
        } else {
            return Err(AvifError::BmffParseFailed);
        }
        stream.skip(52)?;
        let w32 = stream.read_u32()?;
        let h32 = stream.read_u32()?;
        let width = w32 >> 16;
        let height = h32 >> 16;
        assert(w32 >> 16 == w32 / 0x10000) by (bit_vector);
        assert(h32 >> 16 == h32 / 0x10000) by (bit_vector);
        if width == 0 || height == 0 {
            return Err(AvifError::BmffParseFailed);
        }
        track.id = id;
        track.track_duration = track_duration;
        track.width = width;
        track.height = height;
        Ok(())
    }

    /// Parses a media header box (version 0 or 1): the media timescale and
    /// duration. Nothing else of the track changes.
    pub fn parse_mdhd(stream: &mut IStream, track: &mut Track) -> (r: AvifResult<()>)
        requires
            old(stream).wf(),
        ensures
            final(stream).wf(),
            final(stream).data@ == old(stream).data@,
            ({
                let d = old(stream).data@;
                let o = old(stream).offset as int;
                let v1 = d[o] == 1;
                &&& r is Ok <==> old(stream).left() >= 4 && d[o] <= 1 && old(stream).left() >= if v1 {
                    36int
                } else {
                    24int
                }
                &&& r is Ok ==> *final(track) == (Track {
                    media_timescale: if v1 {
                        be_u32(d, o + 20) as u32
                    } else {
                        be_u32(d, o + 12) as u32
                    },
                    media_duration: if v1 {
                        be_u64(d, o + 24) as u64
                    } else {
                        be_u32(d, o + 16) as u64
                    },
                    ..*old(track)
                })
                &&& r is Err ==> r == Err::<(), AvifError>(AvifError::BmffParseFailed)
                    && *final(track) == *old(track)
            }),
    {
        let (version, _flags) = stream.read_version_and_flags()?;
        let timescale: u32;
        let duration: u64;
        if version == 1 {
            stream.skip_u64()?;
            stream.skip_u64()?;
            timescale = stream.read_u32()?;
            duration = stream.read_u64()?;
        } else if version == 0 {
            stream.skip_u32()?;
            stream.skip_u32()?;
            timescale = stream.read_u32()?;
            duration = stream.read_u32()? as u64;
        } else {
            return Err(AvifError::BmffParseFailed);
        }
        stream.skip(4)?;
        track.media_timescale = timescale;
        track.media_duration = duration;
        Ok(())
    }

    /// Parses a chunk offset box (full box, version 0): the entry count, then
    /// that many offsets, 64 bits each when `large_offset`, else 32 bits.
    /// The offsets are appended to the table; nothing else changes.
    pub fn parse_stco(stream: &mut IStream, sample_table: &mut SampleTable, large_offset: bool) -> (r:
        AvifResult<()>)
        requires
            old(stream).wf(),
        ensures
            final(stream).wf(),
            final(stream).data@ == old(stream).data@,
            ({
                let d = old(stream).data@;
                let o = old(stream).offset as int;
                let w: int = if large_offset { 8 } else { 4 };
                &&& r is Ok ==> {
                    &&& old(stream).left() >= 8
                    &&& d[o] == 0
                    &&& *final(sample_table) == (SampleTable {
                        chunk_offsets: final(sample_table).chunk_offsets,
                        ..*old(sample_table)
                    })
                    &&& final(sample_table).chunk_offsets@ == old(sample_table).chunk_offsets@ + Seq::new(
                        be_u32(d, o + 4) as nat,
                        |k: int|
                            if large_offset {
                                be_u64(d, o + 8 + 8 * k) as u64
                            } else {
                                be_u32(d, o + 8 + 4 * k) as u64
                            },
                    )
                }
                &&& r is Err ==> r == Err::<(), AvifError>(AvifError::BmffParseFailed)
            }),
    {
        let ghost d = stream.data@;
        let ghost o = stream.offset as int;
        let ghost start = sample_table.chunk_offsets@;
        let (_version, _flags) = stream.read_and_enforce_version_and_flags(0)?;
        let entry_count = stream.read_u32()?;
        let mut i: u32 = 0;
        while i < entry_count
            invariant
                stream.wf(),
                stream.data@ == d,
                d == old(stream).data@,
                o == old(stream).offset,
                entry_count == be_u32(d, o + 4),
                i <= entry_count,
                stream.offset == o + 8 + (if large_offset { 8 * i } else { 4 * i }),
                *sample_table == (SampleTable {
                    chunk_offsets: sample_table.chunk_offsets,
                    ..*old(sample_table)
                }),
                start == old(sample_table).chunk_offsets@,
                sample_table.chunk_offsets@ == start + Seq::new(
                    i as nat,
                    |k: int|
                        if large_offset {
                            be_u64(d, o + 8 + 8 * k) as u64
                        } else {
                            be_u32(d, o + 8 + 4 * k) as u64
                        },
                ),
            decreases entry_count - i,
        {
            let chunk_offset: u64 = if large_offset {
                stream.read_u64()?
            } else {
                stream.read_u32()? as u64
            };
            sample_table.chunk_offsets.push(chunk_offset);
            i += 1;
            assert(sample_table.chunk_offsets@ =~= start + Seq::new(
                i as nat,
                |k: int|
                    if large_offset {
                        be_u64(d, o + 8 + 8 * k) as u64
                    } else {
                        be_u32(d, o + 8 + 4 * k) as u64
                    },
            ));
        }
        Ok(())
    }
    /// Parses a sample-to-chunk box (full box, version 0): entries of first
    /// chunk, samples per chunk and sample description index, appended to
    /// the table. The first entry must start at chunk 1 and first chunks
    /// must increase strictly.
    #[verifier::rlimit(40)]
    #[verifier::spinoff_prover]
    pub fn parse_stsc(stream: &mut IStream, sample_table: &mut SampleTable) -> (r: AvifResult<()>)
        requires
            old(stream).wf(),
        ensures
            final(stream).wf(),
            final(stream).data@ == old(stream).data@,
            ({
                let d = old(stream).data@;
                let o = old(stream).offset as int;
                &&& r is Ok ==> {
                    &&& old(stream).left() >= 8
                    &&& d[o] == 0
                    &&& *final(sample_table) == (SampleTable {
                        sample_to_chunk: final(sample_table).sample_to_chunk,
                        ..*old(sample_table)
                    })
                    &&& final(sample_table).sample_to_chunk@ == old(sample_table).sample_to_chunk@
                        + Seq::new(
                        be_u32(d, o + 4) as nat,
                        |k: int|
                            SampleToChunk {
                                first_chunk: be_u32(d, o + 8 + 12 * k) as u32,
                                samples_per_chunk: be_u32(d, o + 12 + 12 * k) as u32,
                                sample_description_index: be_u32(d, o + 16 + 12 * k) as u32,
                            },
                    )
                    &&& be_u32(d, o + 4) > 0 ==> be_u32(d, o + 8) == 1
                    &&& forall|k: int|
                        0 < k < be_u32(d, o + 4) ==> #[trigger] be_u32(d, o + 8 + 12 * k) > be_u32(
                            d,
                            o + 8 + 12 * (k - 1),
                        )
                }
                &&& r is Err ==> r == Err::<(), AvifError>(AvifError::BmffParseFailed)
            }),
    {
        let ghost d = stream.data@;
        let ghost o = stream.offset as int;
        let ghost start = sample_table.sample_to_chunk@;
        let (_version, _flags) = stream.read_and_enforce_version_and_flags(0)?;
        let entry_count = stream.read_u32()?;
        let mut i: u32 = 0;
        while i < entry_count
            invariant
                stream.wf(),
                stream.data@ == d,
                d == old(stream).data@,
                o == old(stream).offset,
                entry_count == be_u32(d, o + 4),
                i <= entry_count,
                stream.offset == o + 8 + 12 * i,
                *sample_table == (SampleTable {
                    sample_to_chunk: sample_table.sample_to_chunk,
                    ..*old(sample_table)
                }),
                start == old(sample_table).sample_to_chunk@,
                sample_table.sample_to_chunk@ == start + Seq::new(
                    i as nat,
                    |k: int|
                        SampleToChunk {
                            first_chunk: be_u32(d, o + 8 + 12 * k) as u32,
                            samples_per_chunk: be_u32(d, o + 12 + 12 * k) as u32,
                            sample_description_index: be_u32(d, o + 16 + 12 * k) as u32,
                        },
                ),
                i > 0 ==> be_u32(d, o + 8) == 1,
                forall|k: int|
                    0 < k < i ==> #[trigger] be_u32(d, o + 8 + 12 * k) > be_u32(
                        d,
                        o + 8 + 12 * (k - 1),
                    ),
            decreases entry_count - i,
        {
            let first_chunk = stream.read_u32()?;
            let samples_per_chunk = stream.read_u32()?;
            let sample_description_index = stream.read_u32()?;
            if i == 0 {
                if first_chunk != 1 {
                    return Err(AvifError::BmffParseFailed);
                }
            } else {
                let n = sample_table.sample_to_chunk.len();
                assert(sample_table.sample_to_chunk@[n - 1].first_chunk == be_u32(
                    d,
                    o + 8 + 12 * (i - 1),
                ));
                if first_chunk <= sample_table.sample_to_chunk[n - 1].first_chunk {
                    return Err(AvifError::BmffParseFailed);
                }
            }
            sample_table.sample_to_chunk.push(
                SampleToChunk { first_chunk, samples_per_chunk, sample_description_index },
            );
            i += 1;
            assert(sample_table.sample_to_chunk@ =~= start + Seq::new(
                i as nat,
                |k: int|
                    SampleToChunk {
                        first_chunk: be_u32(d, o + 8 + 12 * k) as u32,
                        samples_per_chunk: be_u32(d, o + 12 + 12 * k) as u32,
                        sample_description_index: be_u32(d, o + 16 + 12 * k) as u32,
                    },
            ));
        }
        Ok(())
    }

    /// Parses a sample size box (full box, version 0): one size for all
    /// samples when it is nonzero, else one 32-bit size per sample.
    pub fn parse_stsz(stream: &mut IStream, sample_table: &mut SampleTable) -> (r: AvifResult<()>)
        requires
            old(stream).wf(),
        ensures
            final(stream).wf(),
            final(stream).data@ == old(stream).data@,
            ({
                let d = old(stream).data@;
                let o = old(stream).offset as int;
                &&& r is Ok ==> {
                    &&& old(stream).left() >= 12
                    &&& d[o] == 0
                    &&& *final(sample_table) == (SampleTable {
                        sample_size: final(sample_table).sample_size,
                        ..*old(sample_table)
                    })
                    &&& be_u32(d, o + 4) > 0 ==> final(sample_table).sample_size
                        == SampleSize::FixedSize(be_u32(d, o + 4) as u32)
                    &&& be_u32(d, o + 4) == 0 ==> (final(sample_table).sample_size matches SampleSize::Sizes(v)
                        && v@ == Seq::new(
                        be_u32(d, o + 8) as nat,
                        |k: int| be_u32(d, o + 12 + 4 * k) as u32,
                    ))
                }
                &&& r is Err ==> r == Err::<(), AvifError>(AvifError::BmffParseFailed)
            }),
    {
        let ghost d = stream.data@;
        let ghost o = stream.offset as int;
        let (_version, _flags) = stream.read_and_enforce_version_and_flags(0)?;
        let sample_size = stream.read_u32()?;
        let sample_count = stream.read_u32()?;
        if sample_size > 0 {
            sample_table.sample_size = SampleSize::FixedSize(sample_size);
            return Ok(());
        }
        let mut sample_sizes: Vec<u32> = Vec::new();
        let mut i: u32 = 0;
        while i < sample_count
            invariant
                stream.wf(),
                stream.data@ == d,
                d == old(stream).data@,
                o == old(stream).offset,
                sample_count == be_u32(d, o + 8),
                i <= sample_count,
                stream.offset == o + 12 + 4 * i,
                sample_sizes@ == Seq::new(i as nat, |k: int| be_u32(d, o + 12 + 4 * k) as u32),
            decreases sample_count - i,
        {
            sample_sizes.push(stream.read_u32()?);
            i += 1;
            assert(sample_sizes@ =~= Seq::new(i as nat, |k: int| be_u32(d, o + 12 + 4 * k) as u32));
        }
        sample_table.sample_size = SampleSize::Sizes(sample_sizes);
        Ok(())
    }

    /// Reads `count` 32-bit big-endian values.
    fn read_u32_table(stream: &mut IStream, count: u32) -> (r: AvifResult<Vec<u32>>)
        requires
            old(stream).wf(),
        ensures
            final(stream).wf(),
            final(stream).data@ == old(stream).data@,
            r is Ok <==> old(stream).left() >= 4 * count,
            r matches Ok(v) ==> v@ == Seq::new(
                count as nat,
                |k: int| be_u32(old(stream).data@, old(stream).offset + 4 * k) as u32,
            ),
            r is Err ==> r == Err::<Vec<u32>, AvifError>(AvifError::BmffParseFailed),
    {
        let ghost d = stream.data@;
        let ghost o = stream.offset as int;
        let mut v: Vec<u32> = Vec::new();
        let mut i: u32 = 0;
        while i < count
            invariant
                stream.wf(),
                stream.data@ == d,
                d == old(stream).data@,
                o == old(stream).offset,
                i <= count,
                stream.offset == o + 4 * i,
                v@ == Seq::new(i as nat, |k: int| be_u32(d, o + 4 * k) as u32),
            decreases count - i,
        {
            v.push(stream.read_u32()?);
            i += 1;
            assert(v@ =~= Seq::new(i as nat, |k: int| be_u32(d, o + 4 * k) as u32));
        }
        Ok(v)
    }

    /// Parses a sync sample box (full box, version 0): the entry count, then
    /// that many sample numbers, appended to the table.
    pub fn parse_stss(stream: &mut IStream, sample_table: &mut SampleTable) -> (r: AvifResult<()>)
        requires
            old(stream).wf(),
        ensures
            final(stream).wf(),
            final(stream).data@ == old(stream).data@,
            ({
                let d = old(stream).data@;
                let o = old(stream).offset as int;
                &&& r is Ok <==> old(stream).left() >= 8 && d[o] == 0 && old(stream).left() >= 8 + 4
                    * be_u32(d, o + 4)
                &&& r is Ok ==> *final(sample_table) == (SampleTable {
                    sync_samples: final(sample_table).sync_samples,
                    ..*old(sample_table)
                }) && final(sample_table).sync_samples@ == old(sample_table).sync_samples@ + Seq::new(
                    be_u32(d, o + 4) as nat,
                    |k: int| be_u32(d, o + 8 + 4 * k) as u32,
                )
                &&& r is Err ==> r == Err::<(), AvifError>(AvifError::BmffParseFailed)
            }),
    {
        let (_version, _flags) = stream.read_and_enforce_version_and_flags(0)?;
        let entry_count = stream.read_u32()?;
        let mut samples = Self::read_u32_table(stream, entry_count)?;
        sample_table.sync_samples.append(&mut samples);
        Ok(())
    }

    /// Parses a decoding time-to-sample box (full box, version 0): entries of
    /// sample count and sample delta, appended to the table.
    pub fn parse_stts(stream: &mut IStream, sample_table: &mut SampleTable) -> (r: AvifResult<()>)
        requires
            old(stream).wf(),
        ensures
            final(stream).wf(),
            final(stream).data@ == old(stream).data@,
            ({
                let d = old(stream).data@;
                let o = old(stream).offset as int;
                &&& r is Ok ==> {
                    &&& old(stream).left() >= 8
                    &&& d[o] == 0
                    &&& *final(sample_table) == (SampleTable {
                        time_to_sample: final(sample_table).time_to_sample,
                        ..*old(sample_table)
                    })
                    &&& final(sample_table).time_to_sample@ == old(sample_table).time_to_sample@
                        + Seq::new(
                        be_u32(d, o + 4) as nat,
                        |k: int|
                            TimeToSample {
                                sample_count: be_u32(d, o + 8 + 8 * k) as u32,
                                sample_delta: be_u32(d, o + 12 + 8 * k) as u32,
                            },
                    )
                }
                &&& r is Err ==> r == Err::<(), AvifError>(AvifError::BmffParseFailed)
            }),
    {
        let ghost d = stream.data@;
        let ghost o = stream.offset as int;
        let ghost start = sample_table.time_to_sample@;
        let (_version, _flags) = stream.read_and_enforce_version_and_flags(0)?;
        let entry_count = stream.read_u32()?;
        let mut i: u32 = 0;
        while i < entry_count
            invariant
                stream.wf(),
                stream.data@ == d,
                d == old(stream).data@,
                o == old(stream).offset,
                entry_count == be_u32(d, o + 4),
                i <= entry_count,
                stream.offset == o + 8 + 8 * i,
                *sample_table == (SampleTable {
                    time_to_sample: sample_table.time_to_sample,
                    ..*old(sample_table)
                }),
                start == old(sample_table).time_to_sample@,
                sample_table.time_to_sample@ == start + Seq::new(
                    i as nat,
                    |k: int|
                        TimeToSample {
                            sample_count: be_u32(d, o + 8 + 8 * k) as u32,
                            sample_delta: be_u32(d, o + 12 + 8 * k) as u32,
                        },
                ),
            decreases entry_count - i,
        {
            let sample_count = stream.read_u32()?;
            let sample_delta = stream.read_u32()?;
            sample_table.time_to_sample.push(TimeToSample { sample_count, sample_delta });
            i += 1;
            assert(sample_table.time_to_sample@ =~= start + Seq::new(
                i as nat,
                |k: int|
                    TimeToSample {
                        sample_count: be_u32(d, o + 8 + 8 * k) as u32,
                        sample_delta: be_u32(d, o + 12 + 8 * k) as u32,
                    },
            ));
        }
        Ok(())
    }
    /// Parses a sample description box (full box, version 0): the entry
    /// count, then that many sample entries, whose box types become their
    /// formats. An `av01` entry skips the 78 bytes of the visual sample
    /// entry and reads its properties from the rest of the entry; the
    /// payload of any other entry is not skipped. The descriptions are
    /// appended to the table.
    pub fn parse_stsd(stream: &mut IStream, sample_table: &mut SampleTable) -> (r: AvifResult<()>)
        requires
            old(stream).wf(),
        ensures
            final(stream).wf(),
            final(stream).data@ == old(stream).data@,
            ({
                let d = old(stream).data@;
                let o = old(stream).offset as int;
                &&& r is Ok ==> {
                    &&& old(stream).left() >= 8
                    &&& d[o] == 0
                    &&& *final(sample_table) == (SampleTable {
                        sample_descriptions: final(sample_table).sample_descriptions,
                        ..*old(sample_table)
                    })
                    &&& final(sample_table).sample_descriptions@.len() == old(sample_table).sample_descriptions@.len() + be_u32(d, o + 4)
                    &&& forall|k: int|
                        0 <= k < old(sample_table).sample_descriptions@.len() ==> #[trigger] final(sample_table).sample_descriptions@[k] == old(sample_table).sample_descriptions@[k]
                }
                &&& r is Err ==> r == Err::<(), AvifError>(AvifError::BmffParseFailed)
            }),
    {
        let (_version, _flags) = stream.read_and_enforce_version_and_flags(0)?;
        let entry_count = stream.read_u32()?;
        let ghost d = stream.data@;
        let ghost start = sample_table.sample_descriptions@;
        let mut i: u32 = 0;
        while i < entry_count
            invariant
                stream.wf(),
                stream.data@ == d,
                d == old(stream).data@,
                i <= entry_count,
                *sample_table == (SampleTable {
                    sample_descriptions: sample_table.sample_descriptions,
                    ..*old(sample_table)
                }),
                start == old(sample_table).sample_descriptions@,
                sample_table.sample_descriptions@.len() == start.len() + i,
                forall|k: int|
                    0 <= k < start.len() ==> #[trigger] sample_table.sample_descriptions@[k]
                        == start[k],
            decreases entry_count - i,
        {
            let header = Self::parse_header(stream)?;
            let mut properties: Vec<ItemProperty> = Vec::new();
            if string_is(&header.box_type, "av01") {
                stream.skip(78)?;
                if header.size <= 78 {
                    return Err(AvifError::BmffParseFailed);
                }
                let size = usize_from_u64(header.size - 78)?;
                let mut sub_stream = stream.sub_stream(size)?;
                properties = Self::parse_ipco(&mut sub_stream)?;
            }
            sample_table.sample_descriptions.push(
                SampleDescription { format: header.box_type, properties },
            );
            i += 1;
        }
        Ok(())
    }

    /// Parses a sample table box into a new sample table of the track; a
    /// track may have only one. Unknown boxes are skipped.
    pub fn parse_stbl(stream: &mut IStream, track: &mut Track) -> (r: AvifResult<()>)
        requires
            old(stream).wf(),
        ensures
            final(stream).wf(),
            final(stream).data@ == old(stream).data@,
            r is Ok ==> old(track).sample_table is None && final(track).sample_table is Some
                && *final(track) == (Track { sample_table: final(track).sample_table, ..*old(track) }),
            old(track).sample_table is Some ==> r == Err::<(), AvifError>(AvifError::BmffParseFailed),
            r is Err ==> r == Err::<(), AvifError>(AvifError::BmffParseFailed) && *final(track)
                == *old(track),
    {
        if track.sample_table.is_some() {
            return Err(AvifError::BmffParseFailed);
        }
        let mut sample_table = SampleTable {
            chunk_offsets: Vec::new(),
            sample_to_chunk: Vec::new(),
            sample_size: SampleSize::FixedSize(0),
            sync_samples: Vec::new(),
            time_to_sample: Vec::new(),
            sample_descriptions: Vec::new(),
        };
        let ghost d = stream.data@;
        while stream.has_bytes_left()
            invariant
                stream.wf(),
                stream.data@ == d,
                d == old(stream).data@,
            decreases stream.data@.len() - stream.offset,
        {
            let (header, mut sub_stream) = Self::parse_box(stream)?;
            let t = &header.box_type;
            if string_is(t, "stco") {
                Self::parse_stco(&mut sub_stream, &mut sample_table, false)?;
            } else if string_is(t, "co64") {
                Self::parse_stco(&mut sub_stream, &mut sample_table, true)?;
            } else if string_is(t, "stsc") {
                Self::parse_stsc(&mut sub_stream, &mut sample_table)?;
            } else if string_is(t, "stsz") {
                Self::parse_stsz(&mut sub_stream, &mut sample_table)?;
            } else if string_is(t, "stss") {
                Self::parse_stss(&mut sub_stream, &mut sample_table)?;
            } else if string_is(t, "stts") {
                Self::parse_stts(&mut sub_stream, &mut sample_table)?;
            } else if string_is(t, "stsd") {
                Self::parse_stsd(&mut sub_stream, &mut sample_table)?;
            }
        }
        track.sample_table = Some(sample_table);
        Ok(())
    }

    /// Parses a media information box: its sample table box; other boxes
    /// are skipped.
    pub fn parse_minf(stream: &mut IStream, track: &mut Track) -> (r: AvifResult<()>)
        requires
            old(stream).wf(),
        ensures
            final(stream).wf(),
            final(stream).data@ == old(stream).data@,
            *final(track) == (Track { sample_table: final(track).sample_table, ..*old(track) }),
            r is Err ==> r == Err::<(), AvifError>(AvifError::BmffParseFailed),
            !boxes_fit(old(stream).data@, old(stream).offset as int) ==> r is Err,
            boxes_avoid(old(stream).data@, old(stream).offset as int, set!["stbl"@]) ==> r is Ok && *final(track)
                == *old(track),
    {
        let ghost d = stream.data@;
        while stream.has_bytes_left()
            invariant
                stream.wf(),
                stream.data@ == d,
                d == old(stream).data@,
                *track == (Track { sample_table: track.sample_table, ..*old(track) }),
                !boxes_fit(d, old(stream).offset as int) ==> !boxes_fit(d, stream.offset as int),
                boxes_avoid(d, old(stream).offset as int, set!["stbl"@]) ==> boxes_avoid(d, stream.offset as int, set!["stbl"@])
                    && *track == *old(track),
            decreases stream.data@.len() - stream.offset,
        {
            let (header, mut sub_stream) = Self::parse_box(stream)?;
            if string_is(&header.box_type, "stbl") {
                Self::parse_stbl(&mut sub_stream, track)?;
            }
        }
        Ok(())
    }

    /// Parses a media box: its media header and media information boxes;
    /// other boxes are skipped.
    pub fn parse_mdia(stream: &mut IStream, track: &mut Track) -> (r: AvifResult<()>)
        requires
            old(stream).wf(),
        ensures
            final(stream).wf(),
            final(stream).data@ == old(stream).data@,
            *final(track) == (Track {
                media_timescale: final(track).media_timescale,
                media_duration: final(track).media_duration,
                sample_table: final(track).sample_table,
                ..*old(track)
            }),
            r is Err ==> r == Err::<(), AvifError>(AvifError::BmffParseFailed),
            !boxes_fit(old(stream).data@, old(stream).offset as int) ==> r is Err,
            boxes_avoid(old(stream).data@, old(stream).offset as int, set!["mdhd"@, "minf"@])
                ==> r is Ok && *final(track) == *old(track),
    {
        let ghost d = stream.data@;
        while stream.has_bytes_left()
            invariant
                stream.wf(),
                stream.data@ == d,
                d == old(stream).data@,
                *track == (Track {
                    media_timescale: track.media_timescale,
                    media_duration: track.media_duration,
                    sample_table: track.sample_table,
                    ..*old(track)
                }),
                !boxes_fit(d, old(stream).offset as int) ==> !boxes_fit(d, stream.offset as int),
                boxes_avoid(d, old(stream).offset as int, set!["mdhd"@, "minf"@]) ==> boxes_avoid(
                    d,
                    stream.offset as int,
                    set!["mdhd"@, "minf"@],
                ) && *track == *old(track),
            decreases stream.data@.len() - stream.offset,
        {
            let (header, mut sub_stream) = Self::parse_box(stream)?;
            if string_is(&header.box_type, "mdhd") {
                Self::parse_mdhd(&mut sub_stream, track)?;
            } else if string_is(&header.box_type, "minf") {
                Self::parse_minf(&mut sub_stream, track)?;
            }
        }
        Ok(())
    }

    /// Parses a track reference box: the first track id of an `auxl` box
    /// becomes the track's auxiliary reference, that of a `prem` box its
    /// premultiplication reference; other boxes are skipped.
    pub fn parse_tref(stream: &mut IStream, track: &mut Track) -> (r: AvifResult<()>)
        requires
            old(stream).wf(),
        ensures
            final(stream).wf(),
            final(stream).data@ == old(stream).data@,
            *final(track) == (Track {
                aux_for_id: final(track).aux_for_id,
                prem_by_id: final(track).prem_by_id,
                ..*old(track)
            }),
            r is Err ==> r == Err::<(), AvifError>(AvifError::BmffParseFailed),
            ({
                let refs = tref_refs(old(stream).data@, old(stream).offset as int, old(track).aux_for_id, old(track).prem_by_id);
                &&& r is Ok <==> refs is Some
                &&& r is Ok ==> final(track).aux_for_id == refs.unwrap().0 && final(track).prem_by_id == refs.unwrap().1
            }),
    {
        let ghost d = stream.data@;
        let ghost refs = tref_refs(d, stream.offset as int, track.aux_for_id, track.prem_by_id);
        while stream.has_bytes_left()
            invariant
                stream.wf(),
                stream.data@ == d,
                d == old(stream).data@,
                refs == tref_refs(old(stream).data@, old(stream).offset as int, old(track).aux_for_id, old(track).prem_by_id),
                refs == tref_refs(d, stream.offset as int, track.aux_for_id, track.prem_by_id),
                *track == (Track {
                    aux_for_id: track.aux_for_id,
                    prem_by_id: track.prem_by_id,
                    ..*old(track)
                }),
            decreases stream.data@.len() - stream.offset,
        {
            let (header, mut sub_stream) = Self::parse_box(stream)?;
            if string_is(&header.box_type, "auxl") {
                track.aux_for_id = sub_stream.read_u32()?;
            } else if string_is(&header.box_type, "prem") {
                track.prem_by_id = sub_stream.read_u32()?;
            }
        }
        Ok(())
    }

    /// Parses an edit list box; a track may have only one. Without the
    /// repeat flag (`flags & 1`) the track does not repeat; with it, there
    /// must be exactly one entry, whose segment duration (64 bits for
    /// version 1, 32 bits for version 0) must be nonzero.
    pub fn parse_elst(stream: &mut IStream, track: &mut Track) -> (r: AvifResult<()>)
        requires
            old(stream).wf(),
        ensures
            final(stream).wf(),
            final(stream).data@ == old(stream).data@,
            *final(track) == (Track {
                elst_seen: final(track).elst_seen,
                is_repeating: final(track).is_repeating,
                segment_duration: final(track).segment_duration,
                ..*old(track)
            }),
            ({
                let d = old(stream).data@;
                let o = old(stream).offset as int;
                let repeat = be_u24(d, o + 1) % 2 == 1;
                let dur = if d[o] == 1 {
                    be_u64(d, o + 8)
                } else {
                    be_u32(d, o + 8)
                };
                &&& old(track).elst_seen ==> r == Err::<(), AvifError>(AvifError::BmffParseFailed)
                &&& r is Ok <==> !old(track).elst_seen && old(stream).left() >= 4 && (!repeat || (
                old(stream).left() >= 8 && be_u32(d, o + 4) == 1 && d[o] <= 1 && old(stream).left()
                    >= (if d[o] == 1 {
                    16int
                } else {
                    12int
                }) && dur != 0))
                &&& r is Ok ==> final(track).elst_seen && final(track).is_repeating == repeat && (repeat
                    ==> final(track).segment_duration == dur) && (!repeat
                    ==> final(track).segment_duration == old(track).segment_duration)
                &&& r is Err ==> r == Err::<(), AvifError>(AvifError::BmffParseFailed)
            }),
    {
        proof {
            vstd::arithmetic::power2::lemma2_to64();
        }
        if track.elst_seen {
            return Err(AvifError::BmffParseFailed);
        }
        track.elst_seen = true;
        let (version, flags) = stream.read_version_and_flags()?;
        assert(flags & 1 == flags % 2) by (bit_vector);
        if (flags & 1) == 0 {
            track.is_repeating = false;
            return Ok(());
        }
        track.is_repeating = true;
        let entry_count = stream.read_u32()?;
        if entry_count != 1 {
            return Err(AvifError::BmffParseFailed);
        }
        let segment_duration: u64 = if version == 1 {
            stream.read_u64()?
        } else if version == 0 {
            stream.read_u32()? as u64
        } else {
            return Err(AvifError::BmffParseFailed);
        };
        if segment_duration == 0 {
            return Err(AvifError::BmffParseFailed);
        }
        track.segment_duration = segment_duration;
        Ok(())
    }

    /// Parses an edit box: it must hold an edit list box, and a track may
    /// have only one. Other boxes are skipped.
    pub fn parse_edts(stream: &mut IStream, track: &mut Track) -> (r: AvifResult<()>)
        requires
            old(stream).wf(),
        ensures
            final(stream).wf(),
            final(stream).data@ == old(stream).data@,
            *final(track) == (Track {
                elst_seen: final(track).elst_seen,
                is_repeating: final(track).is_repeating,
                segment_duration: final(track).segment_duration,
                ..*old(track)
            }),
            old(track).elst_seen ==> r == Err::<(), AvifError>(AvifError::BmffParseFailed),
            r is Ok ==> final(track).elst_seen && final(track).edit_list_ok(),
            r is Err ==> r == Err::<(), AvifError>(AvifError::BmffParseFailed),
    {
        if track.elst_seen {
            return Err(AvifError::BmffParseFailed);
        }
        let ghost d = stream.data@;
        while stream.has_bytes_left()
            invariant
                stream.wf(),
                stream.data@ == d,
                d == old(stream).data@,
                *track == (Track {
                    elst_seen: track.elst_seen,
                    is_repeating: track.is_repeating,
                    segment_duration: track.segment_duration,
                    ..*old(track)
                }),
                track.edit_list_ok(),
            decreases stream.data@.len() - stream.offset,
        {
            let (header, mut sub_stream) = Self::parse_box(stream)?;
            if string_is(&header.box_type, "elst") {
                Self::parse_elst(&mut sub_stream, track)?;
            }
        }
        if !track.elst_seen {
            return Err(AvifError::BmffParseFailed);
        }
        Ok(())
    }

    /// Parses a track box: its track header, media, track reference and
    /// edit boxes; other boxes are skipped. The track has no meta box.
    pub fn parse_trak(stream: &mut IStream) -> (r: AvifResult<Track>)
        requires
            old(stream).wf(),
        ensures
            final(stream).wf(),
            final(stream).data@ == old(stream).data@,
            r matches Ok(t) ==> t.edit_list_ok() && t.meta is None,
            r is Err ==> r == Err::<Track, AvifError>(AvifError::BmffParseFailed),
    {
        let mut track = Track {
            id: 0,
            aux_for_id: 0,
            prem_by_id: 0,
            media_timescale: 0,
            media_duration: 0,
            track_duration: 0,
            segment_duration: 0,
            is_repeating: false,
            width: 0,
            height: 0,
            sample_table: None,
            elst_seen: false,
            meta: None,
        };
        let ghost d = stream.data@;
        while stream.has_bytes_left()
            invariant
                stream.wf(),
                stream.data@ == d,
                d == old(stream).data@,
                track.edit_list_ok(),
                track.meta is None,
            decreases stream.data@.len() - stream.offset,
        {
            let (header, mut sub_stream) = Self::parse_box(stream)?;
            let t = &header.box_type;
            if string_is(t, "tkhd") {
                Self::parse_tkhd(&mut sub_stream, &mut track)?;
            } else if string_is(t, "mdia") {
                Self::parse_mdia(&mut sub_stream, &mut track)?;
            } else if string_is(t, "tref") {
                Self::parse_tref(&mut sub_stream, &mut track)?;
            } else if string_is(t, "edts") {
                Self::parse_edts(&mut sub_stream, &mut track)?;
            }
        }
        Ok(track)
    }

    /// Parses a movie box: its track boxes, in order; other boxes are
    /// skipped.
    pub fn parse_moov(stream: &mut IStream) -> (r: AvifResult<Vec<Track>>)
        requires
            old(stream).wf(),
        ensures
            final(stream).wf(),
            final(stream).data@ == old(stream).data@,
            r matches Ok(v) ==> forall|i: int| 0 <= i < v@.len() ==> (#[trigger] v@[i]).edit_list_ok(),
            r is Err ==> r == Err::<Vec<Track>, AvifError>(AvifError::BmffParseFailed),
    {
        let mut tracks: Vec<Track> = Vec::new();
        let ghost d = stream.data@;
        while stream.has_bytes_left()
            invariant
                stream.wf(),
                stream.data@ == d,
                d == old(stream).data@,
                forall|i: int| 0 <= i < tracks@.len() ==> (#[trigger] tracks@[i]).edit_list_ok(),
            decreases stream.data@.len() - stream.offset,
        {
            let (header, mut sub_stream) = Self::parse_box(stream)?;
            if string_is(&header.box_type, "trak") {
                let track = Self::parse_trak(&mut sub_stream)?;
                tracks.push(track);
            }
        }
        Ok(tracks)
    }
    /// Reads the top-level boxes from `io`, box by box, until the file type
    /// box and the boxes that its brands ask for (a meta box for `avif`, a
    /// movie box for `avis`) have been read, or the input ends. Other boxes
    /// are skipped.
    pub fn parse<T: IO + ?Sized>(io: &mut T) -> (r: AvifResult<AvifBoxes>)
        ensures
            r matches Ok(b) ==> {
                &&& b.ftyp.spec_is_avif()
                &&& b.meta.valid()
                &&& forall|i: int| 0 <= i < b.tracks@.len() ==> (#[trigger] b.tracks@[i]).edit_list_ok()
            },
    {
        let mut ftyp: Option<FileTypeBox> = None;
        let mut meta: Option<MetaBox> = None;
        let mut tracks: Option<Vec<Track>> = None;
        let mut parse_offset: u64 = 0;
        loop
            invariant
                ftyp matches Some(f) ==> f.spec_is_avif(),
                meta matches Some(m) ==> m.valid(),
                tracks matches Some(t) ==> forall|i: int|
                    0 <= i < t@.len() ==> (#[trigger] t@[i]).edit_list_ok(),
            decreases u64::MAX - parse_offset,
        {
            let header_data = io.read(parse_offset, 32)?;
            if header_data.len() == 0 {
                break;
            }
            let mut header_stream = IStream::create(header_data);
            let header = Self::parse_header(&mut header_stream)?;
            let header_len = u64_from_usize(header_stream.offset)?;
            if header_len > u64::MAX - parse_offset {
                return Err(AvifError::BmffParseFailed);
            }
            parse_offset = parse_offset + header_len;
            let t = &header.box_type;
            if string_is(t, "ftyp") || string_is(t, "meta") || string_is(t, "moov") {
                let size = usize_from_u64(header.size)?;
                let box_data = io.read(parse_offset, size)?;
                if box_data.len() != size {
                    return Err(AvifError::TruncatedData);
                }
                let mut box_stream = IStream::create(box_data);
                if string_is(t, "ftyp") {
                    let f = Self::parse_ftyp(&mut box_stream)?;
                    if !f.is_avif() {
                        return Err(AvifError::InvalidFtyp);
                    }
                    ftyp = Some(f);
                } else if string_is(t, "meta") {
                    meta = Some(Self::parse_meta(&mut box_stream)?);
                } else {
                    tracks = Some(Self::parse_moov(&mut box_stream)?);
                }
                if let Some(f) = &ftyp {
                    if (!f.needs_meta() || meta.is_some()) && (!f.needs_moov() || tracks.is_some()) {
                        break;
                    }
                }
            }
            if header.size > u64::MAX - parse_offset {
                return Err(AvifError::BmffParseFailed);
            }
            parse_offset = parse_offset + header.size;
        }
        let ftyp = match ftyp {
            Some(f) => f,
            None => {
                return Err(AvifError::InvalidFtyp);
            },
        };
        if (ftyp.needs_meta() && meta.is_none()) || (ftyp.needs_moov() && tracks.is_none()) {
            return Err(AvifError::TruncatedData);
        }
        let meta = match meta {
            Some(m) => m,
            None => MetaBox {
                iinf: Vec::new(),
                iloc: ItemLocationBox {
                    offset_size: 0,
                    length_size: 0,
                    base_offset_size: 0,
                    items: Vec::new(),
                },
                primary_item_id: 0,
                iprp: ItemPropertyBox { properties: Vec::new(), associations: Vec::new() },
                iref: Vec::new(),
                idat: Vec::new(),
            },
        };
        let tracks = match tracks {
            Some(t) => t,
            None => Vec::new(),
        };
        Ok(AvifBoxes { ftyp, meta, tracks })
    }

    /// Whether `data` starts with a file type box that declares an AVIF
    /// brand. The file type payload is read to the end of `data`.
    pub fn peek_compatible_file_type(data: &[u8]) -> (r: AvifResult<bool>)
        ensures
            r == spec_peek(data@),
    {
        let mut stream = IStream::create(data);
        let header = Self::parse_header(&mut stream)?;
        if !string_is(&header.box_type, "ftyp") {
            return Ok(false);
        }
        let ghost u = unread(&stream);
        let ftyp = Self::parse_ftyp(&mut stream)?;
        proof {
            lemma_ftyp_brands(u, ftyp, "avif"@);
            lemma_ftyp_brands(u, ftyp, "avis"@);
        }
        Ok(ftyp.is_avif())
    }
}

/// What peeking at `data` finds: an error without a box header, `false`
/// for a first box of another type, an error for a malformed file type
/// payload, else whether it declares the `avif` or `avis` brand.
pub open spec fn spec_peek(data: Seq<u8>) -> Result<bool, AvifError> {
    match spec_box_header(data, 0) {
        None => Err(AvifError::BmffParseFailed),
        Some((_size, t, hl)) => {
            let u = data.subrange(hl, data.len() as int);
            if decode_utf8(t) != "ftyp"@ {
                Ok(false)
            } else if !spec_ftyp_ok(u) {
                Err(AvifError::BmffParseFailed)
            } else {
                Ok(ftyp_bytes_have_brand(u, "avif"@) || ftyp_bytes_have_brand(u, "avis"@))
            }
        },
    }
}

/// A file type payload is well formed: at least eight bytes, then whole
/// four-byte brands, all UTF-8.
pub open spec fn spec_ftyp_ok(u: Seq<u8>) -> bool {
    &&& u.len() >= 8
    &&& (u.len() - 8) % 4 == 0
    &&& utf8_at(u, 0, 4)
    &&& forall|k: int| 0 <= k < (u.len() - 8) / 4 ==> #[trigger] utf8_at(u, 8 + 4 * k, 4)
}

/// `f` is the file type box that the payload `u` encodes.
pub open spec fn spec_ftyp_parsed(u: Seq<u8>, f: FileTypeBox) -> bool {
    &&& f.major_brand@ == text_at(u, 0, 4)
    &&& f.minor_version == be_u32(u, 4)
    &&& f.compatible_brands@.len() == (u.len() - 8) / 4
    &&& forall|k: int|
        0 <= k < f.compatible_brands@.len() ==> #[trigger] f.compatible_brands@[k]@ == text_at(
            u,
            8 + 4 * k,
            4,
        )
}

/// The file type payload `u` names `brand` as its major brand or as one of
/// its compatible brands.
pub open spec fn ftyp_bytes_have_brand(u: Seq<u8>, brand: Seq<char>) -> bool {
    ||| text_at(u, 0, 4) == brand
    ||| exists|k: int| 0 <= k < (u.len() - 8) / 4 && #[trigger] text_at(u, 8 + 4 * k, 4) == brand
}

proof fn lemma_ftyp_brands(u: Seq<u8>, f: FileTypeBox, brand: Seq<char>)
    requires
        spec_ftyp_parsed(u, f),
    ensures
        f.spec_has_brand(brand) == ftyp_bytes_have_brand(u, brand),
{
    if f.spec_has_brand(brand) && f.major_brand@ != brand {
        let i = choose|i: int|
            0 <= i < f.compatible_brands@.len() && #[trigger] f.compatible_brands@[i]@ == brand;
        assert(text_at(u, 8 + 4 * i, 4) == brand);
    }
    if ftyp_bytes_have_brand(u, brand) && text_at(u, 0, 4) != brand {
        let k = choose|k: int| 0 <= k < (u.len() - 8) / 4 && #[trigger] text_at(u, 8 + 4 * k, 4) == brand;
        assert(f.compatible_brands@[k]@ == brand);
    }
}

} // verus!
