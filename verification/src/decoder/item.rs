//! Items of the meta box, with the properties associated with them.

use crate::decoder::tile::Grid;
use crate::decoder::IO;
use crate::internal_utils::usize_from_u64;
use crate::parser::mp4box::{
    ItemLocationEntry, MetaBox, first_where, is_a1lx, is_a1op, is_auxc, is_av1c, is_ispe, is_lsel, is_pixi,
    lemma_first_where_bounds, CodecConfiguration, ItemLocationExtent, ItemProperty,
    PixelInformation,
};
use crate::stream::{string_is, IStream};
use crate::layout::{be_u16, be_u32};
use crate::{AvifError, AvifResult};
use std::collections::{HashMap, HashSet};
use vstd::prelude::*;

verus! {

broadcast use vstd::std_specs::hash::group_hash_axioms;

/// An item: an image, an image grid, or metadata such as Exif.
#[derive(Debug)]
pub struct Item {
    pub id: u32,
    pub item_type: String,
    pub size: usize,
    pub width: u32,
    pub height: u32,
    pub content_type: String,
    pub properties: Vec<ItemProperty>,
    pub extents: Vec<ItemLocationExtent>,
    pub thumbnail_for_id: u32,
    pub aux_for_id: u32,
    pub desc_for_id: u32,
    pub dimg_for_id: u32,
    pub dimg_index: u32,
    pub prem_by_id: u32,
    pub has_unsupported_essential_property: bool,
    pub progressive: bool,
    pub idat: Vec<u8>,
    pub grid_item_ids: Vec<u32>,
}

/// The two auxiliary type names of an alpha plane.
pub open spec fn is_alpha_urn(s: Seq<char>) -> bool {
    s == "urn:mpeg:mpegB:cicp:systems:auxiliary:alpha"@ || s == "urn:mpeg:hevc:2015:auxid:1"@
}

impl Item {
    /// An item with the given id and type, no properties, no extents and
    /// every other field zero or empty.
    pub fn new(id: u32, item_type: String) -> (r: Item)
        ensures
            r.id == id,
            r.item_type@ == item_type@,
            r.size == 0,
            r.properties@.len() == 0,
            r.extents@.len() == 0,
            r.idat@.len() == 0,
            r.grid_item_ids@.len() == 0,
            r.thumbnail_for_id == 0 && r.aux_for_id == 0 && r.desc_for_id == 0,
            r.dimg_for_id == 0 && r.dimg_index == 0 && r.prem_by_id == 0,
            r.width == 0 && r.height == 0,
            !r.has_unsupported_essential_property && !r.progressive,
            r.content_type@.len() == 0,
    {
        Item {
            id,
            item_type,
            size: 0,
            width: 0,
            height: 0,
            content_type: String::new(),
            properties: Vec::new(),
            extents: Vec::new(),
            thumbnail_for_id: 0,
            aux_for_id: 0,
            desc_for_id: 0,
            dimg_for_id: 0,
            dimg_index: 0,
            prem_by_id: 0,
            has_unsupported_essential_property: false,
            progressive: false,
            idat: Vec::new(),
            grid_item_ids: Vec::new(),
        }
    }

    /// Offset of the item's first extent.
    pub fn data_offset(&self) -> (r: u64)
        requires
            self.extents@.len() > 0,
        ensures
            r == self.extents@[0].offset,
    {
        self.extents[0].offset
    }

    /// A stream over the item's bytes: its item data where it has some,
    /// else `size` bytes read from `io` at its first extent.
    pub fn stream<'a, T: IO + ?Sized>(&'a self, io: &'a mut T) -> (r: AvifResult<IStream<'a>>)
        requires
            self.idat@.len() == 0 ==> self.extents@.len() > 0,
        ensures
            self.idat@.len() > 0 ==> (r matches Ok(s) && s.data@ == self.idat@ && s.offset == 0),
            r matches Ok(s) ==> s.wf() && s.offset == 0,
    {
        let io_data = if self.idat.len() == 0 {
            io.read(self.data_offset(), self.size)?
        } else {
            self.idat.as_slice()
        };
        Ok(IStream::create(io_data))
    }

    /// Reads the image grid description of a `grid` item into `grid`; items
    /// of other types leave it as it is.
    pub fn read_and_parse<T: IO + ?Sized>(&self, io: &mut T, grid: &mut Grid) -> (r: AvifResult<()>)
        requires
            self.item_type@ == "grid"@ && self.idat@.len() == 0 ==> self.extents@.len() > 0,
        ensures
            self.item_type@ != "grid"@ ==> r is Ok && *final(grid) == *old(grid),
            self.item_type@ == "grid"@ && self.idat@.len() > 0 ==> match spec_grid(self.idat@) {
                Ok(g) => r is Ok && *final(grid) == g,
                Err(e) => r == Err::<(), AvifError>(e),
            },
            r is Ok && self.item_type@ == "grid"@ ==> final(grid).rows >= 1 && final(grid).columns
                >= 1 && final(grid).width >= 1 && final(grid).height >= 1,
    {
        if !string_is(&self.item_type, "grid") {
            return Ok(());
        }
        let mut stream = self.stream(io)?;
        let g = parse_grid(&mut stream)?;
        *grid = g;
        Ok(())
    }

    /// The value of the first operating point selector, else 0.
    pub open spec fn spec_operating_point(&self) -> u8 {
        match first_where(self.properties@, |p: ItemProperty| is_a1op(p)) {
            Some(i) => match self.properties@[i] {
                ItemProperty::OperatingPointSelector(v) => v,
                _ => 0,
            },
            None => 0,
        }
    }

    /// Index of the first property of a kind, found by a loop over the
    /// properties.
    fn find_first(&self, Ghost(f): Ghost<spec_fn(ItemProperty) -> bool>, kind: u8) -> (r: Option<
        usize,
    >)
        requires
            kind <= 6,
            forall|p: ItemProperty| #[trigger] f(p) == kind_matches(kind, p),
        ensures
            r matches Some(i) ==> first_where(self.properties@, f) == Some(i as int) && i
                < self.properties@.len(),
            r is None ==> first_where(self.properties@, f) is None,
    {
        proof {
            lemma_first_where_bounds(self.properties@, f);
        }
        let mut i: usize = 0;
        while i < self.properties.len()
            invariant
                0 <= i <= self.properties@.len(),
                kind <= 6,
                forall|p: ItemProperty| #[trigger] f(p) == kind_matches(kind, p),
                forall|j: int| 0 <= j < i ==> !f(#[trigger] self.properties@[j]),
                first_where(self.properties@, f) matches Some(k) ==> 0 <= k < self.properties@.len()
                    && f(self.properties@[k]) && forall|j: int| 0 <= j < k ==> !f(
                    #[trigger] self.properties@[j],
                ),
                first_where(self.properties@, f) is None ==> forall|j: int|
                    0 <= j < self.properties@.len() ==> !f(#[trigger] self.properties@[j]),
            decreases self.properties@.len() - i,
        {
            let hit = match &self.properties[i] {
                ItemProperty::OperatingPointSelector(_) => kind == 0,
                ItemProperty::CodecConfiguration(_) => kind == 1,
                ItemProperty::PixelInformation(_) => kind == 2,
                ItemProperty::AV1LayeredImageIndexing(_) => kind == 3,
                ItemProperty::LayerSelector(_) => kind == 4,
                ItemProperty::AuxiliaryType(_) => kind == 5,
                ItemProperty::ImageSpatialExtents(_) => kind == 6,
                _ => false,
            };
            if hit {
                return Some(i);
            }
            i += 1;
        }
        None
    }

    /// The operating point to decode: that of the first operating point
    /// selector, else 0.
    pub fn operating_point(&self) -> (r: u8)
        ensures
            r == self.spec_operating_point(),
    {
        proof {
            lemma_first_where_bounds(self.properties@, |p: ItemProperty| is_a1op(p));
        }
        match self.find_first(Ghost(|p: ItemProperty| is_a1op(p)), 0) {
            Some(i) => match &self.properties[i] {
                ItemProperty::OperatingPointSelector(v) => *v,
                _ => 0,
            },
            None => 0,
        }
    }

    /// The first AV1 codec configuration.
    #[allow(non_snake_case)]
    pub fn av1C(&self) -> (r: Option<&CodecConfiguration>)
        ensures
            match first_where(self.properties@, |p: ItemProperty| is_av1c(p)) {
                Some(i) => r matches Some(c) && self.properties@[i]
                    == ItemProperty::CodecConfiguration(*c),
                None => r is None,
            },
    {
        proof {
            lemma_first_where_bounds(self.properties@, |p: ItemProperty| is_av1c(p));
        }
        match self.find_first(Ghost(|p: ItemProperty| is_av1c(p)), 1) {
            Some(i) => match &self.properties[i] {
                ItemProperty::CodecConfiguration(c) => Some(c),
                _ => None,
            },
            None => None,
        }
    }

    /// The first pixel information property.
    pub fn pixi(&self) -> (r: Option<&PixelInformation>)
        ensures
            match first_where(self.properties@, |p: ItemProperty| is_pixi(p)) {
                Some(i) => r matches Some(c) && self.properties@[i] == ItemProperty::PixelInformation(
                    *c,
                ),
                None => r is None,
            },
    {
        proof {
            lemma_first_where_bounds(self.properties@, |p: ItemProperty| is_pixi(p));
        }
        match self.find_first(Ghost(|p: ItemProperty| is_pixi(p)), 2) {
            Some(i) => match &self.properties[i] {
                ItemProperty::PixelInformation(c) => Some(c),
                _ => None,
            },
            None => None,
        }
    }

    /// The layer sizes of the first layered image indexing property.
    pub fn a1lx(&self) -> (r: Option<&[usize; 3]>)
        ensures
            match first_where(self.properties@, |p: ItemProperty| is_a1lx(p)) {
                Some(i) => r matches Some(c) && self.properties@[i]
                    == ItemProperty::AV1LayeredImageIndexing(*c),
                None => r is None,
            },
    {
        proof {
            lemma_first_where_bounds(self.properties@, |p: ItemProperty| is_a1lx(p));
        }
        match self.find_first(Ghost(|p: ItemProperty| is_a1lx(p)), 3) {
            Some(i) => match &self.properties[i] {
                ItemProperty::AV1LayeredImageIndexing(c) => Some(c),
                _ => None,
            },
            None => None,
        }
    }

    /// The layer of the first layer selector.
    pub fn lsel(&self) -> (r: Option<u16>)
        ensures
            match first_where(self.properties@, |p: ItemProperty| is_lsel(p)) {
                Some(i) => r matches Some(c) && self.properties@[i] == ItemProperty::LayerSelector(c),
                None => r is None,
            },
    {
        proof {
            lemma_first_where_bounds(self.properties@, |p: ItemProperty| is_lsel(p));
        }
        match self.find_first(Ghost(|p: ItemProperty| is_lsel(p)), 4) {
            Some(i) => match &self.properties[i] {
                ItemProperty::LayerSelector(c) => Some(*c),
                _ => None,
            },
            None => None,
        }
    }

    /// The first auxiliary type names an alpha plane.
    pub open spec fn spec_is_auxiliary_alpha(&self) -> bool {
        match first_where(self.properties@, |p: ItemProperty| is_auxc(p)) {
            Some(i) => match self.properties@[i] {
                ItemProperty::AuxiliaryType(s) => is_alpha_urn(s@),
                _ => false,
            },
            None => false,
        }
    }

    /// Whether the item is an alpha plane: its first auxiliary type is one
    /// of the two alpha names.
    pub fn is_auxiliary_alpha(&self) -> (r: bool)
        ensures
            r == self.spec_is_auxiliary_alpha(),
    {
        proof {
            lemma_first_where_bounds(self.properties@, |p: ItemProperty| is_auxc(p));
        }
        match self.find_first(Ghost(|p: ItemProperty| is_auxc(p)), 5) {
            Some(i) => match &self.properties[i] {
                ItemProperty::AuxiliaryType(s) => string_is(
                    s,
                    "urn:mpeg:mpegB:cicp:systems:auxiliary:alpha",
                ) || string_is(s, "urn:mpeg:hevc:2015:auxid:1"),
                _ => false,
            },
            None => false,
        }
    }

    /// Takes the width and height of an AV1 or grid item with a size and no
    /// unsupported essential property from its first spatial extents
    /// property. Without one, the item must be an alpha plane and
    /// `alpha_ispe_required` false.
    pub fn harvest_ispe(&mut self, alpha_ispe_required: bool) -> (r: AvifResult<()>)
        ensures
            ({
                let o = *old(self);
                let relevant = o.size != 0 && !o.has_unsupported_essential_property && (
                o.item_type@ == "av01"@ || o.item_type@ == "grid"@);
                let found = first_where(o.properties@, |p: ItemProperty| is_ispe(p));
                &&& !relevant ==> r is Ok && *final(self) == o
                &&& relevant ==> (found matches Some(i) ==> (o.properties@[i] matches ItemProperty::ImageSpatialExtents(e)
                    && *final(self) == (Item { width: e.width, height: e.height, ..o }) && if e.width
                    == 0 || e.height == 0 {
                    r == Err::<(), AvifError>(AvifError::BmffParseFailed)
                } else {
                    r is Ok
                }))
                &&& relevant && found is None ==> *final(self) == o && if o.spec_is_auxiliary_alpha()
                    && !alpha_ispe_required {
                    r is Ok
                } else {
                    r == Err::<(), AvifError>(AvifError::BmffParseFailed)
                }
            }),
    {
        if self.size == 0 {
            return Ok(());
        }
        if self.has_unsupported_essential_property {
            return Ok(());
        }
        let is_grid = string_is(&self.item_type, "grid");
        if !string_is(&self.item_type, "av01") && !is_grid {
            return Ok(());
        }
        proof {
            lemma_first_where_bounds(self.properties@, |p: ItemProperty| is_ispe(p));
        }
        match self.find_first(Ghost(|p: ItemProperty| is_ispe(p)), 6) {
            Some(i) => {
                let (w, h) = match &self.properties[i] {
                    ItemProperty::ImageSpatialExtents(x) => (x.width, x.height),
                    _ => {
                        return Err(AvifError::UnknownError);
                    },
                };
                self.width = w;
                self.height = h;
                if self.width == 0 || self.height == 0 {
                    return Err(AvifError::BmffParseFailed);
                }
            },
            None => {
                if self.is_auxiliary_alpha() {
                    if alpha_ispe_required {
                        return Err(AvifError::BmffParseFailed);
                    }
                } else {
                    return Err(AvifError::BmffParseFailed);
                }
            },
        }
        Ok(())
    }

    /// Checks the item's properties: it must have an AV1 codec
    /// configuration; the tiles of a grid must have the same one; the depths
    /// of a pixel information property must all be that of the
    /// configuration; and without such a property `pixi_required` must be
    /// false.
    #[allow(non_snake_case)]
    pub fn validate_properties(&self, avif_items: &HashMap<u32, Item>, pixi_required: bool) -> (r:
        AvifResult<()>)
        requires
            self.item_type@ == "grid"@ ==> forall|k: int|
                0 <= k < self.grid_item_ids@.len() ==> avif_items@.contains_key(
                    #[trigger] self.grid_item_ids@[k],
                ),
            self.spec_pixi() matches Some(p) ==> p.plane_count <= 4,
        ensures
            r is Ok <==> self.spec_properties_valid(avif_items@, pixi_required),
            r is Err ==> r == Err::<(), AvifError>(AvifError::BmffParseFailed),
    {
        let av1C = match self.av1C() {
            Some(c) => c,
            None => {
                return Err(AvifError::BmffParseFailed);
            },
        };
        if string_is(&self.item_type, "grid") {
            let mut k: usize = 0;
            while k < self.grid_item_ids.len()
                invariant
                    0 <= k <= self.grid_item_ids@.len(),
                    self.item_type@ == "grid"@,
                    self.spec_av1c() == Some(*av1C),
                    forall|j: int|
                        0 <= j < self.grid_item_ids@.len() ==> avif_items@.contains_key(
                            #[trigger] self.grid_item_ids@[j],
                        ),
                    forall|j: int|
                        0 <= j < k ==> avif_items@[#[trigger] self.grid_item_ids@[j]].spec_av1c()
                            == Some(*av1C),
                decreases self.grid_item_ids@.len() - k,
            {
                let grid_item_id = self.grid_item_ids[k];
                let grid_item = match avif_items.get(&grid_item_id) {
                    Some(item) => item,
                    None => {
                        return Err(AvifError::BmffParseFailed);
                    },
                };
                let grid_av1C = match grid_item.av1C() {
                    Some(c) => c,
                    None => {
                        return Err(AvifError::BmffParseFailed);
                    },
                };
                if *av1C != *grid_av1C {
                    proof {
                        let id = self.grid_item_ids@[k as int];
                        assert(avif_items@[id] == *grid_item);
                        assert(avif_items@[id].spec_av1c() != Some(*av1C));
                        assert(self.spec_av1c() == Some(*av1C));
                        assert(avif_items@[self.grid_item_ids@[k as int]].spec_av1c() != Some(*av1C));
                        assert(!self.spec_properties_valid(avif_items@, pixi_required));
                    }
                    return Err(AvifError::BmffParseFailed);
                }
                k += 1;
            }
        }
        let depth = av1C.depth();
        match self.pixi() {
            Some(pixi) => {
                let mut i: usize = 0;
                while i < pixi.plane_count as usize
                    invariant
                        pixi.plane_count <= 4,
                        self.spec_pixi() == Some(*pixi),
                        self.spec_av1c() == Some(*av1C),
                        self.item_type@ == "grid"@ ==> forall|j: int|
                            0 <= j < self.grid_item_ids@.len() ==> avif_items@[
                                #[trigger] self.grid_item_ids@[j]].spec_av1c() == Some(*av1C),
                        0 <= i <= pixi.plane_count,
                        depth == av1C.spec_depth(),
                        forall|j: int| 0 <= j < i ==> pixi.plane_depths[j] == depth,
                    decreases pixi.plane_count - i,
                {
                    if pixi.plane_depths[i] != depth {
                        assert(pixi.plane_depths[i as int] != av1C.spec_depth());
                        assert(self.spec_pixi() == Some(*pixi));
                        assert(!(forall|j: int| 0 <= j < pixi.plane_count ==> pixi.plane_depths[j] == av1C.spec_depth()));
                        assert(self.spec_av1c() == Some(*av1C));
                        assert(!self.pixi_depths_match(*av1C, pixi_required)) by {
                            let p = self.spec_pixi().unwrap();
                            assert(p == *pixi);
                            assert(0 <= i < p.plane_count);
                            assert(p.plane_depths[i as int] != av1C.spec_depth());
                        }
                        assert(!self.spec_properties_valid(avif_items@, pixi_required));
                        return Err(AvifError::BmffParseFailed);
                    }
                    i += 1;
                }
            },
            None => {
                if pixi_required {
                    return Err(AvifError::BmffParseFailed);
                }
            },
        }
        Ok(())
    }

    /// The first AV1 codec configuration.
    pub open spec fn spec_av1c(&self) -> Option<CodecConfiguration> {
        match first_where(self.properties@, |p: ItemProperty| is_av1c(p)) {
            Some(i) => match self.properties@[i] {
                ItemProperty::CodecConfiguration(c) => Some(c),
                _ => None,
            },
            None => None,
        }
    }

    /// The first pixel information property.
    pub open spec fn spec_pixi(&self) -> Option<PixelInformation> {
        match first_where(self.properties@, |p: ItemProperty| is_pixi(p)) {
            Some(i) => match self.properties@[i] {
                ItemProperty::PixelInformation(c) => Some(c),
                _ => None,
            },
            None => None,
        }
    }

    /// The item's properties pass `validate_properties`.
    pub open spec fn spec_properties_valid(&self, items: Map<u32, Item>, pixi_required: bool) -> bool {
        match self.spec_av1c() {
            Some(c) => self.grid_av1c_match(items, c) && self.pixi_depths_match(c, pixi_required),
            None => false,
        }
    }

    /// The tiles of a grid item have the configuration `c`.
    pub open spec fn grid_av1c_match(&self, items: Map<u32, Item>, c: CodecConfiguration) -> bool {
        self.item_type@ == "grid"@ ==> forall|k: int|
            0 <= k < self.grid_item_ids@.len() ==> items[#[trigger] self.grid_item_ids@[k]].spec_av1c()
                == Some(c)
    }

    /// The depths of the pixel information are that of `c`; without one,
    /// none is required.
    pub open spec fn pixi_depths_match(&self, c: CodecConfiguration, pixi_required: bool) -> bool {
        match self.spec_pixi() {
            Some(p) => forall|j: int| 0 <= j < p.plane_count ==> p.plane_depths[j] == c.spec_depth(),
            None => !pixi_required,
        }
    }

    pub open spec fn spec_should_skip(&self) -> bool {
        self.size == 0 || self.has_unsupported_essential_property || (self.item_type@ != "av01"@
            && self.item_type@ != "grid"@) || self.thumbnail_for_id != 0
    }

    /// Whether the decoder leaves the item aside: it has no data, an
    /// unsupported essential property, a type other than `av01` and `grid`,
    /// or is a thumbnail.
    pub fn should_skip(&self) -> (r: bool)
        ensures
            r == self.spec_should_skip(),
    {
        self.size == 0 || self.has_unsupported_essential_property || (!string_is(
            &self.item_type,
            "av01",
        ) && !string_is(&self.item_type, "grid")) || self.thumbnail_for_id != 0
    }

    pub open spec fn spec_is_metadata(&self, item_type: Seq<char>, color_id: u32) -> bool {
        self.size != 0 && !self.has_unsupported_essential_property && (color_id == 0
            || self.desc_for_id == color_id) && self.item_type@ == item_type
    }

    /// Whether the item is metadata of the type for the colour item
    /// `color_id` (any item where `color_id` is 0).
    pub fn is_metadata(&self, item_type: &str, color_id: u32) -> (r: bool)
        ensures
            r == self.spec_is_metadata(item_type@, color_id),
    {
        self.size != 0 && !self.has_unsupported_essential_property && (color_id == 0
            || self.desc_for_id == color_id) && string_is(&self.item_type, item_type)
    }

    /// Whether the item is the Exif metadata of the colour item.
    pub fn is_exif(&self, color_id: u32) -> (r: bool)
        ensures
            r == self.spec_is_metadata("Exif"@, color_id),
    {
        self.is_metadata("Exif", color_id)
    }

    /// Whether the item is the XMP metadata of the colour item.
    pub fn is_xmp(&self, color_id: u32) -> (r: bool)
        ensures
            r == (self.spec_is_metadata("mime"@, color_id) && self.content_type@
                == "application/rdf+xml"@),
    {
        self.is_metadata("mime", color_id) && string_is(&self.content_type, "application/rdf+xml")
    }

    /// Whether the item is a tone mapped image that is no thumbnail.
    pub fn is_tmap(&self) -> (r: bool)
        ensures
            r == (self.spec_is_metadata("tmap"@, 0) && self.thumbnail_for_id == 0),
    {
        self.is_metadata("tmap", 0) && self.thumbnail_for_id == 0
    }
}

/// The property is of the kind that `find_first` looks for: operating
/// point selector, codec configuration, pixel information, layered image
/// indexing, layer selector, auxiliary type or spatial extents.
pub open spec fn kind_matches(kind: u8, p: ItemProperty) -> bool {
    if kind == 0 {
        is_a1op(p)
    } else if kind == 1 {
        is_av1c(p)
    } else if kind == 2 {
        is_pixi(p)
    } else if kind == 3 {
        is_a1lx(p)
    } else if kind == 4 {
        is_lsel(p)
    } else if kind == 5 {
        is_auxc(p)
    } else {
        is_ispe(p)
    }
}

/// The image grid that the bytes `d` describe: version 0, flags, rows and
/// columns less one, then the output width and height (32 bits each when
/// `flags & 1`, else 16 bits), which must be nonzero. `BmffParseFailed`
/// where the bytes end early, `InvalidImageGrid` for another version or an
/// empty output.
pub open spec fn spec_grid(d: Seq<u8>) -> Result<Grid, AvifError> {
    if d.len() < 1 {
        Err(AvifError::BmffParseFailed)
    } else if d[0] != 0 {
        Err(AvifError::InvalidImageGrid)
    } else if d.len() < 4 {
        Err(AvifError::BmffParseFailed)
    } else {
        let large = d[1] % 2 == 1;
        if d.len() < if large { 12int } else { 8int } {
            Err(AvifError::BmffParseFailed)
        } else {
            let w = if large { be_u32(d, 4) } else { be_u16(d, 4) };
            let h = if large { be_u32(d, 8) } else { be_u16(d, 6) };
            if w == 0 || h == 0 {
                Err(AvifError::InvalidImageGrid)
            } else {
                Ok(Grid { rows: (d[2] + 1) as u32, columns: (d[3] + 1) as u32, width: w as u32, height: h as u32 })
            }
        }
    }
}

/// Reads an image grid description from what is left of the stream (see
/// `spec_grid`).
pub fn parse_grid(stream: &mut IStream) -> (r: AvifResult<Grid>)
    requires
        old(stream).wf(),
    ensures
        final(stream).wf(),
        r == spec_grid(old(stream).data@.subrange(old(stream).offset as int, old(stream).data@.len() as int)),
{
    proof {
        vstd::arithmetic::power2::lemma2_to64();
    }
    let ghost d = stream.data@;
    let ghost o = stream.offset as int;
    let ghost u = d.subrange(o, d.len() as int);
    let version = stream.read_u8()?;
    if version != 0 {
        return Err(AvifError::InvalidImageGrid);
    }
    let flags = stream.read_u8()?;
    let rows = stream.read_u8()? as u32 + 1;
    let columns = stream.read_u8()? as u32 + 1;
    assert(flags & 1 == flags % 2) by (bit_vector);
    let (width, height) = if (flags & 1) == 1 {
        let w = stream.read_u32()?;
        let h = stream.read_u32()?;
        assert(be_u32(u, 4) == be_u32(d, o + 4));
        assert(be_u32(u, 8) == be_u32(d, o + 8));
        (w, h)
    } else {
        let w = stream.read_u16()? as u32;
        let h = stream.read_u16()? as u32;
        assert(be_u16(u, 4) == be_u16(d, o + 4));
        assert(be_u16(u, 6) == be_u16(d, o + 6));
        (w, h)
    };
    if width == 0 || height == 0 {
        return Err(AvifError::InvalidImageGrid);
    }
    Ok(Grid { rows, columns, width, height })
}

/// Sum of the lengths of the extents.
pub open spec fn extents_length(e: Seq<ItemLocationExtent>, n: int) -> int
    decreases n,
{
    if n <= 0 {
        0
    } else {
        extents_length(e, n - 1) + e[n - 1].length
    }
}

/// The item's location is that of the item location entry `e`: its extents
/// shifted by the base offset, its size their total length, and the item
/// data of the meta box where `e` says so.
pub open spec fn located_by(item: Item, e: ItemLocationEntry, idat: Seq<u8>) -> bool {
    &&& item.extents@.len() == e.extents@.len()
    &&& forall|j: int|
        0 <= j < e.extents@.len() ==> #[trigger] item.extents@[j] == (ItemLocationExtent {
            offset: (e.base_offset + e.extents@[j].offset) as u64,
            length: e.extents@[j].length,
        })
    &&& item.size == extents_length(e.extents@, e.extents@.len() as int)
    &&& e.construction_method == 1 ==> item.idat@ == idat
}

/// The ids of the item information entries.
pub open spec fn info_ids(meta: &MetaBox) -> Set<u32> {
    Set::new(|id: u32| exists|i: int| 0 <= i < meta.iinf@.len() && (#[trigger] meta.iinf@[i]).item_id == id)
}

/// What construction guarantees of each item: it is filed under its id,
/// and where it has extents, some item location entry of its id placed
/// them.
pub open spec fn items_located(m: Map<u32, Item>, meta: &MetaBox) -> bool {
    forall|id: u32|
        #[trigger] m.contains_key(id) ==> m[id].id == id && (m[id].extents@.len() > 0 ==> exists|
            k: int,
        |
            0 <= k < meta.iloc.items@.len() && (#[trigger] meta.iloc.items@[k]).item_id == id
                && located_by(m[id], meta.iloc.items@[k], meta.idat@))
}

/// The extents of a location entry fit: each offset plus the base offset in
/// 64 bits, each length and the running total of the lengths in `usize`.
pub open spec fn extents_fit(e: ItemLocationEntry) -> bool {
    forall|j: int|
        0 <= j < e.extents@.len() ==> e.base_offset + (#[trigger] e.extents@[j]).offset <= u64::MAX
            && e.extents@[j].length <= usize::MAX && extents_length(e.extents@, j + 1) <= usize::MAX
}

/// The first `n` location entries name items, have extents that fit, and
/// none places an item that an earlier entry with extents placed.
pub open spec fn iloc_ok_upto(meta: &MetaBox, n: int) -> bool {
    &&& forall|i: int|
        0 <= i < n ==> info_ids(meta).contains((#[trigger] meta.iloc.items@[i]).item_id) && extents_fit(
            meta.iloc.items@[i],
        )
    &&& forall|i: int, j: int|
        0 <= i < j < n && (#[trigger] meta.iloc.items@[i]).extents@.len() > 0 ==> (#[trigger] meta.iloc.items@[j]).item_id
            != meta.iloc.items@[i].item_id
}

/// The first `n` property associations name items, each item at most
/// once, and their property indices exist (0 standing for none).
pub open spec fn assoc_ok_upto(meta: &MetaBox, n: int) -> bool {
    let a = meta.iprp.associations@;
    &&& forall|i: int|
        0 <= i < n ==> info_ids(meta).contains((#[trigger] a[i]).item_id) && forall|k: int|
            0 <= k < a[i].associations@.len() ==> (#[trigger] a[i].associations@[k]).0 <= meta.iprp.properties@.len()
    &&& forall|i: int, j: int| 0 <= i < j < n ==> (#[trigger] a[i]).item_id != (#[trigger] a[j]).item_id
}

/// The first `n` item references start at an item, and a `dimg` one ends
/// at one.
pub open spec fn iref_ok_upto(meta: &MetaBox, n: int) -> bool {
    forall|i: int|
        0 <= i < n ==> info_ids(meta).contains((#[trigger] meta.iref@[i]).from_item_id) && (meta.iref@[i].reference_type@
            == "dimg"@ ==> info_ids(meta).contains(meta.iref@[i].to_item_id))
}

/// No location entry after entry `k`, among the first `n`, names its item.
pub open spec fn last_entry_for(meta: &MetaBox, k: int, n: int) -> bool {
    forall|j: int| k < j < n ==> (#[trigger] meta.iloc.items@[j]).item_id != meta.iloc.items@[k].item_id
}

/// Each item named by one of the first `n` location entries is placed by
/// the last of them, even one without extents (which gives size 0).
pub open spec fn items_placed(m: Map<u32, Item>, meta: &MetaBox, n: int) -> bool {
    forall|k: int|
        0 <= k < n && last_entry_for(meta, k, n) ==> located_by(
            m[(#[trigger] meta.iloc.items@[k]).item_id],
            meta.iloc.items@[k],
            meta.idat@,
        )
}

/// Whether `construct_avif_items` succeeds.
pub open spec fn items_constructible(meta: &MetaBox) -> bool {
    &&& iloc_ok_upto(meta, meta.iloc.items@.len() as int)
    &&& assoc_ok_upto(meta, meta.iprp.associations@.len() as int)
    &&& iref_ok_upto(meta, meta.iref@.len() as int)
}

/// Builds the items of a meta box: one per item information entry (a later
/// entry with the same id replaces an earlier one), placed by their item
/// location entries, with the supported properties associated with them,
/// and linked by the item references. Every entry must name an item, an
/// item may be placed and given properties only once, property indices
/// must exist, and offsets and sizes must fit.
pub fn construct_avif_items(meta: &MetaBox) -> (r: AvifResult<HashMap<u32, Item>>)
    ensures
        r matches Ok(m) ==> m@.dom() == info_ids(meta) && items_located(m@, meta),
        r is Err ==> r == Err::<HashMap<u32, Item>, AvifError>(AvifError::BmffParseFailed),
        r is Ok <==> items_constructible(meta),
        r matches Ok(m) ==> items_placed(m@, meta, meta.iloc.items@.len() as int),
{
    let mut items: HashMap<u32, Item> = HashMap::new();
    let mut i: usize = 0;
    while i < meta.iinf.len()
        invariant
            0 <= i <= meta.iinf@.len(),
            items@.dom() == Set::new(
                |id: u32| exists|k: int| 0 <= k < i && (#[trigger] meta.iinf@[k]).item_id == id,
            ),
            forall|id: u32| #[trigger] items@.contains_key(id) ==> items@[id].id == id
                && items@[id].extents@.len() == 0,
        decreases meta.iinf@.len() - i,
    {
        let info = &meta.iinf[i];
        let mut item = Item::new(info.item_id, info.item_type.clone());
        item.content_type = info.content_type.clone();
        items.insert(info.item_id, item);
        proof {
            assert(items@.dom() =~= Set::new(
                |id: u32| exists|k: int| 0 <= k < i + 1 && (#[trigger] meta.iinf@[k]).item_id == id,
            )) by {
                assert forall|id: u32| items@.dom().contains(id) implies exists|k: int|
                    0 <= k < i + 1 && (#[trigger] meta.iinf@[k]).item_id == id by {
                    if id == meta.iinf@[i as int].item_id {
                        assert(meta.iinf@[i as int].item_id == id);
                    }
                }
            }
        }
        i += 1;
    }
    assert(items@.dom() =~= info_ids(meta));
    let mut i: usize = 0;
    while i < meta.iloc.items.len()
        invariant
            0 <= i <= meta.iloc.items@.len(),
            items@.dom() == info_ids(meta),
            items_located(items@, meta),
            iloc_ok_upto(meta, i as int),
            items_placed(items@, meta, i as int),
            forall|id: u32|
                #[trigger] items@.contains_key(id) && items@[id].extents@.len() > 0 ==> exists|j: int|
                    0 <= j < i && (#[trigger] meta.iloc.items@[j]).item_id == id && meta.iloc.items@[j].extents@.len()
                        > 0,
            forall|j: int|
                0 <= j < i && (#[trigger] meta.iloc.items@[j]).extents@.len() > 0 ==> items@[meta.iloc.items@[j].item_id].extents@.len()
                    > 0,
        decreases meta.iloc.items@.len() - i,
    {
        let entry = &meta.iloc.items[i];
        let ghost placed = items@;
        let mut item = match items.remove(&entry.item_id) {
            Some(item) => item,
            None => {
                assert(!info_ids(meta).contains(meta.iloc.items@[i as int].item_id));
                return Err(AvifError::BmffParseFailed);
            },
        };
        if item.extents.len() != 0 {
            proof {
                let id = entry.item_id;
                assert(placed.contains_key(id) && placed[id].extents@.len() > 0);
                let j = choose|j: int|
                    0 <= j < i && (#[trigger] meta.iloc.items@[j]).item_id == id && meta.iloc.items@[j].extents@.len() > 0;
                assert(meta.iloc.items@[i as int].item_id == meta.iloc.items@[j].item_id);
            }
            return Err(AvifError::BmffParseFailed);
        }
        if entry.construction_method == 1 {
            item.idat = meta.idat.clone();
        }
        let mut size: usize = 0;
        let mut extents: Vec<ItemLocationExtent> = Vec::new();
        let mut j: usize = 0;
        while j < entry.extents.len()
            invariant
                0 <= j <= entry.extents@.len(),
                0 <= i < meta.iloc.items@.len(),
                *entry == meta.iloc.items@[i as int],
                extents@.len() == j,
                size == extents_length(entry.extents@, j as int),
                forall|x: int|
                    0 <= x < j ==> #[trigger] extents@[x] == (ItemLocationExtent {
                        offset: (entry.base_offset + entry.extents@[x].offset) as u64,
                        length: entry.extents@[x].length,
                    }),
                forall|x: int|
                    0 <= x < j ==> entry.base_offset + (#[trigger] entry.extents@[x]).offset <= u64::MAX
                        && entry.extents@[x].length <= usize::MAX && extents_length(entry.extents@, x + 1) <= usize::MAX,
            decreases entry.extents@.len() - j,
        {
            let extent = &entry.extents[j];
            let offset = match entry.base_offset.checked_add(extent.offset) {
                Some(v) => v,
                None => {
                    assert(entry.extents@[j as int] == meta.iloc.items@[i as int].extents@[j as int]);
                    assert(!extents_fit(meta.iloc.items@[i as int]));
                    return Err(AvifError::BmffParseFailed);
                },
            };
            let length = match usize_from_u64(extent.length) {
                Ok(v) => v,
                Err(e) => {
                    assert(entry.extents@[j as int] == meta.iloc.items@[i as int].extents@[j as int]);
                    assert(!extents_fit(meta.iloc.items@[i as int]));
                    return Err(e);
                },
            };
            size = match size.checked_add(length) {
                Some(v) => v,
                None => {
                    assert(extents_length(entry.extents@, j + 1) == extents_length(entry.extents@, j as int)
                        + entry.extents@[j as int].length);
                    assert(entry.extents@[j as int] == meta.iloc.items@[i as int].extents@[j as int]);
                    assert(!extents_fit(meta.iloc.items@[i as int]));
                    return Err(AvifError::BmffParseFailed);
                },
            };
            assert(extents_length(entry.extents@, j + 1) == extents_length(entry.extents@, j as int)
                + entry.extents@[j as int].length);
            extents.push(ItemLocationExtent { offset, length: extent.length });
            j += 1;
        }
        item.extents = extents;
        item.size = size;
        proof {
            assert(located_by(item, *entry, meta.idat@));
        }
        let ghost id = entry.item_id;
        let ghost before = items@;
        items.insert(entry.item_id, item);
        proof {
            assert(items@.dom() =~= info_ids(meta));
            assert forall|id2: u32| #[trigger] items@.contains_key(id2) implies items@[id2].id == id2
                && (items@[id2].extents@.len() > 0 ==> exists|k: int|
                0 <= k < meta.iloc.items@.len() && (#[trigger] meta.iloc.items@[k]).item_id == id2
                    && located_by(items@[id2], meta.iloc.items@[k], meta.idat@)) by {
                if id2 == id {
                    assert(meta.iloc.items@[i as int].item_id == id2);
                } else {
                    assert(before.contains_key(id2));
                }
            }
        }
        i += 1;
    }
    let mut seen: HashSet<u32> = HashSet::new();
    let mut i: usize = 0;
    assert(seen@ =~= Set::new(|id: u32| exists|j: int| 0 <= j < 0 && (#[trigger] meta.iprp.associations@[j]).item_id == id));
    while i < meta.iprp.associations.len()
        invariant
            0 <= i <= meta.iprp.associations@.len(),
            items@.dom() == info_ids(meta),
            items_located(items@, meta),
            iloc_ok_upto(meta, meta.iloc.items@.len() as int),
            items_placed(items@, meta, meta.iloc.items@.len() as int),
            assoc_ok_upto(meta, i as int),
            seen@ == Set::new(|id: u32| exists|j: int| 0 <= j < i && (#[trigger] meta.iprp.associations@[j]).item_id == id),
        decreases meta.iprp.associations@.len() - i,
    {
        let association = &meta.iprp.associations[i];
        if seen.contains(&association.item_id) {
            proof {
                let id = association.item_id;
                assert(seen@.contains(id));
                let j = choose|j: int| 0 <= j < i && (#[trigger] meta.iprp.associations@[j]).item_id == id;
                assert(meta.iprp.associations@[j].item_id == meta.iprp.associations@[i as int].item_id);
                assert(!assoc_ok_upto(meta, meta.iprp.associations@.len() as int));
            }
            return Err(AvifError::BmffParseFailed);
        }
        seen.insert(association.item_id);
        proof {
            assert(seen@ =~= Set::new(
                |id: u32| exists|j: int| 0 <= j < i + 1 && (#[trigger] meta.iprp.associations@[j]).item_id == id,
            )) by {
                assert forall|id: u32| seen@.contains(id) implies exists|j: int|
                    0 <= j < i + 1 && (#[trigger] meta.iprp.associations@[j]).item_id == id by {
                    if id == meta.iprp.associations@[i as int].item_id {
                        assert(meta.iprp.associations@[i as int].item_id == id);
                    }
                }
            }
        }
        let ghost before = items@;
        let mut item = match items.remove(&association.item_id) {
            Some(item) => item,
            None => {
                assert(!info_ids(meta).contains(meta.iprp.associations@[i as int].item_id));
                return Err(AvifError::BmffParseFailed);
            },
        };
        let ghost kept = item;
        let mut j: usize = 0;
        while j < association.associations.len()
            invariant
                0 <= j <= association.associations@.len(),
                0 <= i < meta.iprp.associations@.len(),
                *association == meta.iprp.associations@[i as int],
                forall|k: int| 0 <= k < j ==> (#[trigger] association.associations@[k]).0 <= meta.iprp.properties@.len(),
                item.id == kept.id,
                item.extents@ == kept.extents@,
                item.size == kept.size,
                item.idat@ == kept.idat@,
            decreases association.associations@.len() - j,
        {
            let (property_index_u16, essential) = association.associations[j];
            let property_index = property_index_u16 as usize;
            if property_index != 0 {
                if property_index > meta.iprp.properties.len() {
                    assert(meta.iprp.associations@[i as int].associations@[j as int].0 > meta.iprp.properties@.len());
                    return Err(AvifError::BmffParseFailed);
                }
                let property = meta.iprp.properties[property_index - 1].copy();
                if property.is_supported() {
                    item.properties.push(property);
                } else if essential {
                    item.has_unsupported_essential_property = true;
                }
            }
            j += 1;
        }
        let ghost id = association.item_id;
        items.insert(association.item_id, item);
        proof {
            assert(items@.dom() =~= info_ids(meta));
            assert forall|id2: u32| #[trigger] items@.contains_key(id2) implies items@[id2].id == id2
                && (items@[id2].extents@.len() > 0 ==> exists|k: int|
                0 <= k < meta.iloc.items@.len() && (#[trigger] meta.iloc.items@[k]).item_id == id2
                    && located_by(items@[id2], meta.iloc.items@[k], meta.idat@)) by {
                if id2 != id {
                    assert(before.contains_key(id2));
                } else {
                    assert(before.contains_key(id2));
                    if items@[id2].extents@.len() > 0 {
                        let k = choose|k: int|
                            0 <= k < meta.iloc.items@.len() && (#[trigger] meta.iloc.items@[k]).item_id
                                == id2 && located_by(before[id2], meta.iloc.items@[k], meta.idat@);
                        assert(located_by(items@[id2], meta.iloc.items@[k], meta.idat@));
                    }
                }
            }
        }
        i += 1;
    }
    let mut i: usize = 0;
    while i < meta.iref.len()
        invariant
            0 <= i <= meta.iref@.len(),
            items@.dom() == info_ids(meta),
            items_located(items@, meta),
            iloc_ok_upto(meta, meta.iloc.items@.len() as int),
            assoc_ok_upto(meta, meta.iprp.associations@.len() as int),
            items_placed(items@, meta, meta.iloc.items@.len() as int),
            iref_ok_upto(meta, i as int),
        decreases meta.iref@.len() - i,
    {
        let reference = &meta.iref[i];
        let t = &reference.reference_type;
        if !items.contains_key(&reference.from_item_id) {
            assert(!info_ids(meta).contains(meta.iref@[i as int].from_item_id));
            return Err(AvifError::BmffParseFailed);
        }
        if string_is(t, "dimg") {
            let ghost before = items@;
            let mut dimg_item = match items.remove(&reference.to_item_id) {
                Some(item) => item,
                None => {
                    assert(!info_ids(meta).contains(meta.iref@[i as int].to_item_id));
                    return Err(AvifError::BmffParseFailed);
                },
            };
            dimg_item.dimg_for_id = reference.from_item_id;
            dimg_item.dimg_index = i as u32;
            items.insert(reference.to_item_id, dimg_item);
            proof {
                lemma_update_keeps_location(before, items@, meta, reference.to_item_id);
            }
        } else {
            let ghost before = items@;
            let mut item = match items.remove(&reference.from_item_id) {
                Some(item) => item,
                None => {
                    return Err(AvifError::BmffParseFailed);
                },
            };
            if string_is(t, "thmb") {
                item.thumbnail_for_id = reference.to_item_id;
            } else if string_is(t, "auxl") {
                item.aux_for_id = reference.to_item_id;
            } else if string_is(t, "cdsc") {
                item.desc_for_id = reference.to_item_id;
            } else if string_is(t, "prem") {
                item.prem_by_id = reference.to_item_id;
            }
            items.insert(reference.from_item_id, item);
            proof {
                lemma_update_keeps_location(before, items@, meta, reference.from_item_id);
            }
        }
        i += 1;
    }
    Ok(items)
}

/// Replacing an item by one with the same id, extents, size and item data
/// keeps what construction guarantees.
proof fn lemma_update_keeps_location(before: Map<u32, Item>, after: Map<u32, Item>, meta: &MetaBox, id: u32)
    requires
        items_located(before, meta),
        before.contains_key(id),
        after.dom() == before.dom(),
        forall|id2: u32| #[trigger] after.contains_key(id2) && id2 != id ==> after[id2] == before[id2],
        after[id].id == before[id].id,
        after[id].extents@ == before[id].extents@,
        after[id].size == before[id].size,
        after[id].idat@ == before[id].idat@,
    ensures
        items_located(after, meta),
{
    assert forall|id2: u32| #[trigger] after.contains_key(id2) implies after[id2].id == id2
        && (after[id2].extents@.len() > 0 ==> exists|k: int|
        0 <= k < meta.iloc.items@.len() && (#[trigger] meta.iloc.items@[k]).item_id == id2
            && located_by(after[id2], meta.iloc.items@[k], meta.idat@)) by {
        assert(before.contains_key(id2));
        if id2 == id && after[id2].extents@.len() > 0 {
            let k = choose|k: int|
                0 <= k < meta.iloc.items@.len() && (#[trigger] meta.iloc.items@[k]).item_id == id2
                    && located_by(before[id2], meta.iloc.items@[k], meta.idat@);
            assert(located_by(after[id2], meta.iloc.items@[k], meta.idat@));
        }
    }
}

} // verus!
