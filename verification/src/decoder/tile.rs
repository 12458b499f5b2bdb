//! Tiles: what a codec decodes, with the samples that feed it.

use crate::decoder::item::Item;
use crate::decoder::track::{chunk_sample_count, SampleSize, SampleTable, Track};
use crate::decoder::{Category, IO};
use crate::image::Image;
use crate::internal_utils::{u32_from_usize, usize_from_u16, usize_from_u64};
use crate::parser::mp4box::{first_where, is_a1lx, is_lsel, ItemProperty};
use crate::{AvifError, AvifResult, PixelFormat};
use vstd::prelude::*;

verus! {

/// Largest number of layers of an AV1 image.
pub const MAX_AV1_LAYER_COUNT: usize = 4;

/// A run of bytes for the codec: where it lies, how long it is, the layer
/// to keep (0xff for all) and whether decoding can start there.
#[derive(Debug, Clone, Copy, PartialEq, Eq, Structural)]
pub struct DecodeSample {
    pub item_id: u32,
    pub offset: u64,
    pub size: usize,
    pub spatial_id: u8,
    pub sync: bool,
}

impl DecodeSample {
    /// The first `size` bytes of the sample: from the item's data buffer
    /// where there is one, else read from `io`.
    pub fn partial_data<'a, T: IO + ?Sized>(
        &'a self,
        io: &'a mut T,
        buffer: &'a Option<Vec<u8>>,
        size: usize,
    ) -> (r: AvifResult<&'a [u8]>)
        requires
            buffer matches Some(x) ==> self.offset + size <= x@.len(),
        ensures
            buffer matches Some(x) ==> r matches Ok(s) && s@ == x@.subrange(
                self.offset as int,
                self.offset + size,
            ),
    {
        match buffer {
            Some(x) => {
                let _n = x.len();
                let start_offset = usize_from_u64(self.offset)?;
                let end_offset = start_offset + size;
                Ok(vstd::slice::slice_subrange(x.as_slice(), start_offset, end_offset))
            },
            None => io.read(self.offset, size),
        }
    }

    /// The bytes of the sample (see `partial_data`).
    pub fn data<'a, T: IO + ?Sized>(&'a self, io: &'a mut T, buffer: &'a Option<Vec<u8>>) -> (r:
        AvifResult<&'a [u8]>)
        requires
            buffer matches Some(x) ==> self.offset + self.size <= x@.len(),
        ensures
            buffer matches Some(x) ==> r matches Ok(s) && s@ == x@.subrange(
                self.offset as int,
                self.offset + self.size,
            ),
    {
        self.partial_data(io, buffer, self.size)
    }
}

/// The samples of one tile.
#[derive(Debug)]
pub struct DecodeInput {
    pub samples: Vec<DecodeSample>,
    pub all_layers: bool,
    pub category: Category,
}

/// An image grid: rows and columns of tiles, and the size of the output.
#[derive(Debug, Default, Clone, Copy, PartialEq, Eq, Structural)]
pub struct Grid {
    pub rows: u32,
    pub columns: u32,
    pub width: u32,
    pub height: u32,
}

/// The tiles of one category and how many of them are decoded.
#[derive(Debug, Default, Clone, Copy)]
pub struct TileInfo {
    pub tile_count: u32,
    pub decoded_tile_count: u32,
    pub grid: Grid,
}

impl TileInfo {
    pub open spec fn spec_is_grid(&self) -> bool {
        self.grid.rows > 0 && self.grid.columns > 0
    }

    /// Whether the image is a grid of tiles.
    pub fn is_grid(&self) -> (r: bool)
        ensures
            r == self.spec_is_grid(),
    {
        self.grid.rows > 0 && self.grid.columns > 0
    }

    /// Number of tiles: rows times columns for a grid, else 1.
    pub fn grid_tile_count(&self) -> (r: u32)
        requires
            self.grid.rows * self.grid.columns <= u32::MAX,
        ensures
            r == if self.spec_is_grid() {
                self.grid.rows * self.grid.columns
            } else {
                1
            },
    {
        if self.is_grid() {
            self.grid.rows * self.grid.columns
        } else {
            1
        }
    }

    pub open spec fn spec_decoded_row_count(&self, image_height: u32, tile_height: u32) -> u32 {
        if self.decoded_tile_count == 0 {
            0
        } else if self.decoded_tile_count == self.tile_count || !self.spec_is_grid() {
            image_height
        } else {
            vstd::math::min(
                ((self.decoded_tile_count / self.grid.columns) * tile_height) as int,
                image_height as int,
            ) as u32
        }
    }

    /// Number of rows of the image that are decoded: none before the first
    /// tile, all once every tile is (or for a single image), else the
    /// complete rows of tiles so far, at most the image height.
    pub fn decoded_row_count(&self, image_height: u32, tile_height: u32) -> (r: u32)
        requires
            self.spec_is_grid() ==> (self.decoded_tile_count / self.grid.columns) * tile_height
                <= u32::MAX,
        ensures
            r == self.spec_decoded_row_count(image_height, tile_height),
            self.decoded_tile_count == 0 ==> r == 0,
            self.decoded_tile_count != 0 && (self.decoded_tile_count == self.tile_count
                || !self.spec_is_grid()) ==> r == image_height,
            self.decoded_tile_count != 0 && self.decoded_tile_count != self.tile_count
                && self.spec_is_grid() ==> r == vstd::math::min(
                ((self.decoded_tile_count / self.grid.columns) * tile_height) as int,
                image_height as int,
            ),
    {
        if self.decoded_tile_count == 0 {
            return 0;
        }
        if self.decoded_tile_count == self.tile_count || !self.is_grid() {
            return image_height;
        }
        let rows = (self.decoded_tile_count / self.grid.columns) * tile_height;
        if rows < image_height {
            rows
        } else {
            image_height
        }
    }

    /// Whether every tile is decoded.
    pub fn is_fully_decoded(&self) -> (r: bool)
        ensures
            r == (self.tile_count == self.decoded_tile_count),
    {
        self.tile_count == self.decoded_tile_count
    }
}

/// A tile: its size, operating point, the image it decodes to and its
/// samples.
#[derive(Debug)]
pub struct Tile {
    pub width: u32,
    pub height: u32,
    pub operating_point: u8,
    pub image: Image,
    pub input: DecodeInput,
    pub codec_index: usize,
}

/// The layer sizes of an item of `size` bytes from the layer sizes of its
/// layered image indexing property, starting at layer `i` with `remaining`
/// bytes left: each nonzero size must leave room for a further layer; a
/// zero size takes the rest; after three sizes the rest, if any, is a
/// fourth layer. `None` where a size does not fit.
pub open spec fn layers_from(a: Seq<usize>, i: int, remaining: int) -> Option<Seq<int>>
    decreases 3 - i,
{
    if i >= 3 {
        if remaining > 0 {
            Some(seq![remaining])
        } else {
            Some(Seq::empty())
        }
    } else if a[i] > 0 {
        if a[i] >= remaining {
            None
        } else {
            match layers_from(a, i + 1, remaining - a[i]) {
                Some(rest) => Some(seq![a[i] as int] + rest),
                None => None,
            }
        }
    } else {
        Some(seq![remaining])
    }
}

/// Sum of the first `n` values.
pub open spec fn sum_first(s: Seq<int>, n: int) -> int
    decreases n,
{
    if n <= 0 {
        0
    } else {
        sum_first(s, n - 1) + s[n - 1]
    }
}

proof fn lemma_layers_sum(a: Seq<usize>, i: int, remaining: int)
    requires
        0 <= i <= 3,
        remaining >= 0,
        layers_from(a, i, remaining) is Some,
    ensures
        ({
            let l = layers_from(a, i, remaining).unwrap();
            &&& sum_first(l, l.len() as int) == remaining
            &&& l.len() <= 4 - i
            &&& forall|k: int| 0 <= k < l.len() ==> 0 <= #[trigger] l[k] <= remaining
        }),
    decreases 3 - i,
{
    if i < 3 && a[i] > 0 {
        lemma_layers_sum(a, i + 1, remaining - a[i]);
        let rest = layers_from(a, i + 1, remaining - a[i]).unwrap();
        let l = seq![a[i] as int] + rest;
        lemma_sum_prepend(a[i] as int, rest, rest.len() as int);
    } else if i >= 3 {
        if remaining > 0 {
            let l = seq![remaining];
            assert(sum_first(l, 1) == sum_first(l, 0) + l[0]);
        }
    } else {
        let l = seq![remaining];
        assert(sum_first(l, 1) == sum_first(l, 0) + l[0]);
    }
}

/// The layers of a layered item follow one another without gap and cover
/// it: there are at most four, none larger than the item, and their sizes
/// add up to the item's size.
pub proof fn lemma_layers_cover_item(item: &Item)
    requires
        Tile::spec_layers(item) matches Some(Some(_)),
    ensures
        sum_first(Tile::layer_sizes(item), Tile::layer_count(item)) == item.size,
        Tile::layer_count(item) <= 4,
        forall|k: int| 0 <= k < Tile::layer_count(item) ==> 0 <= #[trigger] Tile::layer_sizes(item)[k] <= item.size,
{
    let i = first_where(item.properties@, |p: ItemProperty| is_a1lx(p)).unwrap();
    match item.properties@[i] {
        ItemProperty::AV1LayeredImageIndexing(a) => {
            lemma_layers_sum(a@, 0, item.size as int);
        },
        _ => {},
    }
}

proof fn lemma_sum_prepend(x: int, s: Seq<int>, n: int)
    requires
        0 <= n <= s.len(),
    ensures
        sum_first(seq![x] + s, n + 1) == x + sum_first(s, n),
    decreases n,
{
    let t = seq![x] + s;
    if n > 0 {
        lemma_sum_prepend(x, s, n - 1);
        assert(t[n] == s[n - 1]);
        assert(sum_first(t, n + 1) == sum_first(t, n) + t[n]);
        assert(sum_first(s, n) == sum_first(s, n - 1) + s[n - 1]);
    } else {
        assert(t[0] == x);
        assert(sum_first(t, 1) == sum_first(t, 0) + t[0]);
    }
}

/// `p` followed by the layers of `o`, if any.
pub open spec fn prepend_layers(p: Seq<int>, o: Option<Seq<int>>) -> Option<Seq<int>> {
    match o {
        Some(r) => Some(p + r),
        None => None,
    }
}

/// The layer sizes of an item of `size` bytes from the sizes `a1lx` (see
/// `layers_from`), with their number.
fn compute_layers(a1lx: &[usize; 3], size: usize) -> (r: Option<([usize; 4], usize)>)
    ensures
        match layers_from(a1lx@, 0, size as int) {
            Some(l) => r matches Some((sizes, n)) && n == l.len() && n <= 4 && forall|k: int|
                0 <= k < n ==> sizes[k] == #[trigger] l[k],
            None => r is None,
        },
{
    let ghost a = a1lx@;
    let mut sizes: [usize; 4] = [0, 0, 0, 0];
    let mut count: usize = 0;
    let mut remaining: usize = size;
    let ghost mut layers: Seq<int> = Seq::empty();
    assert(layers + layers_from(a, 0, size as int).unwrap_or(Seq::empty()) =~= layers_from(a, 0, size as int).unwrap_or(Seq::empty()));
    let mut i: usize = 0;
    while i < 3
        invariant
            a == a1lx@,
            0 <= i <= 3,
            count == i,
            layers.len() == i,
            remaining <= size,
            layers_from(a, 0, size as int) == prepend_layers(layers, layers_from(a, i as int, remaining as int)),
            forall|k: int| 0 <= k < count ==> sizes[k] == #[trigger] layers[k],
        decreases 3 - i,
    {
        if a1lx[i] > 0 {
            if a1lx[i] >= remaining {
                return None;
            }
            sizes[i] = a1lx[i];
            proof {
                let rest = layers_from(a, i + 1, remaining - a[i as int]);
                if let Some(r) = rest {
                    assert(layers + (seq![a[i as int] as int] + r) =~= layers.push(a[i as int] as int) + r);
                }
                layers = layers.push(a[i as int] as int);
            }
            remaining -= a1lx[i];
            count += 1;
        } else {
            sizes[i] = remaining;
            count += 1;
            proof {
                assert(layers + seq![remaining as int] =~= layers.push(remaining as int));
                layers = layers.push(remaining as int);
            }
            return Some((sizes, count));
        }
        i += 1;
    }
    if remaining > 0 {
        sizes[3] = remaining;
        count += 1;
        proof {
            assert(layers + seq![remaining as int] =~= layers.push(remaining as int));
            layers = layers.push(remaining as int);
        }
    } else {
        assert(layers + Seq::<int>::empty() =~= layers);
    }
    Some((sizes, count))
}

proof fn lemma_sum_step(s: Seq<int>, n: int)
    requires
        0 <= n,
    ensures
        sum_first(s, n + 1) == sum_first(s, n) + s[n],
{
}

proof fn lemma_sum_bounds(s: Seq<int>, n: int, m: int)
    requires
        0 <= n <= m <= s.len(),
        forall|k: int| 0 <= k < s.len() ==> #[trigger] s[k] >= 0,
    ensures
        sum_first(s, n) <= sum_first(s, m),
    decreases m - n,
{
    if n < m {
        lemma_sum_bounds(s, n, m - 1);
    }
}

impl Tile {
    /// The layer sizes that the item's first layered image indexing
    /// property gives, where it has one.
    pub open spec fn spec_layers(item: &Item) -> Option<Option<Seq<int>>> {
        match first_where(item.properties@, |p: ItemProperty| is_a1lx(p)) {
            Some(i) => match item.properties@[i] {
                ItemProperty::AV1LayeredImageIndexing(a) => Some(
                    layers_from(a@, 0, item.size as int),
                ),
                _ => None,
            },
            None => None,
        }
    }

    /// The item's first layer selector, where it has one.
    pub open spec fn spec_lsel(item: &Item) -> Option<u16> {
        match first_where(item.properties@, |p: ItemProperty| is_lsel(p)) {
            Some(i) => match item.properties@[i] {
                ItemProperty::LayerSelector(v) => Some(v),
                _ => None,
            },
            None => None,
        }
    }

    /// The offset of the item's data: that of its extent where it has
    /// exactly one, else 0.
    pub open spec fn base_offset(item: &Item) -> u64 {
        if item.extents@.len() == 1 {
            item.extents@[0].offset
        } else {
            0
        }
    }

    /// The item is decoded layer by layer: it has layer sizes and no layer
    /// selector, or one that selects every layer.
    pub open spec fn spec_progressive(item: &Item) -> bool {
        Self::spec_layers(item) is Some && (Self::spec_lsel(item) is None || Self::spec_lsel(item)
            == Some(0xFFFFu16))
    }

    /// The layer sizes of the item (none without a layered image indexing
    /// property or where its sizes do not fit).
    pub open spec fn layer_sizes(item: &Item) -> Seq<int> {
        match Self::spec_layers(item) {
            Some(Some(l)) => l,
            _ => Seq::empty(),
        }
    }

    /// Number of layers of the item.
    pub open spec fn layer_count(item: &Item) -> int {
        Self::layer_sizes(item).len() as int
    }

    /// The item's layer sizes fit, and it has a layer selector that picks
    /// one layer.
    pub open spec fn selects_layer(item: &Item) -> bool {
        Self::spec_layers(item) != Some(None::<Seq<int>>) && Self::spec_lsel(item) is Some
            && Self::spec_lsel(item).unwrap() != 0xFFFF
    }

    /// The item is decoded layer by layer.
    pub open spec fn layered(item: &Item, allow_progressive: bool) -> bool {
        Self::spec_layers(item) != Some(None::<Seq<int>>) && !Self::selects_layer(item)
            && Self::spec_progressive(item) && allow_progressive
    }

    /// Whether `create_from_item` makes a tile of the item: its layer sizes
    /// fit, a selected layer exists, and a progressive item has no more
    /// layers than `image_count_limit` (no limit when 0).
    pub open spec fn tile_made(item: &Item, allow_progressive: bool, image_count_limit: u32) -> bool {
        if Self::spec_layers(item) == Some(None::<Seq<int>>) {
            false
        } else if Self::selects_layer(item) {
            !(Self::layer_count(item) > 0 && Self::spec_lsel(item).unwrap() >= Self::layer_count(item))
        } else if Self::layered(item, allow_progressive) {
            !(image_count_limit != 0 && Self::layer_count(item) > image_count_limit)
        } else {
            true
        }
    }

    /// The item is decoded as one sample.
    pub open spec fn whole_item(item: &Item, allow_progressive: bool) -> bool {
        Self::spec_layers(item) != Some(None::<Seq<int>>) && !Self::selects_layer(item) && !(
        Self::spec_progressive(item) && allow_progressive)
    }

    /// Makes the tile of an image item. With a layer selector that selects
    /// one layer, one sample holds the layers up to it; a progressive item
    /// (where allowed) gets one sample per layer, at most
    /// `image_count_limit` of them (no limit when 0); otherwise one sample
    /// holds the whole item. Records in the item whether it is progressive.
    #[verifier::loop_isolation(false)]
    pub fn create_from_item(item: &mut Item, allow_progressive: bool, image_count_limit: u32) -> (r:
        AvifResult<Tile>)
        requires
            Self::spec_progressive(old(item)) && allow_progressive ==> Self::base_offset(old(item))
                + old(item).size <= u64::MAX,
        ensures
            *final(item) == (Item {
                progressive: if Self::spec_layers(old(item)) == Some(None::<Seq<int>>) {
                    old(item).progressive
                } else {
                    Self::spec_progressive(old(item))
                },
                ..*old(item)
            }),
            Self::spec_layers(old(item)) == Some(None::<Seq<int>>) ==> r == Err::<Tile, AvifError>(
                AvifError::BmffParseFailed,
            ),
            r is Ok <==> Self::tile_made(old(item), allow_progressive, image_count_limit),
            r matches Ok(t) ==> t.width == old(item).width && t.height == old(item).height
                && t.operating_point == old(item).spec_operating_point() && t.input.category
                == Category::Color,
            Self::selects_layer(old(item)) && Self::layer_count(old(item)) > 0
                && Self::spec_lsel(old(item)).unwrap() >= Self::layer_count(old(item)) ==> r == Err::<
                Tile,
                AvifError,
            >(AvifError::InvalidImageGrid),
            Self::selects_layer(old(item)) && !(Self::layer_count(old(item)) > 0
                && Self::spec_lsel(old(item)).unwrap() >= Self::layer_count(old(item))) ==> (r matches Ok(t)
                && t.input.all_layers && t.input.samples@ == seq![
                (DecodeSample {
                    item_id: old(item).id,
                    offset: Self::base_offset(old(item)),
                    size: (if Self::layer_count(old(item)) > 0 {
                        sum_first(Self::layer_sizes(old(item)), Self::spec_lsel(old(item)).unwrap() + 1)
                    } else {
                        old(item).size as int
                    }) as usize,
                    spatial_id: Self::spec_lsel(old(item)).unwrap() as u8,
                    sync: true,
                }),
            ]),
            Self::layered(old(item), allow_progressive) && image_count_limit != 0
                && Self::layer_count(old(item)) > image_count_limit ==> r == Err::<Tile, AvifError>(
                AvifError::BmffParseFailed,
            ),
            Self::layered(old(item), allow_progressive) && !(image_count_limit != 0
                && Self::layer_count(old(item)) > image_count_limit) ==> (r matches Ok(t)
                && t.input.all_layers && t.input.samples@.len() == Self::layer_count(old(item))
                && forall|k: int|
                0 <= k < Self::layer_count(old(item)) ==> #[trigger] t.input.samples@[k] == (
                DecodeSample {
                    item_id: old(item).id,
                    offset: (Self::base_offset(old(item)) + sum_first(Self::layer_sizes(old(item)), k)) as u64,
                    size: Self::layer_sizes(old(item))[k] as usize,
                    spatial_id: 0xff,
                    sync: k == 0,
                })),
            Self::whole_item(old(item), allow_progressive) ==> (r matches Ok(t) && !t.input.all_layers
                && t.input.samples@ == seq![
                (DecodeSample {
                    item_id: old(item).id,
                    offset: Self::base_offset(old(item)),
                    size: old(item).size,
                    spatial_id: 0xff,
                    sync: true,
                }),
            ]),
    {
        let ghost it = *item;
        let mut tile = Tile {
            width: item.width,
            height: item.height,
            operating_point: item.operating_point(),
            image: Image::new(0, 0, 0, PixelFormat::Yuv420),
            input: DecodeInput { samples: Vec::new(), all_layers: false, category: Category::Color },
            codec_index: 0,
        };
        let mut layer_sizes: [usize; 4] = [0, 0, 0, 0];
        let mut layer_count: usize = 0;
        let has_a1lx;
        match item.a1lx() {
            Some(a1lx) => {
                has_a1lx = true;
                match compute_layers(a1lx, item.size) {
                    Some((sizes, n)) => {
                        layer_sizes = sizes;
                        layer_count = n;
                        proof {
                            lemma_layers_sum(a1lx@, 0, item.size as int);
                        }
                    },
                    None => {
                        return Err(AvifError::BmffParseFailed);
                    },
                }
            },
            None => {
                has_a1lx = false;
            },
        }
        let ghost layers: Seq<int> = match Self::spec_layers(&it) {
            Some(Some(l)) => l,
            _ => Seq::empty(),
        };
        proof {
            if has_a1lx {
                lemma_layers_sum(match Self::spec_layers(&it) {
                    _ => match first_where(it.properties@, |p: ItemProperty| is_a1lx(p)) {
                        Some(i) => match it.properties@[i] {
                            ItemProperty::AV1LayeredImageIndexing(a) => a@,
                            _ => Seq::empty(),
                        },
                        None => Seq::empty(),
                    },
                }, 0, it.size as int);
            }
        }
        assert(has_a1lx ==> Self::spec_layers(&it) == Some(Some(layers)));
        assert(has_a1lx ==> layers.len() == layer_count);
        assert(!has_a1lx ==> layer_count == 0);
        assert(forall|k: int| 0 <= k < layer_count ==> layer_sizes[k] == layers[k]);
        assert(has_a1lx ==> sum_first(layers, layers.len() as int) == it.size);
        assert(forall|k: int| 0 <= k < layers.len() ==> 0 <= #[trigger] layers[k] <= it.size);
        let lsel_opt = item.lsel();
        let (lsel, has_lsel) = match lsel_opt {
            Some(x) => (x, true),
            None => (0u16, false),
        };
        item.progressive = has_a1lx && (!has_lsel || lsel == 0xFFFF);
        let base_item_offset = if item.extents.len() == 1 {
            item.extents[0].offset
        } else {
            0
        };
        if has_lsel && lsel != 0xFFFF {
            tile.input.all_layers = true;
            let mut sample_size: usize = 0;
            let layer_id = usize_from_u16(lsel)?;
            if layer_count > 0 {
                if layer_id >= layer_count {
                    return Err(AvifError::InvalidImageGrid);
                }
                let mut k: usize = 0;
                while k <= layer_id
                    invariant
                        0 <= k <= layer_id + 1,
                        layer_id < layer_count <= 4,
                        sample_size == sum_first(layers, k as int),
                    decreases layer_id + 1 - k,
                {
                    proof {
                        lemma_sum_bounds(layers, k + 1, layer_count as int);
                        lemma_sum_step(layers, k as int);
                    }
                    sample_size += layer_sizes[k];
                    k += 1;
                }
            } else {
                sample_size = item.size;
            }
            tile.input.samples.push(
                DecodeSample {
                    item_id: item.id,
                    offset: base_item_offset,
                    size: sample_size,
                    spatial_id: lsel as u8,
                    sync: true,
                },
            );
        } else if item.progressive && allow_progressive {
            if image_count_limit != 0 && layer_count as u32 > image_count_limit {
                return Err(AvifError::BmffParseFailed);
            }
            tile.input.all_layers = true;
            let mut offset: u64 = 0;
            let mut k: usize = 0;
            while k < layer_count
                invariant
                    0 <= k <= layer_count <= 4,
                    offset == sum_first(layers, k as int),
                    tile.input.samples@.len() == k,
                    tile.width == it.width && tile.height == it.height,
                    tile.operating_point == it.spec_operating_point(),
                    tile.input.category == Category::Color,
                    tile.input.all_layers,
                    forall|j: int|
                        0 <= j < k ==> #[trigger] tile.input.samples@[j] == (DecodeSample {
                            item_id: it.id,
                            offset: (base_item_offset + sum_first(layers, j)) as u64,
                            size: layers[j] as usize,
                            spatial_id: 0xff,
                            sync: j == 0,
                        }),
                decreases layer_count - k,
            {
                proof {
                    lemma_sum_bounds(layers, k + 1, layer_count as int);
                    lemma_sum_step(layers, k as int);
                }
                tile.input.samples.push(
                    DecodeSample {
                        item_id: item.id,
                        offset: base_item_offset + offset,
                        size: layer_sizes[k],
                        spatial_id: 0xff,
                        sync: k == 0,
                    },
                );
                offset += layer_sizes[k] as u64;
                k += 1;
            }
        } else {
            tile.input.samples.push(
                DecodeSample {
                    item_id: item.id,
                    offset: base_item_offset,
                    size: item.size,
                    spatial_id: 0xff,
                    sync: true,
                },
            );
        }
        Ok(tile)
    }

    /// Makes the tile of a track: one sample per sample of the sample table,
    /// chunk by chunk, each of the size that the table gives. The first
    /// sample and those that the sync sample list names (counting from 1)
    /// are sync samples. Every chunk must hold samples, and with a nonzero
    /// `image_count_limit` there may be at most that many samples.
    pub fn create_from_track(track: &Track, image_count_limit: u32) -> (r: AvifResult<Tile>)
        requires
            track.sample_table is Some,
            track.sample_table->0.chunk_offsets@.len() < u32::MAX,
            forall|j: int|
                0 <= j < track.sample_table->0.sync_samples@.len() ==> #[trigger] track.sample_table->0.sync_samples@[j]
                    > 0,
        ensures
            ({
                let st = track.sample_table->0;
                let n = st.chunk_offsets@.len() as int;
                &&& chunks_have_samples(st, n) && image_count_limit != 0 && total_samples(st, n)
                    > image_count_limit ==> r == Err::<Tile, AvifError>(AvifError::BmffParseFailed)
                &&& !chunks_have_samples(st, n) ==> r == Err::<Tile, AvifError>(
                    AvifError::BmffParseFailed,
                )
                &&& r matches Ok(t) ==> {
                    &&& chunks_have_samples(st, n)
                    &&& image_count_limit != 0 ==> total_samples(st, n) <= image_count_limit
                    &&& t.width == track.width && t.height == track.height
                    &&& t.operating_point == 0 && !t.input.all_layers && t.input.category
                        == Category::Color
                    &&& t.input.samples@.len() == total_samples(st, n)
                    &&& forall|k: int|
                        0 <= k < t.input.samples@.len() ==> {
                            let smp = #[trigger] t.input.samples@[k];
                            &&& smp.item_id == 0
                            &&& smp.spatial_id == 0xff
                            &&& smp.size == spec_sample_size(st, k)
                            &&& smp.sync == (k == 0 || in_sync_list(st.sync_samples@, k))
                        }
                }
                &&& r is Err ==> r == Err::<Tile, AvifError>(AvifError::BmffParseFailed)
                &&& r is Ok <==> track_tile_ok(st, n, image_count_limit)
                &&& r matches Ok(t) ==> forall|c: int, k: int|
                    #![trigger run_size(st, total_samples(st, c), k)]
                    0 <= c < n && total_samples(st, c) <= k < total_samples(st, c + 1)
                        ==> t.input.samples@[k].offset == st.chunk_offsets@[c] + run_size(
                        st,
                        total_samples(st, c),
                        k,
                    )
            }),
    {
        let sample_table = match &track.sample_table {
            Some(st) => st,
            None => {
                return Err(AvifError::BmffParseFailed);
            },
        };
        let ghost st = *sample_table;
        let chunk_count = sample_table.chunk_offsets.len();
        if image_count_limit != 0 {
            let mut limit = image_count_limit;
            let mut chunk_index: usize = 0;
            while chunk_index < chunk_count
                invariant
                    st == track.sample_table->0,
                    *sample_table == st,
                    chunk_count == st.chunk_offsets@.len() < u32::MAX,
                    0 <= chunk_index <= chunk_count,
                    chunks_have_samples(st, chunk_index as int),
                    limit + total_samples(st, chunk_index as int) == image_count_limit,
                    image_count_limit != 0,
                decreases chunk_count - chunk_index,
            {
                let sample_count = sample_table.get_sample_count_of_chunk(chunk_index as u32);
                if sample_count == 0 {
                    proof {
                        lemma_no_samples_stops(st, chunk_index as int, chunk_count as int);
                    }
                    return Err(AvifError::BmffParseFailed);
                }
                if sample_count > limit {
                    proof {
                        lemma_total_grows(st, chunk_index as int + 1, chunk_count as int);
                        assert(total_samples(st, chunk_index as int + 1) == total_samples(
                            st,
                            chunk_index as int,
                        ) + sample_count);

                    }
                    return Err(AvifError::BmffParseFailed);
                }
                limit -= sample_count;
                chunk_index += 1;
            }
        }
        let mut tile = Tile {
            width: track.width,
            height: track.height,
            operating_point: 0,
            image: Image::new(0, 0, 0, PixelFormat::Yuv420),
            input: DecodeInput { samples: Vec::new(), all_layers: false, category: Category::Color },
            codec_index: 0,
        };
        proof {
            if image_count_limit != 0 {
                assert(total_samples(st, chunk_count as int) <= image_count_limit);
            }
        }
        let mut sample_size_index: usize = 0;
        let mut chunk_index: usize = 0;
        while chunk_index < chunk_count
            invariant
                st == track.sample_table->0,
                *sample_table == st,
                chunk_count == st.chunk_offsets@.len() < u32::MAX,
                0 <= chunk_index <= chunk_count,
                image_count_limit != 0 ==> total_samples(st, chunk_count as int) <= image_count_limit,
                chunks_have_samples(st, chunk_index as int),
                sample_size_index == total_samples(st, chunk_index as int),
                st.sample_size matches SampleSize::Sizes(v) ==> sample_size_index <= v@.len(),
                tile.input.samples@.len() == sample_size_index,
                tile.width == track.width && tile.height == track.height,
                tile.operating_point == 0 && !tile.input.all_layers,
                tile.input.category == Category::Color,
                forall|k: int|
                    0 <= k < tile.input.samples@.len() ==> {
                        let smp = #[trigger] tile.input.samples@[k];
                        &&& smp.item_id == 0
                        &&& smp.spatial_id == 0xff
                        &&& smp.size == spec_sample_size(st, k)
                        &&& smp.sync == (k == 0)
                    },
                forall|c: int, k: int|
                    #![trigger run_size(st, total_samples(st, c), k)]
                    0 <= c < chunk_index && total_samples(st, c) <= k < total_samples(st, c + 1)
                        ==> tile.input.samples@[k].offset == st.chunk_offsets@[c] + run_size(
                        st,
                        total_samples(st, c),
                        k,
                    ) && st.chunk_offsets@[c] + run_size(st, total_samples(st, c), k)
                        + spec_sample_size(st, k) <= u64::MAX,
            decreases chunk_count - chunk_index,
        {
            let sample_count = sample_table.get_sample_count_of_chunk(chunk_index as u32);
            if sample_count == 0 {
                proof {
                    lemma_no_samples_stops(st, chunk_index as int, chunk_count as int);
                }
                return Err(AvifError::BmffParseFailed);
            }
            let ghost ci = chunk_index as int;
            let ghost first = sample_size_index as int;
            let mut sample_offset: u64 = sample_table.chunk_offsets[chunk_index];
            let mut j: u32 = 0;
            while j < sample_count
                invariant
                    st == track.sample_table->0,
                    *sample_table == st,
                    chunk_count == st.chunk_offsets@.len() < u32::MAX,
                    ci == chunk_index < chunk_count,
                    0 <= first == total_samples(st, ci),
                    sample_count == chunk_sample_count(st.sample_to_chunk@, ci) > 0,
                    image_count_limit != 0 ==> total_samples(st, chunk_count as int) <= image_count_limit,
                    chunks_have_samples(st, ci + 1),
                    0 <= j <= sample_count,
                    sample_size_index == first + j,
                    st.sample_size matches SampleSize::Sizes(v) ==> sample_size_index <= v@.len(),
                    sample_offset == st.chunk_offsets@[ci] + run_size(st, first, sample_size_index as int),
                    tile.input.samples@.len() == sample_size_index,
                    tile.width == track.width && tile.height == track.height,
                    tile.operating_point == 0 && !tile.input.all_layers,
                    tile.input.category == Category::Color,
                    forall|k: int|
                        0 <= k < tile.input.samples@.len() ==> {
                            let smp = #[trigger] tile.input.samples@[k];
                            &&& smp.item_id == 0
                            &&& smp.spatial_id == 0xff
                            &&& smp.size == spec_sample_size(st, k)
                            &&& smp.sync == (k == 0)
                        },
                    forall|c: int, k: int|
                        #![trigger run_size(st, total_samples(st, c), k)]
                        0 <= c < ci && total_samples(st, c) <= k < total_samples(st, c + 1)
                            ==> tile.input.samples@[k].offset == st.chunk_offsets@[c] + run_size(
                            st,
                            total_samples(st, c),
                            k,
                        ) && st.chunk_offsets@[c] + run_size(st, total_samples(st, c), k)
                            + spec_sample_size(st, k) <= u64::MAX,
                    forall|k: int|
                        first <= k < sample_size_index ==> (#[trigger] tile.input.samples@[k]).offset
                            == st.chunk_offsets@[ci] + run_size(st, first, k) && st.chunk_offsets@[ci]
                            + run_size(st, first, k) + spec_sample_size(st, k) <= u64::MAX,
                decreases sample_count - j,
            {
                proof {
                    assert(total_samples(st, ci + 1) == first + sample_count);
                }
                let sample_size = match sample_table.sample_size(sample_size_index) {
                    Ok(v) => v,
                    Err(e) => {
                        proof {
                            lemma_total_grows(st, ci + 1, chunk_count as int);
                        }
                        return Err(e);
                    },
                };
                let sync = tile.input.samples.len() == 0;
                let ghost before = tile.input.samples@;
                tile.input.samples.push(
                    DecodeSample {
                        item_id: 0,
                        offset: sample_offset,
                        size: sample_size,
                        spatial_id: 0xff,
                        sync,
                    },
                );
                let ghost k = sample_size_index as int;
                assert(run_size(st, first, k + 1) == run_size(st, first, k) + spec_sample_size(st, k));
                sample_offset = match sample_offset.checked_add(sample_size as u64) {
                    Some(v) => v,
                    None => {
                        proof {
                            assert(!(st.chunk_offsets@[ci] + run_size(st, total_samples(st, ci), k)
                                + spec_sample_size(st, k) <= u64::MAX));
                        }
                        return Err(AvifError::BmffParseFailed);
                    },
                };
                sample_size_index = tile.input.samples.len();
                j += 1;
                proof {
                    assert forall|k2: int|
                        first <= k2 < sample_size_index implies (#[trigger] tile.input.samples@[k2]).offset
                            == st.chunk_offsets@[ci] + run_size(st, first, k2) && st.chunk_offsets@[ci]
                            + run_size(st, first, k2) + spec_sample_size(st, k2) <= u64::MAX by {
                        if k2 < k {
                            assert(tile.input.samples@[k2] == before[k2]);
                        }
                    }
                    assert forall|c: int, k2: int|
                        #![trigger run_size(st, total_samples(st, c), k2)]
                        0 <= c < ci && total_samples(st, c) <= k2 < total_samples(st, c + 1)
                            implies tile.input.samples@[k2].offset == st.chunk_offsets@[c] + run_size(
                            st,
                            total_samples(st, c),
                            k2,
                        ) && st.chunk_offsets@[c] + run_size(st, total_samples(st, c), k2)
                            + spec_sample_size(st, k2) <= u64::MAX by {
                        lemma_total_grows(st, c + 1, ci);
                        lemma_total_nonneg(st, c);
                        assert(chunks_have_samples(st, ci));
                        assert(tile.input.samples@[k2] == before[k2]);
                    }
                }
            }
            proof {
                assert(total_samples(st, ci + 1) == first + sample_count);
                assert forall|c: int, k: int|
                    #![trigger run_size(st, total_samples(st, c), k)]
                    0 <= c < ci + 1 && total_samples(st, c) <= k < total_samples(st, c + 1)
                        implies tile.input.samples@[k].offset == st.chunk_offsets@[c] + run_size(
                        st,
                        total_samples(st, c),
                        k,
                    ) && st.chunk_offsets@[c] + run_size(st, total_samples(st, c), k)
                        + spec_sample_size(st, k) <= u64::MAX by {
                    if c == ci {
                        assert(tile.input.samples@[k].offset == st.chunk_offsets@[ci] + run_size(st, first, k));
                    }
                }
            }
            chunk_index += 1;
        }
        let sync_samples = &sample_table.sync_samples;
        let mut i: usize = 0;
        while i < sync_samples.len()
            invariant
                st == track.sample_table->0,
                *sync_samples == st.sync_samples,
                0 <= i <= sync_samples@.len(),
                forall|j: int| 0 <= j < sync_samples@.len() ==> #[trigger] sync_samples@[j] > 0,
                tile.input.samples@.len() == total_samples(st, chunk_count as int),
                tile.width == track.width && tile.height == track.height,
                tile.operating_point == 0 && !tile.input.all_layers,
                tile.input.category == Category::Color,
                forall|k: int|
                    0 <= k < tile.input.samples@.len() ==> {
                        let smp = #[trigger] tile.input.samples@[k];
                        &&& smp.item_id == 0
                        &&& smp.spatial_id == 0xff
                        &&& smp.size == spec_sample_size(st, k)
                        &&& smp.sync == (k == 0 || in_sync_list(sync_samples@.subrange(0, i as int), k))
                    },
                track_tile_ok(st, chunk_count as int, image_count_limit),
                forall|c: int, k: int|
                    #![trigger run_size(st, total_samples(st, c), k)]
                    0 <= c < chunk_count && total_samples(st, c) <= k < total_samples(st, c + 1)
                        ==> tile.input.samples@[k].offset == st.chunk_offsets@[c] + run_size(
                        st,
                        total_samples(st, c),
                        k,
                    ),
            decreases sync_samples@.len() - i,
        {
            let index = (sync_samples[i] - 1) as usize;
            let ghost before = tile.input.samples@;
            if index < tile.input.samples.len() {
                let mut smp = tile.input.samples[index];
                smp.sync = true;
                tile.input.samples.set(index, smp);
            }
            proof {
                assert forall|c: int, k: int|
                    #![trigger run_size(st, total_samples(st, c), k)]
                    0 <= c < chunk_count && total_samples(st, c) <= k < total_samples(st, c + 1)
                        implies tile.input.samples@[k].offset == st.chunk_offsets@[c] + run_size(
                        st,
                        total_samples(st, c),
                        k,
                    ) by {
                    lemma_total_grows(st, c + 1, chunk_count as int);
                    lemma_total_nonneg(st, c);
                    assert(tile.input.samples@[k].offset == before[k].offset);
                }
                assert forall|k: int| 0 <= k < tile.input.samples@.len() implies (
                #[trigger] tile.input.samples@[k]).sync == (k == 0 || in_sync_list(
                    sync_samples@.subrange(0, i + 1),
                    k,
                )) by {
                    let prev = sync_samples@.subrange(0, i as int);
                    let next = sync_samples@.subrange(0, i + 1);
                    if in_sync_list(prev, k) {
                        let w = choose|w: int| 0 <= w < prev.len() && prev[w] == k + 1;
                        assert(next[w] == k + 1);
                    }
                    if k + 1 == sync_samples@[i as int] {
                        assert(next[i as int] == k + 1);
                    }
                    if in_sync_list(next, k) {
                        let w = choose|w: int| 0 <= w < next.len() && next[w] == k + 1;
                        if w < i {
                            assert(prev[w] == k + 1);
                        }
                    }
                }
            }
            i += 1;
        }
        assert(sync_samples@.subrange(0, sync_samples@.len() as int) =~= st.sync_samples@);
        Ok(tile)
    }
}

/// The first `n` chunks each hold at least one sample.
pub open spec fn chunks_have_samples(st: SampleTable, n: int) -> bool {
    forall|c: int| 0 <= c < n ==> #[trigger] chunk_sample_count(st.sample_to_chunk@, c) > 0
}

/// Number of samples in the first `n` chunks.
pub open spec fn total_samples(st: SampleTable, n: int) -> int
    decreases n,
{
    if n <= 0 {
        0
    } else {
        total_samples(st, n - 1) + chunk_sample_count(st.sample_to_chunk@, n - 1)
    }
}

/// The size of sample `k` that the table gives.
pub open spec fn spec_sample_size(st: SampleTable, k: int) -> usize {
    match st.sample_size {
        SampleSize::FixedSize(s) => s as usize,
        SampleSize::Sizes(v) => v@[k] as usize,
    }
}

/// Sum of the sizes of samples `a` up to (not including) `b`.
pub open spec fn run_size(st: SampleTable, a: int, b: int) -> int
    decreases b - a,
{
    if b <= a {
        0
    } else {
        run_size(st, a, b - 1) + spec_sample_size(st, b - 1)
    }
}

/// A table of sizes names every sample of the first `n` chunks.
pub open spec fn sizes_cover(st: SampleTable, n: int) -> bool {
    st.sample_size matches SampleSize::Sizes(v) ==> total_samples(st, n) <= v@.len()
}

/// The end of every sample of the first `n` chunks, counted from its chunk's offset,
/// fits in 64 bits.
pub open spec fn offsets_fit(st: SampleTable, n: int) -> bool {
    forall|c: int, k: int|
        #![trigger run_size(st, total_samples(st, c), k)]
        0 <= c < n && total_samples(st, c) <= k < total_samples(st, c + 1) ==> st.chunk_offsets@[c]
            + run_size(st, total_samples(st, c), k) + spec_sample_size(st, k) <= u64::MAX
}

/// The sample table of a track lays out a tile: every chunk holds samples, the count
/// stays within the limit (0 is none), every sample has a size and every offset fits.
pub open spec fn track_tile_ok(st: SampleTable, n: int, limit: u32) -> bool {
    &&& chunks_have_samples(st, n)
    &&& limit != 0 ==> total_samples(st, n) <= limit
    &&& sizes_cover(st, n)
    &&& offsets_fit(st, n)
}

/// The sync sample list names sample `k` (its numbers count from 1).
pub open spec fn in_sync_list(sync: Seq<u32>, k: int) -> bool {
    exists|j: int| 0 <= j < sync.len() && sync[j] == k + 1
}

proof fn lemma_no_samples_stops(st: SampleTable, c: int, n: int)
    requires
        0 <= c < n,
        chunk_sample_count(st.sample_to_chunk@, c) == 0,
    ensures
        !chunks_have_samples(st, n),
{
}

proof fn lemma_total_nonneg(st: SampleTable, n: int)
    ensures
        total_samples(st, n) >= 0,
    decreases n,
{
    if n > 0 {
        lemma_total_nonneg(st, n - 1);
    }
}

proof fn lemma_total_grows(st: SampleTable, a: int, b: int)
    requires
        0 <= a <= b,
    ensures
        chunks_have_samples(st, b) ==> total_samples(st, a) <= total_samples(st, b),
    decreases b - a,
{
    if a < b {
        lemma_total_grows(st, a, b - 1);
        if chunks_have_samples(st, b) {
            assert(chunk_sample_count(st.sample_to_chunk@, b - 1) > 0);
        }
    }
}

} // verus!
