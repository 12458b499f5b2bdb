//! The Exif payload of an AVIF file: where its TIFF header starts, and the
//! orientation tag of its first image file directory.

use crate::internal_utils::{u32_from_usize, usize_from_u32};
use crate::layout::{be_u16, be_u32, le_u16, le_u32};
use crate::stream::IStream;
use crate::{AvifError, AvifResult};
use vstd::prelude::*;

verus! {

broadcast use crate::layout::group_number_bounds;

/// A TIFF header starts at `p`: `MM\0*` (big endian) or `II*\0` (little
/// endian).
pub open spec fn tiff_header_at(d: Seq<u8>, p: int) -> bool {
    be_u32(d, p) == 0x4D4D002A || be_u32(d, p) == 0x49492A00
}

/// `k` is the first position of a TIFF header among the first `limit`
/// positions of `d`.
pub open spec fn first_tiff_header(d: Seq<u8>, k: int, limit: int) -> bool {
    &&& 0 <= k < limit
    &&& k + 4 <= d.len()
    &&& tiff_header_at(d, k)
    &&& forall|j: int| 0 <= j < k ==> !#[trigger] tiff_header_at(d, j)
}

/// Number of positions that the search for the TIFF header looks at.
pub open spec fn search_limit(len: int) -> int {
    if len > u32::MAX {
        u32::MAX as int
    } else {
        len
    }
}

/// Finds the first TIFF header in what is left of the stream and leaves the
/// stream there; returns its distance from where the stream was.
pub fn parse_exif_tiff_header_offset(stream: &mut IStream) -> (r: AvifResult<u32>)
    requires
        old(stream).wf(),
    ensures
        final(stream).wf(),
        final(stream).data@ == old(stream).data@,
        ({
            let u = old(stream).data@.subrange(old(stream).offset as int, old(stream).data@.len() as int);
            let limit = search_limit(u.len() as int);
            &&& r matches Ok(k) ==> first_tiff_header(u, k as int, limit) && final(stream).offset
                == old(stream).offset + k
            &&& r is Err ==> r == Err::<u32, AvifError>(AvifError::InvalidExifPayload) && forall|
                k: int,
            | !#[trigger] first_tiff_header(u, k, limit)
        }),
{
    let ghost d = stream.data@;
    let ghost o = stream.offset as int;
    let ghost u = d.subrange(o, d.len() as int);
    let left = stream.bytes_left();
    let mut size: u32 = if left as u64 > u32::MAX as u64 {
        u32::MAX
    } else {
        left as u32
    };
    let ghost limit = search_limit(u.len() as int);
    let mut expected_offset: u32 = 0;
    while size > 0
        invariant
            stream.wf(),
            stream.data@ == d,
            d == old(stream).data@,
            o == old(stream).offset,
            u == d.subrange(o, d.len() as int),
            limit == search_limit(u.len() as int),
            size + expected_offset == limit,
            stream.offset == o + expected_offset,
            forall|j: int| 0 <= j < expected_offset ==> !#[trigger] tiff_header_at(u, j),
        decreases size,
    {
        let ghost k = expected_offset as int;
        let value = match stream.read_u32() {
            Ok(v) => {
                assert(be_u32(u, k) == be_u32(d, o + k));
                v
            },
            Err(_) => {
                assert forall|k2: int| !#[trigger] first_tiff_header(u, k2, limit) by {
                    if first_tiff_header(u, k2, limit) && k2 >= k {
                        assert(k2 + 4 <= u.len());
                    }
                }
                return Err(AvifError::InvalidExifPayload);
            },
        };
        if value == 0x4D4D002A || value == 0x49492A00 {
            stream.rewind(4)?;
            return Ok(expected_offset);
        }
        stream.rewind(3)?;
        size -= 1;
        expected_offset += 1;
    }
    assert forall|k2: int| !#[trigger] first_tiff_header(u, k2, limit) by {
        if first_tiff_header(u, k2, limit) {
            assert(!tiff_header_at(u, k2));
        }
    }
    Err(AvifError::InvalidExifPayload)
}

/// Checks an Exif item payload: a 32-bit offset to the TIFF header, which
/// must be where the first TIFF header of the rest of the payload is. The
/// stream is left just after the offset field.
pub fn parse(stream: &mut IStream) -> (r: AvifResult<()>)
    requires
        old(stream).wf(),
    ensures
        final(stream).wf(),
        final(stream).data@ == old(stream).data@,
        ({
            let d = old(stream).data@;
            let o = old(stream).offset as int;
            let u = d.subrange(o + 4, d.len() as int);
            &&& r is Ok <==> old(stream).left() >= 4 && first_tiff_header(
                u,
                be_u32(d, o),
                search_limit(u.len() as int),
            )
            &&& r is Ok ==> final(stream).offset == o + 4
            &&& r is Err ==> r == Err::<(), AvifError>(AvifError::InvalidExifPayload)
        }),
{
    let offset = match stream.read_u32() {
        Ok(v) => v,
        Err(_) => {
            return Err(AvifError::InvalidExifPayload);
        },
    };
    let ghost d = stream.data@;
    let ghost o = stream.offset as int;
    let bytes_left = stream.bytes_left();
    let mut sub_stream = stream.sub_stream(bytes_left)?;
    assert(sub_stream.data@.subrange(0, sub_stream.data@.len() as int) =~= d.subrange(
        o,
        d.len() as int,
    ));
    let expected_offset = parse_exif_tiff_header_offset(&mut sub_stream)?;
    if offset != expected_offset {
        proof {
            let u = d.subrange(o, d.len() as int);
            if first_tiff_header(u, offset as int, search_limit(u.len() as int)) {
                if offset < expected_offset {
                    assert(!tiff_header_at(u, offset as int));
                } else {
                    assert(!tiff_header_at(u, expected_offset as int));
                }
            }
        }
        return Err(AvifError::InvalidExifPayload);
    }
    stream.rewind(bytes_left)?;
    Ok(())
}

/// A 16-bit value of the TIFF data at `p`, in its byte order.
pub open spec fn tiff_u16(t: Seq<u8>, p: int, little_endian: bool) -> int {
    if little_endian {
        le_u16(t, p)
    } else {
        be_u16(t, p)
    }
}

/// A 32-bit value of the TIFF data at `p`, in its byte order.
pub open spec fn tiff_u32(t: Seq<u8>, p: int, little_endian: bool) -> int {
    if little_endian {
        le_u32(t, p)
    } else {
        be_u32(t, p)
    }
}

/// The directory field at `f` is an orientation tag (0x0112) of one SHORT
/// whose value is 1 to 8.
pub open spec fn orientation_field(t: Seq<u8>, f: int, little_endian: bool) -> bool {
    &&& tiff_u16(t, f, little_endian) == 0x0112
    &&& tiff_u16(t, f + 2, little_endian) == 3
    &&& tiff_u32(t, f + 4, little_endian) == 1
    &&& 1 <= tiff_u16(t, f + 8, little_endian) <= 8
}

/// The first TIFF header of `d`, where there is one among the searched
/// positions.
pub open spec fn tiff_start(d: Seq<u8>) -> Option<int> {
    if exists|k: int| first_tiff_header(d, k, search_limit(d.len() as int)) {
        Some(choose|k: int| first_tiff_header(d, k, search_limit(d.len() as int)))
    } else {
        None
    }
}

/// Scans `n` directory fields of twelve bytes from `f`: `None` when a field
/// is cut short before its value, else the position just past the first
/// orientation field (just past its value where the field is cut short
/// after it), or no position.
pub open spec fn scan_fields(t: Seq<u8>, le: bool, f: int, n: nat) -> Option<Option<int>>
    decreases n,
{
    if n == 0 {
        Some(None)
    } else if f + 10 > t.len() {
        None
    } else if orientation_field(t, f, le) {
        Some(Some(if f + 12 <= t.len() { f + 12 } else { f + 10 }))
    } else {
        scan_fields(t, le, f + 12, (n - 1) as nat)
    }
}

/// What `get_orientation_offset` gives for the Exif data `d`: `Err(true)`
/// for an invalid payload (no TIFF header), `Err(false)` for a directory
/// that is cut short, else the position of the byte that holds the
/// orientation value, if any.
pub open spec fn orientation_offset(d: Seq<u8>) -> Result<Option<int>, bool> {
    match tiff_start(d) {
        None => Err(true),
        Some(k) => {
            let t = d.subrange(k, d.len() as int);
            let le = d[k] == 0x49;
            let ifd = tiff_u32(t, 4, le);
            if t.len() < 8 || ifd + 2 > t.len() {
                Err(false)
            } else {
                match scan_fields(t, le, ifd + 2, tiff_u16(t, ifd, le) as nat) {
                    None => Err(false),
                    Some(None) => Ok(None),
                    Some(Some(q)) => Ok(Some(k + q - if le { 4int } else { 3int })),
                }
            }
        },
    }
}

proof fn lemma_first_tiff_header_unique(d: Seq<u8>, a: int, b: int, limit: int)
    requires
        first_tiff_header(d, a, limit),
        first_tiff_header(d, b, limit),
    ensures
        a == b,
{
    if a < b {
        assert(!tiff_header_at(d, a));
    } else if b < a {
        assert(!tiff_header_at(d, b));
    }
}

/// Where the orientation value of the first image file directory lies in
/// the Exif data: the position of the byte that holds the value, or `None`
/// when the directory has no orientation field.
pub fn get_orientation_offset(exif: &[u8]) -> (r: AvifResult<Option<usize>>)
    ensures
        match orientation_offset(exif@) {
            Err(true) => r == Err::<Option<usize>, AvifError>(AvifError::InvalidExifPayload),
            Err(false) => r == Err::<Option<usize>, AvifError>(AvifError::BmffParseFailed),
            Ok(None) => r == Ok::<Option<usize>, AvifError>(None),
            Ok(Some(p)) => r == Ok::<Option<usize>, AvifError>(Some(p as usize)),
        },
        r matches Ok(Some(p)) ==> p < exif@.len(),
        orientation_offset(exif@) matches Ok(Some(p)) ==> 0 <= p < exif@.len(),
{
    let exif_len = exif.len();
    let ghost d = exif@;
    let ghost limit = search_limit(d.len() as int);
    let mut temp_stream = IStream::create(exif);
    assert(d.subrange(0, d.len() as int) =~= d);
    let tiff_offset_u32 = parse_exif_tiff_header_offset(&mut temp_stream)?;
    let tiff_offset = usize_from_u32(tiff_offset_u32)?;
    let ghost k = tiff_offset as int;
    proof {
        lemma_first_tiff_header_unique(d, k, tiff_start(d).unwrap(), limit);
    }
    let tiff_data = vstd::slice::slice_subrange(exif, tiff_offset, exif.len());
    let ghost t = tiff_data@;
    assert(t =~= d.subrange(k, d.len() as int));
    assert(t[0] == d[k]);
    let little_endian = tiff_data[0] == 0x49;
    let mut stream = IStream::create(tiff_data);
    let _ = stream.skip(4);
    let offset_to_0th_ifd = if little_endian {
        stream.read_u32_le()?
    } else {
        stream.read_u32()?
    };
    let ifd = usize_from_u32(offset_to_0th_ifd)?;
    if ifd > tiff_data.len() {
        return Err(AvifError::BmffParseFailed);
    }
    stream.offset = ifd;
    let field_count = if little_endian {
        stream.read_u16_le()?
    } else {
        stream.read_u16()?
    };
    let ghost n = field_count as nat;
    let mut i: u16 = 0;
    while i < field_count
        invariant
            stream.wf(),
            stream.data@ == t,
            t == d.subrange(k, d.len() as int),
            d == exif@,
            exif_len == d.len(),
            tiff_offset == k,
            k + t.len() == d.len(),
            tiff_start(d) == Some(k),
            t.len() >= 8,
            little_endian == (d[k] == 0x49),
            ifd == tiff_u32(t, 4, little_endian),
            n == tiff_u16(t, ifd as int, little_endian),
            field_count == n,
            i <= field_count,
            stream.offset == ifd + 2 + 12 * i,
            scan_fields(t, little_endian, ifd + 2, n) == scan_fields(
                t,
                little_endian,
                ifd + 2 + 12 * i,
                (n - i) as nat,
            ),
        decreases field_count - i,
    {
        let ghost f = stream.offset as int;
        let (tag, field_type, count, value_offset) = if little_endian {
            (
                stream.read_u16_le()?,
                stream.read_u16_le()?,
                stream.read_u32_le()?,
                stream.read_u16_le()?,
            )
        } else {
            (stream.read_u16()?, stream.read_u16()?, stream.read_u32()?, stream.read_u16()?)
        };
        let skipped = stream.skip(2).is_ok();
        if tag == 0x0112 && field_type == 3 && count == 1 && 1 <= value_offset && value_offset <= 8 {
            assert(orientation_field(t, f, little_endian));
            let back: usize = if little_endian {
                4
            } else {
                3
            };
            return Ok(Some(tiff_offset + stream.offset - back));
        }
        assert(!orientation_field(t, f, little_endian));
        if !skipped {
            // The directory ends inside this field: a further field cannot
            // be read.
            if i + 1 < field_count {
                assert(scan_fields(t, little_endian, f + 12, (n - i - 1) as nat) is None);
                return Err(AvifError::BmffParseFailed);
            }
            return Ok(None);
        }
        i += 1;
    }
    Ok(None)
}

/// The rotation (`irot` angle) and mirroring (`imir` axis) of an Exif
/// orientation value.
pub open spec fn spec_orientation_transform(v: u8) -> (Option<u8>, Option<u8>) {
    if v == 2 {
        (None, Some(1u8))
    } else if v == 3 {
        (Some(2u8), None)
    } else if v == 4 {
        (None, Some(0u8))
    } else if v == 5 {
        (Some(1u8), Some(0u8))
    } else if v == 6 {
        (Some(3u8), None)
    } else if v == 7 {
        (Some(3u8), Some(0u8))
    } else if v == 8 {
        (Some(1u8), None)
    } else {
        (None, None)
    }
}

fn orientation_transform(v: u8) -> (r: (Option<u8>, Option<u8>))
    ensures
        r == spec_orientation_transform(v),
{
    match v {
        2 => (None, Some(1)),
        3 => (Some(2), None),
        4 => (None, Some(0)),
        5 => (Some(1), Some(0)),
        6 => (Some(3), None),
        7 => (Some(3), Some(0)),
        8 => (Some(1), None),
        _ => (None, None),
    }
}

/// The point `(x, y)` of the unit square (x to the right, y down) turned a
/// quarter turn anticlockwise `n` times, as an `irot` angle of `n` turns the
/// image.
pub open spec fn turned(n: nat, x: int, y: int) -> (int, int)
    decreases n,
{
    if n == 0 {
        (x, y)
    } else {
        let (a, b) = turned((n - 1) as nat, x, y);
        (b, 1 - a)
    }
}

/// The point mirrored as an `imir` axis mirrors the image: axis 0 top to
/// bottom, axis 1 left to right.
pub open spec fn mirrored(axis: u8, x: int, y: int) -> (int, int) {
    if axis == 0 {
        (x, 1 - y)
    } else {
        (1 - x, y)
    }
}

/// Where a point of the stored image is shown after the rotation and then
/// the mirroring.
pub open spec fn displayed(t: (Option<u8>, Option<u8>), x: int, y: int) -> (int, int) {
    let (a, b) = match t.0 {
        Some(n) => turned(n as nat, x, y),
        None => (x, y),
    };
    match t.1 {
        Some(m) => mirrored(m, a, b),
        None => (a, b),
    }
}

/// Where the Exif orientation `v` (1 to 8) shows the first pixel of the
/// stored image and the end of its first row, as the Exif standard describes
/// each value by the visual side of the 0th row and of the 0th column:
/// 1 top/left, 2 top/right, 3 bottom/right, 4 bottom/left, 5 left/top,
/// 6 right/top, 7 right/bottom, 8 left/bottom.
pub open spec fn exif_first_row(v: u8) -> ((int, int), (int, int)) {
    if v == 1 {
        ((0, 0), (1, 0))
    } else if v == 2 {
        ((1, 0), (0, 0))
    } else if v == 3 {
        ((1, 1), (0, 1))
    } else if v == 4 {
        ((0, 1), (1, 1))
    } else if v == 5 {
        ((0, 0), (0, 1))
    } else if v == 6 {
        ((1, 0), (1, 1))
    } else if v == 7 {
        ((1, 1), (1, 0))
    } else {
        ((0, 1), (0, 0))
    }
}

/// Law: the rotation and mirroring that `get_orientation` gives for an Exif
/// orientation value show the stored image as that value describes it: the
/// first pixel and the end of the first row land where the Exif standard puts
/// them (which fixes the whole transform). Angles are quarter turns 0 to 3
/// and axes 0 or 1; values outside 1 to 8 ask for nothing.
pub proof fn law_orientation_transform(v: u8)
    ensures
        1 <= v <= 8 ==> displayed(spec_orientation_transform(v), 0, 0) == exif_first_row(v).0
            && displayed(spec_orientation_transform(v), 1, 0) == exif_first_row(v).1,
        !(1 <= v <= 8) ==> spec_orientation_transform(v) == (None::<u8>, None::<u8>),
        spec_orientation_transform(v).0 matches Some(a) ==> 1 <= a <= 3,
        spec_orientation_transform(v).1 matches Some(m) ==> m <= 1,
{
    reveal_with_fuel(turned, 4);
}

/// The rotation (`irot` angle) and mirroring (`imir` axis) that the Exif
/// orientation asks for; none where there is no orientation or the Exif data
/// cannot be read.
pub fn get_orientation(exif: &[u8]) -> (r: (Option<u8>, Option<u8>))
    ensures
        r == match orientation_offset(exif@) {
            Ok(Some(p)) => spec_orientation_transform(exif@[p]),
            _ => (None, None),
        },
{
    match get_orientation_offset(exif) {
        Ok(Some(offset)) => orientation_transform(exif[offset]),
        _ => (None, None),
    }
}

/// Writes `orientation` into the orientation value of the Exif data. Without
/// an orientation field only the default orientation 1 can be set, which
/// changes nothing.
pub fn set_orientation(exif: &mut [u8], orientation: u8) -> (r: AvifResult<()>)
    ensures
        match orientation_offset(old(exif)@) {
            Err(true) => r == Err::<(), AvifError>(AvifError::InvalidExifPayload) && final(exif)@
                == old(exif)@,
            Err(false) => r == Err::<(), AvifError>(AvifError::BmffParseFailed) && final(exif)@
                == old(exif)@,
            Ok(None) => final(exif)@ == old(exif)@ && if orientation == 1 {
                r is Ok
            } else {
                r == Err::<(), AvifError>(AvifError::NotImplemented)
            },
            Ok(Some(p)) => r is Ok && final(exif)@ == old(exif)@.update(p, orientation),
        },
{
    match get_orientation_offset(exif) {
        Ok(Some(offset)) => {
            exif[offset] = orientation;
            Ok(())
        },
        Ok(None) => {
            if orientation == 1 {
                Ok(())
            } else {
                Err(AvifError::NotImplemented)
            }
        },
        Err(e) => Err(e),
    }
}

/// Where the first orientation field among `n` directory fields from `f`
/// starts, if the scan reaches one.
pub open spec fn orientation_field_at(t: Seq<u8>, le: bool, f: int, n: nat) -> Option<int>
    decreases n,
{
    if n == 0 || f + 10 > t.len() {
        None
    } else if orientation_field(t, f, le) {
        Some(f)
    } else {
        orientation_field_at(t, le, f + 12, (n - 1) as nat)
    }
}

/// The Exif data has an orientation field, and the field is whole (its
/// twelve bytes lie in the data).
pub open spec fn whole_orientation_field(d: Seq<u8>) -> bool {
    match tiff_start(d) {
        None => false,
        Some(k) => {
            let t = d.subrange(k, d.len() as int);
            let le = d[k] == 0x49;
            let ifd = tiff_u32(t, 4, le);
            &&& t.len() >= 8 && ifd + 2 <= t.len()
            &&& orientation_field_at(t, le, ifd + 2, tiff_u16(t, ifd, le) as nat) matches Some(g) && g + 12 <= t.len()
        },
    }
}

proof fn lemma_scan_finds_field(t: Seq<u8>, le: bool, f: int, n: nat)
    requires
        orientation_field_at(t, le, f, n) matches Some(g) && g + 12 <= t.len(),
    ensures
        orientation_field_at(t, le, f, n) matches Some(g) && g >= f && (g - f) % 12 == 0
            && scan_fields(t, le, f, n) == Some(Some(g + 12)) && orientation_field(t, g, le),
    decreases n,
{
    if !(n == 0 || f + 10 > t.len()) && !orientation_field(t, f, le) {
        lemma_scan_finds_field(t, le, f + 12, (n - 1) as nat);
    }
}

/// Writing `v` over a value byte of the orientation field (leaving the value
/// from 1 to 8) changes nothing the scan looks at before it.
proof fn lemma_scan_after_write(t: Seq<u8>, u: Seq<u8>, le: bool, f: int, n: nat, g: int, pos: int)
    requires
        orientation_field_at(t, le, f, n) == Some(g),
        g + 12 <= t.len(),
        f >= 0,
        pos == g + 8 || pos == g + 9,
        u.len() == t.len(),
        forall|i: int| 0 <= i < t.len() && i != pos ==> u[i] == t[i],
        orientation_field(u, g, le),
    ensures
        scan_fields(u, le, f, n) == scan_fields(t, le, f, n),
    decreases n,
{
    if !(n == 0 || f + 10 > t.len()) && !orientation_field(t, f, le) {
        lemma_scan_finds_field(t, le, f + 12, (n - 1) as nat);
        assert(g >= f + 12);
        assert(forall|i: int| f <= i < f + 10 ==> u[i] == t[i]);
        assert(orientation_field(u, f, le) == orientation_field(t, f, le));
        lemma_scan_after_write(t, u, le, f + 12, (n - 1) as nat, g, pos);
    }
}

/// Writing an orientation from 1 to 8 into Exif data with a whole
/// orientation field and reading it back gives it: the orientation value is
/// still found at the same place and holds the new value, so
/// `get_orientation` gives its rotation and mirroring.
pub proof fn lemma_orientation_read_after_write(d: Seq<u8>, orientation: u8)
    requires
        whole_orientation_field(d),
        1 <= orientation <= 8,
    ensures
        orientation_offset(d) matches Ok(Some(p)) && 0 <= p < d.len() && orientation_offset(
            d.update(p, orientation),
        ) == Ok::<Option<int>, bool>(Some(p)) && spec_orientation_transform(d.update(p, orientation)[p])
            == spec_orientation_transform(orientation),
{
    let k = tiff_start(d).unwrap();
    let limit = search_limit(d.len() as int);
    assert(first_tiff_header(d, k, limit));
    let t = d.subrange(k, d.len() as int);
    let le = d[k] == 0x49;
    let ifd = tiff_u32(t, 4, le);
    let n = tiff_u16(t, ifd, le) as nat;
    let g = orientation_field_at(t, le, ifd + 2, n).unwrap();
    lemma_scan_finds_field(t, le, ifd + 2, n);
    let q = g + 12;
    let p = k + q - if le { 4int } else { 3int };
    assert(orientation_offset(d) == Ok::<Option<int>, bool>(Some(p)));
    let d2 = d.update(p, orientation);
    // The value's high byte is zero, so the new value is the orientation.
    let pos = p - k;
    assert(pos == g + 8 || pos == g + 9);
    assert(g >= 2);
    let t2 = d2.subrange(k, d2.len() as int);
    assert(t2 =~= t.update(pos, orientation));
    if le {
        assert(t[g + 9] == 0);
        assert(tiff_u16(t2, g + 8, le) == orientation);
    } else {
        assert(t[g + 8] == 0);
        assert(tiff_u16(t2, g + 8, le) == orientation);
    }
    assert(orientation_field(t2, g, le));
    // The TIFF header is where it was.
    assert(first_tiff_header(d2, k, limit)) by {
        assert forall|j: int| 0 <= j < k implies !#[trigger] tiff_header_at(d2, j) by {
            assert(!tiff_header_at(d, j));
            assert(d2[j] == d[j] && d2[j + 1] == d[j + 1] && d2[j + 2] == d[j + 2] && d2[j + 3] == d[j + 3]);
        }
        assert(d2[k] == d[k] && d2[k + 1] == d[k + 1] && d2[k + 2] == d[k + 2] && d2[k + 3] == d[k + 3]);
    }
    let k2 = tiff_start(d2).unwrap();
    assert(first_tiff_header(d2, k2, limit));
    lemma_first_tiff_header_unique(d2, k, k2, limit);
    assert(d2[k] == d[k]);
    assert(tiff_u32(t2, 4, le) == ifd);
    assert(tiff_u16(t2, ifd, le) == tiff_u16(t, ifd, le));
    lemma_scan_after_write(t, t2, le, ifd + 2, n, g, pos);
}

} // verus!
