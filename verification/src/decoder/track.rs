//! Image sequence tracks: the sample table and the timing derived from it.

use crate::internal_utils::{check_limits, spec_check_limits, usize_from_u32};
use crate::parser::mp4box::{ItemProperty, MetaBox};
use crate::stream::string_is;
use crate::{AvifError, AvifResult};
use vstd::prelude::*;

verus! {

/// How often an image sequence repeats.
#[derive(Debug, Default, PartialEq, Eq, Structural, Clone, Copy)]
pub enum RepetitionCount {
    #[default]
    Unknown,
    Infinite,
    Finite(i32),
}

/// A track of the movie box.
#[derive(Debug, Default)]
pub struct Track {
    pub id: u32,
    pub aux_for_id: u32,
    pub prem_by_id: u32,
    pub media_timescale: u32,
    pub media_duration: u64,
    pub track_duration: u64,
    pub segment_duration: u64,
    pub is_repeating: bool,
    pub width: u32,
    pub height: u32,
    pub sample_table: Option<SampleTable>,
    pub elst_seen: bool,
    pub meta: Option<MetaBox>,
}

/// A run of samples with the same duration.
#[derive(Debug, Clone, Copy)]
pub struct TimeToSample {
    pub sample_count: u32,
    pub sample_delta: u32,
}

/// From `first_chunk` on, each chunk holds `samples_per_chunk` samples.
#[derive(Debug, Clone, Copy)]
pub struct SampleToChunk {
    pub first_chunk: u32,
    pub samples_per_chunk: u32,
    pub sample_description_index: u32,
}

/// A sample entry: its format and, for `av01`, its properties.
#[derive(Debug, Default)]
pub struct SampleDescription {
    pub format: String,
    pub properties: Vec<ItemProperty>,
}

/// Sample sizes: one size for every sample, or one size per sample.
#[derive(Debug)]
pub enum SampleSize {
    FixedSize(u32),
    Sizes(Vec<u32>),
}

impl Default for SampleSize {
    fn default() -> (r: Self)
        ensures
            r == SampleSize::FixedSize(0),
    {
        Self::FixedSize(0)
    }
}

/// The sample table of a track.
#[derive(Debug, Default)]
pub struct SampleTable {
    pub chunk_offsets: Vec<u64>,
    pub sample_to_chunk: Vec<SampleToChunk>,
    pub sample_size: SampleSize,
    pub sync_samples: Vec<u32>,
    pub time_to_sample: Vec<TimeToSample>,
    pub sample_descriptions: Vec<SampleDescription>,
}


/// Index of the first sample description whose format is `av01`.
pub open spec fn first_av1_description(d: Seq<SampleDescription>) -> Option<int>
    decreases d.len(),
{
    if d.len() == 0 {
        None
    } else if d[0].format@ == "av01"@ {
        Some(0)
    } else {
        match first_av1_description(d.drop_first()) {
            Some(i) => Some(i + 1),
            None => None,
        }
    }
}

/// Samples per chunk for the chunk with the given zero-based index: the
/// value of the last entry whose first chunk (one-based) is at most
/// `chunk_index + 1`, or 0 where there is none.
pub open spec fn chunk_sample_count(s: Seq<SampleToChunk>, chunk_index: int) -> u32
    decreases s.len(),
{
    if s.len() == 0 {
        0
    } else if s.last().first_chunk <= chunk_index + 1 {
        s.last().samples_per_chunk
    } else {
        chunk_sample_count(s.drop_last(), chunk_index)
    }
}

/// Total number of samples covered by the first `n` time-to-sample entries.
pub open spec fn samples_before(t: Seq<TimeToSample>, n: int) -> int
    decreases n,
{
    if n <= 0 {
        0
    } else {
        samples_before(t, n - 1) + t[n - 1].sample_count
    }
}

/// Duration of sample `index`: the delta of the first entry whose run
/// reaches past `index`, else of the last entry, else 1 (no entries).
pub open spec fn delta_from(t: Seq<TimeToSample>, i: int, index: int) -> u32
    decreases t.len() - i,
{
    if i < 0 || i >= t.len() {
        1
    } else if index < samples_before(t, i + 1) || i == t.len() - 1 {
        t[i].sample_delta
    } else {
        delta_from(t, i + 1, index)
    }
}

/// The repetition count that the edit list of a track gives, where the track
/// duration is known and nonzero and the segment duration is nonzero: the
/// number of segments needed to cover the track, less one.
pub open spec fn finite_repetitions(track_duration: u64, segment_duration: u64) -> int {
    let q = track_duration / segment_duration;
    let rem: int = if track_duration % segment_duration != 0 { 1 } else { 0 };
    q + rem - 1
}

proof fn lemma_samples_before_step(t: Seq<TimeToSample>, n: int)
    requires
        0 <= n,
    ensures
        samples_before(t, n + 1) == samples_before(t, n) + t[n].sample_count,
        0 <= samples_before(t, n) <= n * 0xffff_ffff,
    decreases n,
{
    if n > 0 {
        lemma_samples_before_step(t, n - 1);
    }
}

impl SampleTable {
    /// Whether a sample description has the format `av01`.
    pub fn has_av1_sample(&self) -> (r: bool)
        ensures
            r == first_av1_description(self.sample_descriptions@) is Some,
    {
        self.find_av1_description().is_some()
    }

    /// Index of the first sample description of format `av01`.
    fn find_av1_description(&self) -> (r: Option<usize>)
        ensures
            r matches Some(i) ==> first_av1_description(self.sample_descriptions@) == Some(i as int)
                && i < self.sample_descriptions@.len(),
            r is None ==> first_av1_description(self.sample_descriptions@) is None,
    {
        let d = &self.sample_descriptions;
        assert(d@.subrange(0, d@.len() as int) =~= d@);
        let mut i: usize = 0;
        while i < d.len()
            invariant
                d@ == self.sample_descriptions@,
                0 <= i <= d@.len(),
                first_av1_description(d@) == (match first_av1_description(d@.subrange(i as int, d@.len() as int)) {
                    Some(k) => Some(k + i),
                    None => None,
                }),
            decreases d@.len() - i,
        {
            let ghost rest = d@.subrange(i as int, d@.len() as int);
            assert(rest[0] == d@[i as int]);
            if string_is(&d[i].format, "av01") {
                assert(first_av1_description(rest) == Some(0int));
                return Some(i);
            }
            assert(rest.drop_first() =~= d@.subrange(i + 1, d@.len() as int));
            i += 1;
        }
        assert(d@.subrange(i as int, d@.len() as int) =~= Seq::<SampleDescription>::empty());
        None
    }

    /// The number of samples in the chunk with the given zero-based index.
    pub fn get_sample_count_of_chunk(&self, chunk_index: u32) -> (r: u32)
        requires
            chunk_index < u32::MAX,
        ensures
            r == chunk_sample_count(self.sample_to_chunk@, chunk_index as int),
    {
        let s = &self.sample_to_chunk;
        let mut n: usize = s.len();
        assert(s@.subrange(0, n as int) =~= s@);
        while n > 0
            invariant
                s@ == self.sample_to_chunk@,
                n <= s@.len(),
                chunk_index < u32::MAX,
                chunk_sample_count(s@, chunk_index as int) == chunk_sample_count(
                    s@.subrange(0, n as int),
                    chunk_index as int,
                ),
            decreases n,
        {
            let ghost prefix = s@.subrange(0, n as int);
            assert(prefix.last() == s@[n - 1]);
            if s[n - 1].first_chunk <= chunk_index + 1 {
                assert(chunk_sample_count(prefix, chunk_index as int) == s@[n - 1].samples_per_chunk);
                return s[n - 1].samples_per_chunk;
            }
            assert(prefix.drop_last() =~= s@.subrange(0, n - 1));
            n -= 1;
        }
        0
    }

    /// The properties of the first `av01` sample description.
    pub fn get_properties(&self) -> (r: Option<&Vec<ItemProperty>>)
        ensures
            r matches Some(p) ==> (first_av1_description(self.sample_descriptions@) matches Some(i)
                && *p == self.sample_descriptions@[i].properties),
            r is None <==> first_av1_description(self.sample_descriptions@) is None,
    {
        match self.find_av1_description() {
            Some(i) => Some(&self.sample_descriptions[i].properties),
            None => None,
        }
    }

    /// Size of sample `index`.
    pub fn sample_size(&self, index: usize) -> (r: AvifResult<usize>)
        ensures
            match self.sample_size {
                SampleSize::FixedSize(size) => r == Ok::<usize, AvifError>(size as usize),
                SampleSize::Sizes(sizes) => if index < sizes@.len() {
                    r == Ok::<usize, AvifError>(sizes@[index as int] as usize)
                } else {
                    r == Err::<usize, AvifError>(AvifError::BmffParseFailed)
                },
            },
    {
        let size = match &self.sample_size {
            SampleSize::FixedSize(size) => *size,
            SampleSize::Sizes(sizes) => {
                if index >= sizes.len() {
                    return Err(AvifError::BmffParseFailed);
                }
                sizes[index]
            },
        };
        usize_from_u32(size)
    }

    /// Duration of sample `index` in media timescale units.
    pub fn image_delta(&self, index: usize) -> (r: u32)
        ensures
            r == delta_from(self.time_to_sample@, 0, index as int),
    {
        let t = &self.time_to_sample;
        let mut max_index: u128 = 0;
        let mut i: usize = 0;
        while i < t.len()
            invariant
                t@ == self.time_to_sample@,
                0 <= i <= t@.len(),
                max_index == samples_before(t@, i as int),
                delta_from(t@, 0, index as int) == delta_from(t@, i as int, index as int),
            decreases t@.len() - i,
        {
            proof {
                lemma_samples_before_step(t@, i as int);
                assert(i * 0xffff_ffff + 0xffff_ffff <= 0xffff_ffff_ffff_ffff * 0x1_0000_0000)
                    by (nonlinear_arith)
                    requires
                        i <= usize::MAX,
                ;
            }
            max_index = max_index + t[i].sample_count as u128;
            if (index as u128) < max_index || i == t.len() - 1 {
                assert(delta_from(t@, i as int, index as int) == t@[i as int].sample_delta);
                assert(delta_from(self.time_to_sample@, 0, index as int) == t@[i as int].sample_delta);
                return t[i].sample_delta;
            }
            i += 1;
        }
        1
    }
}

impl Track {
    /// An edit list that asks for repetition gives a nonzero segment
    /// duration.
    pub open spec fn edit_list_ok(&self) -> bool {
        self.elst_seen && self.is_repeating ==> self.segment_duration != 0
    }

    /// Whether the track dimensions fit the limits.
    pub fn check_limits(&self, size_limit: u32, dimension_limit: u32) -> (r: bool)
        ensures
            r == spec_check_limits(self.width, self.height, size_limit, dimension_limit),
    {
        check_limits(self.width, self.height, size_limit, dimension_limit)
    }

    /// The track is an AV1 track with samples whose auxiliary reference is
    /// `primary_track_id`.
    pub open spec fn spec_is_aux(&self, primary_track_id: u32) -> bool {
        &&& self.sample_table matches Some(st)
        &&& self.id != 0
        &&& st.chunk_offsets@.len() > 0
        &&& first_av1_description(st.sample_descriptions@) is Some
        &&& self.aux_for_id == primary_track_id
    }

    /// Whether this track is auxiliary to the track `primary_track_id`.
    pub fn is_aux(&self, primary_track_id: u32) -> (r: bool)
        ensures
            r == self.spec_is_aux(primary_track_id),
    {
        match &self.sample_table {
            None => false,
            Some(sample_table) => {
                if self.id == 0 {
                    return false;
                }
                if sample_table.chunk_offsets.len() == 0 || !sample_table.has_av1_sample() {
                    return false;
                }
                self.aux_for_id == primary_track_id
            },
        }
    }

    /// Whether this is a colour track: an AV1 track that is auxiliary to no
    /// other.
    pub fn is_color(&self) -> (r: bool)
        ensures
            r == self.spec_is_aux(0),
    {
        self.is_aux(0)
    }

    /// The properties of the track's first `av01` sample description.
    pub fn get_properties(&self) -> (r: Option<&Vec<ItemProperty>>)
        ensures
            r matches Some(p) ==> (self.sample_table matches Some(st) && first_av1_description(
                st.sample_descriptions@,
            ) matches Some(i) && *p == st.sample_descriptions@[i].properties),
            r is None <==> (self.sample_table is None || first_av1_description(
                self.sample_table->0.sample_descriptions@,
            ) is None),
    {
        match &self.sample_table {
            None => None,
            Some(st) => st.get_properties(),
        }
    }

    /// How often the sequence repeats, from the edit list.
    pub fn repetition_count(&self) -> (r: AvifResult<RepetitionCount>)
        requires
            self.elst_seen && self.is_repeating && self.track_duration != u64::MAX
                ==> self.segment_duration != 0,
        ensures
            !self.elst_seen ==> r == Ok::<RepetitionCount, AvifError>(RepetitionCount::Unknown),
            self.elst_seen && !self.is_repeating ==> r == Ok::<RepetitionCount, AvifError>(
                RepetitionCount::Finite(0),
            ),
            self.elst_seen && self.is_repeating && self.track_duration == u64::MAX ==> r == Ok::<
                RepetitionCount,
                AvifError,
            >(RepetitionCount::Infinite),
            self.elst_seen && self.is_repeating && self.track_duration == 0 ==> r == Err::<
                RepetitionCount,
                AvifError,
            >(AvifError::BmffParseFailed),
            self.elst_seen && self.is_repeating && self.track_duration != u64::MAX
                && self.track_duration != 0 ==> {
                let n = finite_repetitions(self.track_duration, self.segment_duration);
                &&& n <= i32::MAX ==> r == Ok::<RepetitionCount, AvifError>(
                    RepetitionCount::Finite(n as i32),
                )
                &&& n > i32::MAX ==> r == Ok::<RepetitionCount, AvifError>(
                    RepetitionCount::Infinite,
                )
            },
    {
        if !self.elst_seen {
            return Ok(RepetitionCount::Unknown);
        }
        if self.is_repeating {
            if self.track_duration == u64::MAX {
                return Ok(RepetitionCount::Infinite);
            }
            if self.track_duration == 0 {
                return Err(AvifError::BmffParseFailed);
            }
            let remainder: u64 = if self.track_duration % self.segment_duration != 0 {
                1
            } else {
                0
            };
            let q = self.track_duration / self.segment_duration;
            proof {
                assert(q >= 1 || remainder == 1) by (nonlinear_arith)
                    requires
                        q == self.track_duration / self.segment_duration,
                        remainder == (if self.track_duration % self.segment_duration != 0 {
                            1int
                        } else {
                            0int
                        }),
                        self.track_duration > 0,
                        self.segment_duration > 0,
                ;
                assert(q <= self.track_duration) by (nonlinear_arith)
                    requires
                        q == self.track_duration / self.segment_duration,
                        self.segment_duration > 0,
                ;
            }
            let repetition_count: u64 = q + remainder - 1;
            if repetition_count <= i32::MAX as u64 {
                return Ok(RepetitionCount::Finite(repetition_count as i32));
            }
            return Ok(RepetitionCount::Infinite);
        }
        Ok(RepetitionCount::Finite(0))
    }
}

/// The presentation time of sample `n`: the durations of the samples
/// before it, added up.
pub open spec fn pts_of(time_to_sample: Seq<TimeToSample>, n: int) -> int
    decreases n,
{
    if n <= 0 {
        0
    } else {
        pts_of(time_to_sample, n - 1) + delta_from(time_to_sample, 0, n - 1)
    }
}

impl Track {
    /// The timing of image `image_index` in media timescale units: the
    /// timescale, the presentation time and the duration. `NoContent`
    /// without a sample table.
    pub fn image_timing_in_timescales(&self, image_index: u32) -> (r: AvifResult<(u64, u64, u64)>)
        ensures
            self.sample_table is None ==> r == Err::<(u64, u64, u64), AvifError>(AvifError::NoContent),
            self.sample_table matches Some(t) ==> r == Ok::<(u64, u64, u64), AvifError>(
                (
                    self.media_timescale as u64,
                    pts_of(t.time_to_sample@, image_index as int) as u64,
                    delta_from(t.time_to_sample@, 0, image_index as int) as u64,
                ),
            ) && pts_of(t.time_to_sample@, image_index as int) <= u64::MAX,
    {
        let sample_table = match &self.sample_table {
            Some(t) => t,
            None => {
                return Err(AvifError::NoContent);
            },
        };
        let mut pts: u64 = 0;
        let mut i: u32 = 0;
        while i < image_index
            invariant
                0 <= i <= image_index,
                pts == pts_of(sample_table.time_to_sample@, i as int),
                pts <= i * 0xffff_ffff,
            decreases image_index - i,
        {
            let delta = sample_table.image_delta(i as usize);
            assert(i * 0xffff_ffff + 0xffff_ffff <= 0xffff_ffff * 0x1_0000_0000) by (nonlinear_arith)
                requires
                    i < 0xffff_ffff,
            ;
            pts = pts + delta as u64;
            i = i + 1;
        }
        let duration = sample_table.image_delta(image_index as usize);
        Ok((self.media_timescale as u64, pts, duration as u64))
    }
}

/// The track of an image sequence, under its earlier name.
pub type AvifTrack = Track;

} // verus!
