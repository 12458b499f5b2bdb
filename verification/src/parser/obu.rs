//! The AV1 sequence header, read from a run of OBUs.

use crate::internal_utils::usize_from_u32;
use crate::parser::mp4box::CodecConfiguration;
use crate::stream::{
    bit_at, bits_value, leb128_end, leb128_value, lemma_bit_at_le_one, zero_run, IBitStream, IStream,
};
use crate::{AvifError, AvifResult, ChromaSamplePosition, PixelFormat};
use vstd::prelude::*;

verus! {

/// The parts of an AV1 sequence header that the decoder uses.
#[derive(Debug)]
pub struct Av1SequenceHeader {
    pub reduced_still_picture_header: bool,
    pub max_width: u32,
    pub max_height: u32,
    pub bit_depth: u8,
    pub yuv_format: PixelFormat,
    pub color_primaries: u16,
    pub transfer_characteristics: u16,
    pub matrix_coefficients: u16,
    pub full_range: bool,
    pub config: CodecConfiguration,
}

/// An OBU header: the OBU type and the size of its payload.
#[derive(Debug)]
struct ObuHeader {
    obu_type: u8,
    size: u32,
}

/// The pixel format agrees with the chroma subsampling: monochrome is
/// subsampled both ways, 4:2:0 both ways, 4:2:2 horizontally only and 4:4:4
/// not at all.
pub open spec fn format_matches_subsampling(format: PixelFormat, c: CodecConfiguration) -> bool {
    if c.monochrome {
        format == PixelFormat::Monochrome && c.chroma_subsampling_x == 1 && c.chroma_subsampling_y
            == 1
    } else {
        &&& format != PixelFormat::Monochrome
        &&& format == PixelFormat::Yuv420 <==> (c.chroma_subsampling_x == 1
            && c.chroma_subsampling_y == 1)
        &&& format == PixelFormat::Yuv422 <==> (c.chroma_subsampling_x == 1
            && c.chroma_subsampling_y == 0)
        &&& format == PixelFormat::Yuv444 <==> (c.chroma_subsampling_x == 0
            && c.chroma_subsampling_y == 0)
    }
}

/// Where the tool flags of a sequence header that start at bit `p` end:
/// three flags, and for a full header four more, the order hint flag (with
/// two flags after it), the screen content tools choice (a flag, or a
/// flag and a value bit), the integer motion vector choice where screen
/// content tools may be on (a flag, then a value bit where it is off), and
/// three bits of order hint length where order hints are on. `None` where a
/// flag lies past the end of the data.
pub open spec fn enabled_features_end(d: Seq<u8>, p: int, reduced: bool) -> Option<int> {
    let len = 8 * d.len();
    if reduced {
        Some(p + 3)
    } else {
        let q = p + 7;
        if q >= len {
            None
        } else {
            let order_hint = bit_at(d, q) == 1;
            let q = if order_hint { q + 3 } else { q + 1 };
            if q >= len {
                None
            } else {
                let choose = bit_at(d, q) == 1;
                let q = q + 1;
                if !choose && q >= len {
                    None
                } else {
                    let tools = if choose { 2 } else { bit_at(d, q) as int };
                    let q = if choose { q } else { q + 1 };
                    if tools > 0 && q >= len {
                        None
                    } else {
                        let q = if tools > 0 {
                            if bit_at(d, q) == 1 { q + 1 } else { q + 2 }
                        } else {
                            q
                        };
                        Some(if order_hint { q + 3 } else { q })
                    }
                }
            }
        }
    }
}

/// A variable length code at bit `q` reads: a run of fewer than 32 zero bits
/// and a one bit, all inside `d`.
pub open spec fn uvlc_ok(d: Seq<u8>, q: int) -> bool {
    exists|k: int|
        0 <= k < 32 && zero_run(d, q, k) && q + k < 8 * d.len() && #[trigger] bit_at(d, q + k) == 1
}

/// Where the variable length code at bit `q` ends: after its zero run, its
/// one bit and as many bits as the run is long.
pub open spec fn uvlc_end(d: Seq<u8>, q: int) -> int {
    let k = choose|k: int|
        0 <= k < 32 && zero_run(d, q, k) && q + k < 8 * d.len() && #[trigger] bit_at(d, q + k) == 1;
    q + 2 * k + 1
}

/// The timing info that starts at bit `q` (after its presence flag): two
/// 32-bit fields, the equal picture interval flag and, where it is set, a
/// variable length code, then the decoder model info flag and, where it is
/// set, the buffer delay length (5 bits, plus one) and 42 more bits. Gives
/// the flag, the buffer delay length and the end.
pub open spec fn timing_info_step(d: Seq<u8>, q: int) -> Option<(bool, int, int)> {
    let len = 8 * d.len();
    let q = q + 64;
    if q + 1 > len {
        None
    } else {
        let equal = bit_at(d, q) == 1;
        let q = q + 1;
        if equal && !uvlc_ok(d, q) {
            None
        } else {
            let q = if equal {
                uvlc_end(d, q)
            } else {
                q
            };
            if q + 1 > len {
                None
            } else {
                let model = bit_at(d, q) == 1;
                let q = q + 1;
                if model && q + 5 > len {
                    None
                } else {
                    let delay: int = if model {
                        bits_value(d, q, 5) as int + 1
                    } else {
                        0
                    };
                    Some((model, delay, if model { q + 47 } else { q }))
                }
            }
        }
    }
}

/// Where `n` operating points that start at bit `q` end: each has 12 bits of
/// idc, a 5-bit level, a tier bit above level 7, with decoder model info a
/// flag and, where it is set, two fields of `delay` bits and a bit, and with
/// initial display delays a flag and, where it is set, 4 bits.
pub open spec fn op_points_end(d: Seq<u8>, q: int, n: nat, model: bool, delay: int, display: bool) -> Option<int>
    decreases n,
{
    let len = 8 * d.len();
    if n == 0 {
        Some(q)
    } else {
        let q = q + 12;
        if q + 5 > len {
            None
        } else {
            let level = bits_value(d, q, 5);
            let q = q + 5;
            if level > 7 && q + 1 > len {
                None
            } else {
                let q = if level > 7 {
                    q + 1
                } else {
                    q
                };
                if model && q + 1 > len {
                    None
                } else {
                    let q = if model && bit_at(d, q) == 1 {
                        q + 2 + 2 * delay
                    } else if model {
                        q + 1
                    } else {
                        q
                    };
                    if display && q + 1 > len {
                        None
                    } else {
                        let q = if display && bit_at(d, q) == 1 {
                            q + 5
                        } else if display {
                            q + 1
                        } else {
                            q
                        };
                        op_points_end(d, q, (n - 1) as nat, model, delay, display)
                    }
                }
            }
        }
    }
}

/// What reading the profile part of a sequence header at bit `p` gives, and
/// where it ends: the profile (at most 2), the still picture and reduced
/// header flags (a reduced header must be a still picture), then the level
/// of the only operating point for a reduced header; else the timing info,
/// the initial display delay flag, the operating point count and the
/// operating points, with the level and tier of the first.
pub open spec fn profile_step(s: Av1SequenceHeader, d: Seq<u8>, p: int) -> Option<(Av1SequenceHeader, int)> {
    let len = 8 * d.len();
    if p + 3 > len {
        None
    } else {
        let profile = bits_value(d, p, 3);
        if profile > 2 || p + 5 > len {
            None
        } else {
            let still = bit_at(d, p + 3) == 1;
            let reduced = bit_at(d, p + 4) == 1;
            if reduced && !still {
                None
            } else if reduced {
                if p + 10 > len {
                    None
                } else {
                    Some(
                        (
                            Av1SequenceHeader {
                                reduced_still_picture_header: true,
                                config: CodecConfiguration {
                                    seq_profile: profile as u8,
                                    seq_level_idx0: bits_value(d, p + 5, 5) as u8,
                                    ..s.config
                                },
                                ..s
                            },
                            p + 10,
                        ),
                    )
                }
            } else if p + 6 > len {
                None
            } else {
                let timing = if bit_at(d, p + 5) == 1 {
                    timing_info_step(d, p + 6)
                } else {
                    Some((false, 0int, p + 6))
                };
                match timing {
                    None => None,
                    Some((model, delay, q)) => {
                        if q + 6 > len {
                            None
                        } else {
                            let display = bit_at(d, q) == 1;
                            let count = (bits_value(d, q + 1, 5) + 1) as nat;
                            let q = q + 6;
                            match op_points_end(d, q, count, model, delay, display) {
                                None => None,
                                Some(e) => {
                                    let level = bits_value(d, q + 12, 5);
                                    Some(
                                        (
                                            Av1SequenceHeader {
                                                reduced_still_picture_header: false,
                                                config: CodecConfiguration {
                                                    seq_profile: profile as u8,
                                                    seq_level_idx0: level as u8,
                                                    seq_tier0: if level > 7 {
                                                        bits_value(d, q + 17, 1) as u8
                                                    } else {
                                                        s.config.seq_tier0
                                                    },
                                                    ..s.config
                                                },
                                                ..s
                                            },
                                            e,
                                        ),
                                    )
                                },
                            }
                        }
                    },
                }
            }
        }
    }
}

/// What reading the largest frame size at bit `p` gives, and where it ends:
/// two 4-bit widths (plus one) of the fields, the width and height less one
/// in fields of those widths, then outside a reduced header the frame id
/// flag and, where it is set, 7 bits of lengths.
pub open spec fn dims_step(s: Av1SequenceHeader, d: Seq<u8>, p: int) -> Option<(Av1SequenceHeader, int)> {
    let len = 8 * d.len();
    if p + 8 > len {
        None
    } else {
        let wb = (bits_value(d, p, 4) + 1) as nat;
        let hb = (bits_value(d, p + 4, 4) + 1) as nat;
        let q = p + 8 + wb + hb;
        if q > len || (!s.reduced_still_picture_header && q + 1 > len) {
            None
        } else {
            let w = bits_value(d, p + 8, wb);
            let h = bits_value(d, p + 8 + wb, hb);
            let ids = !s.reduced_still_picture_header && bit_at(d, q) == 1;
            let q = if s.reduced_still_picture_header {
                q
            } else if ids {
                q + 8
            } else {
                q + 1
            };
            Some((Av1SequenceHeader { max_width: (w + 1) as u32, max_height: (h + 1) as u32, ..s }, q))
        }
    }
}

/// What reading the chroma subsampling at bit `p` gives, and where it ends:
/// 4:2:0 for profile 0, 4:4:4 for profile 1; for profile 2 at 12 bits a flag
/// for horizontal subsampling and, where it is set, one for vertical; at 10
/// or 8 bits 4:2:2. 4:2:0 is followed by two bits of chroma sample position.
pub open spec fn subsampling_step(s: Av1SequenceHeader, d: Seq<u8>, p: int) -> Option<(Av1SequenceHeader, int)> {
    let len = 8 * d.len();
    let prof = s.config.seq_profile;
    let reads_x = prof == 2 && s.bit_depth == 12;
    if reads_x && p + 1 > len {
        None
    } else {
        let x: u8 = if prof == 0 {
            1
        } else if prof == 1 {
            0
        } else if reads_x {
            bits_value(d, p, 1) as u8
        } else {
            1
        };
        let reads_y = reads_x && x == 1;
        if reads_y && p + 2 > len {
            None
        } else {
            let y: u8 = if prof == 0 {
                1
            } else if reads_y {
                bits_value(d, p + 1, 1) as u8
            } else {
                0
            };
            let q = if reads_y {
                p + 2
            } else if reads_x {
                p + 1
            } else {
                p
            };
            let format = if x == 1 {
                if y == 1 {
                    PixelFormat::Yuv420
                } else {
                    PixelFormat::Yuv422
                }
            } else {
                PixelFormat::Yuv444
            };
            let c = CodecConfiguration { chroma_subsampling_x: x, chroma_subsampling_y: y, ..s.config };
            if x == 1 && y == 1 {
                if q + 2 > len {
                    None
                } else {
                    Some(
                        (
                            Av1SequenceHeader {
                                yuv_format: format,
                                config: CodecConfiguration {
                                    chroma_sample_position: ChromaSamplePosition::spec_from_u32(
                                        bits_value(d, q, 2) as u32,
                                    ),
                                    ..c
                                },
                                ..s
                            },
                            q + 2,
                        ),
                    )
                }
            } else {
                Some((Av1SequenceHeader { yuv_format: format, config: c, ..s }, q))
            }
        }
    }
}

/// What reading the colour configuration at bit `p` gives, and where it ends
/// (after the separate-planes bit): the high bit depth flag, for profile 2 the
/// twelve bit flag, the monochrome flag outside profile 1, the colour
/// description (2, 2, 2 without one), then for monochrome the range flag;
/// for sRGB primaries and transfer with identity matrix full range 4:4:4;
/// else the range flag and the subsampling.
pub open spec fn color_config_step(s: Av1SequenceHeader, d: Seq<u8>, p: int) -> Option<(Av1SequenceHeader, int)> {
    let len = 8 * d.len();
    let prof = s.config.seq_profile;
    if p + 1 > len {
        None
    } else {
        let high = bit_at(d, p) == 1;
        let wide = prof == 2 && high;
        if wide && p + 2 > len {
            None
        } else {
            let twelve = wide && bit_at(d, p + 1) == 1;
            let depth: u8 = if twelve {
                12
            } else if high {
                10
            } else {
                8
            };
            let q = if wide {
                p + 2
            } else {
                p + 1
            };
            if prof != 1 && q + 1 > len {
                None
            } else {
                let mono = prof != 1 && bit_at(d, q) == 1;
                let q = if prof != 1 {
                    q + 1
                } else {
                    q
                };
                if q + 1 > len {
                    None
                } else {
                    let described = bit_at(d, q) == 1;
                    if described && q + 25 > len {
                        None
                    } else {
                        let cp: u16 = if described {
                            bits_value(d, q + 1, 8) as u16
                        } else {
                            2
                        };
                        let tc: u16 = if described {
                            bits_value(d, q + 9, 8) as u16
                        } else {
                            2
                        };
                        let mc: u16 = if described {
                            bits_value(d, q + 17, 8) as u16
                        } else {
                            2
                        };
                        let q = if described {
                            q + 25
                        } else {
                            q + 1
                        };
                        let s1 = Av1SequenceHeader {
                            bit_depth: depth,
                            color_primaries: cp,
                            transfer_characteristics: tc,
                            matrix_coefficients: mc,
                            config: CodecConfiguration {
                                high_bitdepth: high,
                                twelve_bit: twelve,
                                monochrome: mono,
                                ..s.config
                            },
                            ..s
                        };
                        color_tail_step(s1, d, q)
                    }
                }
            }
        }
    }
}

/// The end of the colour configuration, from the bit after the colour
/// description: the range flag and the format (see `color_config_step`).
pub open spec fn color_tail_step(s1: Av1SequenceHeader, d: Seq<u8>, q: int) -> Option<(Av1SequenceHeader, int)> {
    let len = 8 * d.len();
    let mono = s1.config.monochrome;
    let cp = s1.color_primaries;
    let tc = s1.transfer_characteristics;
    let mc = s1.matrix_coefficients;
    if mono {
        if q + 1 > len {
            None
        } else {
            Some(
                (
                    Av1SequenceHeader {
                        full_range: bit_at(d, q) == 1,
                        yuv_format: PixelFormat::Monochrome,
                        config: CodecConfiguration {
                            chroma_subsampling_x: 1,
                            chroma_subsampling_y: 1,
                            ..s1.config
                        },
                        ..s1
                    },
                    q + 1,
                ),
            )
        }
    } else if cp == 1 && tc == 13 && mc == 0 {
        Some(
            (
                Av1SequenceHeader {
                    full_range: true,
                    yuv_format: PixelFormat::Yuv444,
                    ..s1
                },
                q + 1,
            ),
        )
    } else if q + 1 > len {
        None
    } else {
        match subsampling_step(
            Av1SequenceHeader { full_range: bit_at(d, q) == 1, ..s1 },
            d,
            q + 1,
        ) {
            Some((s2, q2)) => Some((s2, q2 + 1)),
            None => None,
        }
    }
}

/// The header that a sequence header is read into: all fields zero or
/// false, 4:2:0 and an unknown chroma sample position.
pub open spec fn blank_header() -> Av1SequenceHeader {
    Av1SequenceHeader {
        reduced_still_picture_header: false,
        max_width: 0,
        max_height: 0,
        bit_depth: 0,
        yuv_format: PixelFormat::Yuv420,
        color_primaries: 0,
        transfer_characteristics: 0,
        matrix_coefficients: 0,
        full_range: false,
        config: CodecConfiguration {
            seq_profile: 0,
            seq_level_idx0: 0,
            seq_tier0: 0,
            high_bitdepth: false,
            twelve_bit: false,
            monochrome: false,
            chroma_subsampling_x: 0,
            chroma_subsampling_y: 0,
            chroma_sample_position: ChromaSamplePosition::Unknown,
        },
    }
}

/// The sequence header that the payload `b` of a sequence header OBU
/// gives: the profile part, the largest frame size, the tool flags, three
/// more flags and the colour configuration, in that order. `None` where
/// a field lies past the end or a value is refused.
pub open spec fn seq_header_spec(b: Seq<u8>) -> Option<Av1SequenceHeader> {
    match profile_step(blank_header(), b, 0) {
        None => None,
        Some((s1, q1)) => match dims_step(s1, b, q1) {
            None => None,
            Some((s2, q2)) => match enabled_features_end(b, q2, s2.reduced_still_picture_header) {
                None => None,
                Some(q3) => match color_config_step(s2, b, q3 + 3) {
                    None => None,
                    Some((s4, _)) => Some(s4),
                },
            },
        },
    }
}

/// The OBU header at byte `o`: the type (4 bits after the forbidden bit),
/// the extension flag (an extension byte follows) and the size flag; gives
/// the type, where the payload starts and its size (the LEB128 size field,
/// or what is left of `d`, taken in 32 bits). `None` where it cannot be read.
pub open spec fn obu_header_at(d: Seq<u8>, o: int) -> Option<(int, int, int)> {
    if o < 0 || o + 1 > d.len() {
        None
    } else {
        let obu_type = bits_value(d, 8 * o + 1, 4) as int;
        let extension = bit_at(d, 8 * o + 5) == 1;
        let sized = bit_at(d, 8 * o + 6) == 1;
        if extension && o + 2 > d.len() {
            None
        } else {
            let q = if extension {
                o + 2
            } else {
                o + 1
            };
            if sized {
                match leb128_end(d, q, 0) {
                    None => None,
                    Some(k) => if leb128_value(d, q, k + 1) > u32::MAX {
                        None
                    } else {
                        Some((obu_type, q + k + 1, leb128_value(d, q, k + 1) as int))
                    },
                }
            } else {
                Some((obu_type, q, ((d.len() - q) as u32) as int))
            }
        }
    }
}

/// The payload of the first sequence header OBU (type 1) from byte `o` on,
/// as its start and size; the OBUs before it are skipped whole. `None`
/// where an OBU header cannot be read or a payload runs past the end, or
/// where no sequence header comes.
pub open spec fn first_sequence_header_obu(d: Seq<u8>, o: int) -> Option<(int, int)>
    decreases d.len() - o,
{
    if o < 0 || o >= d.len() {
        None
    } else {
        match obu_header_at(d, o) {
            None => None,
            Some((obu_type, q, size)) => {
                if q <= o || size < 0 || q + size > d.len() {
                    None
                } else if obu_type == 1 {
                    Some((q, size))
                } else {
                    first_sequence_header_obu(d, q + size)
                }
            },
        }
    }
}

/// The sequence header that a run of OBUs gives: that of the payload of
/// its first sequence header OBU.
pub open spec fn sequence_header_of(d: Seq<u8>) -> Option<Av1SequenceHeader> {
    match first_sequence_header_obu(d, 0) {
        None => None,
        Some((q, n)) => seq_header_spec(d.subrange(q, q + n)),
    }
}

impl Av1SequenceHeader {
    /// What every parsed sequence header satisfies: a known profile, frame
    /// dimensions of at least one, a bit depth that the configuration's
    /// flags give, and a pixel format that agrees with the subsampling.
    pub open spec fn valid(&self) -> bool {
        &&& self.config.seq_profile <= 2
        &&& self.max_width >= 1
        &&& self.max_height >= 1
        &&& self.bit_depth == self.config.spec_depth()
        &&& self.config.twelve_bit ==> self.config.seq_profile == 2 && self.config.high_bitdepth
        &&& format_matches_subsampling(self.yuv_format, self.config)
    }

    /// Reads the profile, the still picture flags, and the level and tier
    /// of the first operating point.
    #[verifier::rlimit(40)]
    #[verifier::spinoff_prover]
    fn parse_profile(bits: &mut IBitStream, seq: &mut Av1SequenceHeader) -> (r: AvifResult<()>)
        requires
            old(bits).bit_offset <= 0x1000,
        ensures
            final(bits).data@ == old(bits).data@,
            r is Ok ==> final(bits).bit_offset <= old(bits).bit_offset + 0x1000,
            r is Ok ==> final(seq).config.seq_profile <= 2 && final(seq).config.seq_profile
                == bits_value(old(bits).data@, old(bits).bit_offset as int, 3),
            final(seq).config.high_bitdepth == old(seq).config.high_bitdepth,
            final(seq).config.twelve_bit == old(seq).config.twelve_bit,
            final(seq).config.monochrome == old(seq).config.monochrome,
            final(seq).config.chroma_subsampling_x == old(seq).config.chroma_subsampling_x,
            final(seq).config.chroma_subsampling_y == old(seq).config.chroma_subsampling_y,
            final(seq).max_width == old(seq).max_width,
            final(seq).max_height == old(seq).max_height,
            r is Err ==> r == Err::<(), AvifError>(AvifError::BmffParseFailed),
            r is Ok <==> profile_step(*old(seq), old(bits).data@, old(bits).bit_offset as int) is Some,
            r is Ok ==> profile_step(*old(seq), old(bits).data@, old(bits).bit_offset as int)
                == Some((*final(seq), final(bits).bit_offset as int)),
    {
        proof {
            vstd::arithmetic::power2::lemma2_to64();
        }
        let ghost start = bits.bit_offset as int;
        let ghost d = bits.data@;
        let ghost s0 = *seq;
        let seq_profile = bits.read(3)? as u8;
        if seq_profile > 2 {
            return Err(AvifError::BmffParseFailed);
        }
        seq.config.seq_profile = seq_profile;
        let still_picture = bits.read_bool()?;
        seq.reduced_still_picture_header = bits.read_bool()?;
        if seq.reduced_still_picture_header && !still_picture {
            return Err(AvifError::BmffParseFailed);
        }
        if seq.reduced_still_picture_header {
            seq.config.seq_level_idx0 = bits.read(5)? as u8;
            return Ok(());
        }
        let timing_present = bits.read_bool()?;
        let (decoder_model_info_present, buffer_delay_length) = if timing_present {
            Self::parse_timing_info(bits)?
        } else {
            (false, 0)
        };
        let initial_display_delay_present = bits.read_bool()?;
        let operating_points_count = bits.read(5)? + 1;
        let ghost loop_start = bits.bit_offset as int;
        let (level, tier) = Self::parse_operating_points(
            bits,
            operating_points_count,
            decoder_model_info_present,
            buffer_delay_length,
            initial_display_delay_present,
        )?;
        seq.config.seq_level_idx0 = level;
        if level > 7 {
            seq.config.seq_tier0 = tier;
        }
        Ok(())
    }

    /// Reads the timing info after its presence flag: skips the two 32-bit
    /// fields and the equal picture interval code, reads the decoder model
    /// info flag and, where it is set, the buffer delay length (plus one),
    /// and skips the rest of the decoder model info.
    fn parse_timing_info(bits: &mut IBitStream) -> (r: AvifResult<(bool, u32)>)
        requires
            old(bits).bit_offset <= 0x1100,
        ensures
            final(bits).data@ == old(bits).data@,
            r is Ok ==> final(bits).bit_offset <= old(bits).bit_offset + 0x100,
            r is Err ==> r == Err::<(bool, u32), AvifError>(AvifError::BmffParseFailed),
            r is Ok <==> timing_info_step(old(bits).data@, old(bits).bit_offset as int) is Some,
            r matches Ok((model, delay)) ==> delay <= 32 && timing_info_step(
                old(bits).data@,
                old(bits).bit_offset as int,
            ) == Some((model, delay as int, final(bits).bit_offset as int)),
    {
        proof {
            vstd::arithmetic::power2::lemma2_to64();
        }
        let ghost d = bits.data@;
        let mut buffer_delay_length: u32 = 0;
        bits.skip(32)?;
        bits.skip(32)?;
        if bits.read_bool()? {
            let ghost uq = bits.bit_offset as int;
            match bits.skip_uvlc() {
                Ok(()) => {
                    proof {
                        let k = choose|k: int|
                            0 <= k < 32 && zero_run(d, uq, k) && uq + k < 8 * d.len()
                                && #[trigger] bit_at(d, uq + k) == 1;
                        assert(zero_run(d, uq, k) && bit_at(d, uq + k) == 1);
                    }
                },
                Err(e) => {
                    return Err(e);
                },
            }
        }
        let decoder_model_info_present = bits.read_bool()?;
        if decoder_model_info_present {
            buffer_delay_length = bits.read(5)? + 1;
            bits.skip(32)?;
            bits.skip(10)?;
        }
        Ok((decoder_model_info_present, buffer_delay_length))
    }

    /// Reads `count` operating points and gives the level and, above level 7,
    /// the tier of the first.
    #[verifier::rlimit(50)]
    fn parse_operating_points(
        bits: &mut IBitStream,
        count: u32,
        model: bool,
        delay: u32,
        display: bool,
    ) -> (r: AvifResult<(u8, u8)>)
        requires
            old(bits).bit_offset <= 0x1200,
            1 <= count <= 32,
            delay <= 32,
        ensures
            final(bits).data@ == old(bits).data@,
            r is Ok ==> final(bits).bit_offset <= old(bits).bit_offset + 100 * count,
            r is Err ==> r == Err::<(u8, u8), AvifError>(AvifError::BmffParseFailed),
            r is Ok <==> op_points_end(
                old(bits).data@,
                old(bits).bit_offset as int,
                count as nat,
                model,
                delay as int,
                display,
            ) is Some,
            r matches Ok((level, tier)) ==> op_points_end(
                old(bits).data@,
                old(bits).bit_offset as int,
                count as nat,
                model,
                delay as int,
                display,
            ) == Some(final(bits).bit_offset as int) && level == bits_value(
                old(bits).data@,
                old(bits).bit_offset + 12,
                5,
            ) && (level > 7 ==> tier == bits_value(old(bits).data@, old(bits).bit_offset + 17, 1)),
    {
        proof {
            vstd::arithmetic::power2::lemma2_to64();
        }
        let ghost d = bits.data@;
        let ghost start = bits.bit_offset as int;
        let mut level0: u8 = 0;
        let mut tier0: u8 = 0;
        let mut i: u32 = 0;
        while i < count
            invariant
                bits.data@ == d,
                d == old(bits).data@,
                start == old(bits).bit_offset,
                start <= 0x1200,
                1 <= count <= 32,
                delay <= 32,
                i <= count,
                bits.bit_offset <= start + 100 * i,
                i == 0 ==> bits.bit_offset == start,
                i > 0 ==> level0 == bits_value(d, start + 12, 5) && (level0 > 7 ==> tier0
                    == bits_value(d, start + 17, 1)),
                op_points_end(d, start, count as nat, model, delay as int, display) == op_points_end(
                    d,
                    bits.bit_offset as int,
                    (count - i) as nat,
                    model,
                    delay as int,
                    display,
                ),
            decreases count - i,
        {
            proof {
                vstd::arithmetic::power2::lemma2_to64();
            }
            bits.skip(12)?;
            let seq_level_idx = bits.read(5)?;
            if i == 0 {
                level0 = seq_level_idx as u8;
                assert(level0 == bits_value(d, start + 12, 5));
            }
            if seq_level_idx > 7 {
                let seq_tier = bits.read(1)?;
                if i == 0 {
                    tier0 = seq_tier as u8;
                }
            }
            if model {
                if bits.read_bool()? {
                    bits.skip(delay as usize)?;
                    bits.skip(delay as usize)?;
                    bits.skip(1)?;
                }
            }
            if display {
                if bits.read_bool()? {
                    bits.skip(4)?;
                }
            }
            i += 1;
        }
        Ok((level0, tier0))
    }

    /// Reads the largest frame width and height, and skips the frame id
    /// lengths where frame ids are present.
    fn parse_frame_max_dimensions(bits: &mut IBitStream, seq: &mut Av1SequenceHeader) -> (r:
        AvifResult<()>)
        requires
            old(bits).bit_offset <= 0x2000,
        ensures
            final(bits).data@ == old(bits).data@,
            r is Ok ==> final(bits).bit_offset <= old(bits).bit_offset + 0x100,
            r is Ok ==> final(seq).max_width >= 1 && final(seq).max_height >= 1,
            final(seq).config == old(seq).config,
            r is Err ==> r == Err::<(), AvifError>(AvifError::BmffParseFailed),
            r is Ok <==> dims_step(*old(seq), old(bits).data@, old(bits).bit_offset as int) is Some,
            r is Ok ==> dims_step(*old(seq), old(bits).data@, old(bits).bit_offset as int)
                == Some((*final(seq), final(bits).bit_offset as int)),
    {
        proof {
            vstd::arithmetic::power2::lemma2_to64();
        }
        let frame_width_bits = bits.read(4)? + 1;
        let frame_height_bits = bits.read(4)? + 1;
        let w = bits.read(frame_width_bits as usize)?;
        let h = bits.read(frame_height_bits as usize)?;
        proof {
            vstd::arithmetic::power2::lemma_pow2_strictly_increases(frame_width_bits as nat, 17);
            vstd::arithmetic::power2::lemma_pow2_strictly_increases(frame_height_bits as nat, 17);
        }
        seq.max_width = w + 1;
        seq.max_height = h + 1;
        let mut frame_id_numbers_present = false;
        if !seq.reduced_still_picture_header {
            frame_id_numbers_present = bits.read_bool()?;
        }
        if frame_id_numbers_present {
            bits.skip(7)?;
        }
        Ok(())
    }

    /// Skips the tool flags of the sequence header.
    fn parse_enabled_features(bits: &mut IBitStream, seq: &Av1SequenceHeader) -> (r: AvifResult<()>)
        requires
            old(bits).bit_offset <= 0x3000,
        ensures
            final(bits).data@ == old(bits).data@,
            r is Ok ==> final(bits).bit_offset <= old(bits).bit_offset + 0x100,
            r is Err ==> r == Err::<(), AvifError>(AvifError::BmffParseFailed),
            r is Ok <==> enabled_features_end(old(bits).data@, old(bits).bit_offset as int, seq.reduced_still_picture_header) is Some,
            r is Ok ==> final(bits).bit_offset == enabled_features_end(
                old(bits).data@,
                old(bits).bit_offset as int,
                seq.reduced_still_picture_header,
            )->0,
    {
        bits.skip(3)?;
        if seq.reduced_still_picture_header {
            return Ok(());
        }
        bits.skip(4)?;
        let enable_order_hint = bits.read_bool()?;
        if enable_order_hint {
            bits.skip(2)?;
        }
        let seq_force_screen_content_tools: u32 = if bits.read_bool()? {
            2
        } else {
            let ghost q = bits.bit_offset as int;
            let v = bits.read(1)?;
            assert(bits_value(bits.data@, q, 1) == bit_at(bits.data@, q) as nat) by {
                assert(bits_value(bits.data@, q, 0) == 0);
                assert(q + 1 - 1 == q);
            }
            v
        };
        if seq_force_screen_content_tools > 0 {
            if !bits.read_bool()? {
                bits.skip(1)?;
            }
        }
        if enable_order_hint {
            bits.skip(3)?;
        }
        Ok(())
    }

    /// Reads the colour configuration: bit depth, monochrome flag, colour
    /// description, range, chroma subsampling and sample position.
    #[verifier::rlimit(100)]
    #[verifier::spinoff_prover]
    fn parse_color_config(bits: &mut IBitStream, seq: &mut Av1SequenceHeader) -> (r: AvifResult<()>)
        requires
            old(bits).bit_offset <= 0x4000,
            old(seq).config.seq_profile <= 2,
            old(seq).config.chroma_subsampling_x == 0,
            old(seq).config.chroma_subsampling_y == 0,
            !old(seq).config.monochrome,
            !old(seq).config.twelve_bit,
        ensures
            final(bits).data@ == old(bits).data@,
            r is Ok ==> final(bits).bit_offset <= old(bits).bit_offset + 0x100,
            final(seq).config.seq_profile == old(seq).config.seq_profile,
            final(seq).max_width == old(seq).max_width,
            final(seq).max_height == old(seq).max_height,
            r is Ok ==> final(seq).bit_depth == final(seq).config.spec_depth(),
            r is Ok ==> (final(seq).config.twelve_bit ==> final(seq).config.seq_profile == 2
                && final(seq).config.high_bitdepth),
            r is Ok ==> format_matches_subsampling(final(seq).yuv_format, final(seq).config),
            r is Err ==> r == Err::<(), AvifError>(AvifError::BmffParseFailed),
            r is Ok <==> color_config_step(*old(seq), old(bits).data@, old(bits).bit_offset as int) is Some,
            r is Ok ==> color_config_step(*old(seq), old(bits).data@, old(bits).bit_offset as int)
                == Some((*final(seq), final(bits).bit_offset as int)),
    {
        seq.config.high_bitdepth = bits.read_bool()?;
        if seq.config.seq_profile == 2 && seq.config.high_bitdepth {
            seq.config.twelve_bit = bits.read_bool()?;
            seq.bit_depth = if seq.config.twelve_bit {
                12
            } else {
                10
            };
        } else {
            seq.bit_depth = if seq.config.high_bitdepth {
                10
            } else {
                8
            };
        }
        if seq.config.seq_profile != 1 {
            seq.config.monochrome = bits.read_bool()?;
        }
        let ghost d = old(bits).data@;
        let ghost q = bits.bit_offset as int;
        let ghost p = old(bits).bit_offset as int;
        let ghost wide = old(seq).config.seq_profile == 2 && bit_at(d, p) == 1;
        assert(q == (if wide {
            p + 2
        } else {
            p + 1
        }) + (if old(seq).config.seq_profile != 1 {
            1int
        } else {
            0
        }));
        proof {
            lemma_bit_at_le_one(d, q);
        }
        let ghost before_desc = *seq;
        let (cp, tc, mc) = match Self::parse_color_description(bits) {
            Ok(v) => v,
            Err(e) => {
                assert(q + 1 > 8 * d.len() || (bit_at(d, q) == 1 && q + 25 > 8 * d.len()));
                return Err(e);
            },
        };
        seq.color_primaries = cp;
        seq.transfer_characteristics = tc;
        seq.matrix_coefficients = mc;
        assert(color_config_step(*old(seq), d, p) == color_tail_step(*seq, d, bits.bit_offset as int));
        Self::parse_range_and_format(bits, seq)
    }

    /// Reads what follows the colour description: the range flag and the
    /// chroma subsampling (none for monochrome; full range 4:4:4 without a
    /// range flag for sRGB primaries and transfer with the identity matrix),
    /// then skips the separate-planes bit outside monochrome.
    fn parse_range_and_format(bits: &mut IBitStream, seq: &mut Av1SequenceHeader) -> (r: AvifResult<()>)
        requires
            old(bits).bit_offset <= 0x4080,
            old(seq).config.seq_profile <= 2,
            old(seq).config.chroma_subsampling_x == 0,
            old(seq).config.chroma_subsampling_y == 0,
            old(seq).config.monochrome ==> old(seq).config.seq_profile != 1,
        ensures
            final(bits).data@ == old(bits).data@,
            r is Ok ==> final(bits).bit_offset <= old(bits).bit_offset + 8,
            final(seq).config.seq_profile == old(seq).config.seq_profile,
            final(seq).config.high_bitdepth == old(seq).config.high_bitdepth,
            final(seq).config.twelve_bit == old(seq).config.twelve_bit,
            final(seq).config.monochrome == old(seq).config.monochrome,
            final(seq).bit_depth == old(seq).bit_depth,
            final(seq).max_width == old(seq).max_width,
            final(seq).max_height == old(seq).max_height,
            r is Ok ==> format_matches_subsampling(final(seq).yuv_format, final(seq).config),
            r is Err ==> r == Err::<(), AvifError>(AvifError::BmffParseFailed),
            r is Ok <==> color_tail_step(*old(seq), old(bits).data@, old(bits).bit_offset as int) is Some,
            r is Ok ==> color_tail_step(*old(seq), old(bits).data@, old(bits).bit_offset as int)
                == Some((*final(seq), final(bits).bit_offset as int)),
    {
        if seq.config.monochrome {
            seq.full_range = bits.read_bool()?;
            seq.config.chroma_subsampling_x = 1;
            seq.config.chroma_subsampling_y = 1;
            seq.yuv_format = PixelFormat::Monochrome;
            return Ok(());
        }
        if seq.color_primaries == 1 && seq.transfer_characteristics == 13 && seq.matrix_coefficients
            == 0 {
            seq.full_range = true;
            seq.yuv_format = PixelFormat::Yuv444;
        } else {
            seq.full_range = bits.read_bool()?;
            let ghost before = *seq;
            let ghost q2 = bits.bit_offset as int;
            match Self::parse_subsampling(bits, seq) {
                Ok(()) => {},
                Err(e) => {
                    assert(subsampling_step(before, old(bits).data@, q2) is None);
                    return Err(e);
                },
            }
        }
        bits.skip(1)?;
        Ok(())
    }

    /// Reads the colour description flag and, where it is set, the colour
    /// primaries, transfer characteristics and matrix coefficients; without
    /// it all three are 2 (unspecified).
    fn parse_color_description(bits: &mut IBitStream) -> (r: AvifResult<(u16, u16, u16)>)
        requires
            old(bits).bit_offset <= 0x4100,
        ensures
            final(bits).data@ == old(bits).data@,
            r is Ok ==> final(bits).bit_offset <= old(bits).bit_offset + 25,
            r is Err ==> r == Err::<(u16, u16, u16), AvifError>(AvifError::BmffParseFailed),
            ({
                let d = old(bits).data@;
                let p = old(bits).bit_offset as int;
                &&& p >= 8 * d.len() ==> r is Err
                &&& p < 8 * d.len() && bit_at(d, p) == 0 ==> r == Ok::<(u16, u16, u16), AvifError>((2, 2, 2))
                    && final(bits).bit_offset == p + 1
                &&& p < 8 * d.len() && bit_at(d, p) == 1 && p + 25 <= 8 * d.len() ==> r == Ok::<(u16, u16, u16), AvifError>(
                    (bits_value(d, p + 1, 8) as u16, bits_value(d, p + 9, 8) as u16, bits_value(d, p + 17, 8) as u16),
                ) && final(bits).bit_offset == p + 25
                &&& p < 8 * d.len() && bit_at(d, p) == 1 && p + 25 > 8 * d.len() ==> r is Err
            }),
    {
        if bits.read_bool()? {
            proof {
                vstd::arithmetic::power2::lemma2_to64();
            }
            let cp = bits.read(8)? as u16;
            let tc = bits.read(8)? as u16;
            let mc = bits.read(8)? as u16;
            Ok((cp, tc, mc))
        } else {
            Ok((2, 2, 2))
        }
    }

    /// Reads the chroma subsampling that the profile and bit depth leave
    /// open, sets the pixel format from it, and reads the chroma sample
    /// position of 4:2:0.
    #[verifier::rlimit(40)]
    #[verifier::spinoff_prover]
    fn parse_subsampling(bits: &mut IBitStream, seq: &mut Av1SequenceHeader) -> (r: AvifResult<()>)
        requires
            old(bits).bit_offset <= 0x4100,
            old(seq).config.seq_profile <= 2,
            old(seq).config.chroma_subsampling_x == 0,
            old(seq).config.chroma_subsampling_y == 0,
            !old(seq).config.monochrome,
        ensures
            final(bits).data@ == old(bits).data@,
            r is Ok ==> final(bits).bit_offset <= old(bits).bit_offset + 4,
            final(seq).config.seq_profile == old(seq).config.seq_profile,
            final(seq).config.high_bitdepth == old(seq).config.high_bitdepth,
            final(seq).config.twelve_bit == old(seq).config.twelve_bit,
            final(seq).config.monochrome == old(seq).config.monochrome,
            final(seq).bit_depth == old(seq).bit_depth,
            final(seq).max_width == old(seq).max_width,
            final(seq).max_height == old(seq).max_height,
            r is Ok ==> format_matches_subsampling(final(seq).yuv_format, final(seq).config),
            r is Err ==> r == Err::<(), AvifError>(AvifError::BmffParseFailed),
            r is Ok <==> subsampling_step(*old(seq), old(bits).data@, old(bits).bit_offset as int) is Some,
            r is Ok ==> subsampling_step(*old(seq), old(bits).data@, old(bits).bit_offset as int)
                == Some((*final(seq), final(bits).bit_offset as int)),
    {
        proof {
            vstd::arithmetic::power2::lemma2_to64();
        }
        if seq.config.seq_profile == 0 {
            seq.config.chroma_subsampling_x = 1;
            seq.config.chroma_subsampling_y = 1;
            seq.yuv_format = PixelFormat::Yuv420;
        } else if seq.config.seq_profile == 1 {
            seq.yuv_format = PixelFormat::Yuv444;
        } else {
            if seq.bit_depth == 12 {
                seq.config.chroma_subsampling_x = bits.read(1)? as u8;
                if seq.config.chroma_subsampling_x == 1 {
                    seq.config.chroma_subsampling_y = bits.read(1)? as u8;
                }
            } else {
                seq.config.chroma_subsampling_x = 1;
            }
            seq.yuv_format = if seq.config.chroma_subsampling_x == 1 {
                if seq.config.chroma_subsampling_y == 1 {
                    PixelFormat::Yuv420
                } else {
                    PixelFormat::Yuv422
                }
            } else {
                PixelFormat::Yuv444
            };
        }
        if seq.config.chroma_subsampling_x == 1 && seq.config.chroma_subsampling_y == 1 {
            seq.config.chroma_sample_position = ChromaSamplePosition::from_u32(bits.read(2)?);
        }
        Ok(())
    }

    /// Reads an OBU header: the forbidden bit (ignored), the type, the
    /// extension and size flags; skips the extension byte where there is
    /// one; the payload size is the LEB128 size field where there is one,
    /// else what is left of the stream.
    fn parse_obu_header(stream: &mut IStream) -> (r: AvifResult<ObuHeader>)
        requires
            old(stream).wf(),
        ensures
            final(stream).wf(),
            final(stream).data@ == old(stream).data@,
            r is Ok ==> final(stream).offset > old(stream).offset,
            old(stream).left() < 1 ==> r is Err,
            r matches Ok(h) ==> h.obu_type == bits_value(old(stream).data@, 8 * old(stream).offset + 1, 4),
            r is Err ==> r == Err::<ObuHeader, AvifError>(AvifError::BmffParseFailed),
            r is Ok <==> obu_header_at(old(stream).data@, old(stream).offset as int) is Some,
            r matches Ok(h) ==> obu_header_at(old(stream).data@, old(stream).offset as int) == Some(
                (h.obu_type as int, final(stream).offset as int, h.size as int),
            ),
    {
        proof {
            vstd::arithmetic::power2::lemma2_to64();
        }
        let ghost d = stream.data@;
        let ghost o = stream.offset as int;
        let mut bits = stream.sub_bit_stream(1)?;
        bits.skip(1)?;
        let obu_type = bits.read(4)? as u8;
        let obu_extension_flag = bits.read_bool()?;
        let obu_has_size_field = bits.read_bool()?;
        bits.skip(1)?;
        proof {
            lemma_bits_value_of_subrange(d, o, 1, 4);
            lemma_bits_value_of_subrange(d, o, 5, 1);
            lemma_bits_value_of_subrange(d, o, 6, 1);
            let sub = d.subrange(o, o + 1);
            assert(bits_value(sub, 5, 1) == bit_at(sub, 5)) by {
                assert(bits_value(sub, 5, 0) == 0);
            }
            assert(bits_value(sub, 6, 1) == bit_at(sub, 6)) by {
                assert(bits_value(sub, 6, 0) == 0);
            }
            assert(bits_value(d, 8 * o + 5, 1) == bit_at(d, 8 * o + 5)) by {
                assert(bits_value(d, 8 * o + 5, 0) == 0);
            }
            assert(bits_value(d, 8 * o + 6, 1) == bit_at(d, 8 * o + 6)) by {
                assert(bits_value(d, 8 * o + 6, 0) == 0);
            }
        }
        if obu_extension_flag {
            stream.skip(1)?;
        }
        let size = if obu_has_size_field {
            stream.read_uleb128()?
        } else {
            stream.bytes_left() as u32
        };
        Ok(ObuHeader { obu_type, size })
    }

    /// Finds the first sequence header OBU in `data` and reads it; OBUs of
    /// other types are skipped.
    pub fn parse_from_obus(data: &[u8]) -> (r: AvifResult<Av1SequenceHeader>)
        ensures
            r matches Ok(seq) ==> seq.valid(),
            r is Err ==> r == Err::<Av1SequenceHeader, AvifError>(AvifError::BmffParseFailed),
            r is Ok <==> (first_sequence_header_obu(data@, 0) matches Some((q, n))
                && seq_header_spec(data@.subrange(q, q + n)) is Some),
            r matches Ok(seq) ==> (first_sequence_header_obu(data@, 0) matches Some((q, n))
                && seq_header_spec(data@.subrange(q, q + n)) == Some(seq)),
            r is Ok <==> sequence_header_of(data@) is Some,
            r matches Ok(seq) ==> sequence_header_of(data@) == Some(seq),
    {
        let mut stream = IStream::create(data);
        while stream.has_bytes_left()
            invariant
                stream.wf(),
                stream.data@ == data@,
                first_sequence_header_obu(data@, stream.offset as int) == first_sequence_header_obu(
                    data@,
                    0,
                ),
            decreases stream.data@.len() - stream.offset,
        {
            let obu = Self::parse_obu_header(&mut stream)?;
            let size = usize_from_u32(obu.size)?;
            if obu.obu_type != 1 {
                stream.skip(size)?;
            } else {
                let mut bits = stream.sub_bit_stream(size)?;
                let mut seq = Av1SequenceHeader {
                    reduced_still_picture_header: false,
                    max_width: 0,
                    max_height: 0,
                    bit_depth: 0,
                    yuv_format: PixelFormat::Yuv420,
                    color_primaries: 0,
                    transfer_characteristics: 0,
                    matrix_coefficients: 0,
                    full_range: false,
                    config: CodecConfiguration {
                        seq_profile: 0,
                        seq_level_idx0: 0,
                        seq_tier0: 0,
                        high_bitdepth: false,
                        twelve_bit: false,
                        monochrome: false,
                        chroma_subsampling_x: 0,
                        chroma_subsampling_y: 0,
                        chroma_sample_position: ChromaSamplePosition::Unknown,
                    },
                };
                assert(seq == blank_header());
                Self::parse_profile(&mut bits, &mut seq)?;
                Self::parse_frame_max_dimensions(&mut bits, &mut seq)?;
                Self::parse_enabled_features(&mut bits, &seq)?;
                bits.skip(3)?;
                Self::parse_color_config(&mut bits, &mut seq)?;
                bits.skip(1)?;
                return Ok(seq);
            }
        }
        Err(AvifError::BmffParseFailed)
    }
}

/// The pixel format and chroma subsampling that a colour configuration read
/// after a profile part gives, by profile: monochrome is subsampled both ways;
/// sRGB primaries and transfer with the identity matrix are full range 4:4:4;
/// otherwise profile 0 is 4:2:0, profile 1 is 4:4:4, profile 2 below 12 bits
/// is 4:2:2, and profile 2 at 12 bits follows the flags it reads.
proof fn lemma_color_config_format(s: Av1SequenceHeader, d: Seq<u8>, p: int)
    requires
        s.config.seq_profile <= 2,
        s.config.chroma_subsampling_x == 0,
        s.config.chroma_subsampling_y == 0,
        !s.config.monochrome,
        !s.config.twelve_bit,
    ensures
        color_config_step(s, d, p) matches Some((h, q)) ==> format_by_profile(h)
            && h.config.seq_profile == s.config.seq_profile,
{
    assert forall|s1: Av1SequenceHeader, q: int|
        s1.config.seq_profile == s.config.seq_profile && s1.config.chroma_subsampling_x == 0
            && s1.config.chroma_subsampling_y == 0 && (s1.config.monochrome ==> s1.config.seq_profile
            != 1) && (s1.bit_depth == 12 ==> s1.config.seq_profile == 2) implies (#[trigger] color_tail_step(
        s1,
        d,
        q,
    ) matches Some((h, e)) ==> format_by_profile(h) && h.config.seq_profile == s.config.seq_profile) by {
        lemma_tail_format(s1, d, q);
    }
}

/// The range and format read after the colour description follow the
/// profile rules.
proof fn lemma_tail_format(s1: Av1SequenceHeader, d: Seq<u8>, q: int)
    requires
        s1.config.seq_profile <= 2,
        s1.config.chroma_subsampling_x == 0,
        s1.config.chroma_subsampling_y == 0,
        s1.config.monochrome ==> s1.config.seq_profile != 1,
        s1.bit_depth == 12 ==> s1.config.seq_profile == 2,
    ensures
        color_tail_step(s1, d, q) matches Some((h, e)) ==> format_by_profile(h)
            && h.config.seq_profile == s1.config.seq_profile,
{
    if !s1.config.monochrome {
        lemma_subsampling_format(Av1SequenceHeader { full_range: bit_at(d, q) == 1, ..s1 }, d, q + 1);
    }
}

/// The subsampling read for a colour configuration that is neither
/// monochrome nor sRGB identity follows the profile rules.
proof fn lemma_subsampling_format(s: Av1SequenceHeader, d: Seq<u8>, p: int)
    requires
        s.config.seq_profile <= 2,
        s.config.chroma_subsampling_x == 0,
        s.config.chroma_subsampling_y == 0,
        s.bit_depth == 12 ==> s.config.seq_profile == 2,
        !s.config.monochrome,
    ensures
        subsampling_step(s, d, p) matches Some((h, e)) ==> {
            let x = h.config.chroma_subsampling_x;
            let y = h.config.chroma_subsampling_y;
            &&& h.config.seq_profile == s.config.seq_profile
            &&& h.config.monochrome == s.config.monochrome
            &&& h.bit_depth == s.bit_depth
            &&& h.full_range == s.full_range
            &&& h.color_primaries == s.color_primaries
            &&& h.transfer_characteristics == s.transfer_characteristics
            &&& h.matrix_coefficients == s.matrix_coefficients
            &&& s.config.seq_profile == 0 ==> h.yuv_format == PixelFormat::Yuv420 && x == 1 && y == 1
            &&& s.config.seq_profile == 1 ==> h.yuv_format == PixelFormat::Yuv444 && x == 0 && y == 0
            &&& s.config.seq_profile == 2 && s.bit_depth != 12 ==> h.yuv_format == PixelFormat::Yuv422
                && x == 1 && y == 0
            &&& x <= 1 && y <= x
            &&& h.yuv_format == h.config.spec_pixel_format()
        },
{
    lemma_bit_at_le_one(d, p);
    lemma_bit_at_le_one(d, p + 1);
    assert(bits_value(d, p, 1) == bit_at(d, p)) by {
        assert(bits_value(d, p, 0) == 0);
    }
    assert(bits_value(d, p + 1, 1) == bit_at(d, p + 1)) by {
        assert(bits_value(d, p + 1, 0) == 0);
    }
}

/// The format rules of an AV1 sequence header (see `law_sequence_header_format`).
pub open spec fn format_by_profile(h: Av1SequenceHeader) -> bool {
    let x = h.config.chroma_subsampling_x;
    let y = h.config.chroma_subsampling_y;
    let srgb = h.color_primaries == 1 && h.transfer_characteristics == 13 && h.matrix_coefficients == 0;
    let profile = h.config.seq_profile;
    &&& h.config.monochrome ==> profile != 1 && h.yuv_format == PixelFormat::Monochrome && x == 1 && y == 1
    &&& !h.config.monochrome && srgb ==> h.full_range && h.yuv_format == PixelFormat::Yuv444 && x == 0 && y == 0
    &&& !h.config.monochrome && !srgb && profile == 0 ==> h.yuv_format == PixelFormat::Yuv420 && x == 1 && y == 1
    &&& !h.config.monochrome && !srgb && profile == 1 ==> h.yuv_format == PixelFormat::Yuv444 && x == 0 && y == 0
    &&& !h.config.monochrome && !srgb && profile == 2 && h.bit_depth != 12 ==> h.yuv_format
        == PixelFormat::Yuv422 && x == 1 && y == 0
    &&& !h.config.monochrome && !srgb && profile == 2 && h.bit_depth == 12 ==> x <= 1 && y <= x
    &&& h.bit_depth == 12 ==> profile == 2
}

/// Law: every sequence header read from OBUs has the pixel format its profile
/// calls for. A monochrome header is 4:0:0 subsampled both ways (and never of
/// profile 1); sRGB primaries and transfer with the identity matrix give full
/// range 4:4:4; otherwise profile 0 is 4:2:0, profile 1 is 4:4:4 and profile 2
/// below 12 bits is 4:2:2, while 12-bit profile 2 reads its subsampling (never
/// vertical only). Its format is also the one that its codec configuration
/// names, and 12 bits occur in profile 2 only.
pub proof fn law_sequence_header_format(d: Seq<u8>)
    ensures
        sequence_header_of(d) matches Some(h) ==> format_by_profile(h) && h.config.spec_pixel_format()
            == h.yuv_format,
{
    match first_sequence_header_obu(d, 0) {
        None => {},
        Some((q, n)) => {
            let b = d.subrange(q, q + n);
            match profile_step(blank_header(), b, 0) {
                None => {},
                Some((s1, q1)) => {
                    match dims_step(s1, b, q1) {
                        None => {},
                        Some((s2, q2)) => {
                            match enabled_features_end(b, q2, s2.reduced_still_picture_header) {
                                None => {},
                                Some(q3) => {
                                    lemma_color_config_format(s2, b, q3 + 3);
                                },
                            }
                        },
                    }
                },
            }
        },
    }
}

/// Law: the pixel format that a codec configuration names agrees with its
/// chroma subsampling (as `format_matches_subsampling` relates them) for
/// every subsampling that AV1 allows: each direction 0 or 1, never vertical
/// only, and monochrome subsampled both ways.
pub proof fn law_pixel_format_matches_subsampling(c: CodecConfiguration)
    requires
        c.chroma_subsampling_x <= 1,
        c.chroma_subsampling_y <= c.chroma_subsampling_x,
        c.monochrome ==> c.chroma_subsampling_x == 1 && c.chroma_subsampling_y == 1,
    ensures
        format_matches_subsampling(c.spec_pixel_format(), c),
{
}

/// Law: the chroma planes of the pixel format that a codec configuration
/// names are subsampled as the configuration says: the format's horizontal
/// and vertical chroma shifts are the subsampling flags, for every
/// subsampling that AV1 allows outside monochrome; and only monochrome has a
/// single plane.
pub proof fn law_chroma_shifts_follow_subsampling(c: CodecConfiguration)
    requires
        c.chroma_subsampling_x <= 1,
        c.chroma_subsampling_y <= c.chroma_subsampling_x,
    ensures
        !c.monochrome ==> c.spec_pixel_format().spec_chroma_shift_x() == c.chroma_subsampling_x
            && c.spec_pixel_format().spec_chroma_shift_y() == c.chroma_subsampling_y
            && c.spec_pixel_format().spec_plane_count() == 3,
        c.monochrome ==> c.spec_pixel_format().spec_plane_count() == 1,
{
}

/// Bits read from a copy of `n` bytes at byte `o` are the bits at the same
/// position of the whole buffer.
proof fn lemma_bits_value_of_subrange(d: Seq<u8>, o: int, pos: int, k: nat)
    requires
        0 <= o,
        o + 1 <= d.len(),
        0 <= pos,
        pos + k <= 8,
    ensures
        bits_value(d.subrange(o, o + 1), pos, k) == bits_value(d, 8 * o + pos, k),
    decreases k,
{
    if k > 0 {
        lemma_bits_value_of_subrange(d, o, pos, (k - 1) as nat);
        let p = pos + k - 1;
        assert((8 * o + p) / 8 == o + p / 8) by (nonlinear_arith)
            requires
                0 <= p < 8,
        ;
        assert((8 * o + p) % 8 == p % 8) by (nonlinear_arith)
            requires
                0 <= p < 8,
                o >= 0,
        ;
        assert(bit_at(d.subrange(o, o + 1), p) == bit_at(d, 8 * o + p));
    }
}

} // verus!
