# crabby_avif

An AVIF parser whose logic is specified and proved with Verus.

## Layout

- `src/stream.rs`, `src/layout.rs`: byte and bit readers over a buffer, with
  the big- and little-endian numbers they read stated as spec functions.
- `src/parser/mp4box.rs`: the ISO BMFF boxes of an AVIF file (file type,
  meta box with its item information, locations, properties and references,
  movie box with its tracks and sample tables).
- `src/parser/obu.rs`: the AV1 sequence header inside OBUs.
- `src/parser/exif.rs`: the TIFF header and the orientation tag of Exif data.
- `src/decoder.rs` and `src/decoder/`: items, tracks and tiles, and the
  `Decoder` that picks the images of a file and their properties.
- `src/image.rs`, `src/internal_utils/pixels.rs`: image planes and their
  samples.
- `src/reformat/rgb.rs`: RGB pixel layouts.
- `src/internal_utils.rs`: fractions, checked conversions, size limits and
  property lookups.
- `app/main.rs`: a command line front end that reads a file and prints what
  the decoder found; file access, timing in seconds and the hand-off to an
  AV1 codec live there.
- `tests/`: tests of the library on concrete inputs.
