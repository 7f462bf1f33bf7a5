# xpress_core

The decision-making core of the `xpress` media optimiser, written in Verus.

`src/` holds everything that decides rather than does: the compression-factor
mappings, the argument lists handed to ffmpeg / gifsicle / vips / exiftool, the
pipeline and crop mini-languages, output-name templates, the optimisation
marker that lets later runs skip finished files, EXIF GPS stripping, the WebP
ICC chunk splice, which embedded PDF images can be re-compressed without
changing their colours, responsive-image width planning, backup and
placement decisions, and how a file is fitted into a byte budget (the route,
the two-pass bitrate command lines, the compression ladder). Every public function carries a contract over
spec-level models, and the laws that tie functions together (round trips,
monotonicity of the compression mappings, what a marker covers) are public
proof functions.

Calls into other crates (CRC-32, regular expressions, `std::path`, the system
clock) go through small trusted functions whose contracts name or describe the
result; each one's doc comment says what is assumed.

`app/` is the command-line program around the library: argument parsing, file
and process I/O, image decoding and encoding, PDF loading and saving, JSON
output, and the fractional arithmetic (durations, bitrates, frame rates, PDF
image scaling) that floating point keeps out of the library. Verus does not
see it.

`tests/` runs the library against concrete inputs.
