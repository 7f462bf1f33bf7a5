//! Audio formats and their ffmpeg encoder arguments.
//!
//! Encoder arguments follow ffmpeg's documented options for each codec
//! (aac_at, libmp3lame VBR, libopus, pcm, flac).

use vstd::prelude::*;

use crate::compression::{
    clamp, clamp_exec, lemma_round_div_monotone, prefixed_int, round_div, round_div_exec, str_vec_push, string_vec_push,
    views, CompressionQuality,
};
use crate::result::Placement;
use crate::text::{chars_eq, int_string, int_text, lower, push_int, push_str, string_of, to_lower};

verus! {

#[derive(Debug, Clone, Copy, PartialEq, Eq, Structural)]
pub enum AudioFormat {
    SameAsInput,
    Aac,
    Mp3,
    Opus,
    Wav,
    Flac,
    Aiff,
}

/// The format a (lowercase) target name stands for.
pub open spec fn audio_format_named(t: Seq<char>) -> Option<AudioFormat> {
    if t == "aac"@ || t == "m4a"@ {
        Some(AudioFormat::Aac)
    } else if t == "mp3"@ {
        Some(AudioFormat::Mp3)
    } else if t == "opus"@ || t == "ogg"@ || t == "oga"@ {
        Some(AudioFormat::Opus)
    } else if t == "wav"@ {
        Some(AudioFormat::Wav)
    } else if t == "flac"@ {
        Some(AudioFormat::Flac)
    } else if t == "aiff"@ || t == "aif"@ {
        Some(AudioFormat::Aiff)
    } else {
        None
    }
}

/// libmp3lame `-q:a` VBR quality for a nominal bitrate.
pub open spec fn lame_vbr_quality_of(b: int) -> int {
    if b <= 64 {
        9
    } else if b <= 80 {
        8
    } else if b <= 96 {
        7
    } else if b <= 128 {
        5
    } else if b <= 160 {
        4
    } else if b <= 192 {
        2
    } else {
        0
    }
}

/// `"{b}k"`, an ffmpeg bitrate.
pub open spec fn kbps_text(b: int) -> Seq<char> {
    int_text(b) + "k"@
}

/// The bitrate (kbit/s) a compression factor maps to inside `lo..=hi`: from
/// `hi` at factor 5 down to `lo` at factor 100, rounded to a multiple of 16.
pub open spec fn audio_bitrate_of(f: int, lo: int, hi: int) -> int {
    let c = clamp(f, 5, 100);
    let sixteenths = round_div(95 * hi - (c - 5) * (hi - lo), 1520);
    let rounded = if sixteenths * 16 > 8 { sixteenths * 16 } else { 8 };
    clamp(rounded, lo, hi)
}

impl AudioFormat {
    pub open spec fn extension_of(self) -> Seq<char> {
        match self {
            AudioFormat::SameAsInput => ""@,
            AudioFormat::Aac => "m4a"@,
            AudioFormat::Mp3 => "mp3"@,
            AudioFormat::Opus => "ogg"@,
            AudioFormat::Wav => "wav"@,
            AudioFormat::Flac => "flac"@,
            AudioFormat::Aiff => "aiff"@,
        }
    }

    pub open spec fn codec_of(self) -> Seq<char> {
        match self {
            AudioFormat::SameAsInput => ""@,
            AudioFormat::Aac => "aac_at"@,
            AudioFormat::Mp3 => "libmp3lame"@,
            AudioFormat::Opus => "libopus"@,
            AudioFormat::Wav => "pcm_s16le"@,
            AudioFormat::Flac => "flac"@,
            AudioFormat::Aiff => "pcm_s16be"@,
        }
    }

    pub open spec fn lossless(self) -> bool {
        self == AudioFormat::Wav || self == AudioFormat::Flac || self == AudioFormat::Aiff
    }

    pub open spec fn range_of(self) -> Option<(i32, i32)> {
        match self {
            AudioFormat::Mp3 => Some((64, 320)),
            AudioFormat::Aac => Some((48, 256)),
            AudioFormat::Opus => Some((32, 160)),
            AudioFormat::SameAsInput => Some((48, 256)),
            _ => None,
        }
    }

    pub open spec fn resolved_of(self, input_ext: Seq<char>) -> AudioFormat {
        if self != AudioFormat::SameAsInput {
            self
        } else {
            match audio_format_named(lower(input_ext)) {
                Some(f) => f,
                None => AudioFormat::Aac,
            }
        }
    }

    pub fn file_extension(&self) -> (r: &'static str)
        ensures
            r@ == self.extension_of(),
    {
        match self {
            AudioFormat::SameAsInput => "",
            AudioFormat::Aac => "m4a",
            AudioFormat::Mp3 => "mp3",
            AudioFormat::Opus => "ogg",
            AudioFormat::Wav => "wav",
            AudioFormat::Flac => "flac",
            AudioFormat::Aiff => "aiff",
        }
    }

    pub fn ffmpeg_codec(&self) -> (r: &'static str)
        ensures
            r@ == self.codec_of(),
    {
        match self {
            AudioFormat::SameAsInput => "",
            AudioFormat::Aac => "aac_at",
            AudioFormat::Mp3 => "libmp3lame",
            AudioFormat::Opus => "libopus",
            AudioFormat::Wav => "pcm_s16le",
            AudioFormat::Flac => "flac",
            AudioFormat::Aiff => "pcm_s16be",
        }
    }

    pub fn is_lossless(&self) -> (r: bool)
        ensures
            r == self.lossless(),
    {
        match self {
            AudioFormat::Wav | AudioFormat::Flac | AudioFormat::Aiff => true,
            _ => false,
        }
    }

    pub fn from_target(target: &str) -> (r: Option<AudioFormat>)
        ensures
            r == audio_format_named(lower(target@)),
    {
        let t = to_lower(target);
        if chars_eq(&t, "aac") || chars_eq(&t, "m4a") {
            Some(AudioFormat::Aac)
        } else if chars_eq(&t, "mp3") {
            Some(AudioFormat::Mp3)
        } else if chars_eq(&t, "opus") || chars_eq(&t, "ogg") || chars_eq(&t, "oga") {
            Some(AudioFormat::Opus)
        } else if chars_eq(&t, "wav") {
            Some(AudioFormat::Wav)
        } else if chars_eq(&t, "flac") {
            Some(AudioFormat::Flac)
        } else if chars_eq(&t, "aiff") || chars_eq(&t, "aif") {
            Some(AudioFormat::Aiff)
        } else {
            None
        }
    }

    /// Resolve `SameAsInput` to a concrete format from the source extension.
    pub fn resolved(&self, input_ext: &str) -> (r: AudioFormat)
        ensures
            r == self.resolved_of(input_ext@),
    {
        if *self != AudioFormat::SameAsInput {
            return *self;
        }
        match AudioFormat::from_target(input_ext) {
            Some(f) => f,
            None => AudioFormat::Aac,
        }
    }

    pub open spec fn allowed_of(self) -> Seq<i32> {
        match self {
            AudioFormat::SameAsInput => seq![56, 64, 80, 96, 128, 160, 192, 256, 320],
            AudioFormat::Aac => seq![56, 64, 80, 96, 128, 160, 192, 256],
            AudioFormat::Mp3 => seq![56, 64, 80, 96, 128, 160, 192, 256, 320],
            AudioFormat::Opus => seq![32, 48, 64, 80, 96, 128],
            _ => seq![],
        }
    }

    pub fn allowed_bitrates(&self) -> (r: &'static [i32])
        ensures
            r@ == self.allowed_of(),
    {
        let r: &'static [i32] = match self {
            AudioFormat::SameAsInput => &[56, 64, 80, 96, 128, 160, 192, 256, 320],
            AudioFormat::Aac => &[56, 64, 80, 96, 128, 160, 192, 256],
            AudioFormat::Mp3 => &[56, 64, 80, 96, 128, 160, 192, 256, 320],
            AudioFormat::Opus => &[32, 48, 64, 80, 96, 128],
            AudioFormat::Wav | AudioFormat::Flac | AudioFormat::Aiff => &[],
        };
        assert(r@ =~= self.allowed_of());
        r
    }

    pub open spec fn default_bitrate_of(self) -> int {
        match self {
            AudioFormat::SameAsInput => -1,
            AudioFormat::Aac => 192,
            AudioFormat::Mp3 => 192,
            AudioFormat::Opus => 128,
            _ => 0,
        }
    }

    pub fn default_bitrate(&self) -> (r: i32)
        ensures
            r == self.default_bitrate_of(),
    {
        match self {
            AudioFormat::SameAsInput => -1,
            AudioFormat::Aac => 192,
            AudioFormat::Mp3 => 192,
            AudioFormat::Opus => 128,
            AudioFormat::Wav | AudioFormat::Flac | AudioFormat::Aiff => 0,
        }
    }

    pub fn bitrate_range(&self) -> (r: Option<(i32, i32)>)
        ensures
            r == self.range_of(),
    {
        match self {
            AudioFormat::Mp3 => Some((64, 320)),
            AudioFormat::Aac => Some((48, 256)),
            AudioFormat::Opus => Some((32, 160)),
            AudioFormat::SameAsInput => Some((48, 256)),
            AudioFormat::Wav | AudioFormat::Flac | AudioFormat::Aiff => None,
        }
    }

    fn lame_vbr_quality(bitrate: i32) -> (r: i32)
        ensures
            r == lame_vbr_quality_of(bitrate as int),
    {
        if bitrate <= 64 {
            9
        } else if bitrate <= 80 {
            8
        } else if bitrate <= 96 {
            7
        } else if bitrate <= 128 {
            5
        } else if bitrate <= 160 {
            4
        } else if bitrate <= 192 {
            2
        } else {
            0
        }
    }

    /// Args for ffmpeg's built-in AAC encoder, available in every build
    /// (unlike the macOS-only `aac_at` that [`AudioFormat::Aac`] prefers).
    pub fn native_aac_args(bitrate: i32) -> (args: Vec<String>)
        ensures
            views(args@) == seq!["-c:a"@, "aac"@, "-b:a"@, kbps_text(bitrate as int)],
    {
        let mut args: Vec<String> = Vec::new();
        str_vec_push(&mut args, "-c:a");
        str_vec_push(&mut args, "aac");
        str_vec_push(&mut args, "-b:a");
        string_vec_push(&mut args, kbps(bitrate));
        assert(views(args@) =~= seq!["-c:a"@, "aac"@, "-b:a"@, kbps_text(bitrate as int)]);
        args
    }

    /// The ffmpeg encoding arguments, VBR where the codec supports it.
    pub open spec fn encoding_args_of(
        self,
        bitrate: int,
        aggressive: bool,
        input_sample_rate: Option<u32>,
    ) -> Seq<Seq<char>> {
        let resample = match input_sample_rate {
            Some(sr) => sr > 48000,
            None => false,
        };
        let codec = self.codec_of();
        match self {
            AudioFormat::Aac => seq![
                "-c:a"@,
                codec,
                "-b:a"@,
                kbps_text(bitrate),
                "-aac_at_mode"@,
                "cvbr"@,
            ],
            AudioFormat::Mp3 => seq!["-c:a"@, codec, "-q:a"@, int_text(lame_vbr_quality_of(bitrate))],
            AudioFormat::Opus => seq!["-c:a"@, codec, "-b:a"@, kbps_text(bitrate), "-vbr"@, "on"@],
            AudioFormat::Wav => {
                if aggressive {
                    seq!["-c:a"@, "adpcm_ima_wav"@]
                } else if resample {
                    seq!["-c:a"@, codec, "-ar"@, "48000"@]
                } else {
                    seq!["-c:a"@, codec]
                }
            },
            AudioFormat::Flac => seq![
                "-c:a"@,
                codec,
                "-compression_level"@,
                if aggressive { "12"@ } else { "8"@ },
            ],
            AudioFormat::Aiff => {
                if resample {
                    seq!["-c:a"@, codec, "-ar"@, "48000"@]
                } else {
                    seq!["-c:a"@, codec]
                }
            },
            AudioFormat::SameAsInput => seq!["-c:a"@, codec],
        }
    }

    /// ffmpeg encoding args, using VBR where supported. The input sample rate
    /// is in whole hertz: PCM outputs above 48 kHz are resampled to 48 kHz.
    pub fn encoding_args(
        &self,
        bitrate: i32,
        aggressive: bool,
        input_sample_rate: Option<u32>,
    ) -> (args: Vec<String>)
        ensures
            views(args@) == self.encoding_args_of(bitrate as int, aggressive, input_sample_rate),
    {
        let codec = self.ffmpeg_codec();
        let resample = match input_sample_rate {
            Some(sr) => sr > 48000,
            None => false,
        };
        let mut args: Vec<String> = Vec::new();
        str_vec_push(&mut args, "-c:a");
        match self {
            AudioFormat::Aac => {
                str_vec_push(&mut args, codec);
                str_vec_push(&mut args, "-b:a");
                string_vec_push(&mut args, kbps(bitrate));
                str_vec_push(&mut args, "-aac_at_mode");
                str_vec_push(&mut args, "cvbr");
            },
            AudioFormat::Mp3 => {
                str_vec_push(&mut args, codec);
                str_vec_push(&mut args, "-q:a");
                string_vec_push(&mut args, int_string(Self::lame_vbr_quality(bitrate) as i64));
            },
            AudioFormat::Opus => {
                str_vec_push(&mut args, codec);
                str_vec_push(&mut args, "-b:a");
                string_vec_push(&mut args, kbps(bitrate));
                str_vec_push(&mut args, "-vbr");
                str_vec_push(&mut args, "on");
            },
            AudioFormat::Wav => {
                if aggressive {
                    str_vec_push(&mut args, "adpcm_ima_wav");
                } else {
                    str_vec_push(&mut args, codec);
                    if resample {
                        str_vec_push(&mut args, "-ar");
                        str_vec_push(&mut args, "48000");
                    }
                }
            },
            AudioFormat::Flac => {
                str_vec_push(&mut args, codec);
                str_vec_push(&mut args, "-compression_level");
                str_vec_push(&mut args, if aggressive { "12" } else { "8" });
            },
            AudioFormat::Aiff => {
                str_vec_push(&mut args, codec);
                if resample {
                    str_vec_push(&mut args, "-ar");
                    str_vec_push(&mut args, "48000");
                }
            },
            AudioFormat::SameAsInput => {
                str_vec_push(&mut args, codec);
            },
        }
        assert(views(args@) =~= self.encoding_args_of(bitrate as int, aggressive, input_sample_rate));
        args
    }
}

/// `"{b}k"`.
pub fn kbps(b: i32) -> (s: String)
    ensures
        s@ == kbps_text(b as int),
{
    let mut v: Vec<char> = Vec::new();
    push_int(&mut v, b as i64);
    push_str(&mut v, "k");
    assert(v@ =~= kbps_text(b as int));
    string_of(v)
}

/// Target bitrate (kbps) for a format from a compression value.
pub fn audio_bitrate(cq: CompressionQuality, format: AudioFormat) -> (r: Option<i32>)
    ensures
        r == (match format.range_of() {
            Some((lo, hi)) => Some(audio_bitrate_of(cq.factor as int, lo as int, hi as int) as i32),
            None => None,
        }),
{
    let (lo, hi) = match format.bitrate_range() {
        Some(range) => range,
        None => return None,
    };
    let c = clamp_exec(cq.factor as i64, 5, 100);
    assert(0 <= lo <= hi <= 320);
    let span = (hi - lo) as i64;
    assert(0 <= (c - 5) * span <= 95 * 320) by (nonlinear_arith)
        requires 0 <= c - 5 <= 95, 0 <= span <= 320;
    let sixteenths = round_div_exec(95 * (hi as i64) - (c - 5) * span, 95 * 16);
    let rounded = if sixteenths * 16 > 8 { sixteenths * 16 } else { 8 };
    Some(clamp_exec(rounded, lo as i64, hi as i64) as i32)
}

/// How an audio file is re-encoded.
pub struct AudioPlan {
    /// The format written.
    pub format: AudioFormat,
    /// The bitrate in kbit/s.
    pub bitrate: i32,
    /// The ffmpeg codec arguments.
    pub codec_args: Vec<String>,
    /// The codec arguments to try when the first encoder is missing: ffmpeg's
    /// native AAC encoder, for AAC.
    pub fallback_args: Option<Vec<String>>,
    /// How the result is placed.
    pub placement: Placement,
}

/// The bitrate an encode uses: the one asked for, else the compression
/// value's for the format, else the format's default (0 when it has none).
pub open spec fn chosen_bitrate_of(factor: int, format: AudioFormat, asked: Option<i32>) -> int {
    match asked {
        Some(b) => b as int,
        None => match format.range_of() {
            Some((lo, hi)) => (audio_bitrate_of(factor, lo as int, hi as int) as i32) as int,
            None => if format.default_bitrate_of() > 0 {
                format.default_bitrate_of()
            } else {
                0
            },
        },
    }
}

/// The codec arguments: an MP3 encode at an asked-for bitrate is constant
/// bitrate (its size is then predictable); everything else uses the format's
/// own, VBR where supported.
pub open spec fn plan_codec_args_of(format: AudioFormat, bitrate: int, aggressive: bool, asked: Option<i32>) -> Seq<Seq<char>> {
    if asked is Some && format == AudioFormat::Mp3 {
        seq!["-c:a"@, "libmp3lame"@, "-b:a"@, kbps_text(asked->0 as int)]
    } else {
        format.encoding_args_of(bitrate, aggressive, None)
    }
}

/// How an audio file with extension `input_ext` is encoded to `target` at
/// compression `cq`, optionally at an asked-for bitrate. Re-encoding to the
/// input's own format must shrink the file and may replace it (backed up);
/// a conversion to another format is written alongside, the source kept.
pub fn audio_plan(input_ext: &str, target: AudioFormat, cq: CompressionQuality, bitrate: Option<i32>) -> (r: AudioPlan)
    ensures
        r.format == target.resolved_of(input_ext@),
        r.bitrate == chosen_bitrate_of(cq.factor as int, r.format, bitrate),
        views(r.codec_args@) == plan_codec_args_of(r.format, r.bitrate as int, cq.is_aggressive(), bitrate),
        match r.fallback_args {
            Some(f) => r.format == AudioFormat::Aac && views(f@) == seq!["-c:a"@, "aac"@, "-b:a"@, kbps_text(r.bitrate as int)],
            None => r.format != AudioFormat::Aac,
        },
        ({
            let same = r.format == AudioFormat::SameAsInput.resolved_of(input_ext@);
            r.placement == (Placement { size_guard: same, backup: same, replace_source: same })
        }),
{
    let format = target.resolved(input_ext);
    let kbps_chosen = match bitrate {
        Some(b) => b,
        None => match audio_bitrate(cq, format) {
            Some(b) => b,
            None => {
                let d = format.default_bitrate();
                if d > 0 {
                    d
                } else {
                    0
                }
            },
        },
    };
    let aggressive = cq.image_is_aggressive();
    let codec_args = match bitrate {
        Some(k) => {
            if format == AudioFormat::Mp3 {
                let mut args: Vec<String> = Vec::new();
                str_vec_push(&mut args, "-c:a");
                str_vec_push(&mut args, "libmp3lame");
                str_vec_push(&mut args, "-b:a");
                string_vec_push(&mut args, kbps(k));
                assert(views(args@) =~= seq!["-c:a"@, "libmp3lame"@, "-b:a"@, kbps_text(k as int)]);
                args
            } else {
                format.encoding_args(kbps_chosen, aggressive, None)
            }
        },
        None => format.encoding_args(kbps_chosen, aggressive, None),
    };
    let fallback_args = if format == AudioFormat::Aac {
        Some(AudioFormat::native_aac_args(kbps_chosen))
    } else {
        None
    };
    let same = format == AudioFormat::SameAsInput.resolved(input_ext);
    AudioPlan {
        format,
        bitrate: kbps_chosen,
        codec_args,
        fallback_args,
        placement: Placement { size_guard: same, backup: same, replace_source: same },
    }
}

/// The bitrate a compression value gives a format stays in the format's
/// range, is its top at factor 5 or below and its bottom at factor 100 or
/// above, and never rises as the factor does.
pub proof fn lemma_audio_bitrate_law(format: AudioFormat, f1: int, f2: int)
    requires
        format.range_of() is Some,
        f1 <= f2,
    ensures
        ({
            let (lo, hi) = format.range_of()->0;
            &&& lo <= audio_bitrate_of(f1, lo as int, hi as int) <= hi
            &&& f1 <= 5 ==> audio_bitrate_of(f1, lo as int, hi as int) == hi
            &&& f1 >= 100 ==> audio_bitrate_of(f1, lo as int, hi as int) == lo
            &&& audio_bitrate_of(f2, lo as int, hi as int) <= audio_bitrate_of(f1, lo as int, hi as int)
        }),
{
    let (lo, hi) = format.range_of()->0;
    let (l, h) = (lo as int, hi as int);
    let c1 = clamp(f1, 5, 100);
    let c2 = clamp(f2, 5, 100);
    assert(c1 <= c2);
    assert((c1 - 5) * (h - l) <= (c2 - 5) * (h - l)) by (nonlinear_arith)
        requires
            c1 <= c2,
            l <= h,
    ;
    lemma_round_div_monotone(95 * h - (c2 - 5) * (h - l), 95 * h - (c1 - 5) * (h - l), 1520);
    if f1 <= 5 {
        assert(c1 == 5);
        assert((c1 - 5) * (h - l) == 0) by (nonlinear_arith)
            requires
                c1 == 5,
        ;
        assert(round_div(95 * h, 1520) * 16 == h);
    }
    if f1 >= 100 {
        assert(c1 == 100);
        assert((c1 - 5) * (h - l) == 95 * (h - l)) by (nonlinear_arith)
            requires
                c1 == 100,
        ;
        assert(round_div(95 * l, 1520) * 16 == l);
    }
}

/// Every concrete format's file extension names the format again.
pub proof fn lemma_extension_names_format(f: AudioFormat)
    requires
        f != AudioFormat::SameAsInput,
    ensures
        audio_format_named(lower(f.extension_of())) == Some(f),
{
    reveal_strlit("aac");
    reveal_strlit("opus");
    reveal_strlit("oga");
    reveal_strlit("aif");
    reveal_strlit("m4a");
    reveal_strlit("mp3");
    reveal_strlit("ogg");
    reveal_strlit("wav");
    reveal_strlit("flac");
    reveal_strlit("aiff");
    crate::text::lemma_lower_unchanged(f.extension_of());
    match f {
        AudioFormat::Aac => {
            assert("m4a"@[0] != "aac"@[0]);
            assert("m4a"@[1] != "mp3"@[1]);
            assert("m4a"@[0] != "ogg"@[0]);
            assert("m4a"@[0] != "oga"@[0]);
            assert("m4a"@[0] != "wav"@[0]);
            assert("m4a"@[0] != "aif"@[0]);
        },
        AudioFormat::Mp3 => {
            assert("mp3"@[0] != "aac"@[0]);
            assert("mp3"@[1] != "m4a"@[1]);
            assert("mp3"@[0] != "ogg"@[0]);
            assert("mp3"@[0] != "oga"@[0]);
            assert("mp3"@[0] != "wav"@[0]);
            assert("mp3"@[0] != "aif"@[0]);
        },
        AudioFormat::Opus => {
            assert("ogg"@[0] != "aac"@[0]);
            assert("ogg"@[0] != "m4a"@[0]);
            assert("ogg"@[0] != "mp3"@[0]);
            assert("ogg"@[2] != "oga"@[2]);
            assert("ogg"@[0] != "wav"@[0]);
            assert("ogg"@[0] != "aif"@[0]);
        },
        AudioFormat::Wav => {
            assert("wav"@[0] != "aac"@[0]);
            assert("wav"@[0] != "m4a"@[0]);
            assert("wav"@[0] != "mp3"@[0]);
            assert("wav"@[0] != "ogg"@[0]);
            assert("wav"@[0] != "oga"@[0]);
            assert("wav"@[0] != "aif"@[0]);
        },
        AudioFormat::Flac => {
            assert("flac"@[0] != "opus"@[0]);
            assert("flac"@[0] != "aiff"@[0]);
        },
        AudioFormat::Aiff => {
            assert("aiff"@[0] != "opus"@[0]);
            assert("aiff"@[0] != "flac"@[0]);
        },
        AudioFormat::SameAsInput => {},
    }
}

/// The names a format is known by besides its file extension: its codec's
/// name (`aac`, `opus`) and other extensions it is stored under (`oga`,
/// `aif`).
pub open spec fn format_aliases(f: AudioFormat) -> Seq<Seq<char>> {
    match f {
        AudioFormat::Aac => seq!["aac"@],
        AudioFormat::Opus => seq!["opus"@, "oga"@],
        AudioFormat::Aiff => seq!["aif"@],
        _ => Seq::empty(),
    }
}

proof fn lemma_named_values()
    ensures
        audio_format_named("aac"@) == Some(AudioFormat::Aac),
        audio_format_named("m4a"@) == Some(AudioFormat::Aac),
        audio_format_named("mp3"@) == Some(AudioFormat::Mp3),
        audio_format_named("opus"@) == Some(AudioFormat::Opus),
        audio_format_named("ogg"@) == Some(AudioFormat::Opus),
        audio_format_named("oga"@) == Some(AudioFormat::Opus),
        audio_format_named("wav"@) == Some(AudioFormat::Wav),
        audio_format_named("flac"@) == Some(AudioFormat::Flac),
        audio_format_named("aiff"@) == Some(AudioFormat::Aiff),
        audio_format_named("aif"@) == Some(AudioFormat::Aiff),
{

    reveal_strlit("aac");
    reveal_strlit("m4a");
    reveal_strlit("mp3");
    reveal_strlit("opus");
    reveal_strlit("ogg");
    reveal_strlit("oga");
    reveal_strlit("wav");
    reveal_strlit("flac");
    reveal_strlit("aiff");
    reveal_strlit("aif");
    reveal_strlit("");
    assert("m4a"@ != "aac"@) by {
        assert("m4a"@[0] != "aac"@[0]);
    }
    assert("mp3"@ != "aac"@) by {
        assert("mp3"@[0] != "aac"@[0]);
    }
    assert("mp3"@ != "m4a"@) by {
        assert("mp3"@[1] != "m4a"@[1]);
    }
    assert("ogg"@ != "aac"@) by {
        assert("ogg"@[0] != "aac"@[0]);
    }
    assert("ogg"@ != "m4a"@) by {
        assert("ogg"@[0] != "m4a"@[0]);
    }
    assert("ogg"@ != "mp3"@) by {
        assert("ogg"@[0] != "mp3"@[0]);
    }
    assert("oga"@ != "aac"@) by {
        assert("oga"@[0] != "aac"@[0]);
    }
    assert("oga"@ != "m4a"@) by {
        assert("oga"@[0] != "m4a"@[0]);
    }
    assert("oga"@ != "mp3"@) by {
        assert("oga"@[0] != "mp3"@[0]);
    }
    assert("oga"@ != "ogg"@) by {
        assert("oga"@[2] != "ogg"@[2]);
    }
    assert("wav"@ != "aac"@) by {
        assert("wav"@[0] != "aac"@[0]);
    }
    assert("wav"@ != "m4a"@) by {
        assert("wav"@[0] != "m4a"@[0]);
    }
    assert("wav"@ != "mp3"@) by {
        assert("wav"@[0] != "mp3"@[0]);
    }
    assert("wav"@ != "ogg"@) by {
        assert("wav"@[0] != "ogg"@[0]);
    }
    assert("wav"@ != "oga"@) by {
        assert("wav"@[0] != "oga"@[0]);
    }
    assert("flac"@ != "opus"@) by {
        assert("flac"@[0] != "opus"@[0]);
    }
    assert("aiff"@ != "opus"@) by {
        assert("aiff"@[0] != "opus"@[0]);
    }
    assert("aiff"@ != "flac"@) by {
        assert("aiff"@[0] != "flac"@[0]);
    }
    assert("aif"@ != "aac"@) by {
        assert("aif"@[1] != "aac"@[1]);
    }
    assert("aif"@ != "m4a"@) by {
        assert("aif"@[0] != "m4a"@[0]);
    }
    assert("aif"@ != "mp3"@) by {
        assert("aif"@[0] != "mp3"@[0]);
    }
    assert("aif"@ != "ogg"@) by {
        assert("aif"@[0] != "ogg"@[0]);
    }
    assert("aif"@ != "oga"@) by {
        assert("aif"@[0] != "oga"@[0]);
    }
    assert("aif"@ != "wav"@) by {
        assert("aif"@[0] != "wav"@[0]);
    }
    assert("aac"@.len() == 3 && "m4a"@.len() == 3 && "mp3"@.len() == 3 && "ogg"@.len() == 3);
    assert("oga"@.len() == 3 && "wav"@.len() == 3 && "aif"@.len() == 3);
    assert("opus"@.len() == 4 && "flac"@.len() == 4 && "aiff"@.len() == 4);
}

/// A format's extension and its other names read as that format, and a
/// (lowercase) name reads as a format only when it is that format's
/// extension or one of its other names.
pub proof fn lemma_format_names(f: AudioFormat, t: Seq<char>)
    ensures
        f != AudioFormat::SameAsInput ==> audio_format_named(f.extension_of()) == Some(f),
        format_aliases(f).contains(t) ==> audio_format_named(t) == Some(f),
        audio_format_named(t) == Some(f) ==> t == f.extension_of() || format_aliases(f).contains(t),
{
    lemma_named_values();
    reveal_strlit("aac");
    reveal_strlit("m4a");
    reveal_strlit("mp3");
    reveal_strlit("opus");
    reveal_strlit("ogg");
    reveal_strlit("oga");
    reveal_strlit("wav");
    reveal_strlit("flac");
    reveal_strlit("aiff");
    reveal_strlit("aif");
    reveal_strlit("");
    let al = format_aliases(f);
    if al.contains(t) {
        let i = choose|i: int| 0 <= i < al.len() && al[i] == t;
        match f {
            AudioFormat::Aac => assert(t == "aac"@),
            AudioFormat::Opus => {
                assert(t == "opus"@ || t == "oga"@) by {
                    if i == 0 {} else {}
                }
            },
            AudioFormat::Aiff => assert(t == "aif"@),
            _ => {},
        }
    }
    if audio_format_named(t) == Some(f) {
        match f {
            AudioFormat::Aac => {
                if t == "aac"@ {
                    assert(al[0] == t);
                }
            },
            AudioFormat::Opus => {
                if t == "opus"@ {
                    assert(al[0] == t);
                } else if t == "oga"@ {
                    assert(al[1] == t);
                }
            },
            AudioFormat::Aiff => {
                if t == "aif"@ {
                    assert(al[0] == t);
                }
            },
            _ => {},
        }
    }
}

/// Different formats are stored under different extensions and encoded
/// with different ffmpeg encoders.
pub proof fn lemma_formats_distinct(f1: AudioFormat, f2: AudioFormat)
    requires
        f1 != f2,
        f1 != AudioFormat::SameAsInput,
        f2 != AudioFormat::SameAsInput,
    ensures
        f1.extension_of() != f2.extension_of(),
        f1.codec_of() != f2.codec_of(),
{
    reveal_strlit("m4a");
    reveal_strlit("mp3");
    reveal_strlit("ogg");
    reveal_strlit("wav");
    reveal_strlit("flac");
    reveal_strlit("aiff");
    reveal_strlit("aac_at");
    reveal_strlit("libmp3lame");
    reveal_strlit("libopus");
    reveal_strlit("pcm_s16le");
    reveal_strlit("pcm_s16be");
    let e1 = f1.extension_of();
    let e2 = f2.extension_of();
    if e1 == e2 {
        assert(e1[0] == e2[0] && e1[1] == e2[1] && e1.len() == e2.len());
    }
    let c1 = f1.codec_of();
    let c2 = f2.codec_of();
    if c1 == c2 {
        assert(c1.len() == c2.len() && c1[0] == c2[0]);
        if c1.len() == 9 {
            assert(c1[7] == c2[7]);
        }
    }
}

} // verus!
