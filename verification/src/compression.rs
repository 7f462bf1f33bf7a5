//! The `CompressionQuality` model.
//!
//! A single per-format "how hard do we compress" value: a named
//! [`CompressionTier`] plus a continuous `factor` from 5 (least compression /
//! best quality) to 100 (most compression / smallest file). 0 is the "Auto"
//! sentinel for video.
//!
//! The factor-to-parameter mappings translate a single percentage into the
//! native quality knobs each tool exposes (jpegoptim --max, pngquant
//! --quality, gifsicle -O/--lossy, libx264 CRF/preset, audio bitrate). Every
//! mapping is a straight line through two anchors, rounded half away from
//! zero and clamped to the tool's range; here the rounding is done exactly in
//! integers.

use vstd::prelude::*;

use crate::text::{int_string, int_text, push_int, push_str, string_of};

verus! {

/// Named factor anchor of the "normal" preset.
pub const COMPRESSION_FACTOR_NORMAL: i32 = 30;

/// Named factor anchor of the "aggressive" preset.
pub const COMPRESSION_FACTOR_AGGRESSIVE: i32 = 64;

/// `v` limited to `lo..=hi`.
pub open spec fn clamp(v: int, lo: int, hi: int) -> int {
    if v < lo {
        lo
    } else if v > hi {
        hi
    } else {
        v
    }
}

/// `n / d` rounded to the nearest integer, halves away from zero (what
/// `f64::round` does). `d` is positive.
pub open spec fn round_div(n: int, d: int) -> int {
    if n >= 0 {
        (2 * n + d) / (2 * d)
    } else {
        -((2 * (-n) + d) / (2 * d))
    }
}

pub(crate) fn round_div_exec(n: i64, d: i64) -> (r: i64)
    requires
        0 < d <= 1_000_000,
        -1_000_000_000_000i64 <= n <= 1_000_000_000_000i64,
    ensures
        r == round_div(n as int, d as int),
        -1_000_000_000_000i64 <= r <= 1_000_000_000_000i64,
{
    if n >= 0 {
        assert((2 * n + d) / (2 * d) <= n) by (nonlinear_arith)
            requires n >= 0, d > 0;
        (2 * n + d) / (2 * d)
    } else {
        assert((2 * (-n) + d) / (2 * d) <= -n) by (nonlinear_arith)
            requires n < 0, d > 0;
        -((2 * (-n) + d) / (2 * d))
    }
}

pub(crate) fn clamp_exec(v: i64, lo: i64, hi: i64) -> (r: i64)
    requires
        lo <= hi,
    ensures
        r == clamp(v as int, lo as int, hi as int),
{
    if v < lo {
        lo
    } else if v > hi {
        hi
    } else {
        v
    }
}

#[derive(Debug, Clone, Copy, PartialEq, Eq, Structural)]
pub enum CompressionTier {
    /// Visually lossless.
    Lossless,
    /// Adaptive cross-test between normal and aggressive.
    Adaptive,
    /// Video only: hardware VideoToolbox encoder.
    Fast,
    /// Video only: efficient software encoder.
    Smaller,
    /// Pure-factor mode (no named anchor).
    Custom,
}

impl Default for CompressionTier {
    fn default() -> (r: Self)
        ensures
            r == CompressionTier::Custom,
    {
        CompressionTier::Custom
    }
}

#[derive(Debug, Clone, Copy, PartialEq, Eq, Structural)]
pub struct CompressionQuality {
    pub tier: CompressionTier,
    pub factor: i32,
}

impl Default for CompressionQuality {
    fn default() -> (r: Self)
        ensures
            r == (CompressionQuality { tier: CompressionTier::Custom, factor: 50 }),
    {
        Self::new(CompressionTier::Custom, 50)
    }
}

/// jpegoptim `--max`: 85 at factor 30, falling by 55 over the next 70 points.
pub open spec fn jpeg_max_quality_of(f: int) -> int {
    clamp(round_div(85 * 70 - (f - 30) * 55, 70), 25, 95)
}

/// jpegoptim `--max` for the old-binary fallback: 90 at factor 30, falling
/// by 60 over the next 70 points.
pub open spec fn jpeg_secondary_max_quality_of(f: int) -> int {
    clamp(round_div(90 * 70 - (f - 30) * 60, 70), 25, 97)
}

/// pngquant quality ceiling: 100 at factor 30, falling by 75 over 70 points.
pub open spec fn pngquant_max_of(f: int) -> int {
    clamp(round_div(100 * 70 - (f - 30) * 75, 70), 25, 100)
}

pub open spec fn pngquant_speed_of(f: int) -> int {
    if f < 40 {
        4
    } else if f < 60 {
        3
    } else if f < 85 {
        2
    } else {
        1
    }
}

pub open spec fn gifsicle_level_of(f: int) -> int {
    if f >= 50 {
        3
    } else if f >= 20 {
        2
    } else {
        1
    }
}

/// gifsicle `--lossy`: 30 at factor 30, rising by 50 over 34 points.
pub open spec fn gifsicle_lossy_of(f: int) -> int {
    clamp(round_div(30 * 34 + (f - 30) * 50, 34), 0, 200)
}

/// gifsicle `--colors` (factor >= 50): 256 at 50, falling by 192 over 50 points.
pub open spec fn gifsicle_colors_of(f: int) -> int {
    clamp(round_div(256 * 50 - (f - 50) * 192, 50), 32, 256)
}

/// The gifsicle arguments for factor `f`.
pub open spec fn gifsicle_args_of(f: int) -> Seq<Seq<char>> {
    let base = seq![
        "-O"@ + int_text(gifsicle_level_of(f)),
        "--lossy="@ + int_text(gifsicle_lossy_of(f)),
    ];
    if f >= 50 {
        base.push("--colors="@ + int_text(gifsicle_colors_of(f)))
    } else {
        base
    }
}

/// cwebp / heif-enc `-q`: 75 minus half the factor, within `20..=hi`.
pub open spec fn conversion_quality_of(f: int, hi: int) -> int {
    clamp(round_div(150 - f, 2), 20, hi)
}

pub open spec fn jxl_effort_of(f: int) -> int {
    if f >= 70 {
        9
    } else if f >= 50 {
        8
    } else {
        7
    }
}

/// The factor with 5 as its floor, the start of the video ramps.
pub open spec fn video_ramp(f: int) -> int {
    if f < 5 {
        0
    } else {
        f - 5
    }
}

/// libx264 CRF: 18 at factor 5 rising by 12 over 95 points, within 17..=32.
pub open spec fn video_h264_crf_of(f: int) -> int {
    clamp(18 + round_div(video_ramp(f) * 12, 95), 17, 32)
}

/// VideoToolbox `-q:v`: 70 at factor 5 falling by 45 over 95 points.
pub open spec fn video_toolbox_q_of(f: int) -> int {
    clamp(round_div(70 * 95 - video_ramp(f) * 45, 95), 25, 75)
}

pub open spec fn video_h264_preset_of(f: int) -> Seq<char> {
    if f < 20 {
        "veryfast"@
    } else if f < 40 {
        "fast"@
    } else if f < 60 {
        "medium"@
    } else if f < 85 {
        "slow"@
    } else {
        "slower"@
    }
}

/// The ffmpeg encoder arguments of the default H.264 encode.
pub open spec fn video_h264_args_of(tier: CompressionTier, f: int, arm: bool) -> Seq<Seq<char>> {
    let h264 = seq!["-vcodec"@, "h264"@, "-tag:v"@, "avc1"@];
    match tier {
        CompressionTier::Lossless => h264 + seq!["-crf"@, "17"@],
        CompressionTier::Fast => {
            if arm {
                seq![
                    "-vcodec"@,
                    "h264_videotoolbox"@,
                    "-q:v"@,
                    int_text(video_toolbox_q_of(f)),
                    "-tag:v"@,
                    "avc1"@,
                ]
            } else if f <= 0 {
                h264 + seq!["-preset"@, "veryfast"@]
            } else {
                h264 + seq!["-preset"@, "veryfast"@, "-crf"@, int_text(video_h264_crf_of(f))]
            }
        },
        _ => {
            if f <= 0 {
                h264 + seq!["-preset"@, "slower"@]
            } else {
                h264 + seq![
                    "-preset"@,
                    video_h264_preset_of(f),
                    "-crf"@,
                    int_text(video_h264_crf_of(f)),
                ]
            }
        },
    }
}

/// The views of a vector of strings.
pub open spec fn views(v: Seq<String>) -> Seq<Seq<char>> {
    v.map_values(|s: String| s@)
}

pub(crate) fn str_vec_push(v: &mut Vec<String>, s: &str)
    ensures
        views(final(v)@) == views(old(v)@).push(s@),
{
    v.push(s.to_string());
    assert(views(v@) =~= views(old(v)@).push(s@));
}

pub(crate) fn string_vec_push(v: &mut Vec<String>, s: String)
    ensures
        views(final(v)@) == views(old(v)@).push(s@),
{
    let ghost sv = s@;
    v.push(s);
    assert(views(v@) =~= views(old(v)@).push(sv));
}

/// `prefix` followed by the decimal rendering of `n`.
pub(crate) fn prefixed_int(prefix: &str, n: i64) -> (s: String)
    ensures
        s@ == prefix@ + int_text(n as int),
{
    let mut v: Vec<char> = Vec::new();
    push_str(&mut v, prefix);
    push_int(&mut v, n);
    assert(v@ =~= prefix@ + int_text(n as int));
    string_of(v)
}

impl CompressionQuality {
    pub fn new(tier: CompressionTier, factor: i32) -> (r: Self)
        ensures
            r.tier == tier,
            r.factor == clamp(factor as int, 0, 100),
    {
        // 0 is a valid sentinel for "Auto".
        Self { tier, factor: clamp_exec(factor as i64, 0, 100) as i32 }
    }

    pub fn factor(factor: i32) -> (r: Self)
        ensures
            r.tier == CompressionTier::Custom,
            r.factor == clamp(factor as int, 0, 100),
    {
        Self::new(CompressionTier::Custom, factor)
    }

    pub fn normal() -> (r: Self)
        ensures
            r == (CompressionQuality { tier: CompressionTier::Custom, factor: 30 }),
    {
        Self::factor(COMPRESSION_FACTOR_NORMAL)
    }

    pub fn aggressive() -> (r: Self)
        ensures
            r == (CompressionQuality { tier: CompressionTier::Custom, factor: 64 }),
    {
        Self::factor(COMPRESSION_FACTOR_AGGRESSIVE)
    }

    /// The "normal" preset.
    pub open spec fn spec_normal() -> Self {
        CompressionQuality { tier: CompressionTier::Custom, factor: 30 }
    }

    /// Whether this resolves to the "aggressive" preset.
    pub open spec fn is_aggressive(self) -> bool {
        self.tier != CompressionTier::Adaptive && self.factor >= 50
    }

    /// Whether this resolves to the "aggressive" preset.
    pub fn image_is_aggressive(&self) -> (r: bool)
        ensures
            r == self.is_aggressive(),
    {
        self.tier != CompressionTier::Adaptive && self.factor >= 50
    }

    /// jpegoptim --max quality ceiling. factor 30 -> 85, ramping to 30 at max.
    pub fn jpeg_max_quality(&self) -> (r: i32)
        requires
            self.factor >= i32::MIN + 30,
        ensures
            r == jpeg_max_quality_of(self.factor as int),
    {
        let n = 85 * 70 - ((self.factor as i64) - 30) * 55;
        clamp_exec(round_div_exec(n, 70), 25, 95) as i32
    }

    /// jpegoptim --max for the old-binary fallback / adaptive cross-test.
    pub fn jpeg_secondary_max_quality(&self) -> (r: i32)
        requires
            self.factor >= i32::MIN + 30,
        ensures
            r == jpeg_secondary_max_quality_of(self.factor as int),
    {
        let n = 90 * 70 - ((self.factor as i64) - 30) * 60;
        clamp_exec(round_div_exec(n, 70), 25, 97) as i32
    }

    /// pngquant --quality string "0-MAX".
    pub fn pngquant_quality(&self) -> (r: String)
        requires
            self.factor >= i32::MIN + 30,
        ensures
            r@ == "0-"@ + int_text(pngquant_max_of(self.factor as int)),
    {
        let n = 100 * 70 - ((self.factor as i64) - 30) * 75;
        let max = clamp_exec(round_div_exec(n, 70), 25, 100);
        prefixed_int("0-", max)
    }

    /// pngquant --speed (1 = slowest/best, 11 = fastest).
    pub fn pngquant_speed(&self) -> (r: i32)
        ensures
            r == pngquant_speed_of(self.factor as int),
    {
        let f = self.factor;
        if f < 40 {
            4
        } else if f < 60 {
            3
        } else if f < 85 {
            2
        } else {
            1
        }
    }

    /// gifsicle args. factor 30 -> -O2 --lossy=30; 64 -> -O3 --lossy=80 --colors=N.
    pub fn gifsicle_args(&self) -> (args: Vec<String>)
        requires
            self.factor >= i32::MIN + 30,
        ensures
            views(args@) == gifsicle_args_of(self.factor as int),
    {
        let f = self.factor as i64;
        let o_level: i64 = if f >= 50 {
            3
        } else if f >= 20 {
            2
        } else {
            1
        };
        let lossy = clamp_exec(round_div_exec(30 * 34 + (f - 30) * 50, 34), 0, 200);
        let mut args: Vec<String> = Vec::new();
        string_vec_push(&mut args, prefixed_int("-O", o_level));
        string_vec_push(&mut args, prefixed_int("--lossy=", lossy));
        if f >= 50 {
            let colors = clamp_exec(round_div_exec(256 * 50 - (f - 50) * 192, 50), 32, 256);
            string_vec_push(&mut args, prefixed_int("--colors=", colors));
        }
        assert(views(args@) =~= gifsicle_args_of(self.factor as int));
        args
    }

    /// cwebp / heif-enc -q quality (0-100). factor 30 -> 60.
    pub fn conversion_quality(&self) -> (r: i32)
        ensures
            r == conversion_quality_of(self.factor as int, 90),
    {
        clamp_exec(round_div_exec(150 - (self.factor as i64), 2), 20, 90) as i32
    }

    /// JXLCoder quality (0-100). factor 30 -> 60.
    pub fn jxl_quality(&self) -> (r: i32)
        ensures
            r == conversion_quality_of(self.factor as int, 95),
    {
        clamp_exec(round_div_exec(150 - (self.factor as i64), 2), 20, 95) as i32
    }

    /// JXLCoder effort (1-9).
    pub fn jxl_effort(&self) -> (r: i32)
        ensures
            r == jxl_effort_of(self.factor as int),
    {
        if self.factor >= 70 {
            9
        } else if self.factor >= 50 {
            8
        } else {
            7
        }
    }

    /// libx264 CRF for the software path. factor 5 -> 18, 100 -> 30; 50 ≈ 24.
    pub fn video_h264_crf(&self) -> (r: i32)
        ensures
            r == video_h264_crf_of(self.factor as int),
    {
        let ramp: i64 = if self.factor < 5 {
            0
        } else {
            (self.factor as i64) - 5
        };
        clamp_exec(18 + round_div_exec(ramp * 12, 95), 17, 32) as i32
    }

    /// Whether the software encoder lets ffmpeg pick the CRF (factor 0 = Auto).
    pub fn video_uses_auto_crf(&self) -> (r: bool)
        ensures
            r == (self.factor <= 0),
    {
        self.factor <= 0
    }

    /// libx264 -preset chosen from the compression percentage.
    pub fn video_h264_preset(&self) -> (r: &'static str)
        ensures
            r@ == video_h264_preset_of(self.factor as int),
    {
        let f = self.factor;
        if f < 20 {
            "veryfast"
        } else if f < 40 {
            "fast"
        } else if f < 60 {
            "medium"
        } else if f < 85 {
            "slow"
        } else {
            "slower"
        }
    }

    /// ffmpeg encoder args for the default H.264 encode.
    ///
    /// `arm` toggles the VideoToolbox hardware path used on Apple Silicon for
    /// the `Fast` tier.
    pub fn video_h264_args(&self, arm: bool) -> (args: Vec<String>)
        ensures
            views(args@) == video_h264_args_of(self.tier, self.factor as int, arm),
    {
        let mut args: Vec<String> = Vec::new();
        match self.tier {
            CompressionTier::Lossless => {
                str_vec_push(&mut args, "-vcodec");
                str_vec_push(&mut args, "h264");
                str_vec_push(&mut args, "-tag:v");
                str_vec_push(&mut args, "avc1");
                str_vec_push(&mut args, "-crf");
                str_vec_push(&mut args, "17");
            },
            CompressionTier::Fast => {
                if arm {
                    let ramp: i64 = if self.factor < 5 {
                        0
                    } else {
                        (self.factor as i64) - 5
                    };
                    let q = clamp_exec(round_div_exec(70 * 95 - ramp * 45, 95), 25, 75);
                    str_vec_push(&mut args, "-vcodec");
                    str_vec_push(&mut args, "h264_videotoolbox");
                    str_vec_push(&mut args, "-q:v");
                    string_vec_push(&mut args, int_string(q));
                    str_vec_push(&mut args, "-tag:v");
                    str_vec_push(&mut args, "avc1");
                } else {
                    str_vec_push(&mut args, "-vcodec");
                    str_vec_push(&mut args, "h264");
                    str_vec_push(&mut args, "-tag:v");
                    str_vec_push(&mut args, "avc1");
                    str_vec_push(&mut args, "-preset");
                    str_vec_push(&mut args, "veryfast");
                    if !self.video_uses_auto_crf() {
                        str_vec_push(&mut args, "-crf");
                        string_vec_push(&mut args, int_string(self.video_h264_crf() as i64));
                    }
                }
            },
            // .smaller / .custom / .adaptive -> efficient software libx264
            _ => {
                str_vec_push(&mut args, "-vcodec");
                str_vec_push(&mut args, "h264");
                str_vec_push(&mut args, "-tag:v");
                str_vec_push(&mut args, "avc1");
                str_vec_push(&mut args, "-preset");
                if self.video_uses_auto_crf() {
                    str_vec_push(&mut args, "slower");
                } else {
                    str_vec_push(&mut args, self.video_h264_preset());
                    str_vec_push(&mut args, "-crf");
                    string_vec_push(&mut args, int_string(self.video_h264_crf() as i64));
                }
            },
        }
        assert(views(args@) =~= video_h264_args_of(self.tier, self.factor as int, arm));
        args
    }
}

/// Rounding a quotient keeps the order of the numerators.
pub proof fn lemma_round_div_monotone(n1: int, n2: int, d: int)
    requires
        n1 <= n2,
        d > 0,
    ensures
        round_div(n1, d) <= round_div(n2, d),
{
    if n1 >= 0 {
        vstd::arithmetic::div_mod::lemma_div_is_ordered(2 * n1 + d, 2 * n2 + d, 2 * d);
    } else if n2 >= 0 {
        vstd::arithmetic::div_mod::lemma_div_pos_is_pos(2 * (-n1) + d, 2 * d);
        vstd::arithmetic::div_mod::lemma_div_pos_is_pos(2 * n2 + d, 2 * d);
    } else {
        vstd::arithmetic::div_mod::lemma_div_is_ordered(2 * (-n2) + d, 2 * (-n1) + d, 2 * d);
    }
}

/// A higher factor never compresses less: every quality ceiling and quality
/// value goes down (or stays), every lossiness, effort, level and CRF goes
/// up (or stays), and pngquant's speed setting goes down (or stays).
pub proof fn lemma_more_compression(f1: int, f2: int)
    requires
        f1 <= f2,
    ensures
        jpeg_max_quality_of(f2) <= jpeg_max_quality_of(f1),
        jpeg_secondary_max_quality_of(f2) <= jpeg_secondary_max_quality_of(f1),
        pngquant_max_of(f2) <= pngquant_max_of(f1),
        pngquant_speed_of(f2) <= pngquant_speed_of(f1),
        gifsicle_level_of(f1) <= gifsicle_level_of(f2),
        gifsicle_lossy_of(f1) <= gifsicle_lossy_of(f2),
        f1 >= 50 ==> gifsicle_colors_of(f2) <= gifsicle_colors_of(f1),
        conversion_quality_of(f2, 90) <= conversion_quality_of(f1, 90),
        conversion_quality_of(f2, 95) <= conversion_quality_of(f1, 95),
        jxl_effort_of(f1) <= jxl_effort_of(f2),
        video_h264_crf_of(f1) <= video_h264_crf_of(f2),
        video_toolbox_q_of(f2) <= video_toolbox_q_of(f1),
{
    lemma_round_div_monotone(85 * 70 - (f2 - 30) * 55, 85 * 70 - (f1 - 30) * 55, 70);
    lemma_round_div_monotone(90 * 70 - (f2 - 30) * 60, 90 * 70 - (f1 - 30) * 60, 70);
    lemma_round_div_monotone(100 * 70 - (f2 - 30) * 75, 100 * 70 - (f1 - 30) * 75, 70);
    lemma_round_div_monotone(30 * 34 + (f1 - 30) * 50, 30 * 34 + (f2 - 30) * 50, 34);
    lemma_round_div_monotone(256 * 50 - (f2 - 50) * 192, 256 * 50 - (f1 - 50) * 192, 50);
    lemma_round_div_monotone(150 - f2, 150 - f1, 2);
    assert(video_ramp(f1) <= video_ramp(f2));
    lemma_round_div_monotone(video_ramp(f1) * 12, video_ramp(f2) * 12, 95);
    lemma_round_div_monotone(70 * 95 - video_ramp(f2) * 45, 70 * 95 - video_ramp(f1) * 45, 95);
}

/// The pngquant quality ceiling follows its ramp: 100 up to factor 30, 25
/// from factor 100 on, always within `25..=100`; in between it is the line
/// from 100 down to 25 rounded to the nearest whole number (within half a
/// point), and every harder factor gets a strictly lower ceiling.
pub proof fn lemma_pngquant_ramp(f1: int, f2: int)
    ensures
        25 <= pngquant_max_of(f1) <= 100,
        f1 <= 30 ==> pngquant_max_of(f1) == 100,
        f1 >= 100 ==> pngquant_max_of(f1) == 25,
        30 <= f1 <= 100 ==> 70 * pngquant_max_of(f1) <= 100 * 70 - (f1 - 30) * 75 + 35 && 100 * 70 - (f1 - 30) * 75
            <= 70 * pngquant_max_of(f1) + 35,
        30 <= f1 < f2 <= 100 ==> pngquant_max_of(f1) > pngquant_max_of(f2),
{
    let n1 = 100 * 70 - (f1 - 30) * 75;
    let n2 = 100 * 70 - (f2 - 30) * 75;
    if n1 >= 0 {
        let q1 = (2 * n1 + 70) / 140;
        assert(140 * q1 <= 2 * n1 + 70 && 2 * n1 + 70 < 140 * q1 + 140);
    }
    if n2 >= 0 {
        let q2 = (2 * n2 + 70) / 140;
        assert(140 * q2 <= 2 * n2 + 70 && 2 * n2 + 70 < 140 * q2 + 140);
    }
}

/// Rounding to the nearest whole number lands within half a unit:
/// `|2 * d * round_div(n, d) - 2 * n| <= d`.
pub proof fn lemma_round_close(n: int, d: int)
    requires
        d > 0,
    ensures
        2 * d * round_div(n, d) <= 2 * n + d,
        2 * n <= 2 * d * round_div(n, d) + d,
{
    if n >= 0 {
        let q = (2 * n + d) / (2 * d);
        assert(2 * d * q <= 2 * n + d && 2 * n + d < 2 * d * q + 2 * d) by (nonlinear_arith)
            requires
                d > 0,
                q == (2 * n + d) / (2 * d),
        ;
    } else {
        let m = -n;
        let q = (2 * m + d) / (2 * d);
        assert(2 * d * q <= 2 * m + d && 2 * m + d < 2 * d * q + 2 * d) by (nonlinear_arith)
            requires
                d > 0,
                m > 0,
                q == (2 * m + d) / (2 * d),
        ;
        assert(round_div(n, d) == -q);
        assert(2 * d * (-q) == -(2 * d * q)) by (nonlinear_arith);
    }
}

/// `v` follows the line `n / d` rounded to the nearest whole number, held
/// within `lo..=hi`: the bound where the line leaves the range, and within
/// half a point of the line inside it.
pub open spec fn follows_line(v: int, n: int, d: int, lo: int, hi: int) -> bool {
    if n < d * lo {
        v == lo
    } else if n > d * hi {
        v == hi
    } else {
        2 * d * v <= 2 * n + d && 2 * n <= 2 * d * v + d
    }
}

proof fn lemma_clamped_round(n: int, d: int, lo: int, hi: int)
    requires
        d > 0,
        lo <= hi,
    ensures
        follows_line(clamp(round_div(n, d), lo, hi), n, d, lo, hi),
{
    lemma_round_close(n, d);
    let r = round_div(n, d);
    if n < d * lo {
        assert(r <= lo) by (nonlinear_arith)
            requires
                d > 0,
                2 * d * r <= 2 * n + d,
                n < d * lo,
        ;
    } else if n > d * hi {
        assert(r >= hi) by (nonlinear_arith)
            requires
                d > 0,
                2 * n <= 2 * d * r + d,
                n > d * hi,
        ;
    } else {
        assert(lo <= r <= hi) by (nonlinear_arith)
            requires
                d > 0,
                2 * d * r <= 2 * n + d,
                2 * n <= 2 * d * r + d,
                d * lo <= n <= d * hi,
        ;
    }
}

/// Every quality ramp follows its documented line, rounded to the nearest
/// whole number and held within its range:
/// jpegoptim `--max` 85 at factor 30, falling by 55 over 70 points, in
/// `25..=95`; the fallback `--max` 90 at 30, falling by 60 over 70, in
/// `25..=97`; gifsicle `--lossy` 30 at 30, rising by 50 over 34, in
/// `0..=200`; gifsicle `--colors` 256 at 50, falling by 192 over 50, in
/// `32..=256`; cwebp / heif-enc quality 75 minus half the factor, in
/// `20..=hi`; x264 CRF 18 at factor 5 (and below), rising by 12 over 95, in
/// `17..=32`; VideoToolbox quality 70 at factor 5 (and below), falling by 45
/// over 95, in `25..=75`.
pub proof fn lemma_quality_ramps(f: int, hi: int)
    requires
        hi >= 20,
    ensures
        follows_line(jpeg_max_quality_of(f), 85 * 70 - (f - 30) * 55, 70, 25, 95),
        follows_line(jpeg_secondary_max_quality_of(f), 90 * 70 - (f - 30) * 60, 70, 25, 97),
        follows_line(gifsicle_lossy_of(f), 30 * 34 + (f - 30) * 50, 34, 0, 200),
        follows_line(gifsicle_colors_of(f), 256 * 50 - (f - 50) * 192, 50, 32, 256),
        follows_line(conversion_quality_of(f, hi), 150 - f, 2, 20, hi),
        follows_line(video_h264_crf_of(f), 18 * 95 + (if f < 5 { 0 } else { f - 5 }) * 12, 95, 17, 32),
        follows_line(video_toolbox_q_of(f), 70 * 95 - (if f < 5 { 0 } else { f - 5 }) * 45, 95, 25, 75),
{
    lemma_clamped_round(85 * 70 - (f - 30) * 55, 70, 25, 95);
    lemma_clamped_round(90 * 70 - (f - 30) * 60, 70, 25, 97);
    lemma_clamped_round(30 * 34 + (f - 30) * 50, 34, 0, 200);
    lemma_clamped_round(256 * 50 - (f - 50) * 192, 50, 32, 256);
    lemma_clamped_round(150 - f, 2, 20, hi);
    let x = video_ramp(f) * 12;
    assert(x >= 0);
    vstd::arithmetic::div_mod::lemma_hoist_over_denominator(2 * x + 95, 18, 190);
    assert(2 * (18 * 95 + x) + 95 == (2 * x + 95) + 18 * 190);
    assert(18 + round_div(x, 95) == round_div(18 * 95 + x, 95));
    lemma_clamped_round(18 * 95 + x, 95, 17, 32);
    lemma_clamped_round(70 * 95 - video_ramp(f) * 45, 95, 25, 75);
}

/// The stepped settings span their whole range: at the gentlest factors
/// pngquant runs at speed 4, gifsicle at `-O1`, JPEG XL at effort 7 and x264
/// with the `veryfast` preset; from factor 85 on pngquant runs at speed 1,
/// gifsicle at `-O3`, JPEG XL at effort 9 and x264 with `slower`.
pub proof fn lemma_step_settings_span(f: int)
    ensures
        f < 20 ==> pngquant_speed_of(f) == 4 && gifsicle_level_of(f) == 1 && jxl_effort_of(f) == 7
            && video_h264_preset_of(f) == "veryfast"@,
        f >= 85 ==> pngquant_speed_of(f) == 1 && gifsicle_level_of(f) == 3 && jxl_effort_of(f) == 9
            && video_h264_preset_of(f) == "slower"@,
{
}

} // verus!
