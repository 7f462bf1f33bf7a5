//! Video: the ffmpeg arguments of each encode, codec choice and HDR
//! detection from ffmpeg's stream banner.

use vstd::prelude::*;

use crate::compression::{
    clamp, round_div, round_div_exec, str_vec_push, string_vec_push, video_h264_args_of,
    video_h264_crf_of, video_h264_preset_of, video_ramp, views, CompressionQuality,
};
use crate::paths::{no_separator, path_with_extension, with_extension};
use crate::result::{OptimiseOptions, Placement};
use crate::text::{chars_eq, chars_of, contains_in, int_string, int_text, lower, push_int, push_str, seq_contains, string_of, to_lower};

verus! {

/// Tone-maps HDR (PQ / HLG, BT.2020) to SDR BT.709 in 8 bits. H.264 output
/// is always 8-bit 4:2:0, and squeezing an iPhone HDR clip into that without
/// tone-mapping leaves it grey and washed out (or wrongly tagged as HDR).
///
/// Mobius keeps tones up to the knee (`param`) linear, so normally exposed
/// footage keeps its brightness, and rolls highlights off smoothly above it.
pub const HDR_TO_SDR: &'static str = "zscale=t=linear:npl=100,format=gbrpf32le,zscale=p=bt709,tonemap=tonemap=mobius:param=0.5:desat=0,zscale=t=bt709:m=bt709:r=tv,format=yuv420p";

/// The ffmpeg output arguments of the metadata policy.
pub open spec fn metadata_args_of(strip_metadata: bool, strip_location: bool) -> Seq<Seq<char>> {
    if strip_metadata {
        seq!["-map_metadata"@, "-1"@]
    } else if strip_location {
        seq![
            "-metadata"@,
            "location="@,
            "-metadata"@,
            "location-eng="@,
            "-metadata"@,
            "com.apple.quicktime.location.ISO6709="@,
        ]
    } else {
        seq![]
    }
}

/// ffmpeg output args for the metadata policy: `--strip-metadata` drops all
/// global metadata; `--strip-location` blanks only where it was recorded
/// (QuickTime/MP4 `location` and Apple's ISO 6709 key).
pub fn metadata_args(options: &OptimiseOptions) -> (args: Vec<String>)
    ensures
        views(args@) == metadata_args_of(options.strip_metadata, options.strip_location),
{
    let mut args: Vec<String> = Vec::new();
    if options.strip_metadata {
        str_vec_push(&mut args, "-map_metadata");
        str_vec_push(&mut args, "-1");
    } else if options.strip_location {
        str_vec_push(&mut args, "-metadata");
        str_vec_push(&mut args, "location=");
        str_vec_push(&mut args, "-metadata");
        str_vec_push(&mut args, "location-eng=");
        str_vec_push(&mut args, "-metadata");
        str_vec_push(&mut args, "com.apple.quicktime.location.ISO6709=");
    }
    assert(views(args@) =~= metadata_args_of(options.strip_metadata, options.strip_location));
    args
}

/// `s[i..j]` is a line of `s`: it starts at the beginning or after a
/// newline, ends at the end or before a newline, and holds no newline.
pub open spec fn is_line(s: Seq<char>, i: int, j: int) -> bool {
    &&& 0 <= i <= j <= s.len()
    &&& (i == 0 || s[i - 1] == '\n')
    &&& (j == s.len() || s[j] == '\n')
    &&& forall|k: int| i <= k < j ==> s[k] != '\n'
}

/// A banner line that describes a video stream with a PQ or HLG transfer.
pub open spec fn hdr_line(l: Seq<char>) -> bool {
    seq_contains(l, "Video:"@) && (seq_contains(l, "smpte2084"@) || seq_contains(l, "arib-std-b67"@))
}

/// Some line of `s` describes an HDR video stream.
pub open spec fn describes_hdr_of(s: Seq<char>) -> bool {
    exists|i: int, j: int| is_line(s, i, j) && hdr_line(#[trigger] s.subrange(i, j))
}

/// Whether ffmpeg's stream banner (its `-i` output) shows an HDR video
/// stream, i.e. a PQ (`smpte2084`) or HLG (`arib-std-b67`) transfer.
pub fn describes_hdr(ffmpeg_stderr: &str) -> (r: bool)
    ensures
        r == describes_hdr_of(ffmpeg_stderr@),
{
    let s = chars_of(ffmpeg_stderr);
    let n = s.len();
    let mut start: usize = 0;
    let mut p: usize = 0;
    while p < n
        invariant
            n == s@.len(),
            s@ == ffmpeg_stderr@,
            start <= p <= n,
            start == 0 || s@[start - 1] == '\n',
            forall|k: int| start <= k < p ==> s@[k] != '\n',
            forall|i: int, j: int|
                is_line(s@, i, j) && i < start ==> !hdr_line(#[trigger] s@.subrange(i, j)),
        decreases n - p,
    {
        if s[p] == '\n' {
            if line_is_hdr(&s, start, p) {
                return true;
            }
            proof {
                lemma_line_checked(s@, start as int, p as int);
            }
            start = p + 1;
        }
        p = p + 1;
    }
    let hit = line_is_hdr(&s, start, n);
    proof {
        if !hit {
            lemma_line_checked(s@, start as int, n as int);
            assert forall|i: int, j: int| is_line(s@, i, j) implies !hdr_line(#[trigger] s@.subrange(i, j)) by {
                if i > start {
                    assert(s@[i - 1] != '\n');
                }
            }
        }
    }
    hit
}

/// Whether the line `s[start..end]` describes an HDR video stream.
fn line_is_hdr(s: &Vec<char>, start: usize, end: usize) -> (r: bool)
    requires
        is_line(s@, start as int, end as int),
    ensures
        r == hdr_line(s@.subrange(start as int, end as int)),
        r ==> describes_hdr_of(s@),
{
    let video = contains_in(s, start, end, "Video:");
    let pq = contains_in(s, start, end, "smpte2084");
    let hlg = contains_in(s, start, end, "arib-std-b67");
    video && (pq || hlg)
}

/// After the line `s[start..end]` is found not to be HDR, so is every line
/// that starts at or before `start`.
proof fn lemma_line_checked(s: Seq<char>, start: int, end: int)
    requires
        is_line(s, start, end),
        !hdr_line(s.subrange(start, end)),
        forall|i: int, j: int| is_line(s, i, j) && i < start ==> !hdr_line(#[trigger] s.subrange(i, j)),
    ensures
        forall|i: int, j: int| is_line(s, i, j) && i <= start ==> !hdr_line(#[trigger] s.subrange(i, j)),
{
    assert forall|i: int, j: int| is_line(s, i, j) && i <= start implies !hdr_line(#[trigger] s.subrange(i, j)) by {
        if i == start {
            if j < end {
                assert(s[j] == '\n');
            }
            if j > end {
                assert(s[end] != '\n');
            }
        }
    }
}

/// Bitrates (and, if needed, a smaller frame size) for hitting a file size.
#[derive(Debug, Clone, Copy, PartialEq, Eq)]
pub struct BitratePlan {
    pub video_kbps: u32,
    /// AAC bitrate, or `None` for no audio track.
    pub audio_kbps: Option<u32>,
    /// Downscale to this size when the bitrate is too thin for the original.
    pub scale: Option<(u32, u32)>,
}

/// `<n>k`, a bitrate in kbit/s as ffmpeg reads it.
pub open spec fn kbps_text(n: u32) -> Seq<char> {
    int_text(n as int) + "k"@
}

/// The arguments both passes of a two-pass libx264 encode of `src` at
/// `video_kbps` share: the input, the filter when there is one, the bitrate,
/// the pass number and the pass log.
pub open spec fn bitrate_pass_common_of(
    src: Seq<char>,
    vf: Option<Seq<char>>,
    video_kbps: u32,
    pass: Seq<char>,
    log: Seq<char>,
) -> Seq<Seq<char>> {
    seq!["-y"@, "-i"@, src] + (match vf {
        Some(f) => seq!["-vf"@, f],
        None => seq![],
    }) + seq![
        "-c:v"@,
        "libx264"@,
        "-preset"@,
        "medium"@,
        "-b:v"@,
        kbps_text(video_kbps),
        "-pix_fmt"@,
        "yuv420p"@,
        "-pass"@,
        pass,
        "-passlogfile"@,
        log,
        "-hide_banner"@,
        "-nostats"@,
    ]
}

/// The first pass: video only, analysed into the pass log, written as mp4
/// to the throwaway `scratch`.
pub open spec fn bitrate_pass1_args_of(
    src: Seq<char>,
    vf: Option<Seq<char>>,
    video_kbps: u32,
    log: Seq<char>,
    scratch: Seq<char>,
) -> Seq<Seq<char>> {
    bitrate_pass_common_of(src, vf, video_kbps, "1"@, log) + seq!["-an"@, "-f"@, "mp4"@, scratch]
}

/// The second pass: the real encode to `out`, with AAC audio at
/// `audio_kbps` (or no audio track), the metadata policy and a fast-start
/// index.
pub open spec fn bitrate_pass2_args_of(
    src: Seq<char>,
    vf: Option<Seq<char>>,
    video_kbps: u32,
    audio_kbps: Option<u32>,
    log: Seq<char>,
    strip_metadata: bool,
    strip_location: bool,
    out: Seq<char>,
) -> Seq<Seq<char>> {
    bitrate_pass_common_of(src, vf, video_kbps, "2"@, log) + (match audio_kbps {
        Some(a) => seq!["-c:a"@, "aac"@, "-b:a"@, kbps_text(a)],
        None => seq!["-an"@],
    }) + metadata_args_of(strip_metadata, strip_location) + seq!["-movflags"@, "+faststart"@, out]
}

fn kbps_string(n: u32) -> (s: String)
    ensures
        s@ == kbps_text(n),
{
    let mut v: Vec<char> = Vec::new();
    push_int(&mut v, n as i64);
    push_str(&mut v, "k");
    string_of(v)
}

fn push_bitrate_pass_common(
    args: &mut Vec<String>,
    src: &str,
    vf: Option<&str>,
    video_kbps: u32,
    pass: &str,
    log: &str,
)
    requires
        old(args)@.len() == 0,
    ensures
        views(final(args)@) == bitrate_pass_common_of(src@, opt_text(vf), video_kbps, pass@, log@),
{
    str_vec_push(args, "-y");
    str_vec_push(args, "-i");
    str_vec_push(args, src);
    match vf {
        Some(f) => {
            str_vec_push(args, "-vf");
            str_vec_push(args, f);
        },
        None => {},
    }
    str_vec_push(args, "-c:v");
    str_vec_push(args, "libx264");
    str_vec_push(args, "-preset");
    str_vec_push(args, "medium");
    str_vec_push(args, "-b:v");
    string_vec_push(args, kbps_string(video_kbps));
    str_vec_push(args, "-pix_fmt");
    str_vec_push(args, "yuv420p");
    str_vec_push(args, "-pass");
    str_vec_push(args, pass);
    str_vec_push(args, "-passlogfile");
    str_vec_push(args, log);
    str_vec_push(args, "-hide_banner");
    str_vec_push(args, "-nostats");
    assert(views(args@) =~= bitrate_pass_common_of(src@, opt_text(vf), video_kbps, pass@, log@));
}

/// The ffmpeg arguments of the first pass of a two-pass encode to
/// `video_kbps`.
pub fn bitrate_pass1_args(src: &str, vf: Option<&str>, video_kbps: u32, log: &str, scratch: &str) -> (args: Vec<String>)
    ensures
        views(args@) == bitrate_pass1_args_of(src@, opt_text(vf), video_kbps, log@, scratch@),
{
    let mut args: Vec<String> = Vec::new();
    push_bitrate_pass_common(&mut args, src, vf, video_kbps, "1", log);
    let ghost head = views(args@);
    str_vec_push(&mut args, "-an");
    str_vec_push(&mut args, "-f");
    str_vec_push(&mut args, "mp4");
    str_vec_push(&mut args, scratch);
    assert(views(args@) =~= head + seq!["-an"@, "-f"@, "mp4"@, scratch@]);
    args
}

/// The ffmpeg arguments of the second pass of a two-pass encode to the
/// bitrates of `plan`, writing `out`.
pub fn bitrate_pass2_args(
    src: &str,
    vf: Option<&str>,
    plan: &BitratePlan,
    log: &str,
    options: &OptimiseOptions,
    out: &str,
) -> (args: Vec<String>)
    ensures
        views(args@) == bitrate_pass2_args_of(
            src@,
            opt_text(vf),
            plan.video_kbps,
            plan.audio_kbps,
            log@,
            options.strip_metadata,
            options.strip_location,
            out@,
        ),
{
    let mut args: Vec<String> = Vec::new();
    push_bitrate_pass_common(&mut args, src, vf, plan.video_kbps, "2", log);
    let ghost head = views(args@);
    match plan.audio_kbps {
        Some(a) => {
            str_vec_push(&mut args, "-c:a");
            str_vec_push(&mut args, "aac");
            str_vec_push(&mut args, "-b:a");
            string_vec_push(&mut args, kbps_string(a));
        },
        None => {
            str_vec_push(&mut args, "-an");
        },
    }
    let ghost mid = views(args@);
    assert(mid =~= head + (match plan.audio_kbps {
        Some(a) => seq!["-c:a"@, "aac"@, "-b:a"@, kbps_text(a)],
        None => seq!["-an"@],
    }));
    let meta = metadata_args(options);
    let mut i: usize = 0;
    while i < meta.len()
        invariant
            i <= meta@.len(),
            views(args@) == mid + views(meta@).take(i as int),
        decreases meta.len() - i,
    {
        string_vec_push(&mut args, meta[i].clone());
        i = i + 1;
        assert(views(meta@).take(i as int) =~= views(meta@).take(i - 1).push(meta@[i - 1]@));
    }
    assert(views(meta@).take(meta@.len() as int) =~= views(meta@));
    str_vec_push(&mut args, "-movflags");
    str_vec_push(&mut args, "+faststart");
    str_vec_push(&mut args, out);
    assert(views(args@) =~= bitrate_pass2_args_of(
        src@,
        opt_text(vf),
        plan.video_kbps,
        plan.audio_kbps,
        log@,
        options.strip_metadata,
        options.strip_location,
        out@,
    ));
    args
}

/// Target codecs for explicit video conversion.
#[derive(Debug, Clone, Copy, PartialEq, Eq, Structural)]
pub enum VideoCodec {
    H264,
    Hevc,
    Av1,
    Vp9,
}

/// The codec a (lowercase) name stands for.
pub open spec fn video_codec_named(s: Seq<char>) -> Option<VideoCodec> {
    if s == "mp4"@ || s == "h264"@ || s == "avc"@ {
        Some(VideoCodec::H264)
    } else if s == "hevc"@ || s == "h265"@ || s == "x265"@ {
        Some(VideoCodec::Hevc)
    } else if s == "av1"@ {
        Some(VideoCodec::Av1)
    } else if s == "webm"@ || s == "vp9"@ {
        Some(VideoCodec::Vp9)
    } else {
        None
    }
}

/// SVT-AV1 CRF: 24 at factor 5 rising by 26 over 95 points.
pub open spec fn av1_crf_of(f: int) -> int {
    24 + round_div(video_ramp(f) * 26, 95)
}

/// libvpx-vp9 CRF: 24 at factor 5 rising by 24 over 95 points.
pub open spec fn vp9_crf_of(f: int) -> int {
    24 + round_div(video_ramp(f) * 24, 95)
}

/// The encoder arguments of an explicit conversion to `codec`.
pub open spec fn codec_args_of(codec: VideoCodec, cq: CompressionQuality, hardware: bool) -> Seq<Seq<char>> {
    let f = cq.factor as int;
    match codec {
        VideoCodec::H264 => video_h264_args_of(cq.tier, f, hardware),
        VideoCodec::Hevc => if hardware {
            seq!["-vcodec"@, "hevc_videotoolbox"@, "-tag:v"@, "hvc1"@]
        } else {
            seq![
                "-vcodec"@,
                "libx265"@,
                "-tag:v"@,
                "hvc1"@,
                "-preset"@,
                video_h264_preset_of(f),
                "-crf"@,
                int_text(video_h264_crf_of(f)),
            ]
        },
        VideoCodec::Av1 => seq![
            "-vcodec"@,
            "libsvtav1"@,
            "-crf"@,
            int_text(av1_crf_of(f)),
            "-preset"@,
            "6"@,
        ],
        VideoCodec::Vp9 => seq![
            "-vcodec"@,
            "libvpx-vp9"@,
            "-crf"@,
            int_text(vp9_crf_of(f)),
            "-b:v"@,
            "0"@,
        ],
    }
}

impl VideoCodec {
    pub fn from_target(s: &str) -> (r: Option<VideoCodec>)
        ensures
            r == video_codec_named(lower(s@)),
    {
        let t = to_lower(s);
        if chars_eq(&t, "mp4") || chars_eq(&t, "h264") || chars_eq(&t, "avc") {
            Some(VideoCodec::H264)
        } else if chars_eq(&t, "hevc") || chars_eq(&t, "h265") || chars_eq(&t, "x265") {
            Some(VideoCodec::Hevc)
        } else if chars_eq(&t, "av1") {
            Some(VideoCodec::Av1)
        } else if chars_eq(&t, "webm") || chars_eq(&t, "vp9") {
            Some(VideoCodec::Vp9)
        } else {
            None
        }
    }

    pub open spec fn container_of(self) -> Seq<char> {
        match self {
            VideoCodec::Vp9 => "webm"@,
            _ => "mp4"@,
        }
    }

    pub fn container_ext(&self) -> (r: &'static str)
        ensures
            r@ == self.container_of(),
    {
        match self {
            VideoCodec::H264 | VideoCodec::Hevc | VideoCodec::Av1 => "mp4",
            VideoCodec::Vp9 => "webm",
        }
    }

    /// The encoder arguments of an explicit conversion (`hardware`: the
    /// VideoToolbox path on Apple Silicon, when asked for).
    pub fn codec_args(&self, cq: CompressionQuality, hardware: bool) -> (args: Vec<String>)
        ensures
            views(args@) == codec_args_of(*self, cq, hardware),
    {
        let ramp: i64 = if cq.factor < 5 {
            0
        } else {
            (cq.factor as i64) - 5
        };
        match self {
            VideoCodec::H264 => cq.video_h264_args(hardware),
            VideoCodec::Hevc => {
                let mut args: Vec<String> = Vec::new();
                str_vec_push(&mut args, "-vcodec");
                if hardware {
                    str_vec_push(&mut args, "hevc_videotoolbox");
                    str_vec_push(&mut args, "-tag:v");
                    str_vec_push(&mut args, "hvc1");
                } else {
                    str_vec_push(&mut args, "libx265");
                    str_vec_push(&mut args, "-tag:v");
                    str_vec_push(&mut args, "hvc1");
                    str_vec_push(&mut args, "-preset");
                    str_vec_push(&mut args, cq.video_h264_preset());
                    str_vec_push(&mut args, "-crf");
                    string_vec_push(&mut args, int_string(cq.video_h264_crf() as i64));
                }
                assert(views(args@) =~= codec_args_of(*self, cq, hardware));
                args
            },
            VideoCodec::Av1 => {
                let crf = 24 + round_div_exec(ramp * 26, 95);
                let mut args: Vec<String> = Vec::new();
                str_vec_push(&mut args, "-vcodec");
                str_vec_push(&mut args, "libsvtav1");
                str_vec_push(&mut args, "-crf");
                string_vec_push(&mut args, int_string(crf));
                str_vec_push(&mut args, "-preset");
                str_vec_push(&mut args, "6");
                assert(views(args@) =~= codec_args_of(*self, cq, hardware));
                args
            },
            VideoCodec::Vp9 => {
                let crf = 24 + round_div_exec(ramp * 24, 95);
                let mut args: Vec<String> = Vec::new();
                str_vec_push(&mut args, "-vcodec");
                str_vec_push(&mut args, "libvpx-vp9");
                str_vec_push(&mut args, "-crf");
                string_vec_push(&mut args, int_string(crf));
                str_vec_push(&mut args, "-b:v");
                str_vec_push(&mut args, "0");
                assert(views(args@) =~= codec_args_of(*self, cq, hardware));
                args
            },
        }
    }
}

/// The ffmpeg command line that strips the audio track, stream-copying the
/// video (no re-encode).
pub fn remove_audio_args(src: &str, dst: &str) -> (args: Vec<String>)
    ensures
        views(args@) == seq![
            "-y"@,
            "-i"@,
            src@,
            "-c"@,
            "copy"@,
            "-an"@,
            "-hide_banner"@,
            "-nostats"@,
            dst@,
        ],
{
    let mut args: Vec<String> = Vec::new();
    str_vec_push(&mut args, "-y");
    str_vec_push(&mut args, "-i");
    str_vec_push(&mut args, src);
    str_vec_push(&mut args, "-c");
    str_vec_push(&mut args, "copy");
    str_vec_push(&mut args, "-an");
    str_vec_push(&mut args, "-hide_banner");
    str_vec_push(&mut args, "-nostats");
    str_vec_push(&mut args, dst);
    assert(views(args@) =~= seq![
        "-y"@,
        "-i"@,
        src@,
        "-c"@,
        "copy"@,
        "-an"@,
        "-hide_banner"@,
        "-nostats"@,
        dst@,
    ]);
    args
}

/// The ffmpeg command line that caps the frame rate at `fps` (at least 1),
/// re-encoding with the default H.264 arguments.
pub fn cap_fps_args(src: &str, dst: &str, fps: i32, cq: CompressionQuality, arm: bool) -> (args: Vec<String>)
    ensures
        views(args@) == seq!["-y"@, "-i"@, src@, "-vf"@, "fps=fps="@ + int_text(if fps < 1 { 1 } else { fps as int })]
            + video_h264_args_of(cq.tier, cq.factor as int, arm) + seq!["-hide_banner"@, "-nostats"@, dst@],
{
    let mut args: Vec<String> = Vec::new();
    str_vec_push(&mut args, "-y");
    str_vec_push(&mut args, "-i");
    str_vec_push(&mut args, src);
    str_vec_push(&mut args, "-vf");
    let mut v: Vec<char> = Vec::new();
    push_str(&mut v, "fps=fps=");
    let f: i64 = if fps < 1 { 1 } else { fps as i64 };
    push_int(&mut v, f);
    string_vec_push(&mut args, string_of(v));
    let ghost head = views(args@);
    let enc = cq.video_h264_args(arm);
    let mut i: usize = 0;
    while i < enc.len()
        invariant
            i <= enc@.len(),
            views(args@) == head + views(enc@).take(i as int),
        decreases enc.len() - i,
    {
        string_vec_push(&mut args, enc[i].clone());
        i = i + 1;
        assert(views(enc@).take(i as int) =~= views(enc@).take(i - 1).push(enc@[i - 1]@));
    }
    assert(views(enc@).take(enc@.len() as int) =~= views(enc@));
    str_vec_push(&mut args, "-hide_banner");
    str_vec_push(&mut args, "-nostats");
    str_vec_push(&mut args, dst);
    assert(views(args@) =~= seq!["-y"@, "-i"@, src@, "-vf"@, "fps=fps="@ + int_text(if fps < 1 { 1 } else { fps as int })]
            + video_h264_args_of(cq.tier, cq.factor as int, arm) + seq!["-hide_banner"@, "-nostats"@, dst@]);
    args
}

pub open spec fn opt_text(o: Option<&str>) -> Option<Seq<char>> {
    match o {
        Some(s) => Some(s@),
        None => None,
    }
}

/// `-vf <filter>` when there is a filter.
pub open spec fn filter_args(vf: Option<Seq<char>>) -> Seq<Seq<char>> {
    match vf {
        Some(f) => seq!["-vf"@, f],
        None => Seq::empty(),
    }
}

/// Append all of `more` to `args`.
fn extend_strings(args: &mut Vec<String>, more: Vec<String>)
    ensures
        views(final(args)@) == views(old(args)@) + views(more@),
{
    let ghost start = views(args@);
    let mut i: usize = 0;
    while i < more.len()
        invariant
            i <= more@.len(),
            views(args@) == start + views(more@).take(i as int),
        decreases more.len() - i,
    {
        string_vec_push(args, more[i].clone());
        i = i + 1;
        assert(views(more@).take(i as int) =~= views(more@).take(i - 1).push(more@[i - 1]@));
    }
    assert(views(more@).take(more@.len() as int) =~= views(more@));
}

/// The ffmpeg command line of the default H.264 optimise: the input, the
/// optional filter, the encoder, the audio copied (mapping the video and any
/// audio) unless it is re-encoded, the metadata policy, fast start, and the
/// output.
pub open spec fn optimise_args_of(
    input: Seq<char>,
    vf: Option<Seq<char>>,
    encoder: Seq<Seq<char>>,
    reencode_audio: bool,
    metadata: Seq<Seq<char>>,
    output: Seq<char>,
) -> Seq<Seq<char>> {
    seq!["-y"@, "-i"@, input] + filter_args(vf) + encoder + (if reencode_audio {
        Seq::empty()
    } else {
        seq!["-c:a"@, "copy"@, "-map"@, "0:v"@, "-map"@, "0:a?"@]
    }) + metadata + seq!["-movflags"@, "+faststart"@, "-hide_banner"@, "-nostats"@, output]
}

/// The input and the optional filter.
fn head_args(input: &str, vf: Option<&str>) -> (args: Vec<String>)
    ensures
        views(args@) == seq!["-y"@, "-i"@, input@] + filter_args(opt_text(vf)),
{
    let mut args: Vec<String> = Vec::new();
    str_vec_push(&mut args, "-y");
    str_vec_push(&mut args, "-i");
    str_vec_push(&mut args, input);
    if let Some(f) = vf {
        str_vec_push(&mut args, "-vf");
        str_vec_push(&mut args, f);
    }
    assert(views(args@) =~= seq!["-y"@, "-i"@, input@] + filter_args(opt_text(vf)));
    args
}

/// Copying the audio, mapping the video and any audio stream.
fn audio_copy_args() -> (args: Vec<String>)
    ensures
        views(args@) == seq!["-c:a"@, "copy"@, "-map"@, "0:v"@, "-map"@, "0:a?"@],
{
    let mut args: Vec<String> = Vec::new();
    str_vec_push(&mut args, "-c:a");
    str_vec_push(&mut args, "copy");
    str_vec_push(&mut args, "-map");
    str_vec_push(&mut args, "0:v");
    str_vec_push(&mut args, "-map");
    str_vec_push(&mut args, "0:a?");
    assert(views(args@) =~= seq!["-c:a"@, "copy"@, "-map"@, "0:v"@, "-map"@, "0:a?"@]);
    args
}

/// The end of an optimise command line.
fn optimise_tail(output: &str) -> (args: Vec<String>)
    ensures
        views(args@) == seq!["-movflags"@, "+faststart"@, "-hide_banner"@, "-nostats"@, output@],
{
    let mut args: Vec<String> = Vec::new();
    str_vec_push(&mut args, "-movflags");
    str_vec_push(&mut args, "+faststart");
    str_vec_push(&mut args, "-hide_banner");
    str_vec_push(&mut args, "-nostats");
    str_vec_push(&mut args, output);
    assert(views(args@) =~= seq!["-movflags"@, "+faststart"@, "-hide_banner"@, "-nostats"@, output@]);
    args
}

/// The ffmpeg command line of the default H.264 optimise.
pub fn optimise_args(
    input: &str,
    vf: Option<&str>,
    cq: CompressionQuality,
    arm: bool,
    reencode_audio: bool,
    options: &OptimiseOptions,
    output: &str,
) -> (args: Vec<String>)
    ensures
        views(args@) == optimise_args_of(
            input@,
            opt_text(vf),
            video_h264_args_of(cq.tier, cq.factor as int, arm),
            reencode_audio,
            metadata_args_of(options.strip_metadata, options.strip_location),
            output@,
        ),
{
    let mut args = head_args(input, vf);
    let ghost a0 = views(args@);
    extend_strings(&mut args, cq.video_h264_args(arm));
    let ghost a1 = views(args@);
    let audio: Vec<String> = if reencode_audio { Vec::new() } else { audio_copy_args() };
    assert(views(audio@) == (if reencode_audio {
        Seq::<Seq<char>>::empty()
    } else {
        seq!["-c:a"@, "copy"@, "-map"@, "0:v"@, "-map"@, "0:a?"@]
    })) by {
        if reencode_audio {
            assert(views(audio@) =~= Seq::<Seq<char>>::empty());
        }
    }
    extend_strings(&mut args, audio);
    extend_strings(&mut args, metadata_args(options));
    extend_strings(&mut args, optimise_tail(output));
    args
}

/// The audio arguments of an explicit conversion: Opus for WebM; otherwise
/// the audio is copied, or re-encoded to AAC at 192k.
pub open spec fn convert_audio_args_of(webm: bool, reencode_audio: bool) -> Seq<Seq<char>> {
    if webm {
        seq!["-c:a"@, "libopus"@, "-b:a"@, "128k"@, "-map"@, "0:v"@, "-map"@, "0:a?"@]
    } else if reencode_audio {
        seq!["-c:a"@, "aac"@, "-b:a"@, "192k"@]
    } else {
        seq!["-c:a"@, "copy"@, "-map"@, "0:v"@, "-map"@, "0:a?"@]
    }
}

/// The ffmpeg command line of an explicit conversion to `codec`.
pub open spec fn convert_args_of(
    input: Seq<char>,
    vf: Option<Seq<char>>,
    codec: VideoCodec,
    cq: CompressionQuality,
    hardware: bool,
    reencode_audio: bool,
    metadata: Seq<Seq<char>>,
    output: Seq<char>,
) -> Seq<Seq<char>> {
    let webm = codec == VideoCodec::Vp9;
    seq!["-y"@, "-i"@, input] + filter_args(vf) + codec_args_of(codec, cq, hardware) + convert_audio_args_of(
        webm,
        reencode_audio,
    ) + (if webm { Seq::empty() } else { seq!["-movflags"@, "+faststart"@] }) + metadata + seq![
        "-hide_banner"@,
        "-nostats"@,
        output,
    ]
}

/// The audio arguments of an explicit conversion.
fn convert_audio_args(webm: bool, reencode_audio: bool) -> (args: Vec<String>)
    ensures
        views(args@) == convert_audio_args_of(webm, reencode_audio),
{
    let mut args: Vec<String> = Vec::new();
    if webm {
        str_vec_push(&mut args, "-c:a");
        str_vec_push(&mut args, "libopus");
        str_vec_push(&mut args, "-b:a");
        str_vec_push(&mut args, "128k");
        str_vec_push(&mut args, "-map");
        str_vec_push(&mut args, "0:v");
        str_vec_push(&mut args, "-map");
        str_vec_push(&mut args, "0:a?");
    } else if reencode_audio {
        str_vec_push(&mut args, "-c:a");
        str_vec_push(&mut args, "aac");
        str_vec_push(&mut args, "-b:a");
        str_vec_push(&mut args, "192k");
    } else {
        return audio_copy_args();
    }
    assert(views(args@) =~= convert_audio_args_of(webm, reencode_audio));
    args
}

/// Fast start for MP4 containers, nothing for WebM.
fn faststart_args(webm: bool) -> (args: Vec<String>)
    ensures
        views(args@) == (if webm { Seq::<Seq<char>>::empty() } else { seq!["-movflags"@, "+faststart"@] }),
{
    let mut args: Vec<String> = Vec::new();
    if !webm {
        str_vec_push(&mut args, "-movflags");
        str_vec_push(&mut args, "+faststart");
    }
    assert(views(args@) =~= (if webm { Seq::<Seq<char>>::empty() } else { seq!["-movflags"@, "+faststart"@] }));
    args
}

/// The end of a conversion command line.
fn convert_tail(output: &str) -> (args: Vec<String>)
    ensures
        views(args@) == seq!["-hide_banner"@, "-nostats"@, output@],
{
    let mut args: Vec<String> = Vec::new();
    str_vec_push(&mut args, "-hide_banner");
    str_vec_push(&mut args, "-nostats");
    str_vec_push(&mut args, output);
    assert(views(args@) =~= seq!["-hide_banner"@, "-nostats"@, output@]);
    args
}

/// The ffmpeg command line of an explicit conversion to `codec`
/// (`hardware`: the VideoToolbox encoders, on Apple Silicon when asked).
pub fn convert_args(
    input: &str,
    vf: Option<&str>,
    codec: VideoCodec,
    cq: CompressionQuality,
    hardware: bool,
    reencode_audio: bool,
    options: &OptimiseOptions,
    output: &str,
) -> (args: Vec<String>)
    ensures
        views(args@) == convert_args_of(
            input@,
            opt_text(vf),
            codec,
            cq,
            hardware,
            reencode_audio,
            metadata_args_of(options.strip_metadata, options.strip_location),
            output@,
        ),
{
    let webm = codec == VideoCodec::Vp9;
    let mut args = head_args(input, vf);
    extend_strings(&mut args, codec.codec_args(cq, hardware));
    extend_strings(&mut args, convert_audio_args(webm, reencode_audio));
    extend_strings(&mut args, faststart_args(webm));
    extend_strings(&mut args, metadata_args(options));
    extend_strings(&mut args, convert_tail(output));
    args
}

/// The attempts of an H.264 encode, in order: with HDR input, the filter
/// followed by the tone mapping first (falling back to the plain filter
/// when this ffmpeg lacks `zscale`); each filter first with the audio
/// copied, then re-encoded.
pub open spec fn h264_attempts_of(vf: Option<Seq<char>>, hdr: bool) -> Seq<(Option<Seq<char>>, bool)> {
    let tm = match vf {
        Some(f) => f + ","@ + HDR_TO_SDR@,
        None => HDR_TO_SDR@,
    };
    if hdr {
        seq![(Some(tm), false), (Some(tm), true), (vf, false), (vf, true)]
    } else {
        seq![(vf, false), (vf, true)]
    }
}

pub open spec fn attempt_views(v: Seq<(Option<String>, bool)>) -> Seq<(Option<Seq<char>>, bool)> {
    v.map_values(
        |a: (Option<String>, bool)|
            (
                match a.0 {
                    Some(s) => Some(s@),
                    None => None,
                },
                a.1,
            ),
    )
}

fn opt_string_of(vf: Option<&str>) -> (r: Option<String>)
    ensures
        match r {
            Some(s) => vf matches Some(f) && s@ == f@,
            None => vf is None,
        },
{
    match vf {
        Some(f) => Some(string_of(chars_of(f))),
        None => None,
    }
}

/// The attempts of an H.264 encode: the filter to use and whether to
/// re-encode the audio, in the order to try them.
pub fn h264_attempts(vf: Option<&str>, hdr: bool) -> (r: Vec<(Option<String>, bool)>)
    ensures
        attempt_views(r@) == h264_attempts_of(opt_text(vf), hdr),
{
    let mut r: Vec<(Option<String>, bool)> = Vec::new();
    if hdr {
        let mut t: Vec<char> = Vec::new();
        if let Some(f) = vf {
            push_str(&mut t, f);
            push_str(&mut t, ",");
        }
        push_str(&mut t, HDR_TO_SDR);
        let tm = string_of(t);
        proof {
            match vf {
                Some(f) => assert(tm@ =~= f@ + ","@ + HDR_TO_SDR@),
                None => assert(tm@ =~= HDR_TO_SDR@),
            }
        }
        r.push((Some(tm.clone()), false));
        r.push((Some(tm), true));
    }
    r.push((opt_string_of(vf), false));
    r.push((opt_string_of(vf), true));
    assert(attempt_views(r@) =~= h264_attempts_of(opt_text(vf), hdr));
    r
}

/// The filters a two-pass encode tries, in order: with HDR input, `vf`
/// followed by the tone mapping first (falling back when this ffmpeg lacks
/// `zscale`); then `vf` itself.
pub open spec fn bitrate_filters_of(vf: Option<Seq<char>>, hdr: bool) -> Seq<Option<Seq<char>>> {
    let tm = match vf {
        Some(f) => f + ","@ + HDR_TO_SDR@,
        None => HDR_TO_SDR@,
    };
    if hdr {
        seq![Some(tm), vf]
    } else {
        seq![vf]
    }
}

/// The filters of a two-pass encode, in the order to try them.
pub fn bitrate_filters(vf: Option<&str>, hdr: bool) -> (r: Vec<Option<String>>)
    ensures
        r@.map_values(|o: Option<String>| opt_text_of(o)) == bitrate_filters_of(opt_text(vf), hdr),
{
    let mut r: Vec<Option<String>> = Vec::new();
    if hdr {
        let mut t: Vec<char> = Vec::new();
        if let Some(f) = vf {
            push_str(&mut t, f);
            push_str(&mut t, ",");
        }
        push_str(&mut t, HDR_TO_SDR);
        let tm = string_of(t);
        proof {
            match vf {
                Some(f) => assert(tm@ =~= f@ + ","@ + HDR_TO_SDR@),
                None => assert(tm@ =~= HDR_TO_SDR@),
            }
        }
        r.push(Some(tm));
    }
    r.push(opt_string_of(vf));
    assert(r@.map_values(|o: Option<String>| opt_text_of(o)) =~= bitrate_filters_of(opt_text(vf), hdr));
    r
}

/// The view of an optional owned string.
pub open spec fn opt_text_of(o: Option<String>) -> Option<Seq<char>> {
    match o {
        Some(s) => Some(s@),
        None => None,
    }
}

/// The frame filter of a GIF conversion: `fps=N`, then a Lanczos scale to
/// `max_width` (keeping the aspect) when given.
pub open spec fn gif_filter_of(fps: u32, max_width: Option<u32>) -> Seq<char> {
    "fps="@ + int_text(if fps < 1 { 1 } else { fps as int }) + match max_width {
        Some(w) => ",scale="@ + int_text(w as int) + ":-1:flags=lanczos"@,
        None => Seq::empty(),
    }
}

/// The frame filter of a GIF conversion.
pub fn gif_filter(fps: u32, max_width: Option<u32>) -> (r: String)
    ensures
        r@ == gif_filter_of(fps, max_width),
{
    let mut v: Vec<char> = Vec::new();
    push_str(&mut v, "fps=");
    let f: i64 = if fps < 1 { 1 } else { fps as i64 };
    push_int(&mut v, f);
    if let Some(w) = max_width {
        push_str(&mut v, ",scale=");
        push_int(&mut v, w as i64);
        push_str(&mut v, ":-1:flags=lanczos");
    }
    assert(v@ =~= gif_filter_of(fps, max_width));
    string_of(v)
}

/// gifski's quality: 60 for the aggressive preset, else 90.
pub open spec fn gif_quality_of(cq: CompressionQuality) -> int {
    if cq.tier != crate::compression::CompressionTier::Adaptive && cq.factor >= 50 {
        60
    } else {
        90
    }
}

/// The gifski command line (before the frame files): output, frame rate
/// (at least 1), quality and the optional width.
pub open spec fn gifski_args_of(out: Seq<char>, fps: u32, cq: CompressionQuality, max_width: Option<u32>) -> Seq<Seq<char>> {
    seq![
        "-o"@,
        out,
        "--fps"@,
        int_text(if fps < 1 { 1 } else { fps as int }),
        "--quality"@,
        int_text(gif_quality_of(cq)),
    ] + match max_width {
        Some(w) => seq!["--width"@, int_text(w as int)],
        None => Seq::empty(),
    }
}

/// The gifski command line, before the frame files.
pub fn gifski_args(out: &str, fps: u32, cq: CompressionQuality, max_width: Option<u32>) -> (args: Vec<String>)
    ensures
        views(args@) == gifski_args_of(out@, fps, cq, max_width),
{
    let mut args: Vec<String> = Vec::new();
    str_vec_push(&mut args, "-o");
    str_vec_push(&mut args, out);
    str_vec_push(&mut args, "--fps");
    let f: i64 = if fps < 1 { 1 } else { fps as i64 };
    string_vec_push(&mut args, int_string(f));
    str_vec_push(&mut args, "--quality");
    let q: i64 = if cq.image_is_aggressive() { 60 } else { 90 };
    string_vec_push(&mut args, int_string(q));
    if let Some(w) = max_width {
        str_vec_push(&mut args, "--width");
        string_vec_push(&mut args, int_string(w as i64));
    }
    assert(views(args@) =~= gifski_args_of(out@, fps, cq, max_width));
    args
}


/// ffmpeg arguments that write the frames of `src`, through the GIF frame
/// filter, as the numbered images `pattern`.
pub open spec fn gif_frames_args_of(src: Seq<char>, fps: u32, max_width: Option<u32>, pattern: Seq<char>) -> Seq<Seq<char>> {
    seq!["-y"@, "-i"@, src, "-vf"@, gif_filter_of(fps, max_width), pattern]
}

/// The ffmpeg arguments that extract the frames of `src` for gifski.
pub fn gif_frames_args(src: &str, fps: u32, max_width: Option<u32>, pattern: &str) -> (args: Vec<String>)
    ensures
        views(args@) == gif_frames_args_of(src@, fps, max_width, pattern@),
{
    let mut args: Vec<String> = Vec::new();
    str_vec_push(&mut args, "-y");
    str_vec_push(&mut args, "-i");
    str_vec_push(&mut args, src);
    str_vec_push(&mut args, "-vf");
    string_vec_push(&mut args, gif_filter(fps, max_width));
    str_vec_push(&mut args, pattern);
    assert(views(args@) =~= gif_frames_args_of(src@, fps, max_width, pattern@));
    args
}

/// ffmpeg arguments that turn `src` into the GIF `out` in one pass.
pub open spec fn gif_single_pass_args_of(src: Seq<char>, fps: u32, max_width: Option<u32>, out: Seq<char>) -> Seq<Seq<char>> {
    seq!["-y"@, "-i"@, src, "-vf"@, gif_filter_of(fps, max_width), "-hide_banner"@, "-nostats"@, out]
}

/// The ffmpeg arguments that make the GIF `out` from `src` directly, used
/// when gifski is not installed.
pub fn gif_single_pass_args(src: &str, fps: u32, max_width: Option<u32>, out: &str) -> (args: Vec<String>)
    ensures
        views(args@) == gif_single_pass_args_of(src@, fps, max_width, out@),
{
    let mut args: Vec<String> = Vec::new();
    str_vec_push(&mut args, "-y");
    str_vec_push(&mut args, "-i");
    str_vec_push(&mut args, src);
    str_vec_push(&mut args, "-vf");
    string_vec_push(&mut args, gif_filter(fps, max_width));
    str_vec_push(&mut args, "-hide_banner");
    str_vec_push(&mut args, "-nostats");
    str_vec_push(&mut args, out);
    assert(views(args@) =~= gif_single_pass_args_of(src@, fps, max_width, out@));
    args
}

/// Where a GIF made from the video `path` goes and how: alongside the
/// video, under the `gif` extension; the video is kept and the GIF is kept
/// whatever its size.
pub fn gif_placement(path: &str) -> (r: (String, Placement))
    ensures
        r.0@ == path_with_extension(path@, "gif"@),
        r.1 == (Placement { size_guard: false, backup: false, replace_source: false }),
{
    proof {
        reveal_strlit("gif");
    }
    assert(no_separator("gif"@));
    (with_extension(path, "gif"), Placement { size_guard: false, backup: false, replace_source: false })
}

/// Where re-encoding the video `path` to H.264 writes and how: the `mp4`
/// next to it, replacing the source (backed up first). A plain optimise
/// must come out smaller; a filtered one (a crop or scale) was asked for and
/// is kept whatever its size.
pub fn video_placement(path: &str, filtered: bool) -> (r: (String, Placement))
    ensures
        r.0@ == path_with_extension(path@, "mp4"@),
        r.1 == (Placement { size_guard: !filtered, backup: true, replace_source: true }),
{
    proof {
        reveal_strlit("mp4");
    }
    assert(no_separator("mp4"@));
    (with_extension(path, "mp4"), Placement { size_guard: !filtered, backup: true, replace_source: true })
}

/// The names each codec goes by.
pub open spec fn codec_names(c: VideoCodec) -> Seq<Seq<char>> {
    match c {
        VideoCodec::H264 => seq!["h264"@, "avc"@, "mp4"@],
        VideoCodec::Hevc => seq!["hevc"@, "h265"@, "x265"@],
        VideoCodec::Av1 => seq!["av1"@],
        VideoCodec::Vp9 => seq!["vp9"@, "webm"@],
    }
}

/// Each of a codec's names, in any case, reads as that codec, and a name
/// reads as a codec only when it is one of that codec's names.
pub proof fn lemma_codec_names(c: VideoCodec, s: Seq<char>)
    ensures
        codec_names(c).contains(lower(s)) ==> video_codec_named(lower(s)) == Some(c),
        video_codec_named(lower(s)) == Some(c) ==> codec_names(c).contains(lower(s)),
{
    reveal_strlit("h264");
    reveal_strlit("avc");
    reveal_strlit("mp4");
    reveal_strlit("hevc");
    reveal_strlit("h265");
    reveal_strlit("x265");
    reveal_strlit("av1");
    reveal_strlit("vp9");
    reveal_strlit("webm");
    assert("avc"@ != "mp4"@) by {
        assert("avc"@[0] != "mp4"@[0]);
    }
    assert("av1"@ != "mp4"@) by {
        assert("av1"@[0] != "mp4"@[0]);
    }
    assert("av1"@ != "avc"@) by {
        assert("av1"@[2] != "avc"@[2]);
    }
    assert("vp9"@ != "mp4"@) by {
        assert("vp9"@[0] != "mp4"@[0]);
    }
    assert("vp9"@ != "avc"@) by {
        assert("vp9"@[0] != "avc"@[0]);
    }
    assert("vp9"@ != "av1"@) by {
        assert("vp9"@[0] != "av1"@[0]);
    }
    assert("hevc"@ != "h264"@) by {
        assert("hevc"@[1] != "h264"@[1]);
    }
    assert("h265"@ != "h264"@) by {
        assert("h265"@[3] != "h264"@[3]);
    }
    assert("h265"@ != "hevc"@) by {
        assert("h265"@[1] != "hevc"@[1]);
    }
    assert("x265"@ != "h264"@) by {
        assert("x265"@[0] != "h264"@[0]);
    }
    assert("x265"@ != "hevc"@) by {
        assert("x265"@[0] != "hevc"@[0]);
    }
    assert("x265"@ != "h265"@) by {
        assert("x265"@[0] != "h265"@[0]);
    }
    assert("webm"@ != "h264"@) by {
        assert("webm"@[0] != "h264"@[0]);
    }
    assert("webm"@ != "hevc"@) by {
        assert("webm"@[0] != "hevc"@[0]);
    }
    assert("webm"@ != "h265"@) by {
        assert("webm"@[0] != "h265"@[0]);
    }
    assert("webm"@ != "x265"@) by {
        assert("webm"@[0] != "x265"@[0]);
    }
    let t = lower(s);
    let ns = codec_names(c);
    if ns.contains(t) {
        let i = choose|i: int| 0 <= i < ns.len() && ns[i] == t;
        match c {
            VideoCodec::H264 => {
                assert(t == "h264"@ || t == "avc"@ || t == "mp4"@) by {
                    if i == 0 {} else if i == 1 {} else {}
                }
            },
            VideoCodec::Hevc => {
                assert(t == "hevc"@ || t == "h265"@ || t == "x265"@) by {
                    if i == 0 {} else if i == 1 {} else {}
                }
            },
            VideoCodec::Av1 => {
                assert(t == "av1"@);
                assert(t != "mp4"@ && t != "h264"@ && t != "avc"@) by {
                    assert("av1"@[2] != "avc"@[2]);
                }
            },
            VideoCodec::Vp9 => {
                assert(t == "vp9"@ || t == "webm"@) by {
                    if i == 0 {} else {}
                }
            },
        }
    }
    if video_codec_named(t) == Some(c) {
        match c {
            VideoCodec::H264 => {
                if t == "h264"@ {
                    assert(ns[0] == t);
                } else if t == "avc"@ {
                    assert(ns[1] == t);
                } else {
                    assert(ns[2] == t);
                }
            },
            VideoCodec::Hevc => {
                if t == "hevc"@ {
                    assert(ns[0] == t);
                } else if t == "h265"@ {
                    assert(ns[1] == t);
                } else {
                    assert(ns[2] == t);
                }
            },
            VideoCodec::Av1 => {
                assert(ns[0] == t);
            },
            VideoCodec::Vp9 => {
                if t == "webm"@ {
                    assert(ns[1] == t);
                } else {
                    assert(ns[0] == t);
                }
            },
        }
    }
}

/// The ffmpeg encoders a codec is encoded with (software, then the
/// VideoToolbox hardware encoder where there is one).
pub open spec fn codec_encoders(c: VideoCodec) -> Seq<Seq<char>> {
    match c {
        VideoCodec::H264 => seq!["h264"@, "h264_videotoolbox"@],
        VideoCodec::Hevc => seq!["libx265"@, "hevc_videotoolbox"@],
        VideoCodec::Av1 => seq!["libsvtav1"@],
        VideoCodec::Vp9 => seq!["libvpx-vp9"@],
    }
}

/// An explicit conversion encodes with one of the codec's own encoders
/// (`-vcodec` first), and only VP9 goes into a WebM container.
pub proof fn lemma_codec_encoder(c: VideoCodec, cq: CompressionQuality, hardware: bool)
    ensures
        codec_args_of(c, cq, hardware).len() >= 2,
        codec_args_of(c, cq, hardware)[0] == "-vcodec"@,
        codec_encoders(c).contains(codec_args_of(c, cq, hardware)[1]),
        (c.container_of() == "webm"@) == (c == VideoCodec::Vp9),
{
    reveal_strlit("webm");
    reveal_strlit("mp4");
    assert("mp4"@ != "webm"@) by {
        assert("mp4"@.len() != "webm"@.len());
    }
    let a = codec_args_of(c, cq, hardware);
    let e = codec_encoders(c);
    match c {
        VideoCodec::H264 => {
            if a[1] == "h264"@ {
                assert(e[0] == a[1]);
            } else {
                assert(e[1] == a[1]);
            }
        },
        VideoCodec::Hevc => {
            if hardware {
                assert(e[1] == a[1]);
            } else {
                assert(e[0] == a[1]);
            }
        },
        VideoCodec::Av1 => assert(e[0] == a[1]),
        VideoCodec::Vp9 => assert(e[0] == a[1]),
    }
}

/// The AV1 and VP9 CRFs follow their lines, rounded to the nearest whole
/// number: both 24 at factor 5 (and below), AV1 rising by 26 and VP9 by 24
/// over the next 95 points.
pub proof fn lemma_crf_ramps(f: int)
    ensures
        2 * 95 * av1_crf_of(f) <= 2 * (24 * 95 + video_ramp(f) * 26) + 95,
        2 * (24 * 95 + video_ramp(f) * 26) <= 2 * 95 * av1_crf_of(f) + 95,
        2 * 95 * vp9_crf_of(f) <= 2 * (24 * 95 + video_ramp(f) * 24) + 95,
        2 * (24 * 95 + video_ramp(f) * 24) <= 2 * 95 * vp9_crf_of(f) + 95,
{
    let x = video_ramp(f) * 26;
    let y = video_ramp(f) * 24;
    crate::compression::lemma_round_close(x, 95);
    crate::compression::lemma_round_close(y, 95);
    let rx = round_div(x, 95);
    let ry = round_div(y, 95);
    assert(av1_crf_of(f) == 24 + rx);
    assert(vp9_crf_of(f) == 24 + ry);
    assert(2 * 95 * (24 + rx) == 2 * 95 * 24 + 2 * 95 * rx) by (nonlinear_arith);
    assert(2 * 95 * (24 + ry) == 2 * 95 * 24 + 2 * 95 * ry) by (nonlinear_arith);
}

} // verus!
