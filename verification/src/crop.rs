//! Crop / resize to a target size or aspect ratio.
//!
//! Images go through `vips`/`vipsthumbnail` (with a centre/attention smart
//! crop); videos use ffmpeg `scale=`/`crop=` expressions. This module parses
//! the request, plans the target geometry and writes the video filter.

use vstd::prelude::*;

use crate::compression::{str_vec_push, string_vec_push, views};
use crate::numbers::parse_unsigned;
use crate::result::OptimiseError;
use crate::text::{chars_of, nat_digits, push_nat, push_str, split_once, split_once_char, string_of, trim, trimmed};
use crate::tools::Tool;

verus! {

/// What the user asked for. Exactly one of the size axes is typically meaningful.
#[derive(Debug, Clone, Copy, PartialEq)]
pub struct CropSpec {
    /// Target width in pixels (0 / None = auto).
    pub width: Option<u32>,
    /// Target height in pixels (0 / None = auto).
    pub height: Option<u32>,
    /// Single number applied to the longer edge (keeps aspect, no crop).
    pub long_edge: Option<u32>,
    /// Aspect ratio `(w, h)`: crops to ratio without scaling.
    pub aspect: Option<(u32, u32)>,
    /// Use feature-aware crop (vips `attention`) instead of centre.
    pub smart: bool,
}

/// A size request: zero means "auto" on that axis.
pub open spec fn size_spec(width: u32, height: u32) -> CropSpec {
    CropSpec {
        width: if width > 0 { Some(width) } else { None },
        height: if height > 0 { Some(height) } else { None },
        long_edge: None,
        aspect: None,
        smart: false,
    }
}

/// `msg` followed by the argument in quotes.
pub open spec fn quoted(msg: Seq<char>, s: Seq<char>) -> Seq<char> {
    msg + "'"@ + s + "'"@
}

/// How a `--size` argument reads: `W:H` a ratio (both parts non-zero),
/// `WxH` a size (zero for auto), a single number both sides. Spaces around
/// the argument and its parts are ignored.
pub open spec fn crop_spec_of(arg: Seq<char>) -> Result<CropSpec, Seq<char>> {
    let s = trim(arg);
    match split_once(s, ':') {
        Some((a, b)) => match (parse_unsigned(trim(a), u32::MAX as int), parse_unsigned(trim(b), u32::MAX as int)) {
            (Some(aw), Some(ah)) => if aw == 0 || ah == 0 {
                Err(quoted("ratio parts must be > 0 in "@, s))
            } else {
                Ok(
                    CropSpec {
                        width: None,
                        height: None,
                        long_edge: None,
                        aspect: Some((aw as u32, ah as u32)),
                        smart: false,
                    },
                )
            },
            _ => Err(quoted("bad ratio "@, s)),
        },
        None => match split_once(s, 'x') {
            Some((a, b)) => match parse_unsigned(trim(a), u32::MAX as int) {
                None => Err(quoted("bad width in "@, s)),
                Some(w) => match parse_unsigned(trim(b), u32::MAX as int) {
                    None => Err(quoted("bad height in "@, s)),
                    Some(h) => Ok(size_spec(w as u32, h as u32)),
                },
            },
            None => match parse_unsigned(s, u32::MAX as int) {
                None => Err(quoted("bad size "@, s)),
                Some(n) => Ok(
                    CropSpec {
                        width: Some(n as u32),
                        height: Some(n as u32),
                        long_edge: None,
                        aspect: None,
                        smart: false,
                    },
                ),
            },
        },
    }
}

/// The message `msg` with the argument in quotes.
fn quoted_message(msg: &str, s: &Vec<char>) -> (r: String)
    ensures
        r@ == quoted(msg@, s@),
{
    let mut v = chars_of(msg);
    push_str(&mut v, "'");
    let mut i: usize = 0;
    let ghost start = v@;
    while i < s.len()
        invariant
            i <= s@.len(),
            v@ == start + s@.take(i as int),
        decreases s.len() - i,
    {
        v.push(s[i]);
        i = i + 1;
        assert(v@ =~= start + s@.take(i as int));
    }
    assert(s@.take(s@.len() as int) =~= s@);
    push_str(&mut v, "'");
    string_of(v)
}

fn parse_part(s: &Vec<char>) -> (r: Option<u32>)
    ensures
        match r {
            Some(x) => parse_unsigned(trim(s@), u32::MAX as int) == Some(x as int),
            None => parse_unsigned(trim(s@), u32::MAX as int) is None,
        },
{
    let t = trimmed(s);
    crate::numbers::parse_u32(&t)
}

impl CropSpec {
    pub fn size(width: u32, height: u32) -> (r: CropSpec)
        ensures
            r == size_spec(width, height),
    {
        CropSpec {
            width: if width > 0 { Some(width) } else { None },
            height: if height > 0 { Some(height) } else { None },
            long_edge: None,
            aspect: None,
            smart: false,
        }
    }

    /// Parse a `--size` argument: `1200x630`, `1200x0`, `0x720`, `16:9`, or `1920`.
    pub fn parse(arg: &str) -> (r: Result<CropSpec, String>)
        ensures
            match r {
                Ok(c) => crop_spec_of(arg@) == Ok::<CropSpec, Seq<char>>(c),
                Err(m) => crop_spec_of(arg@) == Err::<CropSpec, Seq<char>>(m@),
            },
    {
        let raw = chars_of(arg);
        let s = trimmed(&raw);
        if let Some((a, b)) = split_once_char(&s, ':') {
            let aw = parse_part(&a);
            let ah = parse_part(&b);
            match (aw, ah) {
                (Some(aw), Some(ah)) => {
                    if aw == 0 || ah == 0 {
                        return Err(quoted_message("ratio parts must be > 0 in ", &s));
                    }
                    return Ok(
                        CropSpec {
                            width: None,
                            height: None,
                            long_edge: None,
                            aspect: Some((aw, ah)),
                            smart: false,
                        },
                    );
                },
                _ => {
                    return Err(quoted_message("bad ratio ", &s));
                },
            }
        }
        if let Some((a, b)) = split_once_char(&s, 'x') {
            let w = match parse_part(&a) {
                Some(w) => w,
                None => return Err(quoted_message("bad width in ", &s)),
            };
            let h = match parse_part(&b) {
                Some(h) => h,
                None => return Err(quoted_message("bad height in ", &s)),
            };
            return Ok(CropSpec::size(w, h));
        }
        match crate::numbers::parse_u32(&s) {
            Some(n) => Ok(
                CropSpec { width: Some(n), height: Some(n), long_edge: None, aspect: None, smart: false },
            ),
            None => Err(quoted_message("bad size ", &s)),
        }
    }

    /// When `on`, a single number given as width and height becomes the
    /// long edge.
    pub fn with_long_edge(self, on: bool) -> (r: CropSpec)
        ensures
            r == (if on {
                CropSpec {
                    long_edge: match self.width {
                        Some(w) => Some(w),
                        None => self.height,
                    },
                    width: None,
                    height: None,
                    ..self
                }
            } else {
                self
            }),
    {
        let mut c = self;
        if on {
            c.long_edge = match self.width {
                Some(w) => Some(w),
                None => self.height,
            };
            c.width = None;
            c.height = None;
        }
        c
    }

    pub fn with_smart(self, on: bool) -> (r: CropSpec)
        ensures
            r == (CropSpec { smart: on, ..self }),
    {
        let mut c = self;
        c.smart = on;
        c
    }
}

/// An even size for video encoders: odd sizes go one down, but never below 2.
pub open spec fn even_of(n: int) -> int {
    if n % 2 == 0 {
        n
    } else if n - 1 >= 2 {
        n - 1
    } else {
        2
    }
}

fn even(n: u32) -> (r: u32)
    ensures
        r == even_of(n as int),
{
    if n % 2 == 0 {
        n
    } else if n - 1 >= 2 {
        n - 1
    } else {
        2
    }
}

/// `num / den` rounded half away from zero and converted to `u32` the way
/// `(num as f64 / den as f64).round() as u32` does: saturating at
/// `u32::MAX`, infinity (a positive `num` over zero) at `u32::MAX`, `0 / 0`
/// at 0.
pub open spec fn round_ratio(num: int, den: int) -> int {
    if den == 0 {
        if num == 0 {
            0
        } else {
            u32::MAX as int
        }
    } else {
        let q = (2 * num + den) / (2 * den);
        if q > u32::MAX {
            u32::MAX as int
        } else {
            q
        }
    }
}

fn ratio(num: u64, den: u64) -> (r: u32)
    ensures
        r == round_ratio(num as int, den as int),
{
    if den == 0 {
        if num == 0 {
            0
        } else {
            u32::MAX
        }
    } else {
        let q: u128 = (2 * (num as u128) + den as u128) / (2 * (den as u128));
        if q > u32::MAX as u128 {
            u32::MAX
        } else {
            q as u32
        }
    }
}

/// How the source maps to the target.
#[derive(Debug, Clone, Copy, PartialEq, Eq, Structural)]
pub enum Plan {
    /// Scale keeping aspect to exactly these dims (no crop).
    Resize(u32, u32),
    /// Scale to cover then crop to exactly these dims.
    Cover(u32, u32),
    /// Crop centred to these dims, no scaling.
    CropOnly(u32, u32),
}

/// Whether a `sw`×`sh` frame is wider than the ratio `aw:ah` (comparing the
/// quotients as floating point does: a zero denominator makes an infinite
/// quotient, `0 / 0` compares false).
pub open spec fn wider_than(sw: int, sh: int, aw: int, ah: int) -> bool {
    if ah == 0 {
        false
    } else if sh == 0 {
        sw > 0
    } else {
        sw * ah > aw * sh
    }
}

/// The largest centred `aw:ah` rectangle in a `sw`×`sh` frame, at least 2×2.
pub open spec fn aspect_crop(sw: int, sh: int, aw: int, ah: int) -> (int, int) {
    let (tw, th) = if wider_than(sw, sh, aw, ah) {
        (round_ratio(sh * aw, ah), sh)
    } else {
        (sw, if ah == 0 { 0 } else { round_ratio(sw * ah, aw) })
    };
    (
        if (if tw < sw { tw } else { sw }) < 2 { 2 } else { if tw < sw { tw } else { sw } },
        if (if th < sh { th } else { sh }) < 2 { 2 } else { if th < sh { th } else { sh } },
    )
}

/// The plan for a `sw`×`sh` image: a long edge scales the longer side to it
/// (the other side keeping the aspect, made even); a ratio crops the largest
/// centred rectangle; width and height scale to cover then crop; one of them
/// scales keeping the aspect; neither keeps the size.
pub open spec fn plan_of(sw: u32, sh: u32, spec: CropSpec) -> Plan {
    match spec.long_edge {
        Some(n) => if sw >= sh {
            Plan::Resize(n, even_of(round_ratio(n * sh, sw as int)) as u32)
        } else {
            Plan::Resize(even_of(round_ratio(n * sw, sh as int)) as u32, n)
        },
        None => match spec.aspect {
            Some((aw, ah)) => {
                let (tw, th) = aspect_crop(sw as int, sh as int, aw as int, ah as int);
                Plan::CropOnly(tw as u32, th as u32)
            },
            None => match (spec.width, spec.height) {
                (Some(w), Some(h)) => Plan::Cover(w, h),
                (Some(w), None) => Plan::Resize(w, even_of(round_ratio(w * sh, sw as int)) as u32),
                (None, Some(h)) => Plan::Resize(even_of(round_ratio(h * sw, sh as int)) as u32, h),
                (None, None) => Plan::Resize(sw, sh),
            },
        },
    }
}

/// A ratio crop never leaves the frame: both sides are at least 2 and, on a
/// frame at least 2×2, at most the frame's.
pub proof fn lemma_aspect_crop_fits(sw: int, sh: int, aw: int, ah: int)
    requires
        sw >= 2,
        sh >= 2,
    ensures
        2 <= aspect_crop(sw, sh, aw, ah).0 <= sw,
        2 <= aspect_crop(sw, sh, aw, ah).1 <= sh,
{
}

fn min_max2(v: u32, cap: u32) -> (r: u32)
    ensures
        r == (if (if v < cap { v } else { cap }) < 2 { 2 } else { if v < cap { v } else { cap } }),
{
    let m = if v < cap { v } else { cap };
    if m < 2 { 2 } else { m }
}

/// The product of two `u32` values, which always fits in a `u64`.
fn mul32(a: u32, b: u32) -> (r: u64)
    ensures
        r == a * b,
{
    assert(a * b <= 0xFFFF_FFFFu64 * 0xFFFF_FFFFu64) by (nonlinear_arith)
        requires
            a <= 0xFFFF_FFFFu32,
            b <= 0xFFFF_FFFFu32,
    ;
    (a as u64) * (b as u64)
}

/// Resolve the crop plan for an image whose dimensions are known.
pub fn plan_for_image(sw: u32, sh: u32, spec: &CropSpec) -> (p: Plan)
    ensures
        p == plan_of(sw, sh, *spec),
{
    if let Some(n) = spec.long_edge {
        return if sw >= sh {
            Plan::Resize(n, even(ratio(mul32(n, sh), sw as u64)))
        } else {
            Plan::Resize(even(ratio(mul32(n, sw), sh as u64)), n)
        };
    }
    if let Some((aw, ah)) = spec.aspect {
        let wider = if ah == 0 {
            false
        } else if sh == 0 {
            sw > 0
        } else {
            mul32(sw, ah) > mul32(aw, sh)
        };
        let (tw, th) = if wider {
            (ratio(mul32(sh, aw), ah as u64), sh)
        } else {
            (sw, if ah == 0 { 0 } else { ratio(mul32(sw, ah), aw as u64) })
        };
        return Plan::CropOnly(min_max2(tw, sw), min_max2(th, sh));
    }
    match (spec.width, spec.height) {
        (Some(w), Some(h)) => Plan::Cover(w, h),
        (Some(w), None) => Plan::Resize(w, even(ratio(mul32(w, sh), sw as u64))),
        (None, Some(h)) => Plan::Resize(even(ratio(mul32(h, sw), sh as u64)), h),
        (None, None) => Plan::Resize(sw, sh),
    }
}

/// The ffmpeg filter a video crop uses, built from expressions only.
pub open spec fn video_filter_of(spec: CropSpec) -> Option<Seq<char>> {
    match spec.long_edge {
        Some(n) => Some(
            "scale='if(gt(iw,ih),"@ + crate::text::nat_digits(n as nat) + ",-2)':'if(gt(iw,ih),-2,"@
                + crate::text::nat_digits(n as nat) + ")'"@,
        ),
        None => match spec.aspect {
            Some((aw, ah)) => Some(
                "crop='min(iw,ih*"@ + crate::text::nat_digits(aw as nat) + "/"@ + crate::text::nat_digits(ah as nat)
                    + ")':'min(ih,iw*"@ + crate::text::nat_digits(ah as nat) + "/"@ + crate::text::nat_digits(
                    aw as nat,
                ) + ")'"@,
            ),
            None => match (spec.width, spec.height) {
                (Some(w), Some(h)) => Some(
                    "scale="@ + crate::text::nat_digits(w as nat) + ":"@ + crate::text::nat_digits(h as nat)
                        + ":force_original_aspect_ratio=increase,crop="@ + crate::text::nat_digits(w as nat) + ":"@
                        + crate::text::nat_digits(h as nat),
                ),
                (Some(w), None) => Some("scale="@ + crate::text::nat_digits(w as nat) + ":-2"@),
                (None, Some(h)) => Some("scale=-2:"@ + crate::text::nat_digits(h as nat)),
                (None, None) => None,
            },
        },
    }
}

/// The ffmpeg filter for cropping a video to `spec`; an error when it asks
/// for no size at all.
pub fn video_filter(spec: &CropSpec) -> (r: Result<String, OptimiseError>)
    ensures
        match r {
            Ok(f) => video_filter_of(*spec) == Some(f@),
            Err(e) => video_filter_of(*spec) is None && (e matches OptimiseError::Other(m) && m@
                == "crop: no target size given"@),
        },
{
    let mut v: Vec<char> = Vec::new();
    if let Some(n) = spec.long_edge {
        push_str(&mut v, "scale='if(gt(iw,ih),");
        push_nat(&mut v, n as u64);
        push_str(&mut v, ",-2)':'if(gt(iw,ih),-2,");
        push_nat(&mut v, n as u64);
        push_str(&mut v, ")'");
    } else if let Some((aw, ah)) = spec.aspect {
        push_str(&mut v, "crop='min(iw,ih*");
        push_nat(&mut v, aw as u64);
        push_str(&mut v, "/");
        push_nat(&mut v, ah as u64);
        push_str(&mut v, ")':'min(ih,iw*");
        push_nat(&mut v, ah as u64);
        push_str(&mut v, "/");
        push_nat(&mut v, aw as u64);
        push_str(&mut v, ")'");
    } else {
        match (spec.width, spec.height) {
            (Some(w), Some(h)) => {
                push_str(&mut v, "scale=");
                push_nat(&mut v, w as u64);
                push_str(&mut v, ":");
                push_nat(&mut v, h as u64);
                push_str(&mut v, ":force_original_aspect_ratio=increase,crop=");
                push_nat(&mut v, w as u64);
                push_str(&mut v, ":");
                push_nat(&mut v, h as u64);
            },
            (Some(w), None) => {
                push_str(&mut v, "scale=");
                push_nat(&mut v, w as u64);
                push_str(&mut v, ":-2");
            },
            (None, Some(h)) => {
                push_str(&mut v, "scale=-2:");
                push_nat(&mut v, h as u64);
            },
            (None, None) => {
                return Err(OptimiseError::Other(string_of(chars_of("crop: no target size given"))));
            },
        }
    }
    assert(Some(v@) == video_filter_of(*spec)) by {
        let v2 = v@;
        match spec.long_edge {
            Some(n) => {
                assert(v2 =~= video_filter_of(*spec)->0);
            },
            None => match spec.aspect {
                Some(p) => {
                    assert(v2 =~= video_filter_of(*spec)->0);
                },
                None => {
                    assert(v2 =~= video_filter_of(*spec)->0);
                },
            },
        }
    }
    Ok(string_of(v))
}

/// How an image crop is carried out.
#[derive(Debug, Clone, PartialEq)]
pub enum CropCommand {
    /// Run `tool` with `args`, trying up to `tries` times.
    Run { tool: Tool, args: Vec<String>, tries: u32 },
    /// Resize with `vips resize` to fit `width`×`height`: the scale is the
    /// smaller of the two ratios to the source size, written with five
    /// decimals (floating point, worked out where the tool is run).
    VipsResize { width: u32, height: u32 },
    /// Run ffmpeg once with this `-vf` filter.
    Ffmpeg { filter: String },
}

pub enum CropCommandView {
    Run(Tool, Seq<Seq<char>>, u32),
    VipsResize(u32, u32),
    Ffmpeg(Seq<char>),
}

impl View for CropCommand {
    type V = CropCommandView;

    open spec fn view(&self) -> CropCommandView {
        match self {
            CropCommand::Run { tool, args, tries } => CropCommandView::Run(*tool, views(args@), *tries),
            CropCommand::VipsResize { width, height } => CropCommandView::VipsResize(*width, *height),
            CropCommand::Ffmpeg { filter } => CropCommandView::Ffmpeg(filter@),
        }
    }
}

/// `W` `x` `H`.
pub open spec fn dims_text(w: u32, h: u32) -> Seq<char> {
    nat_digits(w as nat) + "x"@ + nat_digits(h as nat)
}

/// vipsthumbnail's arguments: fit `w`×`h`, optionally cropping with the
/// given `--smartcrop` mode.
pub open spec fn thumbnail_args_of(w: u32, h: u32, smartcrop: Option<Seq<char>>, src: Seq<char>, dst: Seq<char>) -> Seq<Seq<char>> {
    seq!["-s"@, dims_text(w, h)] + match smartcrop {
        Some(m) => seq!["--smartcrop"@, m],
        None => Seq::empty(),
    } + seq!["-o"@, dst, src]
}

/// The smart-crop mode: `attention` (feature-aware) or `centre`.
pub open spec fn crop_mode(smart: bool) -> Seq<char> {
    if smart {
        "attention"@
    } else {
        "centre"@
    }
}

/// The command that carries out `plan` on a `sw`×`sh` image `src`, writing
/// `dst`, given which vips tools are installed: vipsthumbnail for resizes
/// and covers, `vips crop` for a centred crop (vipsthumbnail's smart crop
/// when only it is there), `vips resize` for a resize without
/// vipsthumbnail, and an ffmpeg filter without either.
pub open spec fn crop_command_of(
    plan: Plan,
    sw: u32,
    sh: u32,
    smart: bool,
    has_thumbnail: bool,
    has_vips: bool,
    src: Seq<char>,
    dst: Seq<char>,
) -> CropCommandView {
    match plan {
        Plan::Resize(w, h) => if has_thumbnail {
            CropCommandView::Run(Tool::Vipsthumbnail, thumbnail_args_of(w, h, None, src, dst), 2)
        } else if has_vips {
            CropCommandView::VipsResize(w, h)
        } else {
            CropCommandView::Ffmpeg("scale="@ + nat_digits(w as nat) + ":"@ + nat_digits(h as nat))
        },
        Plan::Cover(w, h) => if has_thumbnail {
            CropCommandView::Run(Tool::Vipsthumbnail, thumbnail_args_of(w, h, Some(crop_mode(smart)), src, dst), 2)
        } else {
            CropCommandView::Ffmpeg(
                "scale="@ + nat_digits(w as nat) + ":"@ + nat_digits(h as nat)
                    + ":force_original_aspect_ratio=increase,crop="@ + nat_digits(w as nat) + ":"@ + nat_digits(
                    h as nat,
                ),
            )
        },
        Plan::CropOnly(w, h) => if has_vips {
            CropCommandView::Run(
                Tool::Vips,
                seq![
                    "crop"@,
                    src,
                    dst,
                    nat_digits(((sw - w) / 2) as nat),
                    nat_digits(((sh - h) / 2) as nat),
                    nat_digits(w as nat),
                    nat_digits(h as nat),
                ],
                2,
            )
        } else if has_thumbnail {
            CropCommandView::Run(Tool::Vipsthumbnail, thumbnail_args_of(w, h, Some(crop_mode(smart)), src, dst), 2)
        } else {
            CropCommandView::Ffmpeg(
                "crop="@ + nat_digits(w as nat) + ":"@ + nat_digits(h as nat) + ":(iw-"@ + nat_digits(w as nat)
                    + ")/2:(ih-"@ + nat_digits(h as nat) + ")/2"@,
            )
        },
    }
}

fn nat_string(n: u32) -> (s: String)
    ensures
        s@ == nat_digits(n as nat),
{
    let mut v: Vec<char> = Vec::new();
    push_nat(&mut v, n as u64);
    assert(v@ =~= nat_digits(n as nat));
    string_of(v)
}

fn thumbnail_args(w: u32, h: u32, smartcrop: Option<&str>, src: &str, dst: &str) -> (args: Vec<String>)
    ensures
        views(args@) == thumbnail_args_of(
            w,
            h,
            match smartcrop {
                Some(m) => Some(m@),
                None => None,
            },
            src@,
            dst@,
        ),
{
    let mut args: Vec<String> = Vec::new();
    str_vec_push(&mut args, "-s");
    let mut d: Vec<char> = Vec::new();
    push_nat(&mut d, w as u64);
    push_str(&mut d, "x");
    push_nat(&mut d, h as u64);
    string_vec_push(&mut args, string_of(d));
    if let Some(m) = smartcrop {
        str_vec_push(&mut args, "--smartcrop");
        str_vec_push(&mut args, m);
    }
    str_vec_push(&mut args, "-o");
    str_vec_push(&mut args, dst);
    str_vec_push(&mut args, src);
    assert(views(args@) =~= thumbnail_args_of(
        w,
        h,
        match smartcrop {
            Some(m) => Some(m@),
            None => None,
        },
        src@,
        dst@,
    ));
    args
}

fn mode_str(smart: bool) -> (r: &'static str)
    ensures
        r@ == crop_mode(smart),
{
    if smart {
        "attention"
    } else {
        "centre"
    }
}

/// The command that carries out `plan` on a `sw`×`sh` image.
pub fn image_crop_command(
    plan: Plan,
    sw: u32,
    sh: u32,
    smart: bool,
    has_thumbnail: bool,
    has_vips: bool,
    src: &str,
    dst: &str,
) -> (c: CropCommand)
    requires
        plan matches Plan::CropOnly(w, h) ==> (has_vips ==> w <= sw && h <= sh),
    ensures
        c@ == crop_command_of(plan, sw, sh, smart, has_thumbnail, has_vips, src@, dst@),
{
    match plan {
        Plan::Resize(w, h) => {
            if has_thumbnail {
                CropCommand::Run { tool: Tool::Vipsthumbnail, args: thumbnail_args(w, h, None, src, dst), tries: 2 }
            } else if has_vips {
                CropCommand::VipsResize { width: w, height: h }
            } else {
                let mut v: Vec<char> = Vec::new();
                push_str(&mut v, "scale=");
                push_nat(&mut v, w as u64);
                push_str(&mut v, ":");
                push_nat(&mut v, h as u64);
                assert(v@ =~= "scale="@ + nat_digits(w as nat) + ":"@ + nat_digits(h as nat));
                CropCommand::Ffmpeg { filter: string_of(v) }
            }
        },
        Plan::Cover(w, h) => {
            if has_thumbnail {
                CropCommand::Run {
                    tool: Tool::Vipsthumbnail,
                    args: thumbnail_args(w, h, Some(mode_str(smart)), src, dst),
                    tries: 2,
                }
            } else {
                let mut v: Vec<char> = Vec::new();
                push_str(&mut v, "scale=");
                push_nat(&mut v, w as u64);
                push_str(&mut v, ":");
                push_nat(&mut v, h as u64);
                push_str(&mut v, ":force_original_aspect_ratio=increase,crop=");
                push_nat(&mut v, w as u64);
                push_str(&mut v, ":");
                push_nat(&mut v, h as u64);
                assert(v@ =~= "scale="@ + nat_digits(w as nat) + ":"@ + nat_digits(h as nat)
                    + ":force_original_aspect_ratio=increase,crop="@ + nat_digits(w as nat) + ":"@ + nat_digits(
                    h as nat,
                ));
                CropCommand::Ffmpeg { filter: string_of(v) }
            }
        },
        Plan::CropOnly(w, h) => {
            if has_vips {
                let mut args: Vec<String> = Vec::new();
                str_vec_push(&mut args, "crop");
                str_vec_push(&mut args, src);
                str_vec_push(&mut args, dst);
                string_vec_push(&mut args, nat_string((sw - w) / 2));
                string_vec_push(&mut args, nat_string((sh - h) / 2));
                string_vec_push(&mut args, nat_string(w));
                string_vec_push(&mut args, nat_string(h));
                assert(views(args@) =~= seq![
                    "crop"@,
                    src@,
                    dst@,
                    nat_digits(((sw - w) / 2) as nat),
                    nat_digits(((sh - h) / 2) as nat),
                    nat_digits(w as nat),
                    nat_digits(h as nat),
                ]);
                CropCommand::Run { tool: Tool::Vips, args, tries: 2 }
            } else if has_thumbnail {
                CropCommand::Run {
                    tool: Tool::Vipsthumbnail,
                    args: thumbnail_args(w, h, Some(mode_str(smart)), src, dst),
                    tries: 2,
                }
            } else {
                let mut v: Vec<char> = Vec::new();
                push_str(&mut v, "crop=");
                push_nat(&mut v, w as u64);
                push_str(&mut v, ":");
                push_nat(&mut v, h as u64);
                push_str(&mut v, ":(iw-");
                push_nat(&mut v, w as u64);
                push_str(&mut v, ")/2:(ih-");
                push_nat(&mut v, h as u64);
                push_str(&mut v, ")/2");
                assert(v@ =~= "crop="@ + nat_digits(w as nat) + ":"@ + nat_digits(h as nat) + ":(iw-"@ + nat_digits(
                    w as nat,
                ) + ")/2:(ih-"@ + nat_digits(h as nat) + ")/2"@);
                CropCommand::Ffmpeg { filter: string_of(v) }
            }
        },
    }
}


/// When a size argument parses: after trimming, a ratio `a:b` (split at the
/// first `:`) whose trimmed sides are both non-zero numbers; otherwise a size
/// `w x h` (split at the first lowercase `x`) whose trimmed sides are both
/// numbers; otherwise a single number.
pub proof fn lemma_crop_spec_parses(arg: Seq<char>)
    ensures
        crop_spec_of(arg) is Ok <==> ({
            let t = trim(arg);
            match split_once(t, ':') {
                Some((a, b)) => {
                    &&& parse_unsigned(trim(a), u32::MAX as int) is Some
                    &&& parse_unsigned(trim(a), u32::MAX as int)->0 != 0
                    &&& parse_unsigned(trim(b), u32::MAX as int) is Some
                    &&& parse_unsigned(trim(b), u32::MAX as int)->0 != 0
                },
                None => match split_once(t, 'x') {
                    Some((a, b)) => parse_unsigned(trim(a), u32::MAX as int) is Some && parse_unsigned(
                        trim(b),
                        u32::MAX as int,
                    ) is Some,
                    None => parse_unsigned(t, u32::MAX as int) is Some,
                },
            }
        }),
{
    let t = trim(arg);
    match split_once(t, ':') {
        Some((a, b)) => {
            let (x, y) = (parse_unsigned(trim(a), u32::MAX as int), parse_unsigned(trim(b), u32::MAX as int));
            if x is Some && y is Some {
                assert(crop_spec_of(arg) is Ok <==> (x->0 != 0 && y->0 != 0));
            }
        },
        None => {},
    }
}

/// Scaling a side by `num / den` (rounded, made even) lands within one and
/// a half pixels of the exact value: `|2 * den * r - 2 * num| <= 3 * den`,
/// when the exact value fits in a `u32`.
proof fn lemma_even_round_close(num: int, den: int)
    requires
        den > 0,
        0 <= num <= (u32::MAX as int) * den,
    ensures
        0 <= even_of(round_ratio(num, den)) <= u32::MAX,
        even_of(round_ratio(num, den)) % 2 == 0,
        2 * den * even_of(round_ratio(num, den)) <= 2 * num + 3 * den,
        2 * num <= 2 * den * even_of(round_ratio(num, den)) + 3 * den,
{
    let q = (2 * num + den) / (2 * den);
    assert(2 * den * q <= 2 * num + den && 2 * num + den < 2 * den * q + 2 * den && q >= 0) by (nonlinear_arith)
        requires
            den > 0,
            num >= 0,
            q == (2 * num + den) / (2 * den),
    ;
    assert(q <= u32::MAX) by (nonlinear_arith)
        requires
            den > 0,
            num <= (u32::MAX as int) * den,
            2 * den * q <= 2 * num + den,
    ;
    assert(round_ratio(num, den) == q);
    let w = even_of(q);
    assert(w == q || w == q - 1 || (q == 1 && w == 2));
    assert(2 * den * w <= 2 * num + 3 * den && 2 * num <= 2 * den * w + 3 * den) by (nonlinear_arith)
        requires
            den > 0,
            2 * den * q <= 2 * num + den,
            2 * num + den < 2 * den * q + 2 * den,
            w == q || w == q - 1 || w == q + 1,
    ;
}

/// A resize given only a height keeps the source's aspect ratio: the width
/// is `sw * h / sh` rounded and made even, so `w * sh` is within one and a
/// half heights of `h * sw` (for a non-empty source, and a width that fits
/// in a `u32`).
pub proof fn lemma_height_only_keeps_aspect(sw: u32, sh: u32, h: u32, spec: CropSpec)
    requires
        sw > 0,
        sh > 0,
        spec.width is None && spec.height == Some(h) && spec.long_edge is None && spec.aspect is None,
        h * sw <= (u32::MAX as int) * sh,
    ensures
        plan_of(sw, sh, spec)
            matches Plan::Resize(w, h2) && h2 == h && w % 2 == 0 && 2 * (w * sh) <= 2 * (h * sw) + 3 * sh && 2 * (
            h * sw) <= 2 * (w * sh) + 3 * sh,
{
    lemma_even_round_close(h * sw, sh as int);
    let w = even_of(round_ratio(h * sw, sh as int));
    let wr = w as u32;
    assert(wr == w);
    assert(2 * (wr * sh) == 2 * sh * w) by (nonlinear_arith)
        requires
            wr == w,
    ;
}

/// A resize given only a width keeps the source's aspect ratio: the height
/// is `sh * w / sw` rounded and made even.
pub proof fn lemma_width_only_keeps_aspect(sw: u32, sh: u32, w: u32, spec: CropSpec)
    requires
        sw > 0,
        sh > 0,
        spec.width == Some(w) && spec.height is None && spec.long_edge is None && spec.aspect is None,
        w * sh <= (u32::MAX as int) * sw,
    ensures
        plan_of(sw, sh, spec)
            matches Plan::Resize(w2, h) && w2 == w && h % 2 == 0 && 2 * (h * sw) <= 2 * (w * sh) + 3 * sw && 2 * (
            w * sh) <= 2 * (h * sw) + 3 * sw,
{
    lemma_even_round_close(w * sh, sw as int);
    let h = even_of(round_ratio(w * sh, sw as int));
    let hr = h as u32;
    assert(hr == h);
    assert(2 * (hr * sw) == 2 * sw * h) by (nonlinear_arith)
        requires
            hr == h,
    ;
}

/// A long edge scales the longer side to it and keeps the aspect ratio: the
/// other side is the proportional one, rounded and made even.
pub proof fn lemma_long_edge_keeps_aspect(sw: u32, sh: u32, n: u32, spec: CropSpec)
    requires
        sw > 0,
        sh > 0,
        spec.long_edge == Some(n),
    ensures
        plan_of(sw, sh, spec)
            matches Plan::Resize(w, h) && (if sw >= sh {
            w == n && h % 2 == 0 && 2 * (h * sw) <= 2 * (n * sh) + 3 * sw && 2 * (n * sh) <= 2 * (h * sw) + 3 * sw
        } else {
            h == n && w % 2 == 0 && 2 * (w * sh) <= 2 * (n * sw) + 3 * sh && 2 * (n * sw) <= 2 * (w * sh) + 3 * sh
        }),
{
    if sw >= sh {
        assert(n * sh <= (u32::MAX as int) * sw) by (nonlinear_arith)
            requires
                n <= u32::MAX,
                sh <= sw,
                sh > 0,
        ;
        lemma_even_round_close(n * sh, sw as int);
        let h = even_of(round_ratio(n * sh, sw as int));
        let hr = h as u32;
        assert(hr == h);
        assert(2 * (hr * sw) == 2 * sw * h) by (nonlinear_arith)
            requires
                hr == h,
        ;
    } else {
        assert(n * sw <= (u32::MAX as int) * sh) by (nonlinear_arith)
            requires
                n <= u32::MAX,
                sw < sh,
                sw > 0,
        ;
        lemma_even_round_close(n * sw, sh as int);
        let w = even_of(round_ratio(n * sw, sh as int));
        let wr = w as u32;
        assert(wr == w);
        assert(2 * (wr * sh) == 2 * sh * w) by (nonlinear_arith)
            requires
                wr == w,
        ;
    }
}

proof fn lemma_round_below(num: int, den: int, cap: int)
    requires
        den > 0,
        num >= 0,
        cap >= 0,
        num <= cap * den,
        cap <= u32::MAX,
    ensures
        0 <= round_ratio(num, den) <= cap,
        2 * den * round_ratio(num, den) <= 2 * num + den,
        2 * num <= 2 * den * round_ratio(num, den) + den,
{
    let q = (2 * num + den) / (2 * den);
    assert(2 * den * q <= 2 * num + den && 2 * num + den < 2 * den * q + 2 * den && q >= 0) by (nonlinear_arith)
        requires
            den > 0,
            num >= 0,
            q == (2 * num + den) / (2 * den),
    ;
    assert(q <= cap) by (nonlinear_arith)
        requires
            den > 0,
            num <= cap * den,
            2 * den * q <= 2 * num + den,
    ;
}

/// A ratio crop keeps the requested ratio and is the largest one the frame
/// holds: on a frame wider than the ratio it keeps the full height and
/// takes the proportional width (rounded, at least 2); otherwise it keeps
/// the full width and takes the proportional height.
pub proof fn lemma_ratio_crop_keeps_ratio(sw: u32, sh: u32, aw: u32, ah: u32, spec: CropSpec)
    requires
        sw >= 2,
        sh >= 2,
        aw > 0,
        ah > 0,
        spec.long_edge is None,
        spec.aspect == Some((aw, ah)),
    ensures
        plan_of(sw, sh, spec) matches Plan::CropOnly(tw, th) && (if sw * ah > aw * sh {
            &&& th == sh && 2 <= tw <= sw
            &&& 2 * (sh * aw) <= 2 * (ah * tw) + ah
            &&& tw == 2 || 2 * (ah * tw) <= 2 * (sh * aw) + ah
        } else {
            &&& tw == sw && 2 <= th <= sh
            &&& 2 * (sw * ah) <= 2 * (aw * th) + aw
            &&& th == 2 || 2 * (aw * th) <= 2 * (sw * ah) + aw
        }),
{
    if sw * ah > aw * sh {
        assert(sh * aw <= sw * ah) by (nonlinear_arith)
            requires
                sw * ah > aw * sh,
        ;
        lemma_round_below(sh * aw, ah as int, sw as int);
        let r = round_ratio(sh * aw, ah as int);
        assert(wider_than(sw as int, sh as int, aw as int, ah as int));
        let tw = if r < 2 { 2 } else { r };
        assert(aspect_crop(sw as int, sh as int, aw as int, ah as int) == (tw, sh as int));
        assert(2 * (sh * aw) <= 2 * (ah * tw) + ah && (tw == 2 || 2 * (ah * tw) <= 2 * (sh * aw) + ah))
            by (nonlinear_arith)
            requires
                ah > 0,
                tw >= r,
                tw == r || tw == 2,
                2 * ah * r <= 2 * (sh * aw) + ah,
                2 * (sh * aw) <= 2 * ah * r + ah,
        ;
    } else {
        assert(sw * ah <= sh * aw) by (nonlinear_arith)
            requires
                sw * ah <= aw * sh,
        ;
        lemma_round_below(sw * ah, aw as int, sh as int);
        let r = round_ratio(sw * ah, aw as int);
        assert(!wider_than(sw as int, sh as int, aw as int, ah as int));
        let th = if r < 2 { 2 } else { r };
        assert(aspect_crop(sw as int, sh as int, aw as int, ah as int) == (sw as int, th));
        assert(2 * (sw * ah) <= 2 * (aw * th) + aw && (th == 2 || 2 * (aw * th) <= 2 * (sw * ah) + aw))
            by (nonlinear_arith)
            requires
                aw > 0,
                th >= r,
                th == r || th == 2,
                2 * aw * r <= 2 * (sw * ah) + aw,
                2 * (sw * ah) <= 2 * aw * r + aw,
        ;
    }
}

/// Both a width and a height (and no long edge or ratio) scale to cover and
/// crop to exactly that size.
pub proof fn lemma_size_covers(sw: u32, sh: u32, w: u32, h: u32, spec: CropSpec)
    requires
        spec.long_edge is None,
        spec.aspect is None,
        spec.width == Some(w),
        spec.height == Some(h),
    ensures
        plan_of(sw, sh, spec) == Plan::Cover(w, h),
{
}

} // verus!
