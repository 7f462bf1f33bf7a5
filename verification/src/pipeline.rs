//! A small pipeline DSL: a chain of steps joined by `->`, e.g.
//!
//! ```text
//! crop(width: 1600) -> convert(to: webp) -> downscale(factor: 0.5)
//! ```
//!
//! Each step transforms the working file and feeds the next. This module
//! parses the chain; running the steps is the application's part. Factors
//! and sizes are kept as the text the user wrote (checked against the
//! grammar `f64::from_str` accepts), and the application reads them as
//! floating-point numbers when a step runs.

use vstd::prelude::*;

use crate::audio::{audio_format_named, AudioFormat};
use crate::crop::CropSpec;
use crate::filetype::{classify, extension_lower, extension_lower_of, kind_of_path, MediaKind};
use crate::image::{image_format_named, ImageFormat};
use crate::paths::{opt_view, path_with_extension, with_extension};
use crate::result::OptimiseOptions;
use crate::numbers::{all_digits, is_digit, lemma_nat_digits, lemma_parse_int_text, lemma_parse_nat_digits, parse_signed, parse_unsigned};
use crate::text::{
    char_is_whitespace, has_arrow, holds_arrow_at, lemma_split_arrow, lemma_split_arrow_last, lemma_split_at,
    lemma_split_once_at, lemma_split_once_none, lemma_split_once_parts, lemma_split_plain, lemma_trim_unchanged,
    lemma_trim_wrapped, lower_char, split_from, split_pat_from, strip_end_char, strip_start_char, trim_start,
    char_views, chars_eq, chars_of, int_text, lower, nat_digits, push_int, push_nat, push_str, split_by, split_chars, split_on, split_once,
    split_once_char, split_pat, string_of, to_lower, trim, trim_char, trim_end, trimmed, trimmed_char, trimmed_end,
};

verus! {

#[derive(Debug, Clone, Copy, PartialEq)]
pub struct CropArgs {
    pub width: Option<u32>,
    pub height: Option<u32>,
    pub long_edge: Option<u32>,
    pub aspect: Option<(u32, u32)>,
    pub smart: bool,
}

impl CropArgs {
    pub fn to_spec(&self) -> (c: CropSpec)
        ensures
            c.width == self.width,
            c.height == self.height,
            c.long_edge == self.long_edge,
            c.aspect == self.aspect,
            c.smart == self.smart,
    {
        CropSpec {
            width: self.width,
            height: self.height,
            long_edge: self.long_edge,
            aspect: self.aspect,
            smart: self.smart,
        }
    }
}

/// A scale factor as written: a number, or a percentage of one.
#[derive(Debug, Clone, PartialEq)]
pub enum Factor {
    /// The factor itself, e.g. `0.5`.
    Plain(String),
    /// A percentage, e.g. `50` for `50%`: the factor is a hundredth of it.
    Percent(String),
}

/// A byte size as written: a number and the unit it counts (1, 1000 or
/// 1000000 bytes); the size is their product, truncated to whole bytes.
#[derive(Debug, Clone, PartialEq)]
pub struct ByteSize {
    pub number: String,
    pub unit: u64,
}

#[derive(Debug, Clone, PartialEq)]
pub enum Step {
    Optimise,
    Downscale { factor: Factor },
    Crop(CropArgs),
    Convert { to: String },
    StripExif,
    RemoveAudio,
    ChangeSpeed { factor: Factor },
    CapFps { fps: i32 },
    LowerBitrate { kbps: i32 },
    TargetSize { size: ByteSize },
    Adaptive,
}

pub enum FactorView {
    Plain(Seq<char>),
    Percent(Seq<char>),
}

pub struct ByteSizeView {
    pub number: Seq<char>,
    pub unit: u64,
}

pub enum StepView {
    Optimise,
    Downscale(FactorView),
    Crop(CropArgs),
    Convert(Seq<char>),
    StripExif,
    RemoveAudio,
    ChangeSpeed(FactorView),
    CapFps(i32),
    LowerBitrate(i32),
    TargetSize(ByteSizeView),
    Adaptive,
}

impl View for Factor {
    type V = FactorView;

    open spec fn view(&self) -> FactorView {
        match self {
            Factor::Plain(t) => FactorView::Plain(t@),
            Factor::Percent(t) => FactorView::Percent(t@),
        }
    }
}

impl View for Step {
    type V = StepView;

    open spec fn view(&self) -> StepView {
        match self {
            Step::Optimise => StepView::Optimise,
            Step::Downscale { factor } => StepView::Downscale(factor@),
            Step::Crop(a) => StepView::Crop(*a),
            Step::Convert { to } => StepView::Convert(to@),
            Step::StripExif => StepView::StripExif,
            Step::RemoveAudio => StepView::RemoveAudio,
            Step::ChangeSpeed { factor } => StepView::ChangeSpeed(factor@),
            Step::CapFps { fps } => StepView::CapFps(*fps),
            Step::LowerBitrate { kbps } => StepView::LowerBitrate(*kbps),
            Step::TargetSize { size } => StepView::TargetSize(ByteSizeView { number: size.number@, unit: size.unit }),
            Step::Adaptive => StepView::Adaptive,
        }
    }
}

pub open spec fn step_views(v: Seq<Step>) -> Seq<StepView> {
    v.map_values(|s: Step| s@)
}

// ---------------------------------------------------------------------------
// The number grammar of `f64::from_str`
// ---------------------------------------------------------------------------

/// `d` without one leading `+` or `-`.
pub open spec fn unsigned_part(d: Seq<char>) -> Seq<char> {
    if d.len() > 0 && (d[0] == '+' || d[0] == '-') {
        d.drop_first()
    } else {
        d
    }
}

/// Digits with at most one `.`, and at least one digit.
pub open spec fn is_mantissa(m: Seq<char>) -> bool {
    match split_once(m, '.') {
        Some((a, b)) => all_digits(a) && all_digits(b) && (a.len() > 0 || b.len() > 0),
        None => m.len() > 0 && all_digits(m),
    }
}

/// A mantissa with an optional `e`, sign and digits after it.
pub open spec fn is_decimal(u: Seq<char>) -> bool {
    match split_once(u, 'e') {
        Some((m, e)) => is_mantissa(m) && unsigned_part(e).len() > 0 && all_digits(unsigned_part(e)),
        None => is_mantissa(u),
    }
}

/// Whether `f64::from_str` accepts `s`: lowercased, an optional sign, then
/// `inf`, `infinity`, `nan` or a decimal number with an optional exponent.
pub open spec fn is_float_text(s: Seq<char>) -> bool {
    let u = unsigned_part(lower(s));
    u == "inf"@ || u == "infinity"@ || u == "nan"@ || is_decimal(u)
}

fn is_all_digits(d: &Vec<char>) -> (r: bool)
    ensures
        r == all_digits(d@),
{
    let mut i: usize = 0;
    while i < d.len()
        invariant
            i <= d@.len(),
            forall|k: int| 0 <= k < i ==> crate::numbers::is_digit(#[trigger] d@[k]),
        decreases d.len() - i,
    {
        if !('0' <= d[i] && d[i] <= '9') {
            return false;
        }
        i = i + 1;
    }
    true
}

fn without_sign(d: &Vec<char>) -> (r: Vec<char>)
    ensures
        r@ == unsigned_part(d@),
{
    let mut r: Vec<char> = Vec::new();
    let start: usize = if d.len() > 0 && (d[0] == '+' || d[0] == '-') { 1 } else { 0 };
    let mut i = start;
    while i < d.len()
        invariant
            start <= i <= d@.len(),
            r@ == d@.subrange(start as int, i as int),
        decreases d.len() - i,
    {
        r.push(d[i]);
        i = i + 1;
        assert(r@ =~= d@.subrange(start as int, i as int));
    }
    assert(r@ =~= unsigned_part(d@));
    r
}

fn mantissa_ok(m: &Vec<char>) -> (r: bool)
    ensures
        r == is_mantissa(m@),
{
    match split_once_char(m, '.') {
        Some((a, b)) => is_all_digits(&a) && is_all_digits(&b) && (a.len() > 0 || b.len() > 0),
        None => m.len() > 0 && is_all_digits(m),
    }
}

/// Whether `f64::from_str` accepts `s`.
pub fn float_text(s: &Vec<char>) -> (r: bool)
    ensures
        r == is_float_text(s@),
{
    let mut l: Vec<char> = Vec::new();
    let mut i: usize = 0;
    while i < s.len()
        invariant
            i <= s@.len(),
            l@ == lower(s@.take(i as int)),
        decreases s.len() - i,
    {
        let c = s[i];
        let lc = if 'A' <= c && c <= 'Z' {
            ((c as u32) + 32) as u8 as char
        } else {
            c
        };
        assert(lc == crate::text::lower_char(c)) by {
            if 'A' <= c && c <= 'Z' {
                assert(((c as u32) + 32) as u8 as char == ((c as int) + 32) as char);
            }
        }
        l.push(lc);
        i = i + 1;
        assert(l@ =~= lower(s@.take(i as int)));
    }
    assert(s@.take(s@.len() as int) =~= s@);
    let u = without_sign(&l);
    if chars_eq(&u, "inf") || chars_eq(&u, "infinity") || chars_eq(&u, "nan") {
        return true;
    }
    match split_once_char(&u, 'e') {
        Some((m, e)) => {
            let ex = without_sign(&e);
            mantissa_ok(&m) && ex.len() > 0 && is_all_digits(&ex)
        },
        None => mantissa_ok(&u),
    }
}

// ---------------------------------------------------------------------------
// Arguments
// ---------------------------------------------------------------------------

/// A value with surrounding spaces, then double quotes, then single quotes
/// taken off.
pub open spec fn unquoted(v: Seq<char>) -> Seq<char> {
    trim_char(trim_char(trim(v), '"'), '\'')
}

/// `msg` with `s` inserted between `before` and `after`.
pub open spec fn framed(before: Seq<char>, s: Seq<char>, after: Seq<char>) -> Seq<char> {
    before + s + after
}

/// The `key: value` pairs of comma-separated `parts`, left to right; empty
/// parts are skipped and the first part without a `:` is an error.
pub open spec fn pairs_of(parts: Seq<Seq<char>>) -> Result<Seq<(Seq<char>, Seq<char>)>, Seq<char>>
    decreases parts.len(),
{
    if parts.len() == 0 {
        Ok(Seq::empty())
    } else {
        let p = trim(parts[0]);
        if p.len() == 0 {
            pairs_of(parts.drop_first())
        } else {
            match split_once(p, ':') {
                None => Err(framed("expected 'key: value' in '"@, p, "'"@)),
                Some((k, v)) => match pairs_of(parts.drop_first()) {
                    Ok(rest) => Ok(seq![(trim(k), unquoted(v))] + rest),
                    Err(e) => Err(e),
                },
            }
        }
    }
}

/// The arguments between a step's parentheses.
pub open spec fn args_of(a: Seq<char>) -> Result<Seq<(Seq<char>, Seq<char>)>, Seq<char>> {
    let t = trim(a);
    if t.len() == 0 {
        Ok(Seq::empty())
    } else {
        pairs_of(split_on(t, ','))
    }
}

/// The value of the first argument named `k`.
pub open spec fn lookup(args: Seq<(Seq<char>, Seq<char>)>, k: Seq<char>) -> Option<Seq<char>>
    decreases args.len(),
{
    if args.len() == 0 {
        None
    } else if args[0].0 == k {
        Some(args[0].1)
    } else {
        lookup(args.drop_first(), k)
    }
}

pub open spec fn pair_views(v: Seq<(Vec<char>, Vec<char>)>) -> Seq<(Seq<char>, Seq<char>)> {
    v.map_values(|p: (Vec<char>, Vec<char>)| (p.0@, p.1@))
}

fn message(before: &str, s: &Vec<char>, after: &str) -> (r: String)
    ensures
        r@ == framed(before@, s@, after@),
{
    let mut v = chars_of(before);
    let ghost start = v@;
    let mut i: usize = 0;
    while i < s.len()
        invariant
            i <= s@.len(),
            v@ == start + s@.take(i as int),
        decreases s.len() - i,
    {
        v.push(s[i]);
        i = i + 1;
        assert(v@ =~= start + s@.take(i as int));
    }
    assert(s@.take(s@.len() as int) =~= s@);
    push_str(&mut v, after);
    string_of(v)
}

fn text(s: &str) -> (r: String)
    ensures
        r@ == s@,
{
    string_of(chars_of(s))
}

fn unquote(v: &Vec<char>) -> (r: Vec<char>)
    ensures
        r@ == unquoted(v@),
{
    let t = trimmed(v);
    let d = trimmed_char(&t, '"');
    trimmed_char(&d, '\'')
}

/// The arguments between a step's parentheses, as `(key, value)` pairs.
fn parse_args(a: &Vec<char>) -> (r: Result<Vec<(Vec<char>, Vec<char>)>, String>)
    ensures
        match r {
            Ok(v) => args_of(a@) == Ok::<Seq<(Seq<char>, Seq<char>)>, Seq<char>>(pair_views(v@)),
            Err(e) => args_of(a@) == Err::<Seq<(Seq<char>, Seq<char>)>, Seq<char>>(e@),
        },
{
    let t = trimmed(a);
    let mut out: Vec<(Vec<char>, Vec<char>)> = Vec::new();
    if t.len() == 0 {
        assert(pair_views(out@) =~= Seq::<(Seq<char>, Seq<char>)>::empty());
        return Ok(out);
    }
    let parts = split_chars(&t, ',');
    let ghost ps = split_on(t@, ',');
    assert(char_views(parts@) == ps);
    let ghost target = pairs_of(ps);
    let mut i: usize = 0;
    assert(ps.skip(0) =~= ps);
    assert(pair_views(out@) =~= Seq::<(Seq<char>, Seq<char>)>::empty());
    while i < parts.len()
        invariant
            i <= parts@.len(),
            char_views(parts@) == ps,
            target == pairs_of(ps),
            t@ == trim(a@),
            t@.len() > 0,
            ps == split_on(t@, ','),
            match pairs_of(ps.skip(i as int)) {
                Ok(rest) => target == Ok::<Seq<(Seq<char>, Seq<char>)>, Seq<char>>(pair_views(out@) + rest),
                Err(e) => target == Err::<Seq<(Seq<char>, Seq<char>)>, Seq<char>>(e),
            },
        decreases parts.len() - i,
    {
        let ghost rest = ps.skip(i as int);
        assert(rest[0] == parts@[i as int]@);
        assert(rest.drop_first() =~= ps.skip(i + 1));
        let p = trimmed(&parts[i]);
        if p.len() > 0 {
            match split_once_char(&p, ':') {
                None => {
                    let e = message("expected 'key: value' in '", &p, "'");
                    assert(pairs_of(rest) == Err::<Seq<(Seq<char>, Seq<char>)>, Seq<char>>(e@));
                    assert(args_of(a@) == target);
                    return Err(e);
                },
                Some((k, v)) => {
                    let ghost before = pair_views(out@);
                    let kk = trimmed(&k);
                    let vv = unquote(&v);
                    out.push((kk, vv));
                    assert(pair_views(out@) =~= before.push((trim(k@), unquoted(v@))));
                    proof {
                        match pairs_of(ps.skip(i + 1)) {
                            Ok(r2) => {
                                assert(before + (seq![(trim(k@), unquoted(v@))] + r2) =~= pair_views(out@) + r2);
                            },
                            Err(e) => {},
                        }
                    }
                },
            }
        }
        i = i + 1;
    }
    assert(ps.skip(i as int) =~= Seq::<Seq<char>>::empty());
    assert(pair_views(out@) + Seq::<(Seq<char>, Seq<char>)>::empty() =~= pair_views(out@));
    Ok(out)
}

/// The value of the first argument named `k`.
fn get(args: &Vec<(Vec<char>, Vec<char>)>, k: &str) -> (r: Option<Vec<char>>)
    ensures
        match r {
            Some(v) => lookup(pair_views(args@), k@) == Some(v@),
            None => lookup(pair_views(args@), k@) is None,
        },
{
    let ghost pv = pair_views(args@);
    let mut i: usize = 0;
    assert(pv.skip(0) =~= pv);
    while i < args.len()
        invariant
            i <= args@.len(),
            pv == pair_views(args@),
            lookup(pv, k@) == lookup(pv.skip(i as int), k@),
        decreases args.len() - i,
    {
        assert(pv.skip(i as int)[0] == (args@[i as int].0@, args@[i as int].1@));
        assert(pv.skip(i as int).drop_first() =~= pv.skip(i + 1));
        if chars_eq(&args[i].0, k) {
            let v = args[i].1.clone();
            assert(v@ == args@[i as int].1@);
            return Some(v);
        }
        i = i + 1;
    }
    None
}

// ---------------------------------------------------------------------------
// Argument values
// ---------------------------------------------------------------------------

/// A factor: `N%` (a percentage) or a plain number.
pub open spec fn factor_of(v: Seq<char>) -> Result<FactorView, Seq<char>> {
    if v.len() > 0 && v.last() == '%' {
        let p = trim(v.drop_last());
        if is_float_text(p) {
            Ok(FactorView::Percent(p))
        } else {
            Err(framed("bad percent '"@, v, "'"@))
        }
    } else if is_float_text(v) {
        Ok(FactorView::Plain(v))
    } else {
        Err(framed("bad factor '"@, v, "'"@))
    }
}

/// Whether `s` ends with `suffix`.
pub open spec fn ends_with(s: Seq<char>, suffix: Seq<char>) -> bool {
    suffix.len() <= s.len() && s.skip(s.len() - suffix.len()) == suffix
}

/// A size like `500000`, `500kb`, `1.5mb` (any case, `b` optional).
pub open spec fn size_of(v: Seq<char>) -> Result<ByteSizeView, Seq<char>> {
    let s = lower(trim(v));
    let (num, unit) = if ends_with(s, "mb"@) {
        (trim(s.take(s.len() - 2)), 1_000_000u64)
    } else if ends_with(s, "kb"@) {
        (trim(s.take(s.len() - 2)), 1_000u64)
    } else if ends_with(s, "b"@) {
        (trim(s.take(s.len() - 1)), 1u64)
    } else {
        (s, 1u64)
    };
    if is_float_text(num) {
        Ok(ByteSizeView { number: num, unit })
    } else {
        Err(framed("bad size '"@, v, "'"@))
    }
}

/// A ratio `W:H`.
pub open spec fn ratio_of(v: Seq<char>) -> Result<(u32, u32), Seq<char>> {
    match split_once(v, ':') {
        None => Err(framed("bad ratio '"@, v, "'"@)),
        Some((a, b)) => match (parse_unsigned(trim(a), u32::MAX as int), parse_unsigned(trim(b), u32::MAX as int)) {
            (Some(x), Some(y)) => Ok((x as u32, y as u32)),
            _ => Err("bad ratio"@),
        },
    }
}

/// An optional `u32` argument, `msg` when it does not parse.
pub open spec fn opt_u32(v: Option<Seq<char>>, msg: Seq<char>) -> Result<Option<u32>, Seq<char>> {
    match v {
        None => Ok(None),
        Some(t) => match parse_unsigned(t, u32::MAX as int) {
            Some(x) => Ok(Some(x as u32)),
            None => Err(msg),
        },
    }
}

/// The arguments of a `crop` step: width, height, long edge (`longEdge` or
/// `long_edge`), ratio (`ratio` or `aspect`), `smart: true`; at least one
/// size is needed.
pub open spec fn crop_of(args: Seq<(Seq<char>, Seq<char>)>) -> Result<CropArgs, Seq<char>> {
    let le = match lookup(args, "longEdge"@) {
        Some(v) => Some(v),
        None => lookup(args, "long_edge"@),
    };
    let ra = match lookup(args, "ratio"@) {
        Some(v) => Some(v),
        None => lookup(args, "aspect"@),
    };
    match opt_u32(lookup(args, "width"@), "bad width"@) {
        Err(e) => Err(e),
        Ok(width) => match opt_u32(lookup(args, "height"@), "bad height"@) {
            Err(e) => Err(e),
            Ok(height) => match opt_u32(le, "bad longEdge"@) {
                Err(e) => Err(e),
                Ok(long_edge) => match (match ra {
                    None => Ok(None),
                    Some(v) => match ratio_of(v) {
                        Ok(r) => Ok(Some(r)),
                        Err(e) => Err(e),
                    },
                }) {
                    Err(e) => Err(e),
                    Ok(aspect) => if width is None && height is None && long_edge is None && aspect is None {
                        Err("crop requires width:, height:, longEdge: or ratio:"@)
                    } else {
                        Ok(
                            CropArgs {
                                width,
                                height,
                                long_edge,
                                aspect,
                                smart: lookup(args, "smart"@) == Some("true"@),
                            },
                        )
                    },
                },
            },
        },
    }
}

/// A step's name and the text between its parentheses.
pub open spec fn step_parts(s: Seq<char>) -> Result<(Seq<char>, Seq<char>), Seq<char>> {
    match split_once(s, '(') {
        Some((n, rest)) => {
            let r = trim_end(rest);
            if r.len() > 0 && r.last() == ')' {
                Ok((trim(n), r.drop_last()))
            } else {
                Err(framed("missing ')' in step '"@, s, "'"@))
            }
        },
        None => Ok((trim(s), Seq::empty())),
    }
}

/// A step that needs a factor.
pub open spec fn factor_step(args: Seq<(Seq<char>, Seq<char>)>, missing: Seq<char>) -> Result<FactorView, Seq<char>> {
    match lookup(args, "factor"@) {
        None => Err(missing),
        Some(v) => factor_of(v),
    }
}

/// A step that needs an `i32` argument `key`.
pub open spec fn int_step(args: Seq<(Seq<char>, Seq<char>)>, key: Seq<char>, missing: Seq<char>, bad: Seq<char>) -> Result<i32, Seq<char>> {
    match lookup(args, key) {
        None => Err(missing),
        Some(v) => match parse_signed(v, i32::MIN as int, i32::MAX as int) {
            Some(x) => Ok(x as i32),
            None => Err(bad),
        },
    }
}

/// The step a name and its arguments describe.
pub open spec fn named_step(name: Seq<char>, args: Seq<(Seq<char>, Seq<char>)>) -> Result<StepView, Seq<char>> {
    if name == "optimise"@ || name == "optimize"@ {
        Ok(StepView::Optimise)
    } else if name == "downscale"@ {
        match factor_step(args, "downscale requires factor:"@) {
            Ok(f) => Ok(StepView::Downscale(f)),
            Err(e) => Err(e),
        }
    } else if name == "crop"@ {
        match crop_of(args) {
            Ok(c) => Ok(StepView::Crop(c)),
            Err(e) => Err(e),
        }
    } else if name == "convert"@ {
        match lookup(args, "to"@) {
            Some(t) => Ok(StepView::Convert(t)),
            None => Err("convert requires to:"@),
        }
    } else if name == "stripExif"@ || name == "stripexif"@ || name == "strip_exif"@ {
        Ok(StepView::StripExif)
    } else if name == "removeAudio"@ || name == "removeaudio"@ || name == "remove_audio"@ {
        Ok(StepView::RemoveAudio)
    } else if name == "changeSpeed"@ || name == "change_speed"@ {
        match factor_step(args, "changeSpeed requires factor:"@) {
            Ok(f) => Ok(StepView::ChangeSpeed(f)),
            Err(e) => Err(e),
        }
    } else if name == "capFps"@ || name == "cap_fps"@ {
        match int_step(args, "fps"@, "capFps requires fps:"@, "bad fps"@) {
            Ok(x) => Ok(StepView::CapFps(x)),
            Err(e) => Err(e),
        }
    } else if name == "lowerBitrate"@ || name == "lower_bitrate"@ {
        match int_step(args, "kbps"@, "lowerBitrate requires kbps:"@, "bad kbps"@) {
            Ok(x) => Ok(StepView::LowerBitrate(x)),
            Err(e) => Err(e),
        }
    } else if name == "targetSize"@ || name == "target_size"@ {
        match (match lookup(args, "bytes"@) {
            Some(v) => Some(v),
            None => lookup(args, "kb"@),
        }) {
            None => Err("targetSize requires bytes: or kb:"@),
            Some(raw) => match size_of(raw) {
                Ok(b) => Ok(StepView::TargetSize(b)),
                Err(e) => Err(e),
            },
        }
    } else if name == "adaptive"@ {
        Ok(StepView::Adaptive)
    } else {
        Err(framed("unknown step '"@, name, "'"@))
    }
}

/// One step of the chain: `name` or `name(key: value, ...)`.
pub open spec fn step_of(s: Seq<char>) -> Result<StepView, Seq<char>> {
    match step_parts(s) {
        Err(e) => Err(e),
        Ok((name, a)) => match args_of(a) {
            Err(e) => Err(e),
            Ok(args) => named_step(name, args),
        },
    }
}

/// The steps of the pieces, left to right, skipping blank ones; the first
/// error stops the parse.
pub open spec fn steps_of(pieces: Seq<Seq<char>>) -> Result<Seq<StepView>, Seq<char>>
    decreases pieces.len(),
{
    if pieces.len() == 0 {
        Ok(Seq::empty())
    } else {
        let p = trim(pieces[0]);
        if p.len() == 0 {
            steps_of(pieces.drop_first())
        } else {
            match step_of(p) {
                Err(e) => Err(e),
                Ok(st) => match steps_of(pieces.drop_first()) {
                    Ok(rest) => Ok(seq![st] + rest),
                    Err(e) => Err(e),
                },
            }
        }
    }
}

/// A whole chain: the steps between the `->` arrows.
pub open spec fn pipeline_of(dsl: Seq<char>) -> Result<Seq<StepView>, Seq<char>> {
    steps_of(split_pat(dsl, "->"@))
}

fn drop_last_char(v: &Vec<char>) -> (r: Vec<char>)
    requires
        v@.len() > 0,
    ensures
        r@ == v@.drop_last(),
{
    let mut r: Vec<char> = Vec::new();
    let mut i: usize = 0;
    let n = v.len() - 1;
    while i < n
        invariant
            v@.len() > 0,
            n == v@.len() - 1,
            i <= n,
            r@ == v@.take(i as int),
        decreases v.len() - i,
    {
        r.push(v[i]);
        i = i + 1;
        assert(r@ =~= v@.take(i as int));
    }
    assert(r@ =~= v@.drop_last());
    r
}

fn take_chars(v: &Vec<char>, n: usize) -> (r: Vec<char>)
    requires
        n <= v@.len(),
    ensures
        r@ == v@.take(n as int),
{
    let mut r: Vec<char> = Vec::new();
    let mut i: usize = 0;
    while i < n
        invariant
            n <= v@.len(),
            i <= n,
            r@ == v@.take(i as int),
        decreases n - i,
    {
        r.push(v[i]);
        i = i + 1;
        assert(r@ =~= v@.take(i as int));
    }
    r
}

fn has_suffix(s: &Vec<char>, suffix: &str) -> (r: bool)
    ensures
        r == ends_with(s@, suffix@),
{
    let n = suffix.unicode_len();
    if n > s.len() {
        return false;
    }
    let start = s.len() - n;
    let mut i: usize = 0;
    while i < n
        invariant
            n == suffix@.len(),
            start + n == s@.len(),
            start + n == s.len(),
            i <= n,
            forall|k: int| 0 <= k < i ==> s@[start + k] == suffix@[k],
        decreases n - i,
    {
        if s[start + i] != suffix.get_char(i) {
            assert(s@.skip(start as int)[i as int] != suffix@[i as int]);
            return false;
        }
        i = i + 1;
    }
    assert(s@.skip(start as int) =~= suffix@);
    true
}

/// A factor: `N%` (a percentage) or a plain number.
fn parse_factor(v: &Vec<char>) -> (r: Result<Factor, String>)
    ensures
        match r {
            Ok(f) => factor_of(v@) == Ok::<FactorView, Seq<char>>(f@),
            Err(e) => factor_of(v@) == Err::<FactorView, Seq<char>>(e@),
        },
{
    if v.len() > 0 && v[v.len() - 1] == '%' {
        let d = drop_last_char(v);
        let p = trimmed(&d);
        if float_text(&p) {
            Ok(Factor::Percent(string_of(p)))
        } else {
            Err(message("bad percent '", v, "'"))
        }
    } else if float_text(v) {
        let t = v.clone();
        assert(t@ == v@);
        Ok(Factor::Plain(string_of(t)))
    } else {
        Err(message("bad factor '", v, "'"))
    }
}

/// A size like `500000`, `500kb`, `1.5mb`.
fn parse_size(v: &Vec<char>) -> (r: Result<ByteSize, String>)
    ensures
        match r {
            Ok(b) => size_of(v@) == Ok::<ByteSizeView, Seq<char>>(ByteSizeView { number: b.number@, unit: b.unit }),
            Err(e) => size_of(v@) == Err::<ByteSizeView, Seq<char>>(e@),
        },
{
    let t = trimmed(v);
    let mut s: Vec<char> = Vec::new();
    let mut i: usize = 0;
    while i < t.len()
        invariant
            i <= t@.len(),
            s@ == lower(t@.take(i as int)),
        decreases t.len() - i,
    {
        let c = t[i];
        let lc = if 'A' <= c && c <= 'Z' {
            ((c as u32) + 32) as u8 as char
        } else {
            c
        };
        assert(lc == crate::text::lower_char(c)) by {
            if 'A' <= c && c <= 'Z' {
                assert(((c as u32) + 32) as u8 as char == ((c as int) + 32) as char);
            }
        }
        s.push(lc);
        i = i + 1;
        assert(s@ =~= lower(t@.take(i as int)));
    }
    assert(t@.take(t@.len() as int) =~= t@);
    proof {
        reveal_strlit("mb");
        reveal_strlit("kb");
        reveal_strlit("b");
    }
    let (num, unit) = if has_suffix(&s, "mb") {
        (trimmed(&take_chars(&s, s.len() - 2)), 1_000_000u64)
    } else if has_suffix(&s, "kb") {
        (trimmed(&take_chars(&s, s.len() - 2)), 1_000u64)
    } else if has_suffix(&s, "b") {
        (trimmed(&take_chars(&s, s.len() - 1)), 1u64)
    } else {
        (s, 1u64)
    };
    if float_text(&num) {
        Ok(ByteSize { number: string_of(num), unit })
    } else {
        Err(message("bad size '", v, "'"))
    }
}

/// A ratio `W:H`.
fn parse_ratio(v: &Vec<char>) -> (r: Result<(u32, u32), String>)
    ensures
        match r {
            Ok(p) => ratio_of(v@) == Ok::<(u32, u32), Seq<char>>(p),
            Err(e) => ratio_of(v@) == Err::<(u32, u32), Seq<char>>(e@),
        },
{
    match split_once_char(v, ':') {
        None => Err(message("bad ratio '", v, "'")),
        Some((a, b)) => {
            let x = crate::numbers::parse_u32(&trimmed(&a));
            let y = crate::numbers::parse_u32(&trimmed(&b));
            match (x, y) {
                (Some(x), Some(y)) => Ok((x, y)),
                _ => Err(text("bad ratio")),
            }
        },
    }
}

/// An optional `u32` argument.
fn parse_opt_u32(v: Option<Vec<char>>, msg: &str) -> (r: Result<Option<u32>, String>)
    ensures
        match r {
            Ok(x) => opt_u32(match v {
                Some(t) => Some(t@),
                None => None,
            }, msg@) == Ok::<Option<u32>, Seq<char>>(x),
            Err(e) => opt_u32(match v {
                Some(t) => Some(t@),
                None => None,
            }, msg@) == Err::<Option<u32>, Seq<char>>(e@),
        },
{
    match v {
        None => Ok(None),
        Some(t) => match crate::numbers::parse_u32(&t) {
            Some(x) => Ok(Some(x)),
            None => Err(text(msg)),
        },
    }
}

pub open spec fn opt_chars(o: Option<Vec<char>>) -> Option<Seq<char>> {
    match o {
        Some(t) => Some(t@),
        None => None,
    }
}

/// The first of two alternative argument names that is given.
fn get_either(args: &Vec<(Vec<char>, Vec<char>)>, k1: &str, k2: &str) -> (r: Option<Vec<char>>)
    ensures
        opt_chars(r) == (match lookup(pair_views(args@), k1@) {
            Some(v) => Some(v),
            None => lookup(pair_views(args@), k2@),
        }),
{
    match get(args, k1) {
        Some(v) => Some(v),
        None => get(args, k2),
    }
}

/// The arguments of a `crop` step.
fn parse_crop(args: &Vec<(Vec<char>, Vec<char>)>) -> (r: Result<CropArgs, String>)
    ensures
        match r {
            Ok(c) => crop_of(pair_views(args@)) == Ok::<CropArgs, Seq<char>>(c),
            Err(e) => crop_of(pair_views(args@)) == Err::<CropArgs, Seq<char>>(e@),
        },
{
    let ghost pa = pair_views(args@);
    let width = match parse_opt_u32(get(args, "width"), "bad width") {
        Ok(x) => x,
        Err(e) => return Err(e),
    };
    let height = match parse_opt_u32(get(args, "height"), "bad height") {
        Ok(x) => x,
        Err(e) => return Err(e),
    };
    let long_edge = match parse_opt_u32(get_either(args, "longEdge", "long_edge"), "bad longEdge") {
        Ok(x) => x,
        Err(e) => return Err(e),
    };
    let aspect = match get_either(args, "ratio", "aspect") {
        None => None,
        Some(v) => match parse_ratio(&v) {
            Ok(p) => Some(p),
            Err(e) => return Err(e),
        },
    };
    if width.is_none() && height.is_none() && long_edge.is_none() && aspect.is_none() {
        return Err(text("crop requires width:, height:, longEdge: or ratio:"));
    }
    let smart = match get(args, "smart") {
        Some(v) => chars_eq(&v, "true"),
        None => false,
    };
    proof {
        reveal_strlit("true");
    }
    Ok(CropArgs { width, height, long_edge, aspect, smart })
}

/// A step that needs a factor.
fn parse_factor_arg(args: &Vec<(Vec<char>, Vec<char>)>, missing: &str) -> (r: Result<Factor, String>)
    ensures
        match r {
            Ok(f) => factor_step(pair_views(args@), missing@) == Ok::<FactorView, Seq<char>>(f@),
            Err(e) => factor_step(pair_views(args@), missing@) == Err::<FactorView, Seq<char>>(e@),
        },
{
    match get(args, "factor") {
        None => Err(text(missing)),
        Some(v) => parse_factor(&v),
    }
}

/// A step that needs an `i32` argument `key`.
fn parse_int_arg(args: &Vec<(Vec<char>, Vec<char>)>, key: &str, missing: &str, bad: &str) -> (r: Result<i32, String>)
    ensures
        match r {
            Ok(x) => int_step(pair_views(args@), key@, missing@, bad@) == Ok::<i32, Seq<char>>(x),
            Err(e) => int_step(pair_views(args@), key@, missing@, bad@) == Err::<i32, Seq<char>>(e@),
        },
{
    match get(args, key) {
        None => Err(text(missing)),
        Some(v) => match crate::numbers::parse_i32(&v) {
            Some(x) => Ok(x),
            None => Err(text(bad)),
        },
    }
}

/// The video and size steps.
fn named_step_rest(name: &Vec<char>, args: &Vec<(Vec<char>, Vec<char>)>) -> (r: Result<Step, String>)
    requires
        !(name@ == "optimise"@ || name@ == "optimize"@ || name@ == "downscale"@ || name@ == "crop"@ || name@
            == "convert"@ || name@ == "stripExif"@ || name@ == "stripexif"@ || name@ == "strip_exif"@),
    ensures
        match r {
            Ok(st) => named_step(name@, pair_views(args@)) == Ok::<StepView, Seq<char>>(st@),
            Err(e) => named_step(name@, pair_views(args@)) == Err::<StepView, Seq<char>>(e@),
        },
{
    let ghost pa = pair_views(args@);
    if chars_eq(name, "removeAudio") || chars_eq(name, "removeaudio") || chars_eq(name, "remove_audio") {
        Ok(Step::RemoveAudio)
    } else if chars_eq(name, "changeSpeed") || chars_eq(name, "change_speed") {
        match parse_factor_arg(args, "changeSpeed requires factor:") {
            Ok(f) => Ok(Step::ChangeSpeed { factor: f }),
            Err(e) => Err(e),
        }
    } else if chars_eq(name, "capFps") || chars_eq(name, "cap_fps") {
        match parse_int_arg(args, "fps", "capFps requires fps:", "bad fps") {
            Ok(x) => Ok(Step::CapFps { fps: x }),
            Err(e) => Err(e),
        }
    } else if chars_eq(name, "lowerBitrate") || chars_eq(name, "lower_bitrate") {
        match parse_int_arg(args, "kbps", "lowerBitrate requires kbps:", "bad kbps") {
            Ok(x) => Ok(Step::LowerBitrate { kbps: x }),
            Err(e) => Err(e),
        }
    } else if chars_eq(name, "targetSize") || chars_eq(name, "target_size") {
        match get_either(args, "bytes", "kb") {
            None => Err(text("targetSize requires bytes: or kb:")),
            Some(raw) => match parse_size(&raw) {
                Ok(b) => Ok(Step::TargetSize { size: b }),
                Err(e) => Err(e),
            },
        }
    } else if chars_eq(name, "adaptive") {
        Ok(Step::Adaptive)
    } else {
        Err(message("unknown step '", name, "'"))
    }
}

/// The step a name and its arguments describe.
fn named(name: &Vec<char>, args: &Vec<(Vec<char>, Vec<char>)>) -> (r: Result<Step, String>)
    ensures
        match r {
            Ok(st) => named_step(name@, pair_views(args@)) == Ok::<StepView, Seq<char>>(st@),
            Err(e) => named_step(name@, pair_views(args@)) == Err::<StepView, Seq<char>>(e@),
        },
{
    if chars_eq(name, "optimise") || chars_eq(name, "optimize") {
        Ok(Step::Optimise)
    } else if chars_eq(name, "downscale") {
        match parse_factor_arg(args, "downscale requires factor:") {
            Ok(f) => Ok(Step::Downscale { factor: f }),
            Err(e) => Err(e),
        }
    } else if chars_eq(name, "crop") {
        match parse_crop(args) {
            Ok(c) => Ok(Step::Crop(c)),
            Err(e) => Err(e),
        }
    } else if chars_eq(name, "convert") {
        match get(args, "to") {
            Some(t) => Ok(Step::Convert { to: string_of(t) }),
            None => Err(text("convert requires to:")),
        }
    } else if chars_eq(name, "stripExif") || chars_eq(name, "stripexif") || chars_eq(name, "strip_exif") {
        Ok(Step::StripExif)
    } else {
        named_step_rest(name, args)
    }
}

/// One step of the chain: `name` or `name(key: value, ...)`.
fn parse_step(s: &Vec<char>) -> (r: Result<Step, String>)
    ensures
        match r {
            Ok(st) => step_of(s@) == Ok::<StepView, Seq<char>>(st@),
            Err(e) => step_of(s@) == Err::<StepView, Seq<char>>(e@),
        },
{
    let (name, args_str) = match split_once_char(s, '(') {
        Some((n, rest)) => {
            let r = trimmed_end(&rest);
            if r.len() > 0 && r[r.len() - 1] == ')' {
                (trimmed(&n), drop_last_char(&r))
            } else {
                return Err(message("missing ')' in step '", s, "'"));
            }
        },
        None => (trimmed(s), Vec::new()),
    };
    assert(step_parts(s@) == Ok::<(Seq<char>, Seq<char>), Seq<char>>((name@, args_str@)));
    let args = match parse_args(&args_str) {
        Ok(a) => a,
        Err(e) => return Err(e),
    };
    named(&name, &args)
}

/// Parse a full pipeline string into steps.
pub fn parse(dsl: &str) -> (r: Result<Vec<Step>, String>)
    ensures
        match r {
            Ok(v) => pipeline_of(dsl@) == Ok::<Seq<StepView>, Seq<char>>(step_views(v@)),
            Err(e) => pipeline_of(dsl@) == Err::<Seq<StepView>, Seq<char>>(e@),
        },
{
    let d = chars_of(dsl);
    proof {
        reveal_strlit("->");
    }
    let pieces = split_by(&d, "->");
    let ghost ps = split_pat(dsl@, "->"@);
    assert(char_views(pieces@) == ps);
    let ghost target = steps_of(ps);
    let mut out: Vec<Step> = Vec::new();
    let mut i: usize = 0;
    assert(ps.skip(0) =~= ps);
    assert(step_views(out@) =~= Seq::<StepView>::empty());
    while i < pieces.len()
        invariant
            i <= pieces@.len(),
            char_views(pieces@) == ps,
            target == steps_of(ps),
            target == pipeline_of(dsl@),
            match steps_of(ps.skip(i as int)) {
                Ok(rest) => target == Ok::<Seq<StepView>, Seq<char>>(step_views(out@) + rest),
                Err(e) => target == Err::<Seq<StepView>, Seq<char>>(e),
            },
        decreases pieces.len() - i,
    {
        let ghost rest = ps.skip(i as int);
        assert(rest[0] == pieces@[i as int]@);
        assert(rest.drop_first() =~= ps.skip(i + 1));
        let p = trimmed(&pieces[i]);
        if p.len() > 0 {
            match parse_step(&p) {
                Err(e) => {
                    return Err(e);
                },
                Ok(st) => {
                    let ghost before = step_views(out@);
                    let ghost sv = st@;
                    out.push(st);
                    assert(step_views(out@) =~= before.push(sv));
                    proof {
                        match steps_of(ps.skip(i + 1)) {
                            Ok(r2) => {
                                assert(before + (seq![sv] + r2) =~= step_views(out@) + r2);
                            },
                            Err(e) => {},
                        }
                    }
                },
            }
        }
        i = i + 1;
    }
    assert(ps.skip(i as int) =~= Seq::<Seq<char>>::empty());
    assert(step_views(out@) + Seq::<StepView>::empty() =~= step_views(out@));
    Ok(out)
}


// ---------------------------------------------------------------------------
// Rendering back to the DSL
// ---------------------------------------------------------------------------

/// A factor as written: the number, with `%` after a percentage.
pub open spec fn factor_text(f: FactorView) -> Seq<char> {
    match f {
        FactorView::Plain(t) => t,
        FactorView::Percent(t) => t + "%"@,
    }
}

/// The unit a size is written with: `mb`, `kb`, or none for bytes.
pub open spec fn unit_suffix(unit: u64) -> Seq<char> {
    if unit == 1_000_000 {
        "mb"@
    } else if unit == 1_000 {
        "kb"@
    } else {
        Seq::empty()
    }
}

/// One argument: `key: value`.
pub open spec fn arg_text(k: Seq<char>, v: Seq<char>) -> Seq<char> {
    k + ": "@ + v
}

/// Arguments joined by `, `.
pub open spec fn args_text(ps: Seq<(Seq<char>, Seq<char>)>) -> Seq<char>
    decreases ps.len(),
{
    if ps.len() == 0 {
        Seq::empty()
    } else if ps.len() == 1 {
        arg_text(ps[0].0, ps[0].1)
    } else {
        arg_text(ps[0].0, ps[0].1) + ", "@ + args_text(ps.drop_first())
    }
}

/// `name(arguments)`.
pub open spec fn call_text(name: Seq<char>, ps: Seq<(Seq<char>, Seq<char>)>) -> Seq<char> {
    name + "("@ + args_text(ps) + ")"@
}

/// The argument for an optional number.
pub open spec fn opt_pair(k: Seq<char>, v: Option<u32>) -> Seq<(Seq<char>, Seq<char>)> {
    match v {
        Some(x) => seq![(k, nat_digits(x as nat))],
        None => Seq::empty(),
    }
}

/// A crop's arguments in canonical order: width, height, `longEdge`,
/// `ratio: W:H`, and `smart: true` when set.
pub open spec fn crop_pairs(a: CropArgs) -> Seq<(Seq<char>, Seq<char>)> {
    opt_pair("width"@, a.width) + opt_pair("height"@, a.height) + opt_pair("longEdge"@, a.long_edge) + (match a.aspect {
        Some((x, y)) => seq![("ratio"@, nat_digits(x as nat) + ":"@ + nat_digits(y as nat))],
        None => Seq::empty(),
    }) + (if a.smart {
        seq![("smart"@, "true"@)]
    } else {
        Seq::empty()
    })
}

/// A step in canonical DSL.
pub open spec fn step_text(s: StepView) -> Seq<char> {
    match s {
        StepView::Optimise => "optimise"@,
        StepView::Downscale(f) => call_text("downscale"@, seq![("factor"@, factor_text(f))]),
        StepView::Crop(a) => call_text("crop"@, crop_pairs(a)),
        StepView::Convert(t) => call_text("convert"@, seq![("to"@, t)]),
        StepView::StripExif => "stripExif"@,
        StepView::RemoveAudio => "removeAudio"@,
        StepView::ChangeSpeed(f) => call_text("changeSpeed"@, seq![("factor"@, factor_text(f))]),
        StepView::CapFps(x) => call_text("capFps"@, seq![("fps"@, int_text(x as int))]),
        StepView::LowerBitrate(x) => call_text("lowerBitrate"@, seq![("kbps"@, int_text(x as int))]),
        StepView::TargetSize(b) => call_text("targetSize"@, seq![("bytes"@, b.number + unit_suffix(b.unit))]),
        StepView::Adaptive => "adaptive"@,
    }
}

/// Steps in canonical DSL, joined by ` -> `.
pub open spec fn dsl_of(steps: Seq<StepView>) -> Seq<char>
    decreases steps.len(),
{
    if steps.len() == 0 {
        Seq::empty()
    } else if steps.len() == 1 {
        step_text(steps[0])
    } else {
        step_text(steps[0]) + " -> "@ + dsl_of(steps.drop_first())
    }
}

proof fn lemma_args_text_push(ps: Seq<(Seq<char>, Seq<char>)>, k: Seq<char>, v: Seq<char>)
    requires
        ps.len() > 0,
    ensures
        args_text(ps.push((k, v))) == args_text(ps) + ", "@ + arg_text(k, v),
    decreases ps.len(),
{
    let q = ps.push((k, v));
    assert(q[0] == ps[0]);
    if ps.len() == 1 {
        assert(q.drop_first() =~= seq![(k, v)]);
        assert(args_text(q.drop_first()) == arg_text(k, v));
        assert(args_text(ps) == arg_text(ps[0].0, ps[0].1));
        assert(args_text(q) == arg_text(ps[0].0, ps[0].1) + ", "@ + args_text(q.drop_first()));
    } else {
        assert(args_text(q) == arg_text(ps[0].0, ps[0].1) + ", "@ + args_text(q.drop_first()));
        lemma_args_text_push(ps.drop_first(), k, v);
        assert(ps.push((k, v)).drop_first() =~= ps.drop_first().push((k, v)));
        let h = arg_text(ps[0].0, ps[0].1);
        assert(ps.push((k, v))[0] == ps[0]);
        assert(h + ", "@ + (args_text(ps.drop_first()) + ", "@ + arg_text(k, v)) =~= h + ", "@ + args_text(
            ps.drop_first(),
        ) + ", "@ + arg_text(k, v));
    }
}

proof fn lemma_dsl_push(steps: Seq<StepView>, s: StepView)
    requires
        steps.len() > 0,
    ensures
        dsl_of(steps.push(s)) == dsl_of(steps) + " -> "@ + step_text(s),
    decreases steps.len(),
{
    let q = steps.push(s);
    assert(q[0] == steps[0]);
    if steps.len() == 1 {
        assert(q.drop_first() =~= seq![s]);
        assert(dsl_of(q.drop_first()) == step_text(s));
        assert(dsl_of(steps) == step_text(steps[0]));
        assert(dsl_of(q) == step_text(steps[0]) + " -> "@ + dsl_of(q.drop_first()));
    } else {
        assert(dsl_of(q) == step_text(steps[0]) + " -> "@ + dsl_of(q.drop_first()));
        lemma_dsl_push(steps.drop_first(), s);
        assert(steps.push(s).drop_first() =~= steps.drop_first().push(s));
        let h = step_text(steps[0]);
        assert(steps.push(s)[0] == steps[0]);
        assert(h + " -> "@ + (dsl_of(steps.drop_first()) + " -> "@ + step_text(s)) =~= h + " -> "@ + dsl_of(
            steps.drop_first(),
        ) + " -> "@ + step_text(s));
    }
}

fn push_chars(out: &mut Vec<char>, v: &Vec<char>)
    ensures
        final(out)@ == old(out)@ + v@,
{
    let mut i: usize = 0;
    while i < v.len()
        invariant
            i <= v@.len(),
            out@ == old(out)@ + v@.take(i as int),
        decreases v.len() - i,
    {
        out.push(v[i]);
        i = i + 1;
        assert(old(out)@ + v@.take(i as int) =~= (old(out)@ + v@.take(i - 1)).push(v@[i - 1]));
    }
    assert(v@.take(v@.len() as int) =~= v@);
}

fn push_args(out: &mut Vec<char>, ps: &Vec<(Vec<char>, Vec<char>)>)
    ensures
        final(out)@ == old(out)@ + args_text(pair_views(ps@)),
{
    let ghost pv = pair_views(ps@);
    let mut i: usize = 0;
    assert(pv.take(0) =~= Seq::<(Seq<char>, Seq<char>)>::empty());
    while i < ps.len()
        invariant
            i <= ps@.len(),
            pv == pair_views(ps@),
            out@ == old(out)@ + args_text(pv.take(i as int)),
        decreases ps.len() - i,
    {
        let ghost before = out@;
        if i > 0 {
            push_str(out, ", ");
        }
        push_chars(out, &ps[i].0);
        push_str(out, ": ");
        push_chars(out, &ps[i].1);
        proof {
            let k = ps@[i as int].0@;
            let v = ps@[i as int].1@;
            assert(pv[i as int] == (k, v));
            assert(pv.take(i + 1) =~= pv.take(i as int).push((k, v)));
            if i > 0 {
                lemma_args_text_push(pv.take(i as int), k, v);
                assert(out@ =~= old(out)@ + args_text(pv.take(i as int)) + ", "@ + arg_text(k, v));
            } else {
                assert(pv.take(1) =~= seq![(k, v)]);
                assert(args_text(pv.take(0)) =~= Seq::<char>::empty());
                assert(out@ =~= old(out)@ + arg_text(k, v));
            }
        }
        i = i + 1;
    }
    assert(pv.take(ps@.len() as int) =~= pv);
}

fn digits_of(n: u32) -> (r: Vec<char>)
    ensures
        r@ == nat_digits(n as nat),
{
    let mut v: Vec<char> = Vec::new();
    push_nat(&mut v, n as u64);
    assert(v@ =~= nat_digits(n as nat));
    v
}

fn push_opt_pair(ps: &mut Vec<(Vec<char>, Vec<char>)>, k: &str, v: Option<u32>)
    ensures
        pair_views(final(ps)@) == pair_views(old(ps)@) + opt_pair(k@, v),
{
    match v {
        Some(x) => {
            ps.push((chars_of(k), digits_of(x)));
            assert(pair_views(ps@) =~= pair_views(old(ps)@) + opt_pair(k@, v));
        },
        None => {
            assert(pair_views(ps@) =~= pair_views(old(ps)@) + opt_pair(k@, v));
        },
    }
}

fn crop_arg_list(a: &CropArgs) -> (r: Vec<(Vec<char>, Vec<char>)>)
    ensures
        pair_views(r@) == crop_pairs(*a),
{
    let mut ps: Vec<(Vec<char>, Vec<char>)> = Vec::new();
    assert(pair_views(ps@) =~= Seq::<(Seq<char>, Seq<char>)>::empty());
    push_opt_pair(&mut ps, "width", a.width);
    push_opt_pair(&mut ps, "height", a.height);
    push_opt_pair(&mut ps, "longEdge", a.long_edge);
    let ghost before = pair_views(ps@);
    match a.aspect {
        Some((x, y)) => {
            let mut r = digits_of(x);
            push_str(&mut r, ":");
            let d = digits_of(y);
            push_chars(&mut r, &d);
            ps.push((chars_of("ratio"), r));
        },
        None => {},
    }
    let ghost mid = pair_views(ps@);
    assert(mid =~= before + (match a.aspect {
        Some((x, y)) => seq![("ratio"@, nat_digits(x as nat) + ":"@ + nat_digits(y as nat))],
        None => Seq::empty(),
    }));
    if a.smart {
        ps.push((chars_of("smart"), chars_of("true")));
    }
    assert(pair_views(ps@) =~= mid + (if a.smart {
        seq![("smart"@, "true"@)]
    } else {
        Seq::empty()
    }));
    ps
}

fn one_arg(k: &str, v: Vec<char>) -> (r: Vec<(Vec<char>, Vec<char>)>)
    ensures
        pair_views(r@) == seq![(k@, v@)],
{
    let mut ps: Vec<(Vec<char>, Vec<char>)> = Vec::new();
    ps.push((chars_of(k), v));
    assert(pair_views(ps@) =~= seq![(k@, v@)]);
    ps
}

fn push_call(out: &mut Vec<char>, name: &str, ps: &Vec<(Vec<char>, Vec<char>)>)
    ensures
        final(out)@ == old(out)@ + call_text(name@, pair_views(ps@)),
{
    push_str(out, name);
    push_str(out, "(");
    push_args(out, ps);
    push_str(out, ")");
    assert(out@ =~= old(out)@ + call_text(name@, pair_views(ps@)));
}

fn factor_chars(f: &Factor) -> (r: Vec<char>)
    ensures
        r@ == factor_text(f@),
{
    match f {
        Factor::Plain(t) => chars_of(t.as_str()),
        Factor::Percent(t) => {
            let mut v = chars_of(t.as_str());
            push_str(&mut v, "%");
            v
        },
    }
}

fn int_chars(x: i32) -> (r: Vec<char>)
    ensures
        r@ == int_text(x as int),
{
    let mut v: Vec<char> = Vec::new();
    push_int(&mut v, x as i64);
    assert(v@ =~= int_text(x as int));
    v
}

fn push_step(out: &mut Vec<char>, s: &Step)
    ensures
        final(out)@ == old(out)@ + step_text(s@),
{
    match s {
        Step::Optimise => push_str(out, "optimise"),
        Step::Downscale { factor } => push_call(out, "downscale", &one_arg("factor", factor_chars(factor))),
        Step::Crop(a) => push_call(out, "crop", &crop_arg_list(a)),
        Step::Convert { to } => push_call(out, "convert", &one_arg("to", chars_of(to.as_str()))),
        Step::StripExif => push_str(out, "stripExif"),
        Step::RemoveAudio => push_str(out, "removeAudio"),
        Step::ChangeSpeed { factor } => push_call(out, "changeSpeed", &one_arg("factor", factor_chars(factor))),
        Step::CapFps { fps } => push_call(out, "capFps", &one_arg("fps", int_chars(*fps))),
        Step::LowerBitrate { kbps } => push_call(out, "lowerBitrate", &one_arg("kbps", int_chars(*kbps))),
        Step::TargetSize { size } => {
            let mut v = chars_of(size.number.as_str());
            if size.unit == 1_000_000 {
                push_str(&mut v, "mb");
            } else if size.unit == 1_000 {
                push_str(&mut v, "kb");
            }
            assert(v@ =~= size.number@ + unit_suffix(size.unit));
            push_call(out, "targetSize", &one_arg("bytes", v));
        },
        Step::Adaptive => push_str(out, "adaptive"),
    }
}

/// Render steps back to canonical DSL (what `pipeline show` prints).
pub fn to_dsl(steps: &[Step]) -> (r: String)
    ensures
        r@ == dsl_of(step_views(steps@)),
{
    let ghost sv = step_views(steps@);
    let mut out: Vec<char> = Vec::new();
    let mut i: usize = 0;
    while i < steps.len()
        invariant
            i <= steps@.len(),
            sv == step_views(steps@),
            out@ == dsl_of(sv.take(i as int)),
        decreases steps.len() - i,
    {
        let ghost before = out@;
        if i > 0 {
            push_str(&mut out, " -> ");
        }
        push_step(&mut out, &steps[i]);
        proof {
            assert(sv[i as int] == steps@[i as int]@);
            assert(sv.take(i + 1) =~= sv.take(i as int).push(sv[i as int]));
            if i > 0 {
                lemma_dsl_push(sv.take(i as int), sv[i as int]);
            } else {
                assert(sv.take(1) =~= seq![sv[0]]);
                assert(out@ =~= step_text(sv[0]));
            }
        }
        i = i + 1;
    }
    assert(sv.take(steps@.len() as int) =~= sv);
    string_of(out)
}

/// The extension a step's output gets when its input is `current`: a
/// conversion's target format (GIF, an image format, then an audio format,
/// by name in any case; unknown names keep the input's), `mp4` for a video
/// that is optimised, downscaled or has its audio, speed or frame rate
/// changed, and otherwise the input's own lowercased extension (`bin`
/// without one).
pub open spec fn step_output_ext_of(step: StepView, current: Seq<char>) -> Seq<char> {
    let cur = match extension_lower_of(current) {
        Some(e) => e,
        None => "bin"@,
    };
    let video = kind_of_path(current) == Some(MediaKind::Video);
    match step {
        StepView::Convert(to) => if lower(to) == "gif"@ {
            "gif"@
        } else if image_format_named(lower(to)) is Some {
            image_format_named(lower(to))->0.extension_of()
        } else if audio_format_named(lower(to)) is Some {
            audio_format_named(lower(to))->0.extension_of()
        } else {
            cur
        },
        StepView::RemoveAudio | StepView::ChangeSpeed(_) | StepView::CapFps(_) | StepView::Optimise
        | StepView::Downscale(_) => if video {
            "mp4"@
        } else {
            cur
        },
        _ => cur,
    }
}

/// The extension the output of `step` gets when it runs on `current`.
pub fn step_output_ext(step: &Step, current: &str) -> (r: String)
    ensures
        r@ == step_output_ext_of(step@, current@),
{
    let cur = match extension_lower(current) {
        Some(e) => e,
        None => "bin".to_string(),
    };
    let video = match classify(current) {
        Some(MediaKind::Video) => true,
        _ => false,
    };
    match step {
        Step::Convert { to } => {
            let t = to_lower(to.as_str());
            if chars_eq(&t, "gif") {
                "gif".to_string()
            } else {
                match ImageFormat::from_str(to.as_str()) {
                    Some(f) => f.extension().to_string(),
                    None => match AudioFormat::from_target(to.as_str()) {
                        Some(a) => a.file_extension().to_string(),
                        None => cur,
                    },
                }
            }
        },
        Step::RemoveAudio | Step::ChangeSpeed { .. } | Step::CapFps { .. } | Step::Optimise | Step::Downscale {
            ..
        } => {
            if video {
                "mp4".to_string()
            } else {
                cur
            }
        },
        _ => cur,
    }
}


/// A path's lowercased extension, empty when it has none.
pub open spec fn ext_or_empty(p: Seq<char>) -> Seq<char> {
    match extension_lower_of(p) {
        Some(e) => e,
        None => seq![],
    }
}

/// Where a pipeline's final file `last` goes for the source `source`, and
/// whether the source is backed up first: to the requested output if there
/// is one; over the source (backed up when backups are on) when the type is
/// unchanged; otherwise alongside it under the new extension, the source
/// kept.
pub open spec fn pipeline_destination_of(source: Seq<char>, last: Seq<char>, output: Option<Seq<char>>, backup: bool) -> (Seq<char>, bool) {
    match output {
        Some(o) => (o, false),
        None => if ext_or_empty(last) == ext_or_empty(source) {
            (source, backup)
        } else {
            (path_with_extension(source, ext_or_empty(last)), false)
        },
    }
}

/// Where a pipeline run on `source` places its final file `last`, and
/// whether it backs the source up first.
pub fn pipeline_destination(source: &str, last: &str, options: &OptimiseOptions) -> (r: (String, bool))
    ensures
        (r.0@, r.1) == pipeline_destination_of(source@, last@, opt_view(options.output), options.backup),
{
    match &options.output {
        Some(o) => (o.clone(), false),
        None => {
            let final_ext = match extension_lower(last) {
                Some(e) => e,
                None => String::new(),
            };
            let src_ext = match extension_lower(source) {
                Some(e) => e,
                None => String::new(),
            };
            if final_ext == src_ext {
                (source.to_string(), options.backup)
            } else {
                (with_extension(source, final_ext.as_str()), false)
            }
        },
    }
}

// ---------------------------------------------------------------------------
// Parsing what was rendered
// ---------------------------------------------------------------------------

/// A lowercase character that can appear in a number `f64::from_str` reads.
pub open spec fn float_lower(c: char) -> bool {
    is_digit(c) || c == '.' || c == '+' || c == '-' || c == 'e' || c == 'i' || c == 'n' || c == 'f' || c == 't'
        || c == 'y' || c == 'a'
}

/// Whether every character of `s` lowercases to a number character.
pub open spec fn float_lowers(s: Seq<char>) -> bool
    decreases s.len(),
{
    s.len() == 0 || (float_lower(s[0]) && float_lowers(s.drop_first()))
}

proof fn lemma_float_lowers(s: Seq<char>)
    requires
        float_lowers(s),
    ensures
        forall|k: int| 0 <= k < s.len() ==> float_lower(#[trigger] s[k]),
    decreases s.len(),
{
    if s.len() > 0 {
        lemma_float_lowers(s.drop_first());
        assert forall|k: int| 0 <= k < s.len() implies float_lower(#[trigger] s[k]) by {
            if k > 0 {
                assert(s[k] == s.drop_first()[k - 1]);
            }
        }
    }
}

proof fn lemma_mantissa_chars(m: Seq<char>)
    requires
        is_mantissa(m),
    ensures
        m.len() > 0,
        forall|k: int| 0 <= k < m.len() ==> is_digit(#[trigger] m[k]) || m[k] == '.',
{
    lemma_split_once_parts(m, '.');
    match split_once(m, '.') {
        Some((a, b)) => {
            assert forall|k: int| 0 <= k < m.len() implies is_digit(#[trigger] m[k]) || m[k] == '.' by {
                if k < a.len() {
                    assert(m[k] == a[k]);
                } else if k > a.len() {
                    assert(m[k] == b[k - a.len() - 1]);
                }
            }
        },
        None => {},
    }
}

/// The characters of a number `f64::from_str` reads, once lowercased, are
/// digits, `.`, signs and the letters of `e`, `inf`, `infinity` and `nan`.
proof fn lemma_float_chars(t: Seq<char>)
    requires
        is_float_text(t),
    ensures
        t.len() > 0,
        forall|k: int| 0 <= k < t.len() ==> float_lower(#[trigger] lower_char(t[k])),
{
    let l = lower(t);
    let u = unsigned_part(l);
    assert(u.len() > 0 && forall|k: int| 0 <= k < u.len() ==> float_lower(#[trigger] u[k])) by {
        reveal_strlit("inf");
        reveal_strlit("infinity");
        reveal_strlit("nan");
        if u == "inf"@ || u == "infinity"@ || u == "nan"@ {
            reveal_with_fuel(float_lowers, 9);
            assert(float_lowers(u));
            lemma_float_lowers(u);
        } else {
            lemma_split_once_parts(u, 'e');
            match split_once(u, 'e') {
                Some((m, e)) => {
                    lemma_mantissa_chars(m);
                    let ue = unsigned_part(e);
                    assert forall|k: int| 0 <= k < u.len() implies float_lower(#[trigger] u[k]) by {
                        if k < m.len() {
                            assert(u[k] == m[k]);
                        } else if k > m.len() {
                            let j = k - m.len() - 1;
                            assert(u[k] == e[j]);
                            if e.len() > 0 && (e[0] == '+' || e[0] == '-') {
                                if j > 0 {
                                    assert(e[j] == ue[j - 1]);
                                }
                            } else {
                                assert(e[j] == ue[j]);
                            }
                        }
                    }
                },
                None => {
                    lemma_mantissa_chars(u);
                },
            }
        }
    }
    assert forall|k: int| 0 <= k < t.len() implies float_lower(#[trigger] lower_char(t[k])) by {
        assert(l[k] == lower_char(t[k]));
        if l.len() > 0 && (l[0] == '+' || l[0] == '-') {
            if k > 0 {
                assert(l[k] == u[k - 1]);
            }
        } else {
            assert(l[k] == u[k]);
        }
    }
}

/// A character the rendered values other than conversion targets are made
/// of: none is whitespace, a comma, a quote or `>`.
pub open spec fn value_char(c: char) -> bool {
    !char_is_whitespace(c) && c != ',' && c != '"' && c != '\'' && c != '>'
}

/// A non-empty text of value characters.
pub open spec fn tame(v: Seq<char>) -> bool {
    v.len() > 0 && forall|k: int| 0 <= k < v.len() ==> value_char(#[trigger] v[k])
}

/// A value that survives the argument reader as it is: not empty, no
/// surrounding whitespace or quotes, no comma.
pub open spec fn clean_value(v: Seq<char>) -> bool {
    &&& v.len() > 0
    &&& !char_is_whitespace(v[0]) && !char_is_whitespace(v.last())
    &&& v[0] != '"' && v[0] != '\'' && v.last() != '"' && v.last() != '\''
    &&& forall|k: int| 0 <= k < v.len() ==> v[k] != ','
}

proof fn lemma_float_tame(t: Seq<char>)
    requires
        is_float_text(t),
    ensures
        tame(t),
        t.last() != 'b' && t.last() != 'B' && t.last() != '%',
{
    lemma_float_chars(t);
    assert forall|k: int| 0 <= k < t.len() implies value_char(#[trigger] t[k]) by {
        assert(float_lower(lower_char(t[k])));
    }
    assert(float_lower(lower_char(t[t.len() - 1])));
}

proof fn lemma_digits_tame(n: nat)
    ensures
        tame(nat_digits(n)),
        forall|k: int| 0 <= k < nat_digits(n).len() ==> #[trigger] nat_digits(n)[k] != ':',
{
    lemma_nat_digits(n);
    let d = nat_digits(n);
    assert forall|k: int| 0 <= k < d.len() implies value_char(#[trigger] d[k]) && d[k] != ':' by {
        assert(is_digit(d[k]));
    }
}

proof fn lemma_tame_concat(a: Seq<char>, b: Seq<char>)
    requires
        tame(a),
        b.len() == 0 || tame(b),
    ensures
        tame(a + b),
{
    assert forall|k: int| 0 <= k < (a + b).len() implies value_char(#[trigger] (a + b)[k]) by {
        if k < a.len() {
            assert((a + b)[k] == a[k]);
        } else {
            assert((a + b)[k] == b[k - a.len()]);
        }
    }
}

proof fn lemma_tame_clean(v: Seq<char>)
    requires
        tame(v),
    ensures
        clean_value(v),
        !has_arrow(v),
{
    assert(value_char(v[0]) && value_char(v[v.len() - 1]));
    assert forall|k: int| 0 <= k < v.len() implies v[k] != ',' by {
        assert(value_char(v[k]));
    }
    if has_arrow(v) {
        let k = choose|k: int| holds_arrow_at(v, k);
        assert(value_char(v[k + 1]));
    }
}

/// An ASCII letter.
pub open spec fn letter(c: char) -> bool {
    ('a' <= c && c <= 'z') || ('A' <= c && c <= 'Z')
}

/// Letters only, at least one: step names and argument keys.
pub open spec fn word(s: Seq<char>) -> bool
    decreases s.len(),
{
    s.len() > 0 && letter(s[0]) && (s.len() == 1 || word(s.drop_first()))
}

proof fn lemma_word(s: Seq<char>)
    requires
        word(s),
    ensures
        s.len() > 0,
        forall|k: int| 0 <= k < s.len() ==> letter(#[trigger] s[k]),
    decreases s.len(),
{
    if s.len() > 1 {
        lemma_word(s.drop_first());
        assert forall|k: int| 0 <= k < s.len() implies letter(#[trigger] s[k]) by {
            if k > 0 {
                assert(s[k] == s.drop_first()[k - 1]);
            }
        }
    }
}

proof fn lemma_unquoted_clean(v: Seq<char>)
    requires
        clean_value(v),
    ensures
        unquoted(v) == v,
        unquoted(seq![' '] + v) == v,
{
    lemma_trim_unchanged(v);
    assert(char_is_whitespace(' '));
    lemma_trim_wrapped(seq![' '], v, Seq::empty());
    assert(seq![' '] + v + Seq::<char>::empty() =~= seq![' '] + v);
    assert(strip_start_char(v, '"') == v);
    assert(strip_end_char(v, '"') == v);
    assert(strip_start_char(v, '\'') == v);
    assert(strip_end_char(v, '\'') == v);
}

/// What the argument list needs of its pairs: word keys, clean values.
pub open spec fn readable_pairs(ps: Seq<(Seq<char>, Seq<char>)>) -> bool {
    forall|i: int| 0 <= i < ps.len() ==> word(#[trigger] ps[i].0) && clean_value(ps[i].1)
}

proof fn lemma_arg_text(k: Seq<char>, v: Seq<char>)
    requires
        word(k),
        clean_value(v),
    ensures
        arg_text(k, v).len() > 0,
        arg_text(k, v)[0] == k[0],
        arg_text(k, v).last() == v.last(),
        forall|j: int| 0 <= j < arg_text(k, v).len() ==> arg_text(k, v)[j] != ',',
        split_once(arg_text(k, v), ':') == Some((k, seq![' '] + v)),
{
    reveal_strlit(": ");
    lemma_word(k);
    let a = arg_text(k, v);
    assert forall|j: int| 0 <= j < a.len() implies a[j] != ',' by {
        if j < k.len() {
            assert(a[j] == k[j]);
            assert(letter(k[j]));
        } else if j >= k.len() + 2 {
            assert(a[j] == v[j - k.len() - 2]);
        }
    }
    assert forall|j: int| 0 <= j < k.len() implies k[j] != ':' by {
        assert(letter(k[j]));
    }
    assert(a =~= k + seq![':'] + (seq![' '] + v));
    lemma_split_once_at(k, ':', seq![' '] + v);
}

proof fn lemma_args_text_ends(ps: Seq<(Seq<char>, Seq<char>)>)
    requires
        ps.len() > 0,
        readable_pairs(ps),
    ensures
        args_text(ps).len() > 0,
        args_text(ps)[0] == ps[0].0[0],
        args_text(ps).last() == ps[ps.len() - 1].1.last(),
    decreases ps.len(),
{
    assert(word(ps[0].0) && clean_value(ps[0].1));
    lemma_arg_text(ps[0].0, ps[0].1);
    if ps.len() > 1 {
        let rest = ps.drop_first();
        assert forall|i: int| 0 <= i < rest.len() implies word(#[trigger] rest[i].0) && clean_value(rest[i].1) by {
            assert(rest[i] == ps[i + 1]);
        }
        lemma_args_text_ends(rest);
        assert(rest[rest.len() - 1] == ps[ps.len() - 1]);
    }
}

proof fn lemma_pairs_round(lead: Seq<char>, ps: Seq<(Seq<char>, Seq<char>)>)
    requires
        lead == Seq::<char>::empty() || lead == seq![' '],
        ps.len() > 0,
        readable_pairs(ps),
    ensures
        pairs_of(split_from(Seq::empty(), lead + args_text(ps), ',')) == Ok::<
            Seq<(Seq<char>, Seq<char>)>,
            Seq<char>,
        >(ps),
    decreases ps.len(),
{
    reveal_strlit(", ");
    let e = Seq::<char>::empty();
    let (k, v) = ps[0];
    assert(word(k) && clean_value(v));
    lemma_word(k);
    lemma_arg_text(k, v);
    lemma_unquoted_clean(v);
    lemma_trim_unchanged(k);
    let a = arg_text(k, v);
    let la = lead + a;
    assert(char_is_whitespace(' '));
    lemma_trim_wrapped(lead, a, e);
    assert(lead + a + e =~= la);
    assert forall|j: int| 0 <= j < la.len() implies la[j] != ',' by {
        if j >= lead.len() {
            assert(la[j] == a[j - lead.len()]);
        }
    }
    assert(trim(la) == a);
    if ps.len() == 1 {
        assert(args_text(ps) == a);
        lemma_split_plain(e, la, ',');
        assert(e + la =~= la);
        let parts = seq![la];
        assert(parts.drop_first() =~= Seq::<Seq<char>>::empty());
        assert(parts[0] == la);
        assert(pairs_of(Seq::<Seq<char>>::empty()) == Ok::<Seq<(Seq<char>, Seq<char>)>, Seq<char>>(Seq::empty()));
        assert(pairs_of(parts) == Ok::<Seq<(Seq<char>, Seq<char>)>, Seq<char>>(seq![(k, v)] + Seq::empty()));
        assert(seq![(k, v)] + Seq::<(Seq<char>, Seq<char>)>::empty() =~= ps);
    } else {
        let rest = ps.drop_first();
        assert forall|i: int| 0 <= i < rest.len() implies word(#[trigger] rest[i].0) && clean_value(rest[i].1) by {
            assert(rest[i] == ps[i + 1]);
        }
        lemma_pairs_round(seq![' '], rest);
        let tail = seq![' '] + args_text(rest);
        assert(lead + args_text(ps) =~= la + seq![','] + tail);
        lemma_split_at(e, la, tail, ',');
        assert(e + la =~= la);
        let parts = split_from(e, lead + args_text(ps), ',');
        assert(parts == seq![la] + split_from(e, tail, ','));
        assert(parts[0] == la);
        assert(parts.drop_first() =~= split_from(e, tail, ','));
        assert(seq![(k, v)] + rest =~= ps);
    }
}

proof fn lemma_args_round(ps: Seq<(Seq<char>, Seq<char>)>)
    requires
        ps.len() > 0,
        readable_pairs(ps),
    ensures
        args_of(args_text(ps)) == Ok::<Seq<(Seq<char>, Seq<char>)>, Seq<char>>(ps),
{
    lemma_args_text_ends(ps);
    assert(word(ps[0].0) && clean_value(ps[0].1));
    lemma_word(ps[0].0);
    assert(letter(ps[0].0[0]));
    assert(word(ps[ps.len() - 1].0) && clean_value(ps[ps.len() - 1].1));
    lemma_trim_unchanged(args_text(ps));
    lemma_pairs_round(Seq::empty(), ps);
    assert(Seq::<char>::empty() + args_text(ps) =~= args_text(ps));
}

proof fn lemma_lookup_concat(a: Seq<(Seq<char>, Seq<char>)>, b: Seq<(Seq<char>, Seq<char>)>, k: Seq<char>)
    ensures
        lookup(a + b, k) == (match lookup(a, k) {
            Some(v) => Some(v),
            None => lookup(b, k),
        }),
    decreases a.len(),
{
    if a.len() == 0 {
        assert(a + b =~= b);
    } else {
        assert((a + b)[0] == a[0]);
        assert((a + b).drop_first() =~= a.drop_first() + b);
        lemma_lookup_concat(a.drop_first(), b, k);
    }
}

proof fn lemma_lookup_one(k: Seq<char>, v: Seq<char>, key: Seq<char>)
    ensures
        lookup(seq![(k, v)], key) == (if k == key {
            Some(v)
        } else {
            None
        }),
{
    assert(seq![(k, v)].drop_first() =~= Seq::<(Seq<char>, Seq<char>)>::empty());
    assert(lookup(Seq::<(Seq<char>, Seq<char>)>::empty(), key) is None);
}

/// Whether a factor's number is one `f64::from_str` reads.
pub open spec fn factor_readable(f: FactorView) -> bool {
    match f {
        FactorView::Plain(t) => is_float_text(t),
        FactorView::Percent(t) => is_float_text(t),
    }
}

/// The steps that come back unchanged from their canonical text: a factor
/// or size whose number `f64::from_str` reads (a size in lowercase, in
/// bytes, kB or MB), a crop with at least one size, a conversion target
/// without `->` or a comma that is empty or neither starts nor ends with
/// whitespace or a quote. Every other step always comes back.
pub open spec fn renders_back(s: StepView) -> bool {
    match s {
        StepView::Downscale(f) => factor_readable(f),
        StepView::ChangeSpeed(f) => factor_readable(f),
        StepView::Crop(a) => a.width is Some || a.height is Some || a.long_edge is Some || a.aspect is Some,
        StepView::Convert(t) => (t.len() == 0 || clean_value(t)) && !has_arrow(t),
        StepView::TargetSize(b) => is_float_text(b.number) && lower(b.number) == b.number && (b.unit == 1 || b.unit
            == 1_000 || b.unit == 1_000_000),
        _ => true,
    }
}

proof fn lemma_step_words()
    ensures
        word("optimise"@),
        word("downscale"@),
        word("crop"@),
        word("convert"@),
        word("stripExif"@),
        word("removeAudio"@),
        word("changeSpeed"@),
        word("capFps"@),
        word("lowerBitrate"@),
        word("targetSize"@),
        word("adaptive"@),
        word("factor"@),
        word("width"@),
        word("height"@),
        word("longEdge"@),
        word("ratio"@),
        word("smart"@),
        word("to"@),
        word("fps"@),
        word("kbps"@),
        word("bytes"@),
        word("true"@),
{
    reveal_strlit("optimise");
    reveal_strlit("downscale");
    reveal_strlit("crop");
    reveal_strlit("convert");
    reveal_strlit("stripExif");
    reveal_strlit("removeAudio");
    reveal_strlit("changeSpeed");
    reveal_strlit("capFps");
    reveal_strlit("lowerBitrate");
    reveal_strlit("targetSize");
    reveal_strlit("adaptive");
    reveal_strlit("factor");
    reveal_strlit("width");
    reveal_strlit("height");
    reveal_strlit("longEdge");
    reveal_strlit("ratio");
    reveal_strlit("smart");
    reveal_strlit("to");
    reveal_strlit("fps");
    reveal_strlit("kbps");
    reveal_strlit("bytes");
    reveal_strlit("true");
    reveal_with_fuel(word, 13);
}

proof fn lemma_word_tame(w: Seq<char>)
    requires
        word(w),
    ensures
        tame(w),
{
    lemma_word(w);
    assert forall|k: int| 0 <= k < w.len() implies value_char(#[trigger] w[k]) by {
        assert(letter(w[k]));
    }
}

proof fn lemma_call_step(name: Seq<char>, ps: Seq<(Seq<char>, Seq<char>)>)
    requires
        word(name),
        ps.len() > 0,
        readable_pairs(ps),
    ensures
        step_of(call_text(name, ps)) == named_step(name, ps),
{
    reveal_strlit("(");
    reveal_strlit(")");
    lemma_word(name);
    assert forall|j: int| 0 <= j < name.len() implies name[j] != '(' by {
        assert(letter(name[j]));
    }
    let r = args_text(ps) + ")"@;
    assert(call_text(name, ps) =~= name + seq!['('] + r);
    lemma_split_once_at(name, '(', r);
    assert(r.last() == ')');
    assert(trim_end(r) == r);
    assert(r.drop_last() =~= args_text(ps));
    lemma_trim_unchanged(name);
    lemma_args_round(ps);
}

proof fn lemma_bare_step(name: Seq<char>)
    requires
        word(name),
    ensures
        step_of(name) == named_step(name, Seq::empty()),
{
    lemma_word(name);
    assert forall|j: int| 0 <= j < name.len() implies name[j] != '(' by {
        assert(letter(name[j]));
    }
    lemma_split_once_none(name, '(');
    lemma_trim_unchanged(name);
    let e = Seq::<char>::empty();
    assert(trim_start(e) == e);
    assert(trim(e) == e);
}

proof fn lemma_one_pair(k: Seq<char>, v: Seq<char>)
    requires
        word(k),
        clean_value(v),
    ensures
        readable_pairs(seq![(k, v)]),
        lookup(seq![(k, v)], k) == Some(v),
{
    lemma_lookup_one(k, v, k);
}

proof fn lemma_factor_round(f: FactorView)
    requires
        factor_readable(f),
    ensures
        clean_value(factor_text(f)),
        tame(factor_text(f)),
        factor_of(factor_text(f)) == Ok::<FactorView, Seq<char>>(f),
{
    reveal_strlit("%");
    match f {
        FactorView::Plain(t) => {
            lemma_float_tame(t);
            lemma_tame_clean(t);
        },
        FactorView::Percent(t) => {
            lemma_float_tame(t);
            let pc = "%"@;
            assert(tame(pc)) by {
                assert forall|k: int| 0 <= k < pc.len() implies value_char(#[trigger] pc[k]) by {}
            }
            lemma_tame_concat(t, pc);
            lemma_tame_clean(t + pc);
            let v = t + pc;
            assert(v.last() == '%');
            assert(v.drop_last() =~= t);
            assert(value_char(t[0]) && value_char(t[t.len() - 1]));
            lemma_trim_unchanged(t);
        },
    }
}

proof fn lemma_int_tame(x: int)
    ensures
        tame(int_text(x)),
{
    if x < 0 {
        lemma_digits_tame((-x) as nat);
        let m = seq!['-'];
        assert(tame(m)) by {
            assert forall|k: int| 0 <= k < m.len() implies value_char(#[trigger] m[k]) by {}
        }
        lemma_tame_concat(m, nat_digits((-x) as nat));
    } else {
        lemma_digits_tame(x as nat);
    }
}

proof fn lemma_lower_concat(a: Seq<char>, b: Seq<char>)
    ensures
        lower(a + b) == lower(a) + lower(b),
{
    assert(lower(a + b) =~= lower(a) + lower(b));
}

proof fn lemma_size_round(b: ByteSizeView)
    requires
        is_float_text(b.number),
        lower(b.number) == b.number,
        b.unit == 1 || b.unit == 1_000 || b.unit == 1_000_000,
    ensures
        tame(b.number + unit_suffix(b.unit)),
        size_of(b.number + unit_suffix(b.unit)) == Ok::<ByteSizeView, Seq<char>>(b),
{
    reveal_strlit("mb");
    reveal_strlit("kb");
    reveal_strlit("b");
    let n = b.number;
    let suf = unit_suffix(b.unit);
    let v = n + suf;
    lemma_float_tame(n);
    assert(suf.len() == 0 || tame(suf)) by {
        assert forall|k: int| 0 <= k < suf.len() implies value_char(#[trigger] suf[k]) by {
            if k == 0 {} else {}
        }
    }
    lemma_tame_concat(n, suf);
    assert(value_char(v[0]) && value_char(v[v.len() - 1]));
    lemma_trim_unchanged(v);
    assert(lower(suf) =~= suf) by {
        assert forall|k: int| 0 <= k < suf.len() implies lower(suf)[k] == suf[k] by {
            if k == 0 {} else {}
        }
    }
    lemma_lower_concat(n, suf);
    let s = lower(trim(v));
    assert(s == v);
    assert(n.last() == n[n.len() - 1]);
    if b.unit == 1_000_000 {
        assert(v.skip(v.len() - 2) =~= "mb"@);
        assert(v.take(v.len() - 2) =~= n);
    } else if b.unit == 1_000 {
        assert(v.skip(v.len() - 2) =~= "kb"@);
        assert(v.take(v.len() - 2) =~= n);
        assert(v.skip(v.len() - 2) != "mb"@) by {
            assert(v.skip(v.len() - 2)[0] == 'k');
        }
    } else {
        assert(v =~= n);
        assert(!ends_with(v, "mb"@)) by {
            if ends_with(v, "mb"@) {
                assert(v.skip(v.len() - 2)[1] == v.last());
            }
        }
        assert(!ends_with(v, "kb"@)) by {
            if ends_with(v, "kb"@) {
                assert(v.skip(v.len() - 2)[1] == v.last());
            }
        }
        assert(!ends_with(v, "b"@)) by {
            if ends_with(v, "b"@) {
                assert(v.skip(v.len() - 1)[0] == v.last());
            }
        }
    }
}

proof fn lemma_readable_concat(a: Seq<(Seq<char>, Seq<char>)>, b: Seq<(Seq<char>, Seq<char>)>)
    requires
        readable_pairs(a),
        readable_pairs(b),
    ensures
        readable_pairs(a + b),
{
    assert forall|i: int| 0 <= i < (a + b).len() implies word(#[trigger] (a + b)[i].0) && clean_value((a + b)[i].1) by {
        if i < a.len() {
            assert((a + b)[i] == a[i]);
            assert(word(a[i].0) && clean_value(a[i].1));
        } else {
            assert((a + b)[i] == b[i - a.len()]);
            assert(word(b[i - a.len()].0) && clean_value(b[i - a.len()].1));
        }
    }
}

proof fn lemma_opt_pair(k: Seq<char>, v: Option<u32>, key: Seq<char>)
    requires
        word(k),
    ensures
        readable_pairs(opt_pair(k, v)),
        lookup(opt_pair(k, v), key) == (match v {
            Some(x) => if k == key {
                Some(nat_digits(x as nat))
            } else {
                None
            },
            None => None,
        }),
{
    match v {
        Some(x) => {
            lemma_digits_tame(x as nat);
            lemma_tame_clean(nat_digits(x as nat));
            lemma_lookup_one(k, nat_digits(x as nat), key);
            assert(readable_pairs(opt_pair(k, v))) by {
                assert forall|i: int| 0 <= i < opt_pair(k, v).len() implies word(#[trigger] opt_pair(k, v)[i].0)
                    && clean_value(opt_pair(k, v)[i].1) by {}
            }
        },
        None => {},
    }
}

proof fn lemma_opt_u32_digits(v: Option<u32>, msg: Seq<char>)
    ensures
        opt_u32(
            match v {
                Some(x) => Some(nat_digits(x as nat)),
                None => None,
            },
            msg,
        ) == Ok::<Option<u32>, Seq<char>>(v),
{
    match v {
        Some(x) => {
            lemma_parse_nat_digits(x as nat, u32::MAX as int);
        },
        None => {},
    }
}

/// The ratio argument's pair list.
pub open spec fn ratio_pair(r: Option<(u32, u32)>) -> Seq<(Seq<char>, Seq<char>)> {
    match r {
        Some((x, y)) => seq![("ratio"@, nat_digits(x as nat) + ":"@ + nat_digits(y as nat))],
        None => Seq::empty(),
    }
}

/// The smart flag's pair list.
pub open spec fn smart_pair(smart: bool) -> Seq<(Seq<char>, Seq<char>)> {
    if smart {
        seq![("smart"@, "true"@)]
    } else {
        Seq::empty()
    }
}

proof fn lemma_ratio_round(x: u32, y: u32)
    ensures
        tame(nat_digits(x as nat) + ":"@ + nat_digits(y as nat)),
        ratio_of(nat_digits(x as nat) + ":"@ + nat_digits(y as nat)) == Ok::<(u32, u32), Seq<char>>((x, y)),
{
    reveal_strlit(":");
    let dx = nat_digits(x as nat);
    let dy = nat_digits(y as nat);
    lemma_digits_tame(x as nat);
    lemma_digits_tame(y as nat);
    let c = ":"@;
    assert(tame(c)) by {
        assert forall|k: int| 0 <= k < c.len() implies value_char(#[trigger] c[k]) by {}
    }
    lemma_tame_concat(dx, c);
    lemma_tame_concat(dx + c, dy);
    assert(dx + c + dy =~= dx + seq![':'] + dy);
    lemma_split_once_at(dx, ':', dy);
    assert(value_char(dx[0]) && value_char(dx[dx.len() - 1]));
    assert(value_char(dy[0]) && value_char(dy[dy.len() - 1]));
    lemma_trim_unchanged(dx);
    lemma_trim_unchanged(dy);
    lemma_parse_nat_digits(x as nat, u32::MAX as int);
    lemma_parse_nat_digits(y as nat, u32::MAX as int);
}

#[verifier::rlimit(40)]
proof fn lemma_crop_round(a: CropArgs)
    requires
        a.width is Some || a.height is Some || a.long_edge is Some || a.aspect is Some,
    ensures
        crop_pairs(a).len() > 0,
        readable_pairs(crop_pairs(a)),
        crop_of(crop_pairs(a)) == Ok::<CropArgs, Seq<char>>(a),
{
    reveal_strlit("width");
    reveal_strlit("height");
    reveal_strlit("longEdge");
    reveal_strlit("long_edge");
    reveal_strlit("ratio");
    reveal_strlit("aspect");
    reveal_strlit("smart");
    reveal_strlit("true");
    lemma_step_words();
    let w = opt_pair("width"@, a.width);
    let h = opt_pair("height"@, a.height);
    let l = opt_pair("longEdge"@, a.long_edge);
    let r = ratio_pair(a.aspect);
    let sm = smart_pair(a.smart);
    assert(crop_pairs(a) == w + h + l + r + sm);
    let ps = crop_pairs(a);
    lemma_opt_pair("width"@, a.width, "width"@);
    lemma_opt_pair("height"@, a.height, "width"@);
    lemma_opt_pair("height"@, a.height, "height"@);
    lemma_opt_pair("longEdge"@, a.long_edge, "width"@);
    lemma_opt_pair("longEdge"@, a.long_edge, "height"@);
    lemma_opt_pair("longEdge"@, a.long_edge, "longEdge"@);
    lemma_opt_pair("width"@, a.width, "height"@);
    lemma_opt_pair("width"@, a.width, "longEdge"@);
    lemma_opt_pair("width"@, a.width, "long_edge"@);
    lemma_opt_pair("height"@, a.height, "long_edge"@);
    lemma_opt_pair("height"@, a.height, "longEdge"@);
    lemma_opt_pair("longEdge"@, a.long_edge, "long_edge"@);
    lemma_opt_pair("width"@, a.width, "ratio"@);
    lemma_opt_pair("height"@, a.height, "ratio"@);
    lemma_opt_pair("longEdge"@, a.long_edge, "ratio"@);
    lemma_opt_pair("width"@, a.width, "aspect"@);
    lemma_opt_pair("height"@, a.height, "aspect"@);
    lemma_opt_pair("longEdge"@, a.long_edge, "aspect"@);
    lemma_opt_pair("width"@, a.width, "smart"@);
    lemma_opt_pair("height"@, a.height, "smart"@);
    lemma_opt_pair("longEdge"@, a.long_edge, "smart"@);
    match a.aspect {
        Some((x, y)) => {
            lemma_ratio_round(x, y);
            let v = nat_digits(x as nat) + ":"@ + nat_digits(y as nat);
            lemma_tame_clean(v);
            lemma_one_pair("ratio"@, v);
            lemma_lookup_one("ratio"@, v, "width"@);
            lemma_lookup_one("ratio"@, v, "height"@);
            lemma_lookup_one("ratio"@, v, "longEdge"@);
            lemma_lookup_one("ratio"@, v, "long_edge"@);
            lemma_lookup_one("ratio"@, v, "aspect"@);
            lemma_lookup_one("ratio"@, v, "smart"@);
        },
        None => {},
    }
    if a.smart {
        lemma_word_tame("true"@);
        lemma_tame_clean("true"@);
        lemma_one_pair("smart"@, "true"@);
        lemma_lookup_one("smart"@, "true"@, "width"@);
        lemma_lookup_one("smart"@, "true"@, "height"@);
        lemma_lookup_one("smart"@, "true"@, "longEdge"@);
        lemma_lookup_one("smart"@, "true"@, "long_edge"@);
        lemma_lookup_one("smart"@, "true"@, "ratio"@);
        lemma_lookup_one("smart"@, "true"@, "aspect"@);
    }
    assert(readable_pairs(r));
    assert(readable_pairs(sm));
    lemma_readable_concat(w, h);
    lemma_readable_concat(w + h, l);
    lemma_readable_concat(w + h + l, r);
    lemma_readable_concat(w + h + l + r, sm);
    let all = seq!["width"@, "height"@, "longEdge"@, "long_edge"@, "ratio"@, "aspect"@, "smart"@];
    assert forall|i: int| 0 <= i < all.len() implies lookup(ps, #[trigger] all[i]) == (match lookup(w, all[i]) {
        Some(v) => Some(v),
        None => match lookup(h, all[i]) {
            Some(v) => Some(v),
            None => match lookup(l, all[i]) {
                Some(v) => Some(v),
                None => match lookup(r, all[i]) {
                    Some(v) => Some(v),
                    None => lookup(sm, all[i]),
                },
            },
        },
    }) by {
        let key = all[i];
        lemma_lookup_concat(w + h + l + r, sm, key);
        lemma_lookup_concat(w + h + l, r, key);
        lemma_lookup_concat(w + h, l, key);
        lemma_lookup_concat(w, h, key);
    }
    assert(all[0] == "width"@);
    assert(all[1] == "height"@);
    assert(all[2] == "longEdge"@);
    assert(all[3] == "long_edge"@);
    assert(all[4] == "ratio"@);
    assert(all[5] == "aspect"@);
    assert(all[6] == "smart"@);
    let dw = match a.width {
        Some(x) => Some(nat_digits(x as nat)),
        None => None,
    };
    let dh = match a.height {
        Some(x) => Some(nat_digits(x as nat)),
        None => None,
    };
    let dl = match a.long_edge {
        Some(x) => Some(nat_digits(x as nat)),
        None => None,
    };
    assert(lookup(ps, "width"@) == dw);
    assert(lookup(ps, "height"@) == dh);
    assert(lookup(ps, "longEdge"@) == dl);
    assert(lookup(ps, "long_edge"@) is None);
    assert(lookup(ps, "aspect"@) is None);
    assert(lookup(ps, "smart"@) == (if a.smart {
        Some("true"@)
    } else {
        None
    }));
    assert(lookup(ps, "smart"@) == Some("true"@) <==> a.smart);
    match a.aspect {
        Some((x, y)) => {
            let v = nat_digits(x as nat) + ":"@ + nat_digits(y as nat);
            assert(lookup(ps, "ratio"@) == Some(v));
        },
        None => {
            assert(lookup(ps, "ratio"@) is None);
        },
    }
    lemma_opt_u32_digits(a.width, "bad width"@);
    lemma_opt_u32_digits(a.height, "bad height"@);
    lemma_opt_u32_digits(a.long_edge, "bad longEdge"@);
    assert(ps.len() > 0);
}

/// Whether `s` holds no `>`.
pub open spec fn no_gt(s: Seq<char>) -> bool {
    forall|k: int| 0 <= k < s.len() ==> s[k] != '>'
}

proof fn lemma_no_gt_arrow(s: Seq<char>)
    requires
        no_gt(s),
    ensures
        !has_arrow(s),
{
    if has_arrow(s) {
        let k = choose|k: int| holds_arrow_at(s, k);
        assert(s[k + 1] == '>');
    }
}

proof fn lemma_no_gt_concat(a: Seq<char>, b: Seq<char>)
    requires
        no_gt(a),
        no_gt(b),
    ensures
        no_gt(a + b),
{
    assert forall|k: int| 0 <= k < (a + b).len() implies (a + b)[k] != '>' by {
        if k < a.len() {
            assert((a + b)[k] == a[k]);
        } else {
            assert((a + b)[k] == b[k - a.len()]);
        }
    }
}

proof fn lemma_no_arrow_join(a: Seq<char>, b: Seq<char>)
    requires
        !has_arrow(a),
        !has_arrow(b),
        a.len() == 0 || b.len() == 0 || a.last() != '-' || b[0] != '>',
    ensures
        !has_arrow(a + b),
{
    if has_arrow(a + b) {
        let k = choose|k: int| holds_arrow_at(a + b, k);
        if k + 1 < a.len() {
            assert((a + b)[k] == a[k] && (a + b)[k + 1] == a[k + 1]);
            assert(holds_arrow_at(a, k));
        } else if k >= a.len() {
            assert((a + b)[k] == b[k - a.len()] && (a + b)[k + 1] == b[k + 1 - a.len()]);
            assert(holds_arrow_at(b, k - a.len()));
        } else {
            assert((a + b)[k] == a.last() && (a + b)[k + 1] == b[0]);
        }
    }
}

proof fn lemma_word_no_gt(w: Seq<char>)
    requires
        word(w),
    ensures
        no_gt(w),
{
    lemma_word(w);
    assert forall|k: int| 0 <= k < w.len() implies w[k] != '>' by {
        assert(letter(w[k]));
    }
}

proof fn lemma_args_no_gt(ps: Seq<(Seq<char>, Seq<char>)>)
    requires
        readable_pairs(ps),
        forall|i: int| 0 <= i < ps.len() ==> no_gt(#[trigger] ps[i].1),
    ensures
        no_gt(args_text(ps)),
    decreases ps.len(),
{
    reveal_strlit(": ");
    reveal_strlit(", ");
    if ps.len() > 0 {
        assert(word(ps[0].0) && clean_value(ps[0].1));
        assert(no_gt(ps[0].1));
        lemma_word_no_gt(ps[0].0);
        let sep = ": "@;
        assert(no_gt(sep));
        lemma_no_gt_concat(ps[0].0, sep);
        lemma_no_gt_concat(ps[0].0 + sep, ps[0].1);
        if ps.len() > 1 {
            let rest = ps.drop_first();
            assert forall|i: int| 0 <= i < rest.len() implies word(#[trigger] rest[i].0) && clean_value(rest[i].1) by {
                assert(rest[i] == ps[i + 1]);
                assert(word(ps[i + 1].0) && clean_value(ps[i + 1].1));
            }
            assert forall|i: int| 0 <= i < rest.len() implies no_gt(#[trigger] rest[i].1) by {
                assert(rest[i] == ps[i + 1]);
            }
            lemma_args_no_gt(rest);
            let comma = ", "@;
            assert(no_gt(comma));
            lemma_no_gt_concat(arg_text(ps[0].0, ps[0].1), comma);
            lemma_no_gt_concat(arg_text(ps[0].0, ps[0].1) + comma, args_text(rest));
        }
    }
}

proof fn lemma_call_text_facts(name: Seq<char>, ps: Seq<(Seq<char>, Seq<char>)>)
    requires
        word(name),
    ensures
        call_text(name, ps).len() > 0,
        !char_is_whitespace(call_text(name, ps)[0]),
        call_text(name, ps).last() == ')',
        call_text(name, ps) == name + "("@ + args_text(ps) + ")"@,
{
    reveal_strlit("(");
    reveal_strlit(")");
    lemma_word(name);
    assert(call_text(name, ps)[0] == name[0]);
    assert(letter(name[0]));
}

proof fn lemma_tame_no_gt(v: Seq<char>)
    requires
        tame(v),
    ensures
        no_gt(v),
{
    assert forall|k: int| 0 <= k < v.len() implies v[k] != '>' by {
        assert(value_char(v[k]));
    }
}

/// The facts about one step's canonical text the chain needs.
pub open spec fn text_fits(t: Seq<char>) -> bool {
    t.len() > 0 && !char_is_whitespace(t[0]) && !char_is_whitespace(t.last()) && !has_arrow(t)
}

proof fn lemma_tame_call(name: Seq<char>, k: Seq<char>, v: Seq<char>)
    requires
        word(name),
        word(k),
        tame(v),
    ensures
        readable_pairs(seq![(k, v)]),
        lookup(seq![(k, v)], k) == Some(v),
        step_of(call_text(name, seq![(k, v)])) == named_step(name, seq![(k, v)]),
        text_fits(call_text(name, seq![(k, v)])),
{
    reveal_strlit("(");
    reveal_strlit(")");
    lemma_tame_clean(v);
    lemma_one_pair(k, v);
    lemma_call_step(name, seq![(k, v)]);
    lemma_call_text_facts(name, seq![(k, v)]);
    lemma_tame_no_gt(v);
    let ps = seq![(k, v)];
    assert forall|i: int| 0 <= i < ps.len() implies no_gt(#[trigger] ps[i].1) by {}
    lemma_args_no_gt(ps);
    lemma_word_no_gt(name);
    let o = "("@;
    let c = ")"@;
    assert(no_gt(o) && no_gt(c));
    lemma_no_gt_concat(name, o);
    lemma_no_gt_concat(name + o, args_text(ps));
    lemma_no_gt_concat(name + o + args_text(ps), c);
    lemma_no_gt_arrow(call_text(name, ps));
}

proof fn lemma_bare_round(name: Seq<char>)
    requires
        word(name),
    ensures
        step_of(name) == named_step(name, Seq::empty()),
        text_fits(name),
{
    lemma_bare_step(name);
    lemma_word(name);
    assert(letter(name[0]) && letter(name[name.len() - 1]));
    lemma_word_no_gt(name);
    lemma_no_gt_arrow(name);
}

proof fn lemma_convert_named(v: Seq<char>)
    ensures
        named_step("convert"@, seq![("to"@, v)]) == Ok::<StepView, Seq<char>>(StepView::Convert(v)),
{
    reveal_strlit("optimise");
    reveal_strlit("optimize");
    reveal_strlit("downscale");
    reveal_strlit("crop");
    reveal_strlit("convert");
    reveal_strlit("to");
    lemma_lookup_one("to"@, v, "to"@);
    let n = "convert"@;
    assert(n.len() == 7);
    assert(n != "optimise"@ && n != "optimize"@ && n != "downscale"@);
    assert(n != "crop"@);
    assert(n == "convert"@);
}

proof fn lemma_convert_empty()
    ensures
        step_of(step_text(StepView::Convert(Seq::empty()))) == Ok::<StepView, Seq<char>>(
            StepView::Convert(Seq::empty()),
        ),
        text_fits(step_text(StepView::Convert(Seq::empty()))),
{
    reveal_strlit("to");
    reveal_strlit(": ");
    reveal_strlit("(");
    reveal_strlit(")");
    reveal_strlit("convert");
    lemma_step_words();
    let e = Seq::<char>::empty();
    let name = "convert"@;
    let ps = seq![("to"@, e)];
    let a = args_text(ps);
    assert(a == "to"@ + ": "@ + e);
    let to_colon = "to"@ + seq![':'];
    assert(a =~= to_colon + seq![' ']);
    lemma_call_text_facts(name, ps);
    let t = call_text(name, ps);
    assert(step_text(StepView::Convert(e)) == t);
    // The name and the text between the parentheses.
    lemma_word(name);
    assert forall|j: int| 0 <= j < name.len() implies name[j] != '(' by {
        assert(letter(name[j]));
    }
    let r = a + ")"@;
    assert(t =~= name + seq!['('] + r);
    lemma_split_once_at(name, '(', r);
    assert(trim_end(r) == r);
    assert(r.drop_last() =~= a);
    lemma_trim_unchanged(name);
    // The arguments: `to:` with an empty value.
    assert(char_is_whitespace(' '));
    lemma_trim_wrapped(e, to_colon, seq![' ']);
    assert(e + to_colon + seq![' '] =~= a);
    assert(trim(a) == to_colon);
    assert forall|j: int| 0 <= j < to_colon.len() implies to_colon[j] != ',' by {}
    lemma_split_plain(e, to_colon, ',');
    assert(e + to_colon =~= to_colon);
    let parts = seq![to_colon];
    assert(parts.drop_first() =~= Seq::<Seq<char>>::empty());
    assert(parts[0] == to_colon);
    assert(trim(to_colon) == to_colon) by {
        lemma_trim_unchanged(to_colon);
    }
    assert forall|j: int| 0 <= j < "to"@.len() implies "to"@[j] != ':' by {}
    assert(to_colon =~= "to"@ + seq![':'] + e);
    lemma_split_once_at("to"@, ':', e);
    assert(trim_start(e) == e);
    assert(trim(e) == e);
    assert(unquoted(e) == e);
    lemma_trim_unchanged("to"@);
    assert(pairs_of(Seq::<Seq<char>>::empty()) == Ok::<Seq<(Seq<char>, Seq<char>)>, Seq<char>>(Seq::empty()));
    assert(pairs_of(parts) == Ok::<Seq<(Seq<char>, Seq<char>)>, Seq<char>>(seq![("to"@, e)] + Seq::empty()));
    assert(seq![("to"@, e)] + Seq::<(Seq<char>, Seq<char>)>::empty() =~= ps);
    assert(args_of(a) == Ok::<Seq<(Seq<char>, Seq<char>)>, Seq<char>>(ps));
    lemma_lookup_one("to"@, e, "to"@);
    lemma_convert_named(e);
    assert(step_of(t) == named_step(name, ps));
    // No arrow: no `>` anywhere.
    lemma_word_no_gt(name);
    assert(no_gt(t)) by {
        assert forall|j: int| 0 <= j < t.len() implies t[j] != '>' by {
            if j < name.len() {
                assert(t[j] == name[j]);
            } else {
                assert(j - name.len() < 6);
            }
        }
    }
    lemma_no_gt_arrow(t);
}

proof fn lemma_convert_round(v: Seq<char>)
    requires
        clean_value(v),
        !has_arrow(v),
    ensures
        step_of(step_text(StepView::Convert(v))) == Ok::<StepView, Seq<char>>(StepView::Convert(v)),
        text_fits(step_text(StepView::Convert(v))),
{
    reveal_strlit("to");
    reveal_strlit(": ");
    reveal_strlit("(");
    reveal_strlit(")");
    lemma_step_words();
    let name = "convert"@;
    let ps = seq![("to"@, v)];
    lemma_one_pair("to"@, v);
    lemma_call_step(name, ps);
    lemma_call_text_facts(name, ps);
    lemma_convert_named(v);
    let t = call_text(name, ps);
    let head = name + "("@ + "to"@ + ": "@;
    assert(t =~= head + v + ")"@);
    lemma_word_no_gt(name);
    lemma_word_no_gt("to"@);
    assert(no_gt("("@) && no_gt(": "@) && no_gt(")"@));
    lemma_no_gt_concat(name, "("@);
    lemma_no_gt_concat(name + "("@, "to"@);
    lemma_no_gt_concat(name + "("@ + "to"@, ": "@);
    lemma_no_gt_arrow(head);
    lemma_no_gt_arrow(")"@);
    assert(head.last() == ' ');
    lemma_no_arrow_join(head, v);
    assert((")"@)[0] == ')');
    lemma_no_arrow_join(head + v, ")"@);
}

/// Every step that renders back parses from its canonical text.
#[verifier::rlimit(40)]
proof fn lemma_step_round(s: StepView)
    requires
        renders_back(s),
    ensures
        step_of(step_text(s)) == Ok::<StepView, Seq<char>>(s),
        text_fits(step_text(s)),
{
    reveal_strlit("optimise");
    reveal_strlit("optimize");
    reveal_strlit("downscale");
    reveal_strlit("crop");
    reveal_strlit("convert");
    reveal_strlit("stripExif");
    reveal_strlit("stripexif");
    reveal_strlit("strip_exif");
    reveal_strlit("removeAudio");
    reveal_strlit("removeaudio");
    reveal_strlit("remove_audio");
    reveal_strlit("changeSpeed");
    reveal_strlit("change_speed");
    reveal_strlit("capFps");
    reveal_strlit("cap_fps");
    reveal_strlit("lowerBitrate");
    reveal_strlit("lower_bitrate");
    reveal_strlit("targetSize");
    reveal_strlit("target_size");
    reveal_strlit("adaptive");
    reveal_strlit("factor");
    reveal_strlit("fps");
    reveal_strlit("kbps");
    reveal_strlit("bytes");
    reveal_strlit("to");
    lemma_step_words();
    match s {
        StepView::Optimise => lemma_bare_round("optimise"@),
        StepView::StripExif => lemma_bare_round("stripExif"@),
        StepView::RemoveAudio => lemma_bare_round("removeAudio"@),
        StepView::Adaptive => lemma_bare_round("adaptive"@),
        StepView::Downscale(f) => {
            lemma_factor_round(f);
            lemma_tame_call("downscale"@, "factor"@, factor_text(f));
        },
        StepView::ChangeSpeed(f) => {
            lemma_factor_round(f);
            lemma_tame_call("changeSpeed"@, "factor"@, factor_text(f));
        },
        StepView::CapFps(x) => {
            lemma_int_tame(x as int);
            lemma_parse_int_text(x as int, i32::MIN as int, i32::MAX as int);
            lemma_tame_call("capFps"@, "fps"@, int_text(x as int));
        },
        StepView::LowerBitrate(x) => {
            lemma_int_tame(x as int);
            lemma_parse_int_text(x as int, i32::MIN as int, i32::MAX as int);
            lemma_tame_call("lowerBitrate"@, "kbps"@, int_text(x as int));
        },
        StepView::TargetSize(b) => {
            lemma_size_round(b);
            lemma_tame_call("targetSize"@, "bytes"@, b.number + unit_suffix(b.unit));
        },
        StepView::Convert(t) => {
            if t.len() == 0 {
                lemma_convert_empty();
                assert(t =~= Seq::<char>::empty());
            } else {
                lemma_convert_round(t);
            }
        },
        StepView::Crop(a) => {
            lemma_crop_round(a);
            let ps = crop_pairs(a);
            lemma_call_step("crop"@, ps);
            lemma_call_text_facts("crop"@, ps);
            assert forall|i: int| 0 <= i < ps.len() implies no_gt(#[trigger] ps[i].1) by {
                assert(word(ps[i].0) && clean_value(ps[i].1));
                lemma_crop_values_no_gt(a, i);
            }
            lemma_args_no_gt(ps);
            lemma_word_no_gt("crop"@);
            assert(no_gt("("@) && no_gt(")"@)) by {
                reveal_strlit("(");
                reveal_strlit(")");
            }
            lemma_no_gt_concat("crop"@, "("@);
            lemma_no_gt_concat("crop"@ + "("@, args_text(ps));
            lemma_no_gt_concat("crop"@ + "("@ + args_text(ps), ")"@);
            lemma_no_gt_arrow(call_text("crop"@, ps));
        },
    }
}

proof fn lemma_crop_values_no_gt(a: CropArgs, i: int)
    requires
        0 <= i < crop_pairs(a).len(),
    ensures
        no_gt(crop_pairs(a)[i].1),
{
    let w = opt_pair("width"@, a.width);
    let h = opt_pair("height"@, a.height);
    let l = opt_pair("longEdge"@, a.long_edge);
    let r = ratio_pair(a.aspect);
    let sm = smart_pair(a.smart);
    let ps = crop_pairs(a);
    assert(ps == w + h + l + r + sm);
    let v = ps[i].1;
    // Each value is digits, `W:H` in digits, or `true`.
    assert(tame(v)) by {
        lemma_step_words();
        lemma_word_tame("true"@);
        match a.width {
            Some(x) => lemma_digits_tame(x as nat),
            None => {},
        }
        match a.height {
            Some(x) => lemma_digits_tame(x as nat),
            None => {},
        }
        match a.long_edge {
            Some(x) => lemma_digits_tame(x as nat),
            None => {},
        }
        match a.aspect {
            Some((x, y)) => lemma_ratio_round(x, y),
            None => {},
        }
        let a1 = w + h;
        let a2 = a1 + l;
        let a3 = a2 + r;
        if i < w.len() {
            assert(ps[i] == w[i]);
        } else if i < a1.len() {
            assert(ps[i] == h[i - w.len()]);
        } else if i < a2.len() {
            assert(ps[i] == l[i - a1.len()]);
        } else if i < a3.len() {
            assert(ps[i] == r[i - a2.len()]);
        } else {
            assert(ps[i] == sm[i - a3.len()]);
        }
    }
    lemma_tame_no_gt(v);
}

proof fn lemma_steps_round(lead: Seq<char>, steps: Seq<StepView>)
    requires
        lead == Seq::<char>::empty() || lead == seq![' '],
        steps.len() > 0,
        forall|i: int| 0 <= i < steps.len() ==> renders_back(#[trigger] steps[i]),
    ensures
        steps_of(split_pat_from(Seq::empty(), lead + dsl_of(steps), "->"@)) == Ok::<Seq<StepView>, Seq<char>>(
            steps,
        ),
    decreases steps.len(),
{
    reveal_strlit("->");
    reveal_strlit(" -> ");
    let e = Seq::<char>::empty();
    let s0 = steps[0];
    assert(renders_back(s0));
    lemma_step_round(s0);
    let t = step_text(s0);
    assert(char_is_whitespace(' '));
    let sp = seq![' '];
    assert(!has_arrow(lead)) by {
        if has_arrow(lead) {
            let k = choose|k: int| holds_arrow_at(lead, k);
        }
    }
    assert(!has_arrow(sp)) by {
        if has_arrow(sp) {
            let k = choose|k: int| holds_arrow_at(sp, k);
        }
    }
    lemma_no_arrow_join(lead, t);
    let piece_end = if steps.len() == 1 { e } else { sp };
    lemma_trim_wrapped(lead, t, piece_end);
    assert(steps_of(Seq::<Seq<char>>::empty()) == Ok::<Seq<StepView>, Seq<char>>(Seq::empty()));
    if steps.len() == 1 {
        assert(dsl_of(steps) == t);
        lemma_split_arrow_last(e, lead + t);
        assert(e + (lead + t) =~= lead + t);
        assert(lead + t + e =~= lead + t);
        let parts = seq![lead + t];
        assert(parts[0] == lead + t);
        assert(parts.drop_first() =~= Seq::<Seq<char>>::empty());
        assert(steps_of(parts) == Ok::<Seq<StepView>, Seq<char>>(seq![s0] + Seq::empty()));
        assert(seq![s0] + Seq::<StepView>::empty() =~= steps);
    } else {
        let rest = steps.drop_first();
        assert forall|i: int| 0 <= i < rest.len() implies renders_back(#[trigger] rest[i]) by {
            assert(rest[i] == steps[i + 1]);
        }
        lemma_steps_round(sp, rest);
        let a = lead + t + sp;
        lemma_no_arrow_join(lead + t, sp);
        let b = sp + dsl_of(rest);
        assert(dsl_of(steps) == t + " -> "@ + dsl_of(rest));
        assert(lead + dsl_of(steps) =~= a + "->"@ + b);
        lemma_split_arrow(e, a, b);
        assert(e + a =~= a);
        let parts = split_pat_from(e, lead + dsl_of(steps), "->"@);
        assert(parts[0] == a);
        assert(parts.drop_first() =~= split_pat_from(e, b, "->"@));
        assert(seq![s0] + rest =~= steps);
    }
}

/// Rendering steps to canonical DSL and parsing that text gives the same
/// steps back, for every chain of steps that render back (see
/// [`renders_back`]); the empty chain renders as empty text and parses to
/// no steps.
pub proof fn lemma_dsl_round_trip(steps: Seq<StepView>)
    requires
        forall|i: int| 0 <= i < steps.len() ==> renders_back(#[trigger] steps[i]),
    ensures
        pipeline_of(dsl_of(steps)) == Ok::<Seq<StepView>, Seq<char>>(steps),
{
    let e = Seq::<char>::empty();
    if steps.len() == 0 {
        assert(dsl_of(steps) == e);
        assert(split_pat_from(e, e, "->"@) == seq![e]);
        assert(trim_start(e) == e);
        assert(trim(e) == e);
        assert(seq![e].drop_first() =~= Seq::<Seq<char>>::empty());
        assert(steps_of(Seq::<Seq<char>>::empty()) == Ok::<Seq<StepView>, Seq<char>>(Seq::empty()));
        assert(steps =~= Seq::<StepView>::empty());
    } else {
        lemma_steps_round(e, steps);
        assert(e + dsl_of(steps) =~= dsl_of(steps));
    }
}

} // verus!
