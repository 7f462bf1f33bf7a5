//! Image formats, carried metadata and the byte-level parts of image
//! encoding: alpha flattening and ICC-profile embedding in WebP files.

use vstd::prelude::*;

use crate::compression::{conversion_quality_of, jxl_effort_of, str_vec_push, string_vec_push, views, CompressionQuality};
use crate::filetype::{extension_lower, extension_lower_of};
use crate::paths::path_with_extension;
use crate::result::{conversion_placement, Placement};
use crate::text::{chars_eq, chars_of, int_string, int_text, lower, to_lower};

verus! {

/// Target formats for image conversion.
#[derive(Debug, Clone, Copy, PartialEq, Eq, Structural)]
pub enum ImageFormat {
    Webp,
    Avif,
    Heic,
    Jxl,
    Png,
    Jpeg,
}

/// The format a (lowercase) name stands for.
pub open spec fn image_format_named(s: Seq<char>) -> Option<ImageFormat> {
    if s == "webp"@ {
        Some(ImageFormat::Webp)
    } else if s == "avif"@ {
        Some(ImageFormat::Avif)
    } else if s == "heic"@ || s == "heif"@ {
        Some(ImageFormat::Heic)
    } else if s == "jxl"@ {
        Some(ImageFormat::Jxl)
    } else if s == "png"@ {
        Some(ImageFormat::Png)
    } else if s == "jpeg"@ || s == "jpg"@ {
        Some(ImageFormat::Jpeg)
    } else {
        None
    }
}

impl ImageFormat {
    pub open spec fn extension_of(self) -> Seq<char> {
        match self {
            ImageFormat::Webp => "webp"@,
            ImageFormat::Avif => "avif"@,
            ImageFormat::Heic => "heic"@,
            ImageFormat::Jxl => "jxl"@,
            ImageFormat::Png => "png"@,
            ImageFormat::Jpeg => "jpg"@,
        }
    }

    #[allow(clippy::should_implement_trait)]
    pub fn from_str(s: &str) -> (r: Option<ImageFormat>)
        ensures
            r == image_format_named(lower(s@)),
    {
        let t = to_lower(s);
        if chars_eq(&t, "webp") {
            Some(ImageFormat::Webp)
        } else if chars_eq(&t, "avif") {
            Some(ImageFormat::Avif)
        } else if chars_eq(&t, "heic") || chars_eq(&t, "heif") {
            Some(ImageFormat::Heic)
        } else if chars_eq(&t, "jxl") {
            Some(ImageFormat::Jxl)
        } else if chars_eq(&t, "png") {
            Some(ImageFormat::Png)
        } else if chars_eq(&t, "jpeg") || chars_eq(&t, "jpg") {
            Some(ImageFormat::Jpeg)
        } else {
            None
        }
    }

    pub fn extension(&self) -> (r: &'static str)
        ensures
            r@ == self.extension_of(),
    {
        match self {
            ImageFormat::Webp => "webp",
            ImageFormat::Avif => "avif",
            ImageFormat::Heic => "heic",
            ImageFormat::Jxl => "jxl",
            ImageFormat::Png => "png",
            ImageFormat::Jpeg => "jpg",
        }
    }
}

/// Metadata carried from the source image to the re-encoded output.
#[derive(Debug, Clone, Default)]
pub struct Meta {
    /// ICC colour profile (kept even when stripping metadata: it is colour-critical).
    pub icc: Option<Vec<u8>>,
    /// Raw EXIF (TIFF) block, with the orientation tag already reset to "normal".
    pub exif: Option<Vec<u8>>,
}

/// Drop the EXIF block when the user asked to strip metadata (ICC stays).
pub fn meta_for(meta: Meta, strip: bool) -> (r: Meta)
    ensures
        r.icc == meta.icc,
        r.exif == (if strip { None } else { meta.exif }),
{
    if strip {
        Meta { exif: None, ..meta }
    } else {
        meta
    }
}

/// Composite one colour channel of a pixel with opacity `a` onto white,
/// rounding to nearest.
pub open spec fn on_white(c: int, a: int) -> int {
    (c * a + 255 * (255 - a) + 127) / 255
}

/// RGB bytes of RGBA pixels composited onto white: JPEG has no alpha channel,
/// so transparent pixels become white instead of whatever colour sits
/// underneath. A trailing partial pixel is ignored.
pub open spec fn flattened(rgba: Seq<u8>) -> Seq<u8> {
    Seq::new(
        3 * (rgba.len() / 4),
        |i: int| on_white(rgba[4 * (i / 3) + i % 3] as int, rgba[4 * (i / 3) + 3] as int) as u8,
    )
}

/// Composite RGBA pixels onto white, giving RGB pixels.
pub fn flatten_alpha(rgba: &[u8]) -> (rgb: Vec<u8>)
    ensures
        rgb@ == flattened(rgba@),
{
    let len = rgba.len();
    let n = len / 4;
    let mut out: Vec<u8> = Vec::new();
    let mut p: usize = 0;
    while p < n
        invariant
            len == rgba@.len(),
            n == len / 4,
            p <= n,
            out@.len() == 3 * p,
            forall|i: int| 0 <= i < 3 * p ==> out@[i] == flattened(rgba@)[i],
        decreases n - p,
    {
        assert(4 * p + 3 < len) by (nonlinear_arith)
            requires
                p < n,
                n == len / 4,
        ;
        let base: usize = p * 4;
        let a = rgba[base + 3] as u32;
        let mut c: usize = 0;
        while c < 3
            invariant
                len == rgba@.len(),
                n == len / 4,
                p < n,
                c <= 3,
                a == rgba@[4 * p + 3],
                4 * p + 3 < len,
                out@.len() == 3 * p + c,
                forall|i: int| 0 <= i < 3 * p + c ==> out@[i] == flattened(rgba@)[i],
            decreases 3 - c,
        {
            let v = rgba[p * 4 + c] as u32;
            assert(v * a <= 255 * 255) by (nonlinear_arith)
                requires
                    v <= 255,
                    a <= 255,
            ;
            let x = (v * a + 255 * (255 - a) + 127) / 255;
            assert(x <= 255) by (nonlinear_arith)
                requires
                    v <= 255,
                    a <= 255,
                    x == (v * a + 255 * (255 - a) + 127) / 255,
            ;
            let ghost i = 3 * p + c;
            assert(i / 3 == p && i % 3 == c);
            out.push(x as u8);
            c = c + 1;
        }
        p = p + 1;
    }
    assert(out@ =~= flattened(rgba@));
    out
}

pub open spec fn riff_tag() -> Seq<u8> {
    seq![0x52u8, 0x49u8, 0x46u8, 0x46u8]
}

pub open spec fn webp_tag() -> Seq<u8> {
    seq![0x57u8, 0x45u8, 0x42u8, 0x50u8]
}

pub open spec fn vp8x_tag() -> Seq<u8> {
    seq![0x56u8, 0x50u8, 0x38u8, 0x58u8]
}

pub open spec fn iccp_tag() -> Seq<u8> {
    seq![0x49u8, 0x43u8, 0x43u8, 0x50u8]
}

pub open spec fn alph_tag() -> Seq<u8> {
    seq![0x41u8, 0x4Cu8, 0x50u8, 0x48u8]
}

/// The little-endian 32-bit value at `at`.
pub open spec fn le32_at(d: Seq<u8>, at: int) -> int {
    d[at] + 256 * d[at + 1] + 65536 * d[at + 2] + 16777216 * d[at + 3]
}

/// The four little-endian bytes of `v` taken modulo 2^32 (`(v as u32).to_le_bytes()`).
pub open spec fn le32_bytes(v: int) -> Seq<u8> {
    let w = v % 0x1_0000_0000;
    seq![(w % 256) as u8, ((w / 256) % 256) as u8, ((w / 65536) % 256) as u8, ((w / 16777216) % 256) as u8]
}

/// What the walk over a WebP file's chunks keeps: the last `VP8X` payload,
/// the other chunks (with padding, `ICCP` left out) and whether an `ALPH`
/// chunk was seen.
pub struct WebpChunks {
    pub vp8x: Option<Seq<u8>>,
    pub rest: Seq<u8>,
    pub alph: bool,
}

/// The chunks from `pos` on, added to `acc`; `None` when one runs past the end.
pub open spec fn walk_chunks(d: Seq<u8>, pos: int, acc: WebpChunks) -> Option<WebpChunks>
    decreases d.len() + 2 - pos,
{
    if pos < 0 || pos + 8 > d.len() {
        Some(acc)
    } else {
        let fourcc = d.subrange(pos, pos + 4);
        let size = le32_at(d, pos + 4);
        let end = pos + 8 + size;
        let padded = end + size % 2;
        if end > d.len() {
            None
        } else {
            let next = if fourcc == vp8x_tag() {
                WebpChunks { vp8x: Some(d.subrange(pos + 8, end)), ..acc }
            } else if fourcc == iccp_tag() {
                acc
            } else {
                WebpChunks {
                    alph: acc.alph || fourcc == alph_tag(),
                    rest: acc.rest + d.subrange(pos, if padded < d.len() { padded } else { d.len() as int }),
                    ..acc
                }
            };
            walk_chunks(d, padded, next)
        }
    }
}

/// The chunks of a RIFF/WebP file, if it is one and its chunks fit.
pub open spec fn webp_chunks(webp: Seq<u8>) -> Option<WebpChunks> {
    if webp.len() >= 12 && webp.take(4) == riff_tag() && webp.subrange(8, 12) == webp_tag() {
        walk_chunks(webp, 12, WebpChunks { vp8x: None, rest: Seq::empty(), alph: false })
    } else {
        None
    }
}

/// A fresh `VP8X` payload for a `w`×`h` canvas: no flags, then the width and
/// height less one as 24-bit little-endian values.
pub open spec fn fresh_vp8x(w: int, h: int) -> Seq<u8> {
    seq![0u8, 0u8, 0u8, 0u8] + le32_bytes(w - 1).take(3) + le32_bytes(h - 1).take(3)
}

/// The inputs on which adding the profile is defined: an existing `VP8X`
/// payload is not empty, and without one the canvas is at least 1×1.
pub open spec fn webp_icc_defined(webp: Seq<u8>, w: u32, h: u32) -> bool {
    match webp_chunks(webp) {
        Some(c) => match c.vp8x {
            Some(v) => v.len() >= 1,
            None => w >= 1 && h >= 1,
        },
        None => true,
    }
}

/// A WebP file with the ICC profile `icc` added: the `VP8X` header (kept or
/// made for a `w`×`h` canvas) gets the ICC flag, and the alpha flag when the
/// image has alpha or an `ALPH` chunk; then the `ICCP` chunk (padded to even
/// length) and the other chunks in their order; the RIFF size is updated.
pub open spec fn webp_icc_of(webp: Seq<u8>, icc: Seq<u8>, w: u32, h: u32, alpha: bool) -> Option<Seq<u8>> {
    match webp_chunks(webp) {
        None => None,
        Some(c) => {
            let h0 = match c.vp8x {
                Some(v) => v,
                None => fresh_vp8x(w as int, h as int),
            };
            let flags = (h0[0] | 0x20u8) | (if alpha || c.alph { 0x10u8 } else { 0u8 });
            let header = h0.update(0, flags);
            let body = webp_tag() + vp8x_tag() + le32_bytes(header.len() as int) + header + iccp_tag()
                + le32_bytes(icc.len() as int) + icc + (if icc.len() % 2 == 1 { seq![0u8] } else { Seq::empty() })
                + c.rest;
            Some(riff_tag() + le32_bytes(body.len() as int) + body)
        },
    }
}

pub open spec fn opt_bytes(o: Option<Vec<u8>>) -> Option<Seq<u8>> {
    match o {
        Some(v) => Some(v@),
        None => None,
    }
}

/// Append `d[from..to]` to `out`.
fn push_bytes(out: &mut Vec<u8>, d: &[u8], from: usize, to: usize)
    requires
        from <= to <= d@.len(),
    ensures
        final(out)@ == old(out)@ + d@.subrange(from as int, to as int),
{
    let ghost start = out@;
    let mut i = from;
    while i < to
        invariant
            from <= i <= to <= d@.len(),
            out@ == start + d@.subrange(from as int, i as int),
        decreases to - i,
    {
        out.push(d[i]);
        i = i + 1;
        assert(out@ =~= start + d@.subrange(from as int, i as int));
    }
}

/// Append the four little-endian bytes of `v` modulo 2^32.
fn push_le32(out: &mut Vec<u8>, v: usize)
    ensures
        final(out)@ == old(out)@ + le32_bytes(v as int),
{
    let w = (v as u64 % 0x1_0000_0000) as u64;
    out.push((w % 256) as u8);
    out.push(((w / 256) % 256) as u8);
    out.push(((w / 65536) % 256) as u8);
    out.push(((w / 16777216) % 256) as u8);
    assert(out@ =~= old(out)@ + le32_bytes(v as int));
}

fn tag_is(d: &[u8], at: usize, t0: u8, t1: u8, t2: u8, t3: u8) -> (r: bool)
    requires
        at + 4 <= d@.len(),
    ensures
        r == (d@.subrange(at as int, at + 4) == seq![t0, t1, t2, t3]),
{
    let r = d[at] == t0 && d[at + 1] == t1 && d[at + 2] == t2 && d[at + 3] == t3;
    proof {
        if r {
            assert(d@.subrange(at as int, at + 4) =~= seq![t0, t1, t2, t3]);
        } else {
            if d@.subrange(at as int, at + 4) == seq![t0, t1, t2, t3] {
                assert(d@.subrange(at as int, at + 4)[0] == t0);
                assert(d@.subrange(at as int, at + 4)[1] == t1);
                assert(d@.subrange(at as int, at + 4)[2] == t2);
                assert(d@.subrange(at as int, at + 4)[3] == t3);
            }
        }
    }
    r
}

/// The chunks of a RIFF/WebP file: the last `VP8X` payload, the other
/// chunks but `ICCP`, and whether one was `ALPH`.
fn read_webp_chunks(webp: &[u8]) -> (r: Option<(Option<Vec<u8>>, Vec<u8>, bool)>)
    ensures
        match r {
            Some((v, rest, alph)) => webp_chunks(webp@) == Some(
                WebpChunks { vp8x: opt_bytes(v), rest: rest@, alph },
            ),
            None => webp_chunks(webp@) is None,
        },
{
    if webp.len() < 12 || !tag_is(webp, 0, 0x52, 0x49, 0x46, 0x46) || !tag_is(webp, 8, 0x57, 0x45, 0x42, 0x50) {
        proof {
            if webp@.len() >= 12 {
                assert(webp@.take(4) =~= webp@.subrange(0, 4));
            }
        }
        return None;
    }
    assert(webp@.take(4) =~= webp@.subrange(0, 4));
    let len = webp.len();
    let mut vp8x: Option<Vec<u8>> = None;
    let mut rest: Vec<u8> = Vec::new();
    let mut has_alph = false;
    let mut pos: usize = 12;
    let ghost target = webp_chunks(webp@);
    while pos < len && len - pos >= 8
        invariant
            len == webp@.len(),
            12 <= pos <= len,
            target == webp_chunks(webp@),
            target == walk_chunks(
                webp@,
                pos as int,
                WebpChunks {
                    vp8x: opt_bytes(vp8x),
                    rest: rest@,
                    alph: has_alph,
                },
            ),
        decreases len - pos,
    {
        let ghost acc = WebpChunks {
            vp8x: opt_bytes(vp8x),
            rest: rest@,
            alph: has_alph,
        };
        let size: usize = webp[pos + 4] as usize + 256 * (webp[pos + 5] as usize) + 65536 * (webp[pos + 6] as usize)
            + 16777216 * (webp[pos + 7] as usize);
        assert(size == le32_at(webp@, pos + 4));
        if size > len - pos - 8 {
            return None;
        }
        let end = pos + 8 + size;
        let odd = size % 2 == 1;
        let cut = if odd && end < len { end + 1 } else { end };
        if tag_is(webp, pos, 0x56, 0x50, 0x38, 0x58) {
            let mut v: Vec<u8> = Vec::new();
            push_bytes(&mut v, webp, pos + 8, end);
            assert(v@ =~= webp@.subrange(pos + 8, end as int));
            vp8x = Some(v);
        } else if tag_is(webp, pos, 0x49, 0x43, 0x43, 0x50) {
        } else {
            if tag_is(webp, pos, 0x41, 0x4C, 0x50, 0x48) {
                has_alph = true;
            }
            push_bytes(&mut rest, webp, pos, cut);
        }
        let ghost padded = end + size % 2;
        if odd && end < len {
            pos = end + 1;
        } else if odd {
            // The padding byte is missing: the walk is over.
            pos = len;
            assert(walk_chunks(webp@, padded, WebpChunks {
                vp8x: opt_bytes(vp8x),
                rest: rest@,
                alph: has_alph,
            }) == walk_chunks(webp@, pos as int, WebpChunks {
                vp8x: opt_bytes(vp8x),
                rest: rest@,
                alph: has_alph,
            }));
        } else {
            pos = end;
        }
    }
    Some((vp8x, rest, has_alph))
}

/// The chunk payload `p` preceded by its tag and little-endian size.
pub open spec fn chunk_head(tag: Seq<u8>, p: Seq<u8>) -> Seq<u8> {
    tag + le32_bytes(p.len() as int) + p
}

/// The `VP8X` header to write: the existing one, or one made for a
/// `w`×`h` canvas, with the ICC flag (and the alpha flag when `alpha`).
pub open spec fn vp8x_header(vp8x: Option<Seq<u8>>, w: u32, h: u32, alpha: bool) -> Seq<u8> {
    let h0 = match vp8x {
        Some(v) => v,
        None => fresh_vp8x(w as int, h as int),
    };
    h0.update(0, (h0[0] | 0x20u8) | (if alpha { 0x10u8 } else { 0u8 }))
}

fn make_header(vp8x: Option<Vec<u8>>, w: u32, h: u32, alpha: bool) -> (r: Vec<u8>)
    requires
        match vp8x {
            Some(v) => v@.len() >= 1,
            None => w >= 1 && h >= 1,
        },
    ensures
        r@ == vp8x_header(opt_bytes(vp8x), w, h, alpha),
{
    let ghost given = opt_bytes(vp8x);
    let mut header: Vec<u8> = match vp8x {
        Some(v) => v,
        None => {
            let mut v: Vec<u8> = Vec::new();
            v.push(0);
            v.push(0);
            v.push(0);
            v.push(0);
            let ww = (w - 1) as u64;
            let hh = (h - 1) as u64;
            v.push((ww % 256) as u8);
            v.push(((ww / 256) % 256) as u8);
            v.push(((ww / 65536) % 256) as u8);
            v.push((hh % 256) as u8);
            v.push(((hh / 256) % 256) as u8);
            v.push(((hh / 65536) % 256) as u8);
            assert(v@ =~= fresh_vp8x(w as int, h as int));
            v
        },
    };
    let ghost h0 = header@;
    let flags = (header[0] | 0x20u8) | (if alpha { 0x10u8 } else { 0u8 });
    header.set(0, flags);
    assert(header@ =~= h0.update(0, flags));
    header
}

/// Append a chunk: `tag`, the payload's little-endian size, the payload.
fn push_chunk(out: &mut Vec<u8>, t0: u8, t1: u8, t2: u8, t3: u8, payload: &[u8])
    ensures
        final(out)@ == old(out)@ + chunk_head(seq![t0, t1, t2, t3], payload@),
{
    out.push(t0);
    out.push(t1);
    out.push(t2);
    out.push(t3);
    push_le32(out, payload.len());
    push_bytes(out, payload, 0, payload.len());
    assert(payload@.subrange(0, payload@.len() as int) =~= payload@);
    assert(final(out)@ =~= old(out)@ + chunk_head(seq![t0, t1, t2, t3], payload@));
}

/// Insert an `ICCP` chunk into a WebP file produced by libwebp's simple
/// encoder, adding (or updating) the `VP8X` extended header that must
/// precede it.
pub fn webp_with_icc(webp: &[u8], icc: &[u8], w: u32, h: u32, alpha: bool) -> (r: Option<Vec<u8>>)
    requires
        webp_icc_defined(webp@, w, h),
    ensures
        match r {
            Some(v) => webp_icc_of(webp@, icc@, w, h, alpha) == Some(v@),
            None => webp_icc_of(webp@, icc@, w, h, alpha) is None,
        },
{
    let (vp8x, rest, has_alph) = match read_webp_chunks(webp) {
        Some(c) => c,
        None => return None,
    };
    let ghost c = WebpChunks { vp8x: opt_bytes(vp8x), rest: rest@, alph: has_alph };
    let header = make_header(vp8x, w, h, alpha || has_alph);
    let mut body: Vec<u8> = Vec::new();
    body.push(0x57);
    body.push(0x45);
    body.push(0x42);
    body.push(0x50);
    push_chunk(&mut body, 0x56, 0x50, 0x38, 0x58, header.as_slice());
    push_chunk(&mut body, 0x49, 0x43, 0x43, 0x50, icc);
    if icc.len() % 2 == 1 {
        body.push(0);
    }
    push_bytes(&mut body, rest.as_slice(), 0, rest.len());
    let mut out: Vec<u8> = Vec::new();
    push_chunk(&mut out, 0x52, 0x49, 0x46, 0x46, body.as_slice());
    proof {
        assert(rest@.subrange(0, rest@.len() as int) =~= rest@);
        let hdr = vp8x_header(c.vp8x, w, h, alpha || c.alph);
        let b = webp_tag() + chunk_head(vp8x_tag(), hdr) + chunk_head(iccp_tag(), icc@) + (if icc@.len() % 2 == 1 {
            seq![0u8]
        } else {
            Seq::empty()
        }) + rest@;
        assert(body@ =~= b);
        let spec_b = webp_tag() + vp8x_tag() + le32_bytes(hdr.len() as int) + hdr + iccp_tag() + le32_bytes(
            icc@.len() as int,
        ) + icc@ + (if icc@.len() % 2 == 1 { seq![0u8] } else { Seq::empty() }) + rest@;
        assert(b =~= spec_b);
        assert(out@ =~= riff_tag() + le32_bytes(b.len() as int) + b);
    }
    Some(out)
}

/// Every format's file extension names the format again.
pub proof fn lemma_extension_names_format(f: ImageFormat)
    ensures
        image_format_named(lower(f.extension_of())) == Some(f),
{
    reveal_strlit("heif");
    reveal_strlit("jpeg");
    reveal_strlit("webp");
    reveal_strlit("avif");
    reveal_strlit("heic");
    reveal_strlit("jxl");
    reveal_strlit("png");
    reveal_strlit("jpg");
    crate::text::lemma_lower_unchanged(f.extension_of());
    match f {
        ImageFormat::Webp => {
            assert("webp"@[0] != "avif"@[0]);
            assert("webp"@[0] != "heic"@[0]);
            assert("webp"@[0] != "heif"@[0]);
            assert("webp"@[0] != "jpeg"@[0]);
        },
        ImageFormat::Avif => {
            assert("avif"@[0] != "webp"@[0]);
            assert("avif"@[0] != "heic"@[0]);
            assert("avif"@[0] != "heif"@[0]);
            assert("avif"@[0] != "jpeg"@[0]);
        },
        ImageFormat::Heic => {
            assert("heic"@[0] != "webp"@[0]);
            assert("heic"@[0] != "avif"@[0]);
            assert("heic"@[3] != "heif"@[3]);
            assert("heic"@[0] != "jpeg"@[0]);
        },
        ImageFormat::Jxl => {
            assert("jxl"@[0] != "png"@[0]);
            assert("jxl"@[1] != "jpg"@[1]);
        },
        ImageFormat::Png => {
            assert("png"@[0] != "jxl"@[0]);
            assert("png"@[0] != "jpg"@[0]);
        },
        ImageFormat::Jpeg => {
            assert("jpg"@[1] != "jxl"@[1]);
            assert("jpg"@[0] != "png"@[0]);
        },
    }
}


/// The names `from_str` reads, in any case: each format's extension, plus
/// `jpeg` and `heif`; `gif` names no conversion format.
pub proof fn lemma_format_names(f: ImageFormat)
    ensures
        image_format_named(lower(crate::text::upper(f.extension_of()))) == Some(f),
        image_format_named("jpeg"@) == Some(ImageFormat::Jpeg),
        image_format_named("heif"@) == Some(ImageFormat::Heic),
        image_format_named("gif"@) is None,
{
    crate::text::lemma_lower_of_upper(f.extension_of());
    lemma_extension_names_format(f);
    reveal_strlit("heif");
    reveal_strlit("jpeg");
    reveal_strlit("webp");
    reveal_strlit("avif");
    reveal_strlit("heic");
    reveal_strlit("jxl");
    reveal_strlit("png");
    reveal_strlit("jpg");
    reveal_strlit("gif");
    assert("jpeg"@ != "webp"@) by { assert("jpeg"@[0] != "webp"@[0]); }
    assert("jpeg"@ != "avif"@) by { assert("jpeg"@[0] != "avif"@[0]); }
    assert("jpeg"@ != "heic"@) by { assert("jpeg"@[0] != "heic"@[0]); }
    assert("jpeg"@ != "heif"@) by { assert("jpeg"@[0] != "heif"@[0]); }
    assert("heif"@ != "webp"@) by { assert("heif"@[0] != "webp"@[0]); }
    assert("heif"@ != "avif"@) by { assert("heif"@[0] != "avif"@[0]); }
    assert("gif"@ != "jxl"@) by { assert("gif"@[0] != "jxl"@[0]); }
    assert("gif"@ != "png"@) by { assert("gif"@[0] != "png"@[0]); }
    assert("gif"@ != "jpg"@) by { assert("gif"@[0] != "jpg"@[0]); }
    assert("jpeg"@ != "jxl"@) by { assert("jpeg"@.len() != "jxl"@.len()); }
    assert("jpeg"@ != "png"@) by { assert("jpeg"@.len() != "png"@.len()); }
    assert("gif"@ != "webp"@) by { assert("gif"@.len() != "webp"@.len()); }
    assert("gif"@ != "avif"@) by { assert("gif"@.len() != "avif"@.len()); }
    assert("gif"@ != "heic"@) by { assert("gif"@.len() != "heic"@.len()); }
    assert("gif"@ != "heif"@) by { assert("gif"@.len() != "heif"@.len()); }
    assert("gif"@ != "jpeg"@) by { assert("gif"@.len() != "jpeg"@.len()); }
}

/// No format's extension holds a path separator.
pub proof fn lemma_extension_has_no_separator(f: ImageFormat)
    ensures
        crate::paths::no_separator(f.extension_of()),
{
    reveal_strlit("webp");
    reveal_strlit("avif");
    reveal_strlit("heic");
    reveal_strlit("jxl");
    reveal_strlit("png");
    reveal_strlit("jpg");
}

/// The other formats adaptive optimisation tries: PNG alone for an image
/// with transparency (so it is never flattened), else JPEG, then PNG.
pub fn candidate_formats(has_alpha: bool) -> (r: Vec<ImageFormat>)
    ensures
        r@ == (if has_alpha {
            seq![ImageFormat::Png]
        } else {
            seq![ImageFormat::Jpeg, ImageFormat::Png]
        }),
{
    if has_alpha {
        vec![ImageFormat::Png]
    } else {
        vec![ImageFormat::Jpeg, ImageFormat::Png]
    }
}

/// `i` is the first of the smallest non-empty sizes.
pub open spec fn is_smallest(sizes: Seq<u64>, i: int) -> bool {
    &&& 0 <= i < sizes.len()
    &&& sizes[i] > 0
    &&& forall|j: int| 0 <= j < sizes.len() && sizes[j] > 0 ==> sizes[i] <= sizes[j]
    &&& forall|j: int| 0 <= j < i && sizes[j] > 0 ==> sizes[i] < sizes[j]
}

/// The candidate adaptive optimisation keeps: the first of the smallest
/// non-empty ones; `None` when every candidate is empty.
pub fn smallest_candidate(sizes: &[u64]) -> (r: Option<usize>)
    ensures
        match r {
            Some(i) => is_smallest(sizes@, i as int),
            None => forall|j: int| 0 <= j < sizes@.len() ==> sizes@[j] == 0,
        },
{
    let mut best: Option<usize> = None;
    let mut i: usize = 0;
    while i < sizes.len()
        invariant
            i <= sizes@.len(),
            match best {
                Some(b) => is_smallest(sizes@.take(i as int), b as int),
                None => forall|j: int| 0 <= j < i ==> sizes@[j] == 0,
            },
        decreases sizes@.len() - i,
    {
        if sizes[i] > 0 {
            match best {
                Some(b) => {
                    if sizes[i] < sizes[b] {
                        best = Some(i);
                    }
                },
                None => {
                    best = Some(i);
                },
            }
        }
        i = i + 1;
        assert forall|j: int| 0 <= j < i implies sizes@.take(i as int)[j] == sizes@[j] by {}
    }
    assert(sizes@.take(sizes@.len() as int) =~= sizes@);
    best
}

/// Where adaptive optimisation writes a winner in `format`: over the source,
/// backed up, when `format` keeps the source's (lowercased) extension; else
/// alongside it under the format's extension, the source kept. The size guard
/// applies either way.
pub fn adaptive_placement(path: &str, format: ImageFormat) -> (r: (String, Placement))
    ensures
        extension_lower_of(path@) == Some(format.extension_of()) ==> r.0@ == path@ && r.1 == (Placement {
            size_guard: true,
            backup: true,
            replace_source: false,
        }),
        extension_lower_of(path@) != Some(format.extension_of()) ==> r.0@ == path_with_extension(
            path@,
            format.extension_of(),
        ) && r.1 == (Placement { size_guard: true, backup: false, replace_source: false }),
{
    let same = match extension_lower(path) {
        Some(e) => chars_eq(&chars_of(e.as_str()), format.extension()),
        None => false,
    };
    if same {
        (path.to_string(), Placement { size_guard: true, backup: true, replace_source: false })
    } else {
        proof {
            lemma_extension_has_no_separator(format);
        }
        let (dest, _) = conversion_placement(path, format.extension());
        (dest, Placement { size_guard: true, backup: false, replace_source: false })
    }
}

/// Whether a file is known to carry transparency from its first bytes: a PNG
/// (by extension) whose IHDR colour type, byte 25, is gray+alpha (4) or RGBA
/// (6). Other formats, and files too short to hold the byte, report none.
pub fn header_has_alpha(path: &str, header: &[u8]) -> (r: bool)
    ensures
        r == (extension_lower_of(path@) == Some("png"@) && header@.len() >= 26 && (header@[25] == 4 || header@[25] == 6)),
{
    let png = match extension_lower(path) {
        Some(e) => chars_eq(&chars_of(e.as_str()), "png"),
        None => false,
    };
    png && header.len() >= 26 && (header[25] == 4 || header[25] == 6)
}

/// `cjxl` arguments converting `src` to JPEG XL at `out`.
pub open spec fn cjxl_args_of(factor: int, src: Seq<char>, out: Seq<char>) -> Seq<Seq<char>> {
    seq![
        "-q"@,
        int_text(conversion_quality_of(factor, 95)),
        "-e"@,
        int_text(jxl_effort_of(factor)),
        src,
        out,
    ]
}

/// The `cjxl` arguments that convert `src` to JPEG XL at `out`.
pub fn cjxl_args(cq: CompressionQuality, src: &str, out: &str) -> (r: Vec<String>)
    ensures
        views(r@) == cjxl_args_of(cq.factor as int, src@, out@),
{
    let mut args: Vec<String> = Vec::new();
    str_vec_push(&mut args, "-q");
    string_vec_push(&mut args, int_string(cq.jxl_quality() as i64));
    str_vec_push(&mut args, "-e");
    string_vec_push(&mut args, int_string(cq.jxl_effort() as i64));
    str_vec_push(&mut args, src);
    str_vec_push(&mut args, out);
    assert(views(args@) =~= cjxl_args_of(cq.factor as int, src@, out@));
    args
}

/// `heif-enc` arguments converting `src` to HEIC at `out`.
pub open spec fn heif_enc_args_of(factor: int, src: Seq<char>, out: Seq<char>) -> Seq<Seq<char>> {
    seq!["-q"@, int_text(conversion_quality_of(factor, 90)), "-o"@, out, src]
}

/// The `heif-enc` arguments that convert `src` to HEIC at `out`.
pub fn heif_enc_args(cq: CompressionQuality, src: &str, out: &str) -> (r: Vec<String>)
    ensures
        views(r@) == heif_enc_args_of(cq.factor as int, src@, out@),
{
    let mut args: Vec<String> = Vec::new();
    str_vec_push(&mut args, "-q");
    string_vec_push(&mut args, int_string(cq.conversion_quality() as i64));
    str_vec_push(&mut args, "-o");
    str_vec_push(&mut args, out);
    str_vec_push(&mut args, src);
    assert(views(args@) =~= heif_enc_args_of(cq.factor as int, src@, out@));
    args
}

} // verus!
