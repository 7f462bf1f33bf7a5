//! Responsive images for the web: one source image becomes a set of widths
//! in modern formats plus a fallback, with a ready-to-paste `<picture>`
//! element. Encoding the variants is the application's job; this module
//! plans the widths and writes the markup.

use vstd::prelude::*;

use crate::image::ImageFormat;
use crate::paths::{file_name, opt_view, path_file_name};
use crate::text::{chars_of, int_text, push_int, push_str, string_of};

verus! {

/// One generated file.
#[derive(Debug, Clone, PartialEq)]
pub struct Variant {
    pub path: String,
    pub format: ImageFormat,
    pub width: u32,
    pub height: u32,
    pub size: u64,
}

/// The generated set: all variants plus the `<picture>` markup.
#[derive(Debug, Clone)]
pub struct WebSet {
    pub variants: Vec<Variant>,
    pub html: String,
    /// Size of the source image, for reporting.
    pub source_size: u64,
}

/// The widths to produce: the requested ones that fit (`0 < w <= source`),
/// or just the source width when none does.
pub open spec fn wanted_widths(requested: Seq<u32>, source_width: u32) -> Set<u32> {
    let fit = requested.to_set().filter(|w: u32| w > 0 && w <= source_width);
    if fit.len() == 0 {
        set![source_width]
    } else {
        fit
    }
}

pub open spec fn strictly_increasing(v: Seq<u32>) -> bool {
    forall|i: int, j: int| 0 <= i < j < v.len() ==> v[i] < v[j]
}

/// Insert `w` into the strictly increasing `v`, keeping it so.
fn insert_sorted(v: &mut Vec<u32>, w: u32)
    requires
        strictly_increasing(old(v)@),
    ensures
        strictly_increasing(final(v)@),
        final(v)@.to_set() == old(v)@.to_set().insert(w),
{
    let mut i: usize = 0;
    while i < v.len() && v[i] < w
        invariant
            i <= v@.len(),
            forall|k: int| 0 <= k < i ==> v@[k] < w,
        decreases v.len() - i,
    {
        i = i + 1;
    }
    let ghost before = v@;
    if i < v.len() && v[i] == w {
        assert(before.to_set().insert(w) =~= before.to_set()) by {
            assert(before.contains(w));
        }
        return;
    }
    v.insert(i, w);
    assert(v@ =~= before.take(i as int).push(w) + before.skip(i as int));
    assert forall|a: int, b: int| 0 <= a < b < v@.len() implies v@[a] < v@[b] by {
        if b < i {
        } else if b == i {
        } else if a < i {
            assert(v@[b] == before[b - 1]);
            assert(before[i as int] > w);
            if b - 1 > i {
                assert(before[i as int] < before[b - 1]);
            }
        } else if a == i {
            assert(v@[b] == before[b - 1]);
            assert(before[i as int] > w);
            if b - 1 > i {
                assert(before[i as int] < before[b - 1]);
            }
        } else {
            assert(v@[a] == before[a - 1]);
            assert(v@[b] == before[b - 1]);
        }
    }
    assert(v@.to_set() =~= before.to_set().insert(w)) by {
        assert forall|x: u32| v@.to_set().contains(x) implies before.to_set().insert(w).contains(x) by {
            let k = choose|k: int| 0 <= k < v@.len() && v@[k] == x;
            if k < i {
                assert(before[k] == x);
            } else if k > i {
                assert(before[k - 1] == x);
            }
        }
        assert forall|x: u32| before.to_set().insert(w).contains(x) implies v@.to_set().contains(x) by {
            if x == w {
                assert(v@[i as int] == w);
            } else {
                let k = choose|k: int| 0 <= k < before.len() && before[k] == x;
                if k < i {
                    assert(v@[k] == x);
                } else {
                    assert(v@[k + 1] == x);
                }
            }
        }
    }
}

/// The widths to produce for a `source_width`-wide image: the requested
/// ones that fit, plus the source width itself when every requested width
/// is larger (so there is always at least one), ascending and without
/// repeats.
pub fn plan_widths(requested: &[u32], source_width: u32) -> (w: Vec<u32>)
    ensures
        strictly_increasing(w@),
        w@.to_set() == wanted_widths(requested@, source_width),
        w@.len() >= 1,
        forall|i: int| 0 <= i < w@.len() ==> w@[i] <= source_width,
{
    let mut w: Vec<u32> = Vec::new();
    let ghost pred = |x: u32| x > 0 && x <= source_width;
    let mut i: usize = 0;
    while i < requested.len()
        invariant
            i <= requested@.len(),
            strictly_increasing(w@),
            w@.to_set() == requested@.take(i as int).to_set().filter(pred),
            pred == (|x: u32| x > 0 && x <= source_width),
        decreases requested.len() - i,
    {
        let x = requested[i];
        let ghost before = w@.to_set();
        if x > 0 && x <= source_width {
            insert_sorted(&mut w, x);
        }
        i = i + 1;
        assert(requested@.take(i as int) =~= requested@.take(i - 1).push(x));
        assert(requested@.take(i as int).to_set() =~= requested@.take(i - 1).to_set().insert(x)) by {
            requested@.take(i - 1).lemma_push_to_set_commute(x);
        }
        assert(w@.to_set() =~= requested@.take(i as int).to_set().filter(pred));
    }
    assert(requested@.take(i as int) =~= requested@);
    let ghost fit = requested@.to_set().filter(pred);
    if w.len() == 0 {
        assert(fit =~= w@.to_set());
        assert(w@.to_set() =~= Set::<u32>::empty());
        w.push(source_width);
        assert(w@ =~= seq![source_width]);
        assert(w@.to_set() =~= set![source_width]) by {
            assert forall|x: u32| w@.to_set().contains(x) implies x == source_width by {
                let k = choose|k: int| 0 <= k < w@.len() && w@[k] == x;
            }
            assert(w@[0] == source_width);
        }
        assert(fit.len() == 0);
    } else {
        assert(w@.to_set().contains(w@[0]));
        assert(fit.contains(w@[0]));
        assert(fit.len() != 0) by {
            vstd::set_lib::lemma_set_empty_equivalency_len(requested@.to_set().filter(pred));
            if fit.len() == 0 {
                assert(fit =~= Set::<u32>::empty());
            }
        }
    }
    assert forall|i: int| 0 <= i < w@.len() implies w@[i] <= source_width by {
        assert(w@.to_set().contains(w@[i]));
    }
    w
}

/// The MIME type of an image format.
pub open spec fn mime_of(f: ImageFormat) -> Seq<char> {
    match f {
        ImageFormat::Avif => "image/avif"@,
        ImageFormat::Webp => "image/webp"@,
        ImageFormat::Png => "image/png"@,
        ImageFormat::Jpeg => "image/jpeg"@,
        ImageFormat::Heic => "image/heic"@,
        ImageFormat::Jxl => "image/jxl"@,
    }
}

pub fn mime(format: ImageFormat) -> (r: &'static str)
    ensures
        r@ == mime_of(format),
{
    match format {
        ImageFormat::Avif => "image/avif",
        ImageFormat::Webp => "image/webp",
        ImageFormat::Png => "image/png",
        ImageFormat::Jpeg => "image/jpeg",
        ImageFormat::Heic => "image/heic",
        ImageFormat::Jxl => "image/jxl",
    }
}

/// An attribute value with `&`, `"`, `<` and `>` escaped.
pub open spec fn escape_of(s: Seq<char>) -> Seq<char>
    decreases s.len(),
{
    if s.len() == 0 {
        Seq::empty()
    } else {
        let c = s.last();
        escape_of(s.drop_last()) + (if c == '&' {
            "&amp;"@
        } else if c == '"' {
            "&quot;"@
        } else if c == '<' {
            "&lt;"@
        } else if c == '>' {
            "&gt;"@
        } else {
            seq![c]
        })
    }
}

/// Append `s`, escaped for an attribute value.
fn push_escaped(out: &mut Vec<char>, s: &str)
    ensures
        final(out)@ == old(out)@ + escape_of(s@),
{
    let c = chars_of(s);
    let ghost start = out@;
    let mut i: usize = 0;
    while i < c.len()
        invariant
            i <= c@.len(),
            c@ == s@,
            out@ == start + escape_of(c@.take(i as int)),
        decreases c.len() - i,
    {
        let ch = c[i];
        assert(c@.take(i + 1).drop_last() =~= c@.take(i as int));
        if ch == '&' {
            push_str(out, "&amp;");
        } else if ch == '"' {
            push_str(out, "&quot;");
        } else if ch == '<' {
            push_str(out, "&lt;");
        } else if ch == '>' {
            push_str(out, "&gt;");
        } else {
            out.push(ch);
        }
        i = i + 1;
        assert(out@ =~= start + escape_of(c@.take(i as int)));
    }
    assert(c@.take(c@.len() as int) =~= c@);
}

/// The file name of a variant, as written in the markup (empty when it has none).
pub open spec fn variant_name(v: Variant) -> Seq<char> {
    match path_file_name(v.path@) {
        Some(n) => n,
        None => Seq::empty(),
    }
}

/// One `srcset` entry: `name 640w`.
pub open spec fn srcset_entry(v: Variant) -> Seq<char> {
    escape_of(variant_name(v)) + " "@ + int_text(v.width as int) + "w"@
}

/// The `srcset` entries of the variants in `format`, in order.
pub open spec fn srcset_entries(vs: Seq<Variant>, format: ImageFormat) -> Seq<Seq<char>>
    decreases vs.len(),
{
    if vs.len() == 0 {
        Seq::empty()
    } else {
        let rest = srcset_entries(vs.drop_last(), format);
        if vs.last().format == format {
            rest.push(srcset_entry(vs.last()))
        } else {
            rest
        }
    }
}

/// `parts` joined with `sep`.
pub open spec fn join(parts: Seq<Seq<char>>, sep: Seq<char>) -> Seq<char>
    decreases parts.len(),
{
    if parts.len() == 0 {
        Seq::empty()
    } else if parts.len() == 1 {
        parts[0]
    } else {
        join(parts.drop_last(), sep) + sep + parts.last()
    }
}

/// The `srcset` attribute value for `format`.
pub open spec fn srcset_of(vs: Seq<Variant>, format: ImageFormat) -> Seq<char> {
    join(srcset_entries(vs, format), ", "@)
}

/// Index of the widest variant in `format` (the last one among equals).
pub open spec fn widest(vs: Seq<Variant>, format: ImageFormat) -> Option<int>
    decreases vs.len(),
{
    if vs.len() == 0 {
        None
    } else {
        let best = widest(vs.drop_last(), format);
        let k = vs.len() - 1;
        if vs[k].format == format && (match best {
            Some(b) => vs[k].width >= vs[b].width,
            None => true,
        }) {
            Some(k)
        } else {
            best
        }
    }
}

/// The `<source>` lines for the modern formats that have variants.
pub open spec fn source_lines(vs: Seq<Variant>, sources: Seq<ImageFormat>, sizes: Seq<char>) -> Seq<char>
    decreases sources.len(),
{
    if sources.len() == 0 {
        Seq::empty()
    } else {
        let f = sources.last();
        let set = srcset_of(vs, f);
        source_lines(vs, sources.drop_last(), sizes) + (if set.len() > 0 {
            "  <source type=\""@ + mime_of(f) + "\" srcset=\""@ + set + "\" sizes=\""@ + sizes
                + "\">\n"@
        } else {
            Seq::empty()
        })
    }
}

/// The `<img>` line for the widest fallback variant, if any.
pub open spec fn img_line(vs: Seq<Variant>, fallback: ImageFormat, sizes: Seq<char>, alt: Seq<char>) -> Seq<char> {
    match widest(vs, fallback) {
        Some(k) => "  <img src=\""@ + escape_of(variant_name(vs[k])) + "\" srcset=\""@ + srcset_of(vs, fallback)
            + "\" sizes=\""@ + sizes + "\" width=\""@ + int_text(vs[k].width as int) + "\" height=\""@
            + int_text(vs[k].height as int) + "\" alt=\""@ + escape_of(alt)
            + "\" loading=\"lazy\" decoding=\"async\">\n"@,
        None => Seq::empty(),
    }
}

/// The whole `<picture>` element.
pub open spec fn picture_of(
    vs: Seq<Variant>,
    sources: Seq<ImageFormat>,
    fallback: ImageFormat,
    sizes: Seq<char>,
    alt: Seq<char>,
) -> Seq<char> {
    "<picture>\n"@ + source_lines(vs, sources, escape_of(sizes)) + img_line(vs, fallback, escape_of(sizes), alt)
        + "</picture>\n"@
}

/// Append a variant's file name (escaped) to `out`.
fn push_variant_name(out: &mut Vec<char>, v: &Variant)
    ensures
        final(out)@ == old(out)@ + escape_of(variant_name(*v)),
{
    match file_name(v.path.as_str()) {
        Some(n) => push_escaped(out, n.as_str()),
        None => {
            assert(escape_of(Seq::<char>::empty()) =~= Seq::<char>::empty());
            assert(out@ =~= old(out)@ + escape_of(variant_name(*v)));
        },
    }
}

/// Append the `srcset` value for `format` to `out`.
fn push_srcset(out: &mut Vec<char>, variants: &[Variant], format: ImageFormat)
    ensures
        final(out)@ == old(out)@ + srcset_of(variants@, format),
{
    let ghost start = out@;
    let mut any = false;
    let mut i: usize = 0;
    while i < variants.len()
        invariant
            i <= variants@.len(),
            out@ == start + srcset_of(variants@.take(i as int), format),
            any == (srcset_entries(variants@.take(i as int), format).len() > 0),
        decreases variants.len() - i,
    {
        let v = &variants[i];
        let ghost prev = srcset_entries(variants@.take(i as int), format);
        assert(variants@.take(i + 1).drop_last() =~= variants@.take(i as int));
        assert(variants@.take(i + 1).last() == *v);
        if v.format == format {
            if any {
                push_str(out, ", ");
            }
            any = true;
            push_variant_name(out, v);
            push_str(out, " ");
            push_int(out, v.width as i64);
            push_str(out, "w");
            proof {
                let now = srcset_entries(variants@.take(i + 1), format);
                assert(now == prev.push(srcset_entry(*v)));
                assert(now.drop_last() =~= prev);
                if prev.len() == 0 {
                    assert(join(now, ", "@) == now[0]);
                }
            }
        }
        i = i + 1;
        assert(out@ =~= start + srcset_of(variants@.take(i as int), format));
    }
    assert(variants@.take(variants@.len() as int) =~= variants@);
}

/// Append the `<source>` lines for `sources` to `out`.
#[verifier::spinoff_prover]
fn push_source_lines(out: &mut Vec<char>, variants: &[Variant], sources: &[ImageFormat], esc_sizes: &str)
    ensures
        final(out)@ == old(out)@ + source_lines(variants@, sources@, esc_sizes@),
{
    let ghost head = out@;
    let mut j: usize = 0;
    while j < sources.len()
        invariant
            j <= sources@.len(),
            out@ == head + source_lines(variants@, sources@.take(j as int), esc_sizes@),
        decreases sources.len() - j,
    {
        let f = sources[j];
        assert(sources@.take(j + 1).drop_last() =~= sources@.take(j as int));
        assert(sources@.take(j + 1).last() == f);
        let mut set: Vec<char> = Vec::new();
        push_srcset(&mut set, variants, f);
        assert(set@ =~= srcset_of(variants@, f));
        if set.len() > 0 {
            push_str(out, "  <source type=\"");
            push_str(out, mime(f));
            push_str(out, "\" srcset=\"");
            let set_s = string_of(set);
            push_str(out, set_s.as_str());
            push_str(out, "\" sizes=\"");
            push_str(out, esc_sizes);
            push_str(out, "\">\n");
        }
        j = j + 1;
        assert(out@ =~= head + source_lines(variants@, sources@.take(j as int), esc_sizes@));
    }
    assert(sources@.take(sources@.len() as int) =~= sources@);
}

/// The index of the widest variant in `format` (the last among equals).
fn find_widest(variants: &[Variant], format: ImageFormat) -> (best: Option<usize>)
    ensures
        match best {
            Some(b) => widest(variants@, format) == Some(b as int) && b < variants@.len(),
            None => widest(variants@, format) is None,
        },
{
    let mut best: Option<usize> = None;
    let mut i: usize = 0;
    while i < variants.len()
        invariant
            i <= variants@.len(),
            match best {
                Some(b) => widest(variants@.take(i as int), format) == Some(b as int) && b < i,
                None => widest(variants@.take(i as int), format) is None,
            },
        decreases variants.len() - i,
    {
        assert(variants@.take(i + 1).drop_last() =~= variants@.take(i as int));
        proof {
            if let Some(b) = best {
                assert(variants@.take(i as int)[b as int] == variants@[b as int]);
            }
        }
        let better = variants[i].format == format && match best {
            Some(b) => variants[i].width >= variants[b].width,
            None => true,
        };
        if better {
            best = Some(i);
        }
        i = i + 1;
        proof {
            if let Some(b) = best {
                assert(variants@.take(i as int)[b as int] == variants@[b as int]);
            }
        }
    }
    assert(variants@.take(variants@.len() as int) =~= variants@);
    best
}

/// Append the `<img>` line for the widest `fallback` variant, if any.
fn push_img_line(out: &mut Vec<char>, variants: &[Variant], fallback: ImageFormat, esc_sizes: &str, alt: &str)
    ensures
        final(out)@ == old(out)@ + img_line(variants@, fallback, esc_sizes@, alt@),
{
    let ghost start = out@;
    if let Some(b) = find_widest(variants, fallback) {
        let img = &variants[b];
        push_str(out, "  <img src=\"");
        push_variant_name(out, img);
        push_str(out, "\" srcset=\"");
        push_srcset(out, variants, fallback);
        push_str(out, "\" sizes=\"");
        push_str(out, esc_sizes);
        push_str(out, "\" width=\"");
        push_int(out, img.width as i64);
        push_str(out, "\" height=\"");
        push_int(out, img.height as i64);
        push_str(out, "\" alt=\"");
        push_escaped(out, alt);
        push_str(out, "\" loading=\"lazy\" decoding=\"async\">\n");
    }
    assert(out@ =~= start + img_line(variants@, fallback, esc_sizes@, alt@));
}

/// Build the `<picture>` element. `sources` are the modern formats (in
/// order), `fallback` the `<img>` format; file names are relative to the HTML.
pub fn picture_html(
    variants: &[Variant],
    sources: &[ImageFormat],
    fallback: ImageFormat,
    sizes: &str,
    alt: &str,
) -> (html: String)
    ensures
        html@ == picture_of(variants@, sources@, fallback, sizes@, alt@),
{
    let mut esc_sizes: Vec<char> = Vec::new();
    push_escaped(&mut esc_sizes, sizes);
    assert(esc_sizes@ =~= escape_of(sizes@));
    let esc_sizes_s = string_of(esc_sizes);
    let mut out: Vec<char> = Vec::new();
    push_str(&mut out, "<picture>\n");
    push_source_lines(&mut out, variants, sources, esc_sizes_s.as_str());
    push_img_line(&mut out, variants, fallback, esc_sizes_s.as_str(), alt);
    push_str(&mut out, "</picture>\n");
    assert(out@ =~= picture_of(variants@, sources@, fallback, sizes@, alt@));
    string_of(out)
}


/// The `<img>` fallback format: PNG for a source with transparency, else
/// JPEG.
pub open spec fn fallback_of(has_alpha: bool) -> ImageFormat {
    if has_alpha {
        ImageFormat::Png
    } else {
        ImageFormat::Jpeg
    }
}

/// Formats other than `fb`.
pub open spec fn other_than(fb: ImageFormat) -> spec_fn(ImageFormat) -> bool {
    |f: ImageFormat| f != fb
}

/// The formats encoded, in order: the requested ones other than the
/// fallback, then the fallback.
pub open spec fn web_formats_of(requested: Seq<ImageFormat>, has_alpha: bool) -> Seq<ImageFormat> {
    requested.filter(other_than(fallback_of(has_alpha))).push(fallback_of(has_alpha))
}

/// The formats a responsive set is encoded in: the requested modern formats
/// (the fallback among them dropped), then the fallback for the `<img>`.
pub fn web_formats(requested: &[ImageFormat], has_alpha: bool) -> (r: Vec<ImageFormat>)
    ensures
        r@ == web_formats_of(requested@, has_alpha),
{
    let fallback = if has_alpha {
        ImageFormat::Png
    } else {
        ImageFormat::Jpeg
    };
    let ghost fb = fallback_of(has_alpha);
    let mut out: Vec<ImageFormat> = Vec::new();
    let mut i: usize = 0;
    while i < requested.len()
        invariant
            i <= requested@.len(),
            fallback == fb,
            out@ == requested@.take(i as int).filter(other_than(fb)),
        decreases requested@.len() - i,
    {
        let f = requested[i];
        let ghost next = requested@.take(i + 1);
        assert(next.drop_last() =~= requested@.take(i as int));
        assert(next.last() == f);
        assert(next.filter(other_than(fb)) == if f != fb {
            requested@.take(i as int).filter(other_than(fb)).push(f)
        } else {
            requested@.take(i as int).filter(other_than(fb))
        }) by {
            reveal(Seq::filter);
        }
        if f != fallback {
            out.push(f);
        }
        i = i + 1;
    }
    assert(requested@.take(requested@.len() as int) =~= requested@);
    out.push(fallback);
    out
}

} // verus!
