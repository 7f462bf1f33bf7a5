//! File-type classification by extension.

use vstd::prelude::*;

use crate::paths::{extension, path_extension};
use crate::text::{contains_str, lower, string_of, strs, to_lower};

verus! {

#[derive(Debug, Clone, Copy, PartialEq, Eq, Structural)]
pub enum MediaKind {
    Image,
    Video,
    Audio,
    Pdf,
}

/// Recognised image extensions.
pub open spec fn image_extensions() -> Seq<Seq<char>> {
    seq![
        "webp"@, "avif"@, "heic"@, "heif"@, "jxl"@, "bmp"@, "tiff"@, "tif"@, "png"@, "jpeg"@,
        "jpg"@, "gif"@,
    ]
}

/// Video extensions (quickTime, mp4, webm, mkv, mpeg2, avi, m4v, mpeg).
pub open spec fn video_extensions() -> Seq<Seq<char>> {
    seq!["mov"@, "mp4"@, "webm"@, "mkv"@, "m2v"@, "avi"@, "m4v"@, "mpeg"@, "mpg"@]
}

/// Audio extensions (wav, aiff, mp3, flac, m4a, ogg).
pub open spec fn audio_extensions() -> Seq<Seq<char>> {
    seq!["wav"@, "aiff"@, "aif"@, "mp3"@, "flac"@, "m4a"@, "ogg"@, "oga"@]
}

pub open spec fn pdf_extensions() -> Seq<Seq<char>> {
    seq!["pdf"@]
}

impl MediaKind {
    pub open spec fn extension_list(self) -> Seq<Seq<char>> {
        match self {
            MediaKind::Image => image_extensions(),
            MediaKind::Video => video_extensions(),
            MediaKind::Audio => audio_extensions(),
            MediaKind::Pdf => pdf_extensions(),
        }
    }

    pub fn extensions(&self) -> (r: &'static [&'static str])
        ensures
            strs(r@) == self.extension_list(),
    {
        let r: &'static [&'static str] = match self {
            MediaKind::Image => &[
                "webp", "avif", "heic", "heif", "jxl", "bmp", "tiff", "tif", "png", "jpeg", "jpg",
                "gif",
            ],
            MediaKind::Video => &["mov", "mp4", "webm", "mkv", "m2v", "avi", "m4v", "mpeg", "mpg"],
            MediaKind::Audio => &["wav", "aiff", "aif", "mp3", "flac", "m4a", "ogg", "oga"],
            MediaKind::Pdf => &["pdf"],
        };
        assert(strs(r@) =~= self.extension_list());
        r
    }
}

/// The kind a (lowercase) extension stands for.
pub open spec fn kind_of_extension(e: Seq<char>) -> Option<MediaKind> {
    if image_extensions().contains(e) {
        Some(MediaKind::Image)
    } else if video_extensions().contains(e) {
        Some(MediaKind::Video)
    } else if audio_extensions().contains(e) {
        Some(MediaKind::Audio)
    } else if pdf_extensions().contains(e) {
        Some(MediaKind::Pdf)
    } else {
        None
    }
}

/// The lowercase extension of a path.
pub open spec fn extension_lower_of(p: Seq<char>) -> Option<Seq<char>> {
    match path_extension(p) {
        Some(e) => Some(lower(e)),
        None => None,
    }
}

/// The media kind of a path, from its extension.
pub open spec fn kind_of_path(p: Seq<char>) -> Option<MediaKind> {
    match extension_lower_of(p) {
        Some(e) => kind_of_extension(e),
        None => None,
    }
}

pub fn extension_lower(path: &str) -> (r: Option<String>)
    ensures
        crate::paths::opt_view(r) == extension_lower_of(path@),
        r matches Some(e) ==> crate::paths::no_separator(e@),
{
    match extension(path) {
        Some(e) => {
            let l = to_lower(e.as_str());
            assert forall|i: int| 0 <= i < l@.len() implies l@[i] != '/' by {
                assert(l@[i] == crate::text::lower_char(e@[i]));
            }
            Some(string_of(l))
        },
        None => None,
    }
}

/// No extension is in two kinds' lists.
#[verifier::rlimit(50)]
proof fn lemma_lists_disjoint(e: Seq<char>)
    ensures
        image_extensions().contains(e) ==> !video_extensions().contains(e) && !audio_extensions().contains(e)
            && !pdf_extensions().contains(e),
        video_extensions().contains(e) ==> !audio_extensions().contains(e) && !pdf_extensions().contains(e),
        audio_extensions().contains(e) ==> !pdf_extensions().contains(e),
{
    reveal_strlit("webp");
    reveal_strlit("avif");
    reveal_strlit("heic");
    reveal_strlit("heif");
    reveal_strlit("jxl");
    reveal_strlit("bmp");
    reveal_strlit("tiff");
    reveal_strlit("tif");
    reveal_strlit("png");
    reveal_strlit("jpeg");
    reveal_strlit("jpg");
    reveal_strlit("gif");
    reveal_strlit("mov");
    reveal_strlit("mp4");
    reveal_strlit("webm");
    reveal_strlit("mkv");
    reveal_strlit("m2v");
    reveal_strlit("avi");
    reveal_strlit("m4v");
    reveal_strlit("mpeg");
    reveal_strlit("mpg");
    reveal_strlit("wav");
    reveal_strlit("aiff");
    reveal_strlit("aif");
    reveal_strlit("mp3");
    reveal_strlit("flac");
    reveal_strlit("m4a");
    reveal_strlit("ogg");
    reveal_strlit("oga");
    reveal_strlit("pdf");
    assert forall|i: int, j: int| 0 <= i < image_extensions().len() && 0 <= j < video_extensions().len() implies image_extensions()[i] != video_extensions()[j] by {
        let (x, y) = (image_extensions()[i], video_extensions()[j]);
        if x.len() == y.len() {
            assert(x[0] != y[0] || x[1] != y[1] || x[2] != y[2] || (x.len() == 4 && x[3] != y[3]));
        }
    }
    assert forall|i: int, j: int| 0 <= i < image_extensions().len() && 0 <= j < audio_extensions().len() implies image_extensions()[i] != audio_extensions()[j] by {
        let (x, y) = (image_extensions()[i], audio_extensions()[j]);
        if x.len() == y.len() {
            assert(x[0] != y[0] || x[1] != y[1] || x[2] != y[2] || (x.len() == 4 && x[3] != y[3]));
        }
    }
    assert forall|i: int, j: int| 0 <= i < image_extensions().len() && 0 <= j < pdf_extensions().len() implies image_extensions()[i] != pdf_extensions()[j] by {
        let (x, y) = (image_extensions()[i], pdf_extensions()[j]);
        if x.len() == y.len() {
            assert(x[0] != y[0] || x[1] != y[1] || x[2] != y[2] || (x.len() == 4 && x[3] != y[3]));
        }
    }
    assert forall|i: int, j: int| 0 <= i < video_extensions().len() && 0 <= j < audio_extensions().len() implies video_extensions()[i] != audio_extensions()[j] by {
        let (x, y) = (video_extensions()[i], audio_extensions()[j]);
        if x.len() == y.len() {
            assert(x[0] != y[0] || x[1] != y[1] || x[2] != y[2] || (x.len() == 4 && x[3] != y[3]));
        }
    }
    assert forall|i: int, j: int| 0 <= i < video_extensions().len() && 0 <= j < pdf_extensions().len() implies video_extensions()[i] != pdf_extensions()[j] by {
        let (x, y) = (video_extensions()[i], pdf_extensions()[j]);
        if x.len() == y.len() {
            assert(x[0] != y[0] || x[1] != y[1] || x[2] != y[2] || (x.len() == 4 && x[3] != y[3]));
        }
    }
    assert forall|i: int, j: int| 0 <= i < audio_extensions().len() && 0 <= j < pdf_extensions().len() implies audio_extensions()[i] != pdf_extensions()[j] by {
        let (x, y) = (audio_extensions()[i], pdf_extensions()[j]);
        if x.len() == y.len() {
            assert(x[0] != y[0] || x[1] != y[1] || x[2] != y[2] || (x.len() == 4 && x[3] != y[3]));
        }
    }
}

/// A path is classified as a kind exactly when that kind's list holds its
/// lowercase extension; the lists share no extension, so at most one does.
pub proof fn lemma_classify_by_list(p: Seq<char>, k: MediaKind)
    ensures
        kind_of_path(p) == Some(k) <==> (extension_lower_of(p) matches Some(e) && k.extension_list().contains(e)),
{
    if let Some(e) = extension_lower_of(p) {
        lemma_lists_disjoint(e);
    }
}

/// Which of the four kinds an extension (already lowercase) stands for.
pub fn kind_of(ext: &Vec<char>) -> (r: Option<MediaKind>)
    ensures
        r == kind_of_extension(ext@),
{
    if contains_str(MediaKind::Image.extensions(), ext) {
        Some(MediaKind::Image)
    } else if contains_str(MediaKind::Video.extensions(), ext) {
        Some(MediaKind::Video)
    } else if contains_str(MediaKind::Audio.extensions(), ext) {
        Some(MediaKind::Audio)
    } else if contains_str(MediaKind::Pdf.extensions(), ext) {
        Some(MediaKind::Pdf)
    } else {
        None
    }
}

/// Classify a path by its extension.
pub fn classify(path: &str) -> (r: Option<MediaKind>)
    ensures
        r == kind_of_path(path@),
{
    match extension(path) {
        Some(e) => {
            let l = to_lower(e.as_str());
            kind_of(&l)
        },
        None => None,
    }
}

} // verus!

verus! {

/// Whether a file of kind `k` is wanted when `kinds` are asked for (none
/// asked for means all).
pub fn kind_allowed(kinds: &[MediaKind], k: MediaKind) -> (r: bool)
    ensures
        r == (kinds@.len() == 0 || kinds@.contains(k)),
{
    if kinds.len() == 0 {
        return true;
    }
    let mut i: usize = 0;
    while i < kinds.len()
        invariant
            i <= kinds@.len(),
            forall|j: int| 0 <= j < i ==> kinds@[j] != k,
        decreases kinds.len() - i,
    {
        if kinds[i] == k {
            assert(kinds@[i as int] == k);
            return true;
        }
        i = i + 1;
    }
    false
}

} // verus!
