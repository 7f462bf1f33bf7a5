//! How the command line reports results.

use vstd::prelude::*;

use crate::filetype::MediaKind;

verus! {

/// How to render results.
#[derive(Debug, Clone, Copy, PartialEq, Eq, Structural)]
pub enum OutputMode {
    Normal,
    Quiet,
    Json,
}

pub open spec fn kind_name(kind: MediaKind) -> Seq<char> {
    match kind {
        MediaKind::Image => "image"@,
        MediaKind::Video => "video"@,
        MediaKind::Audio => "audio"@,
        MediaKind::Pdf => "pdf"@,
    }
}

/// The name a media kind has in the JSON report.
pub fn kind_str(kind: MediaKind) -> (r: &'static str)
    ensures
        r@ == kind_name(kind),
{
    match kind {
        MediaKind::Image => "image",
        MediaKind::Video => "video",
        MediaKind::Audio => "audio",
        MediaKind::Pdf => "pdf",
    }
}

} // verus!
