//! Share presets: make a file fit where it's going (`--for discord`), with
//! the destination's size limit and the formats it can show.
//!
//! The limits come from the services' published numbers:
//! * Discord — 20 MB per file for free accounts.
//! * GitHub — issues, pull requests and comments: 10 MB for images and GIFs,
//!   10 MB for videos on free plans, 25 MB for other files; images must be
//!   PNG, GIF, JPEG or SVG.
//! * Email — Gmail accepts 25 MB and Outlook 20 MB per message, but base64
//!   encoding inflates attachments by about a third, so a file must stay near
//!   14 MB to get through both.
//!
//! Targets sit a little under each limit to absorb MB/MiB differences and
//! container overhead.

use vstd::prelude::*;

use crate::filetype::{extension_lower, extension_lower_of, MediaKind};
use crate::image::ImageFormat;
use crate::text::{chars_eq, lower, push_str, string_of, to_lower, trim, trimmed, chars_of};

verus! {

/// Where a file is going.
#[derive(Debug, Clone, Copy, PartialEq, Eq, Structural)]
pub enum Target {
    Discord,
    Github,
    Email,
}

/// The target a (trimmed, lowercase) name stands for.
pub open spec fn target_named(s: Seq<char>) -> Option<Target> {
    if s == "discord"@ {
        Some(Target::Discord)
    } else if s == "github"@ || s == "gh"@ {
        Some(Target::Github)
    } else if s == "email"@ || s == "mail"@ || s == "gmail"@ || s == "outlook"@ {
        Some(Target::Email)
    } else {
        None
    }
}

/// The message for an unknown target name.
pub open spec fn unknown_target_message(s: Seq<char>) -> Seq<char> {
    "unknown share target '"@ + s + "': use discord, github or email"@
}

impl Target {
    pub open spec fn name_of(self) -> Seq<char> {
        match self {
            Target::Discord => "discord"@,
            Target::Github => "github"@,
            Target::Email => "email"@,
        }
    }

    pub open spec fn max_bytes_of(self, kind: MediaKind) -> u64 {
        match (self, kind) {
            (Target::Discord, _) => 19_000_000,
            (Target::Github, MediaKind::Image) => 9_500_000,
            (Target::Github, MediaKind::Video) => 9_500_000,
            (Target::Github, _) => 24_000_000,
            (Target::Email, _) => 14_000_000,
        }
    }

    /// The format a file with (lowercase) extension `ext` must be converted
    /// to before it can be shown at this target.
    pub open spec fn conversion_of(self, ext: Seq<char>, has_alpha: bool) -> Option<ImageFormat> {
        let fallback = if has_alpha { ImageFormat::Png } else { ImageFormat::Jpeg };
        match self {
            Target::Github => if ext == "webp"@ || ext == "avif"@ || ext == "heic"@ || ext == "heif"@
                || ext == "jxl"@ || ext == "bmp"@ || ext == "tiff"@ || ext == "tif"@ {
                Some(fallback)
            } else {
                None
            },
            Target::Email => if ext == "heic"@ || ext == "heif"@ || ext == "jxl"@ || ext == "avif"@ {
                Some(fallback)
            } else {
                None
            },
            Target::Discord => None,
        }
    }

    pub fn parse(s: &str) -> (r: Result<Target, String>)
        ensures
            match target_named(lower(trim(s@))) {
                Some(t) => r == Ok::<Target, String>(t),
                None => r matches Err(m) && m@ == unknown_target_message(lower(trim(s@))),
            },
    {
        let raw = chars_of(s);
        let t = trimmed(&raw);
        let l = to_lower(string_of(t).as_str());
        if chars_eq(&l, "discord") {
            Ok(Target::Discord)
        } else if chars_eq(&l, "github") || chars_eq(&l, "gh") {
            Ok(Target::Github)
        } else if chars_eq(&l, "email") || chars_eq(&l, "mail") || chars_eq(&l, "gmail") || chars_eq(
            &l,
            "outlook",
        ) {
            Ok(Target::Email)
        } else {
            let mut m: Vec<char> = Vec::new();
            push_str(&mut m, "unknown share target '");
            let ls = string_of(l);
            push_str(&mut m, ls.as_str());
            push_str(&mut m, "': use discord, github or email");
            assert(m@ =~= unknown_target_message(lower(trim(s@))));
            Err(string_of(m))
        }
    }

    pub fn name(&self) -> (r: &'static str)
        ensures
            r@ == self.name_of(),
    {
        match self {
            Target::Discord => "discord",
            Target::Github => "github",
            Target::Email => "email",
        }
    }

    /// The byte budget for a file of `kind` (already below the published
    /// limit, see the module docs).
    pub fn max_bytes(&self, kind: MediaKind) -> (r: u64)
        ensures
            r == self.max_bytes_of(kind),
    {
        match (self, kind) {
            (Target::Discord, _) => 19_000_000,
            (Target::Github, MediaKind::Image) | (Target::Github, MediaKind::Video) => 9_500_000,
            (Target::Github, _) => 24_000_000,
            (Target::Email, _) => 14_000_000,
        }
    }

    /// The image format a file must be converted to first, if the target
    /// can't show its current one (GitHub: only PNG/GIF/JPEG/SVG; email: HEIC
    /// is not reliably viewable by recipients).
    pub fn image_conversion(&self, path: &str, has_alpha: bool) -> (r: Option<ImageFormat>)
        ensures
            r == (match extension_lower_of(path@) {
                Some(e) => self.conversion_of(e, has_alpha),
                None => None,
            }),
    {
        let ext = match extension_lower(path) {
            Some(e) => e,
            None => return None,
        };
        let e = chars_of(ext.as_str());
        let fallback = if has_alpha {
            ImageFormat::Png
        } else {
            ImageFormat::Jpeg
        };
        match self {
            Target::Github => {
                if chars_eq(&e, "webp") || chars_eq(&e, "avif") || chars_eq(&e, "heic") || chars_eq(
                    &e,
                    "heif",
                ) || chars_eq(&e, "jxl") || chars_eq(&e, "bmp") || chars_eq(&e, "tiff") || chars_eq(
                    &e,
                    "tif",
                ) {
                    Some(fallback)
                } else {
                    None
                }
            },
            Target::Email => {
                if chars_eq(&e, "heic") || chars_eq(&e, "heif") || chars_eq(&e, "jxl") || chars_eq(
                    &e,
                    "avif",
                ) {
                    Some(fallback)
                } else {
                    None
                }
            },
            Target::Discord => None,
        }
    }
}

/// Every target's name parses back to the target.
pub proof fn lemma_target_name_parses(t: Target)
    ensures
        target_named(lower(trim(t.name_of()))) == Some(t),
{
    reveal_strlit("gh");
    reveal_strlit("mail");
    reveal_strlit("gmail");
    reveal_strlit("outlook");
    reveal_strlit("discord");
    reveal_strlit("github");
    reveal_strlit("email");
    let n = t.name_of();
    crate::text::lemma_trim_unchanged(n);
    crate::text::lemma_lower_unchanged(n);
}


/// A target's name parses in any case and with surrounding spaces, and
/// only the listed names parse (`gmail` means email, `myspace` nothing).
pub proof fn lemma_target_name_padded(t: Target)
    ensures
        target_named(lower(trim(seq![' '] + crate::text::upper(t.name_of()) + seq![' ']))) == Some(t),
        target_named("gmail"@) == Some(Target::Email),
        target_named("myspace"@) is None,
{
    reveal_strlit("gh");
    reveal_strlit("mail");
    reveal_strlit("gmail");
    reveal_strlit("outlook");
    reveal_strlit("discord");
    reveal_strlit("github");
    reveal_strlit("email");
    reveal_strlit("myspace");
    let n = t.name_of();
    let u = crate::text::upper(n);
    assert(u.len() == n.len());
    assert(!crate::text::char_is_whitespace(u[0]));
    assert(!crate::text::char_is_whitespace(u.last()));
    crate::text::lemma_trim_padded(u);
    crate::text::lemma_lower_of_upper(n);
    crate::text::lemma_lower_unchanged(n);
    assert("gmail"@ != "discord"@) by { assert("gmail"@.len() != "discord"@.len()); }
    assert("gmail"@ != "github"@) by { assert("gmail"@.len() != "github"@.len()); }
    assert("gmail"@ != "gh"@) by { assert("gmail"@.len() != "gh"@.len()); }
    assert("gmail"@ != "email"@) by { assert("gmail"@[0] != "email"@[0]); }
    assert("gmail"@ != "mail"@) by { assert("gmail"@.len() != "mail"@.len()); }
    assert("myspace"@ != "discord"@) by { assert("myspace"@[0] != "discord"@[0]); }
    assert("myspace"@ != "outlook"@) by { assert("myspace"@[0] != "outlook"@[0]); }
    assert("myspace"@ != "github"@) by { assert("myspace"@.len() != "github"@.len()); }
    assert("myspace"@ != "gh"@) by { assert("myspace"@.len() != "gh"@.len()); }
    assert("myspace"@ != "email"@) by { assert("myspace"@.len() != "email"@.len()); }
    assert("myspace"@ != "mail"@) by { assert("myspace"@.len() != "mail"@.len()); }
    assert("myspace"@ != "gmail"@) by { assert("myspace"@.len() != "gmail"@.len()); }
}

/// The per-file limit each service publishes, in bytes, for a file of
/// `kind`: Discord 20 MB; GitHub 10 MB for images and videos, 25 MB for
/// other files; email 20 MB per message (Outlook, the smaller of Gmail's
/// and Outlook's).
pub open spec fn published_limit(t: Target, kind: MediaKind) -> int {
    match t {
        Target::Discord => 20_000_000,
        Target::Github => if kind == MediaKind::Image || kind == MediaKind::Video {
            10_000_000
        } else {
            25_000_000
        },
        Target::Email => 20_000_000,
    }
}

/// Every target's budget sits a little under the service's published
/// limit: below it, but within a tenth of it. For email the limit applies
/// to the message, where base64 makes an attachment a third larger.
pub proof fn lemma_budget_under_limit(t: Target, kind: MediaKind)
    ensures
        t != Target::Email ==> t.max_bytes_of(kind) < published_limit(t, kind) && 10 * t.max_bytes_of(kind) >= 9
            * published_limit(t, kind),
        t == Target::Email ==> 4 * t.max_bytes_of(kind) < 3 * published_limit(t, kind) && 10 * 4 * t.max_bytes_of(
            kind,
        ) >= 9 * 3 * published_limit(t, kind),
{
}

/// A conversion for sharing always lands on a format every target shows:
/// PNG when the image has transparency to keep, JPEG otherwise; Discord
/// never needs one, and the formats GitHub documents (PNG, GIF, JPEG) and
/// SVG are never converted.
pub proof fn lemma_conversion_targets(t: Target, ext: Seq<char>, has_alpha: bool)
    ensures
        t.conversion_of(ext, has_alpha) matches Some(f) ==> f == (if has_alpha {
            ImageFormat::Png
        } else {
            ImageFormat::Jpeg
        }),
        t == Target::Discord ==> t.conversion_of(ext, has_alpha) is None,
        (ext == "png"@ || ext == "gif"@ || ext == "jpg"@ || ext == "jpeg"@ || ext == "svg"@) ==> t.conversion_of(
            ext,
            has_alpha,
        ) is None,
{
    reveal_strlit("png");
    reveal_strlit("gif");
    reveal_strlit("jpg");
    reveal_strlit("jpeg");
    reveal_strlit("svg");
    reveal_strlit("webp");
    reveal_strlit("avif");
    reveal_strlit("heic");
    reveal_strlit("heif");
    reveal_strlit("jxl");
    reveal_strlit("bmp");
    reveal_strlit("tiff");
    reveal_strlit("tif");
    if ext == "png"@ || ext == "gif"@ || ext == "jpg"@ || ext == "jpeg"@ || ext == "svg"@ {
        let shown = seq!["png"@, "gif"@, "jpg"@, "jpeg"@, "svg"@];
        let conv = seq!["webp"@, "avif"@, "heic"@, "heif"@, "jxl"@, "bmp"@, "tiff"@, "tif"@];
        assert forall|i: int, j: int| 0 <= i < shown.len() && 0 <= j < conv.len() implies shown[i] != conv[j] by {
            if shown[i] == conv[j] {
                assert(shown[i].len() == conv[j].len());
                assert(shown[i][0] == conv[j][0]);
                assert(shown[i][1] == conv[j][1]);
                assert(shown[i][2] == conv[j][2]);
            }
        }
        assert(shown.contains(ext)) by {
            if ext == "png"@ {
                assert(shown[0] == ext);
            } else if ext == "gif"@ {
                assert(shown[1] == ext);
            } else if ext == "jpg"@ {
                assert(shown[2] == ext);
            } else if ext == "jpeg"@ {
                assert(shown[3] == ext);
            } else {
                assert(shown[4] == ext);
            }
        }
        let i = choose|i: int| 0 <= i < shown.len() && shown[i] == ext;
        assert(ext != conv[0] && ext != conv[1] && ext != conv[2] && ext != conv[3]);
        assert(ext != conv[4] && ext != conv[5] && ext != conv[6] && ext != conv[7]);
    }
}

} // verus!
