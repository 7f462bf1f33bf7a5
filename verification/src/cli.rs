//! The command line's decisions: how flags and the user's config combine
//! into optimisation options, how the output of each file is named, and how
//! a media kind is named on the command line.

use vstd::prelude::*;

use crate::compression::{clamp, CompressionQuality, CompressionTier, COMPRESSION_FACTOR_AGGRESSIVE};
use crate::audio::{audio_format_named, AudioFormat};
use crate::config::Config;
use crate::image::{image_format_named, ImageFormat};
use crate::video::{video_codec_named, VideoCodec};
use crate::filetype::MediaKind;
use crate::paths::{file_name, join, path_file_name, path_join};
use crate::render::OutputMode;
use crate::result::{name_or_file, OptimiseOptions};
use crate::template::{count_counter, expand, expansion, is_template, opt_str};
use crate::text::{chars_eq, chars_of, lower, push_str, string_of, to_lower};

verus! {

/// The flags every optimising command shares.
pub struct CommonFlags {
    pub compression: Option<i32>,
    pub aggressive: bool,
    pub strip_metadata: bool,
    pub no_preserve_dates: bool,
    pub no_backup: bool,
    pub allow_larger: bool,
    pub json: bool,
    pub quiet: bool,
}

/// The compression to use: the aggressive preset when the flag or the
/// config asks for it, else the `--compression` value, else the config's.
pub open spec fn compression_for_spec(flags: CommonFlags, cfg: Config) -> CompressionQuality {
    if flags.aggressive || cfg.aggressive {
        CompressionQuality { tier: CompressionTier::Custom, factor: COMPRESSION_FACTOR_AGGRESSIVE }
    } else {
        match flags.compression {
            Some(f) => CompressionQuality { tier: CompressionTier::Custom, factor: clamp(f as int, 0, 100) as i32 },
            None => CompressionQuality { tier: CompressionTier::Custom, factor: clamp(cfg.compression as int, 0, 100) as i32 },
        }
    }
}

/// The compression to use for these flags and config.
pub fn compression_for(flags: &CommonFlags, cfg: &Config) -> (r: CompressionQuality)
    ensures
        r == compression_for_spec(*flags, *cfg),
{
    if flags.aggressive || cfg.aggressive {
        CompressionQuality::aggressive()
    } else {
        match flags.compression {
            Some(f) => CompressionQuality::new(CompressionTier::Custom, f),
            None => CompressionQuality::new(CompressionTier::Custom, cfg.compression),
        }
    }
}

/// How to render results: JSON wins over quiet.
pub fn output_mode(flags: &CommonFlags) -> (r: OutputMode)
    ensures
        r == (if flags.json {
            OutputMode::Json
        } else if flags.quiet {
            OutputMode::Quiet
        } else {
            OutputMode::Normal
        }),
{
    if flags.json {
        OutputMode::Json
    } else if flags.quiet {
        OutputMode::Quiet
    } else {
        OutputMode::Normal
    }
}

/// The options for these flags and config: flags override the config, the
/// config overrides the built-in defaults; location stripping and the cache
/// keep their defaults and the output is chosen per file.
pub fn options_for(flags: &CommonFlags, cfg: &Config) -> (o: OptimiseOptions)
    ensures
        o.compression == compression_for_spec(*flags, *cfg),
        o.backup == (!flags.no_backup && cfg.backup),
        o.strip_metadata == (flags.strip_metadata || cfg.strip_metadata),
        o.preserve_dates == (!flags.no_preserve_dates && cfg.preserve_dates),
        o.output is None,
        o.allow_larger == flags.allow_larger,
        !o.strip_location,
        o.use_cache,
{
    OptimiseOptions {
        compression: compression_for(flags, cfg),
        backup: !flags.no_backup && cfg.backup,
        strip_metadata: flags.strip_metadata || cfg.strip_metadata,
        strip_location: false,
        preserve_dates: !flags.no_preserve_dates && cfg.preserve_dates,
        output: None,
        allow_larger: flags.allow_larger,
        use_cache: true,
    }
}

/// The media kind a command-line word names (any case).
pub open spec fn kind_named(s: Seq<char>) -> Option<MediaKind> {
    if s == "image"@ || s == "images"@ {
        Some(MediaKind::Image)
    } else if s == "video"@ || s == "videos"@ {
        Some(MediaKind::Video)
    } else if s == "audio"@ {
        Some(MediaKind::Audio)
    } else if s == "pdf"@ {
        Some(MediaKind::Pdf)
    } else {
        None
    }
}

/// The media kind a command-line word names.
pub fn parse_kind(s: &str) -> (r: Result<MediaKind, String>)
    ensures
        match kind_named(lower(s@)) {
            Some(k) => r == Ok::<MediaKind, String>(k),
            None => r matches Err(m) && m@ == "unknown kind '"@ + lower(s@) + "'"@,
        },
{
    let l = to_lower(s);
    if chars_eq(&l, "image") || chars_eq(&l, "images") {
        Ok(MediaKind::Image)
    } else if chars_eq(&l, "video") || chars_eq(&l, "videos") {
        Ok(MediaKind::Video)
    } else if chars_eq(&l, "audio") {
        Ok(MediaKind::Audio)
    } else if chars_eq(&l, "pdf") {
        Ok(MediaKind::Pdf)
    } else {
        let mut m: Vec<char> = Vec::new();
        push_str(&mut m, "unknown kind '");
        let ls = string_of(l);
        push_str(&mut m, ls.as_str());
        push_str(&mut m, "'");
        assert(m@ =~= "unknown kind '"@ + lower(s@) + "'"@);
        Err(string_of(m))
    }
}

/// Where a file's output goes when `--output` is a plain path: inside it
/// when it is a directory, the path itself for a single input, in place
/// (`None`) otherwise.
pub open spec fn plain_output_of(out: Seq<char>, source: Seq<char>, out_is_dir: bool, single: bool) -> Option<Seq<char>> {
    if out_is_dir {
        Some(path_join(out, name_or_file(path_file_name(source))))
    } else if single {
        Some(out)
    } else {
        None
    }
}

/// The per-file output: none without `--output`; a template (containing
/// `%`) is expanded for the file (`counter` feeding `%i`); a directory gets
/// the file's name; a plain path is used for a single input only.
pub fn resolve_output(
    output: Option<&str>,
    source: &str,
    counter: &mut u64,
    single: bool,
    out_is_dir: bool,
    home: Option<&str>,
) -> (r: Option<String>)
    requires
        output matches Some(o) ==> *old(counter) + count_counter(o@) <= u64::MAX,
    ensures
        match output {
            None => r is None && *final(counter) == *old(counter),
            Some(o) => if o@.contains('%') {
                &&& *final(counter) == *old(counter) + count_counter(o@)
                &&& r matches Some(p) && exists|secs: int, seeds: Seq<u64>|
                    seeds.len() == crate::template::count_random(o@) && p@ == #[trigger] expansion(
                        o@,
                        source@,
                        *old(counter) as int,
                        opt_str(home),
                        secs,
                        seeds,
                    )
            } else {
                &&& *final(counter) == *old(counter)
                &&& match r {
                    Some(p) => plain_output_of(o@, source@, out_is_dir, single) == Some(p@),
                    None => plain_output_of(o@, source@, out_is_dir, single) is None,
                }
            },
        },
{
    let out = match output {
        Some(o) => o,
        None => return None,
    };
    if is_template(out) {
        return Some(expand(out, source, counter, home));
    }
    if out_is_dir {
        let name = match file_name(source) {
            Some(n) => n,
            None => string_of(chars_of("file")),
        };
        return Some(join(out, name.as_str()));
    }
    if single {
        Some(string_of(chars_of(out)))
    } else {
        None
    }
}


/// What `convert --to <to>` does.
#[derive(Debug, Clone, Copy, PartialEq, Eq)]
pub enum ConvertRoute {
    /// Videos to animated GIFs.
    Gif,
    /// Videos to another codec.
    Video(VideoCodec),
    /// Images to another format.
    Image(ImageFormat),
    /// Audio to another format.
    Audio(AudioFormat),
    /// No such target.
    Unknown,
}

/// The route for a conversion target (any case): `gif` turns videos into
/// GIFs; a video codec converts videos, when there are any among the inputs
/// (a word like `mp4` given for images falls through); then an image
/// format, then an audio format.
pub open spec fn convert_route_of(to: Seq<char>, videos_found: bool) -> ConvertRoute {
    let t = lower(to);
    if t == "gif"@ {
        ConvertRoute::Gif
    } else if video_codec_named(t) is Some && videos_found {
        ConvertRoute::Video(video_codec_named(t)->0)
    } else if image_format_named(t) is Some {
        ConvertRoute::Image(image_format_named(t)->0)
    } else if audio_format_named(t) is Some {
        ConvertRoute::Audio(audio_format_named(t)->0)
    } else {
        ConvertRoute::Unknown
    }
}

/// The route `convert` takes for the target `to`, given whether any videos
/// are among the inputs.
pub fn convert_route(to: &str, videos_found: bool) -> (r: ConvertRoute)
    ensures
        r == convert_route_of(to@, videos_found),
{
    let t = to_lower(to);
    if chars_eq(&t, "gif") {
        return ConvertRoute::Gif;
    }
    if videos_found {
        if let Some(c) = VideoCodec::from_target(to) {
            return ConvertRoute::Video(c);
        }
    }
    match ImageFormat::from_str(to) {
        Some(f) => ConvertRoute::Image(f),
        None => match AudioFormat::from_target(to) {
            Some(f) => ConvertRoute::Audio(f),
            None => ConvertRoute::Unknown,
        },
    }
}

} // verus!
