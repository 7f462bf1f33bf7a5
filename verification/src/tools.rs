//! The external tools xpress drives, and the arguments it hands them.
//!
//! Resolving a tool on disk and running it is the application's job; this
//! module names the tools and builds their command lines.

use vstd::prelude::*;

use crate::compression::{str_vec_push, string_vec_push, views};
use crate::config::{opt_string, Platform};
use crate::paths::{join, parent, path_join, path_parent};
use crate::text::{push_str, string_of};

verus! {

/// The external tools xpress drives.
#[derive(Debug, Clone, Copy, PartialEq, Eq, Structural)]
pub enum Tool {
    Ffmpeg,
    Ffprobe,
    Pngquant,
    Jpegoptim,
    JpegoptimOld,
    Gifsicle,
    Gifski,
    Vips,
    Vipsthumbnail,
    Ghostscript,
    Cwebp,
    HeifEnc,
    Cjxl,
    Exiftool,
}

impl Tool {
    pub open spec fn binary_of(self) -> Seq<char> {
        match self {
            Tool::Ffmpeg => "ffmpeg"@,
            Tool::Ffprobe => "ffprobe"@,
            Tool::Pngquant => "pngquant"@,
            Tool::Jpegoptim => "jpegoptim"@,
            Tool::JpegoptimOld => "jpegoptim-old"@,
            Tool::Gifsicle => "gifsicle"@,
            Tool::Gifski => "gifski"@,
            Tool::Vips => "vips"@,
            Tool::Vipsthumbnail => "vipsthumbnail"@,
            Tool::Ghostscript => "gs"@,
            Tool::Cwebp => "cwebp"@,
            Tool::HeifEnc => "heif-enc"@,
            Tool::Cjxl => "cjxl"@,
            Tool::Exiftool => "exiftool"@,
        }
    }

    pub fn binary_name(&self) -> (r: &'static str)
        ensures
            r@ == self.binary_of(),
    {
        match self {
            Tool::Ffmpeg => "ffmpeg",
            Tool::Ffprobe => "ffprobe",
            Tool::Pngquant => "pngquant",
            Tool::Jpegoptim => "jpegoptim",
            Tool::JpegoptimOld => "jpegoptim-old",
            Tool::Gifsicle => "gifsicle",
            Tool::Gifski => "gifski",
            Tool::Vips => "vips",
            Tool::Vipsthumbnail => "vipsthumbnail",
            Tool::Ghostscript => "gs",
            Tool::Cwebp => "cwebp",
            Tool::HeifEnc => "heif-enc",
            Tool::Cjxl => "cjxl",
            Tool::Exiftool => "exiftool",
        }
    }
}

/// Why running a tool failed.
#[derive(Debug, Clone, PartialEq, Eq)]
pub enum ToolError {
    /// The binary was not found (its name).
    NotFound(String),
    /// It exited unsuccessfully.
    Failed { tool: String, code: i32, stderr: String },
    /// It could not be started (the reason).
    Launch { tool: String, reason: String },
    /// It ran past the configured timeout and was killed.
    Timeout { tool: String, secs: u64 },
}

/// The exiftool arguments that copy metadata from `src` to `dst`.
pub open spec fn exif_copy_args_of(
    src: Seq<char>,
    dst: Seq<char>,
    strip_metadata: bool,
    exclude_tags: Seq<Seq<char>>,
) -> Seq<Seq<char>> {
    let head = seq!["-overwrite_original"@, "-TagsFromFile"@, src];
    let keep = if strip_metadata {
        seq!["-all="@, "-icc_profile"@, "-Orientation"@]
    } else {
        seq!["-all:all"@]
    };
    head + keep + exclude_tags.map_values(|t: Seq<char>| "--"@ + t) + seq![dst]
}

/// The exiftool command line that copies EXIF metadata from `src` to `dst`,
/// optionally stripping everything first but the orientation and colour
/// profile, and skipping `exclude_tags`.
pub fn exif_copy_args(src: &str, dst: &str, strip_metadata: bool, exclude_tags: &[&str]) -> (args: Vec<String>)
    ensures
        views(args@) == exif_copy_args_of(
            src@,
            dst@,
            strip_metadata,
            exclude_tags@.map_values(|t: &str| t@),
        ),
{
    let mut args: Vec<String> = Vec::new();
    str_vec_push(&mut args, "-overwrite_original");
    str_vec_push(&mut args, "-TagsFromFile");
    str_vec_push(&mut args, src);
    if strip_metadata {
        // Keep only orientation/colour-critical tags when stripping.
        str_vec_push(&mut args, "-all=");
        str_vec_push(&mut args, "-icc_profile");
        str_vec_push(&mut args, "-Orientation");
    } else {
        str_vec_push(&mut args, "-all:all");
    }
    let ghost head = views(args@);
    let ghost tags = exclude_tags@.map_values(|t: &str| t@);
    let mut i: usize = 0;
    while i < exclude_tags.len()
        invariant
            i <= exclude_tags@.len(),
            tags == exclude_tags@.map_values(|t: &str| t@),
            views(args@) == head + tags.take(i as int).map_values(|t: Seq<char>| "--"@ + t),
        decreases exclude_tags.len() - i,
    {
        let mut v: Vec<char> = Vec::new();
        push_str(&mut v, "--");
        push_str(&mut v, exclude_tags[i]);
        string_vec_push(&mut args, string_of(v));
        i = i + 1;
        assert(tags.take(i as int).map_values(|t: Seq<char>| "--"@ + t) =~= tags.take(
            i - 1,
        ).map_values(|t: Seq<char>| "--"@ + t).push("--"@ + tags[i - 1]));
    }
    str_vec_push(&mut args, dst);
    assert(tags.take(i as int) =~= tags);
    assert(views(args@) =~= exif_copy_args_of(src@, dst@, strip_metadata, tags));
    args
}

/// The environment variables the bundled-binaries directory is derived from.
pub struct DataEnv<'a> {
    pub platform: Platform,
    /// `HOME`
    pub home: Option<&'a str>,
    /// `LOCALAPPDATA`
    pub local_appdata: Option<&'a str>,
    /// `XDG_DATA_HOME`
    pub xdg_data_home: Option<&'a str>,
}

/// The per-user directory where bundled binaries are kept (or extracted):
/// `~/Library/Application Support/xpress/bin` on macOS,
/// `%LOCALAPPDATA%\xpress\bin` on Windows, `$XDG_DATA_HOME/xpress/bin` (or
/// `~/.local/share/xpress/bin`) elsewhere.
pub open spec fn bundle_dir_of(env: DataEnv) -> Option<Seq<char>> {
    match env.platform {
        Platform::MacOs => match env.home {
            Some(h) => Some(path_join(h@, "Library/Application Support/xpress/bin"@)),
            None => None,
        },
        Platform::Windows => match env.local_appdata {
            Some(p) => Some(path_join(p@, "xpress\\bin"@)),
            None => None,
        },
        Platform::Other => match env.xdg_data_home {
            Some(x) => Some(path_join(x@, "xpress/bin"@)),
            None => match env.home {
                Some(h) => Some(path_join(path_join(h@, ".local/share"@), "xpress/bin"@)),
                None => None,
            },
        },
    }
}

/// The per-user directory where bundled binaries are kept.
pub fn bundle_dir(env: &DataEnv) -> (r: Option<String>)
    ensures
        opt_string(r) == bundle_dir_of(*env),
{
    match env.platform {
        Platform::MacOs => match env.home {
            Some(h) => Some(join(h, "Library/Application Support/xpress/bin")),
            None => None,
        },
        Platform::Windows => match env.local_appdata {
            Some(p) => Some(join(p, "xpress\\bin")),
            None => None,
        },
        Platform::Other => match env.xdg_data_home {
            Some(x) => Some(join(x, "xpress/bin")),
            None => match env.home {
                Some(h) => {
                    let d = join(h, ".local/share");
                    Some(join(d.as_str(), "xpress/bin"))
                },
                None => None,
            },
        },
    }
}

pub open spec fn opt_seq(o: Option<&str>) -> Seq<Seq<char>> {
    match o {
        Some(s) => seq![s@],
        None => Seq::empty(),
    }
}

/// The directories searched for a tool before `PATH`, in order: the
/// override, `XPRESS_BIN_DIR`, `bin` next to the executable, the bundle
/// directory.
pub open spec fn bin_dirs_of(
    override_dir: Option<&str>,
    env_dir: Option<&str>,
    exe: Option<&str>,
    bundle: Option<&str>,
) -> Seq<Seq<char>> {
    opt_seq(override_dir) + opt_seq(env_dir) + match exe {
        Some(e) => match path_parent(e@) {
            Some(p) => seq![path_join(p, "bin"@)],
            None => Seq::empty(),
        },
        None => Seq::empty(),
    } + opt_seq(bundle)
}

/// The directories searched for a tool before `PATH`, in order.
pub fn bin_dirs(
    override_dir: Option<&str>,
    env_dir: Option<&str>,
    exe: Option<&str>,
    bundle: Option<&str>,
) -> (dirs: Vec<String>)
    ensures
        views(dirs@) == bin_dirs_of(override_dir, env_dir, exe, bundle),
{
    let mut dirs: Vec<String> = Vec::new();
    if let Some(d) = override_dir {
        str_vec_push(&mut dirs, d);
    }
    if let Some(d) = env_dir {
        str_vec_push(&mut dirs, d);
    }
    let ghost mid = views(dirs@);
    if let Some(e) = exe {
        if let Some(p) = parent(e) {
            string_vec_push(&mut dirs, join(p.as_str(), "bin"));
        }
    }
    if let Some(d) = bundle {
        str_vec_push(&mut dirs, d);
    }
    assert(views(dirs@) =~= bin_dirs_of(override_dir, env_dir, exe, bundle));
    dirs
}

/// How one run of a tool ended.
#[derive(Debug, Clone, Copy, PartialEq, Eq, Structural)]
pub enum RunOutcome {
    Succeeded,
    TimedOut,
    Failed,
}

/// What to do after a run.
#[derive(Debug, Clone, Copy, PartialEq, Eq, Structural)]
pub enum RetryAction {
    /// Hand the successful output back.
    Done,
    /// Give up with this run's error.
    Fail,
    /// Run the tool again.
    Again,
}

/// The retry rule of `run_with_retries`: a success is returned, a timeout
/// fails at once (it will not get better), any other failure is retried
/// until `tries` runs (at least one) have been made.
pub open spec fn retry_action_of(runs_made: u32, tries: u32, outcome: RunOutcome) -> RetryAction {
    match outcome {
        RunOutcome::Succeeded => RetryAction::Done,
        RunOutcome::TimedOut => RetryAction::Fail,
        RunOutcome::Failed => if runs_made < (if tries < 1 { 1 } else { tries }) {
            RetryAction::Again
        } else {
            RetryAction::Fail
        },
    }
}

/// What to do after `runs_made` runs of at most `tries`, the last of which
/// ended with `outcome`.
pub fn retry_action(runs_made: u32, tries: u32, outcome: RunOutcome) -> (r: RetryAction)
    ensures
        r == retry_action_of(runs_made, tries, outcome),
{
    match outcome {
        RunOutcome::Succeeded => RetryAction::Done,
        RunOutcome::TimedOut => RetryAction::Fail,
        RunOutcome::Failed => {
            let max = if tries < 1 { 1 } else { tries };
            if runs_made < max {
                RetryAction::Again
            } else {
                RetryAction::Fail
            }
        },
    }
}

/// Retrying never runs a tool more than asked: after `max(tries, 1)` runs
/// the answer is never to run again.
pub proof fn lemma_retries_bounded(runs_made: u32, tries: u32, outcome: RunOutcome)
    requires
        runs_made >= (if tries < 1 { 1 } else { tries }),
    ensures
        retry_action_of(runs_made, tries, outcome) != RetryAction::Again,
{
}

} // verus!
