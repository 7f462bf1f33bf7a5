//! Results, options and the output-placement rules shared by all optimisers.

use vstd::prelude::*;

use crate::compression::CompressionQuality;
use crate::filetype::MediaKind;
use crate::paths::{
    file_name, file_stem, path_components, path_file_name, path_file_stem, path_with_extension,
    opt_view, path_with_file_name, plain_name, with_extension, with_file_name,
};
use crate::text::{chars_of, push_str, string_of};
use crate::tools::ToolError;

verus! {

#[derive(Debug, Clone, PartialEq, Eq)]
pub enum OptimiseError {
    /// file not found
    NotFound(String),
    /// unsupported file type
    Unsupported(String),
    /// an external tool failed
    Tool(ToolError),
    /// an I/O error (its message)
    Io(String),
    Other(String),
}

/// The outcome of optimising a single file.
#[derive(Debug, Clone)]
pub struct OptimisationResult {
    pub kind: MediaKind,
    /// Original file path.
    pub source: String,
    /// Where the optimised output ended up.
    pub output: String,
    /// Backup of the original, if one was made.
    pub backup: Option<String>,
    pub old_size: u64,
    pub new_size: u64,
    /// Whether the aggressive compression preset was used.
    pub aggressive: bool,
    /// The file was already optimised with these settings and was skipped.
    pub cached: bool,
}

impl OptimisationResult {
    pub fn saved_bytes(&self) -> (r: i64)
        requires
            self.old_size <= i64::MAX,
            self.new_size <= i64::MAX,
        ensures
            r == self.old_size - self.new_size,
    {
        self.old_size as i64 - self.new_size as i64
    }

    pub open spec fn improved_spec(self) -> bool {
        self.new_size > 0 && self.new_size < self.old_size
    }

    /// An improved result saved bytes: it is non-empty and smaller.
    pub proof fn lemma_improved_saves(self)
        ensures
            self.improved_spec() ==> self.old_size - self.new_size > 0 && self.new_size > 0,
    {
    }

    /// Whether optimisation actually reduced the size.
    pub fn improved(&self) -> (r: bool)
        ensures
            r == self.improved_spec(),
    {
        self.new_size > 0 && self.new_size < self.old_size
    }
}

/// Controls how outputs and backups are placed.
#[derive(Debug, Clone)]
pub struct OptimiseOptions {
    /// Compression value to use.
    pub compression: CompressionQuality,
    /// Make a `.<name>.orig` backup of the original before overwriting.
    pub backup: bool,
    /// Strip non-essential metadata.
    pub strip_metadata: bool,
    /// Remove only where the file was recorded (GPS / location tags).
    pub strip_location: bool,
    /// Preserve original creation/modification timestamps on the output.
    pub preserve_dates: bool,
    /// Optional explicit output path. When `None`, the file is optimised in place.
    pub output: Option<String>,
    /// Allow the result to be written even if it is larger than the original.
    pub allow_larger: bool,
    /// Skip files already optimised at least this hard (and mark new results).
    pub use_cache: bool,
}

impl Default for OptimiseOptions {
    fn default() -> (r: Self)
        ensures
            r.compression == CompressionQuality::spec_normal(),
            r.backup,
            !r.strip_metadata,
            !r.strip_location,
            r.preserve_dates,
            r.output is None,
            !r.allow_larger,
            r.use_cache,
    {
        Self {
            compression: CompressionQuality::normal(),
            backup: true,
            strip_metadata: false,
            strip_location: false,
            preserve_dates: true,
            output: None,
            allow_larger: false,
            use_cache: true,
        }
    }
}

/// The file name of a backup: `.<name>.orig`.
pub open spec fn backup_name(name: Seq<char>) -> Seq<char> {
    "."@ + name + ".orig"@
}

/// The name a backup restores to: `.<inner>.orig` gives `inner` (non-empty).
pub open spec fn restored_name(name: Seq<char>) -> Option<Seq<char>> {
    if name.len() >= 7 && name.take(1) == "."@ && name.skip(name.len() - 5) == ".orig"@ {
        let inner = name.subrange(1, name.len() - 5);
        if inner.len() == 0 {
            None
        } else {
            Some(inner)
        }
    } else {
        None
    }
}

/// A backup's name restores to the name it was made from.
pub proof fn lemma_backup_name_restores(name: Seq<char>)
    requires
        name.len() > 0,
    ensures
        restored_name(backup_name(name)) == Some(name),
{
    reveal_strlit(".");
    reveal_strlit(".orig");
    let b = backup_name(name);
    assert(b.take(1) =~= "."@);
    assert(b.skip(b.len() - 5) =~= ".orig"@);
    assert(b.subrange(1, b.len() - 5) =~= name);
}

/// The name a path is known by, `"file"` when it has none.
pub open spec fn name_or_file(o: Option<Seq<char>>) -> Seq<char> {
    match o {
        Some(n) => n,
        None => "file"@,
    }
}

/// The file stem of `path`, or `"file"` when it has none.
pub fn file_stem_lossy(path: &str) -> (r: String)
    ensures
        r@ == name_or_file(path_file_stem(path@)),
{
    match file_stem(path) {
        Some(s) => s,
        None => "file".to_string(),
    }
}

/// `b` is the backup path of `p`: `p` with its file name `n` (`file` when
/// it has none) replaced by `.<n>.orig`; when `p` has a file name, that
/// name is `p`'s last component, and `b`'s components are `p`'s with the
/// last one replaced by the backup name.
pub open spec fn backup_of(p: Seq<char>, b: Seq<char>) -> bool {
    &&& b == path_with_file_name(p, backup_name(name_or_file(path_file_name(p))))
    &&& path_file_name(p) matches Some(n) ==> {
        &&& plain_name(n)
        &&& path_components(p).len() > 0 && path_components(p).last() == n
        &&& path_file_name(b) == Some(backup_name(n))
        &&& path_components(b) == path_components(p).drop_last().push(backup_name(n))
    }
}

/// `o` is what the backup path `b` restores to: present exactly when `b`'s
/// file name is `.<x>.orig` with `x` non-empty, and then `b` with its file
/// name replaced by `x`; when `x` is a plain name, its components are
/// `b`'s with the last one replaced by `x`.
pub open spec fn restores_to(b: Seq<char>, o: Option<Seq<char>>) -> bool {
    &&& o is Some == (path_file_name(b) matches Some(n) && restored_name(n) is Some)
    &&& o matches Some(x) ==> {
        let inner = restored_name(path_file_name(b)->0)->0;
        &&& x == path_with_file_name(b, inner)
        &&& plain_name(inner) ==> path_components(x) == path_components(b).drop_last().push(inner)
    }
}

proof fn lemma_backup_name_plain(n: Seq<char>)
    requires
        plain_name(n),
    ensures
        plain_name(backup_name(n)),
{
    reveal_strlit(".");
    reveal_strlit(".orig");
    let b = backup_name(n);
    assert forall|i: int| 0 <= i < b.len() implies b[i] != '/' by {
        if 1 <= i < 1 + n.len() {
            assert(b[i] == n[i - 1]);
        } else if i >= 1 + n.len() {
            assert(b[i] == (".orig"@)[i - 1 - n.len()]);
        }
    }
    assert(b.len() >= 6);
}

/// A backup restores to the path it was made from: for a path with a file
/// name, what its backup path restores to has the original path's
/// components (the paths compare equal as `std::path::Path` values).
pub proof fn lemma_backup_path_restores(p: Seq<char>, b: Seq<char>, o: Option<Seq<char>>)
    requires
        path_file_name(p) is Some,
        backup_of(p, b),
        restores_to(b, o),
    ensures
        o matches Some(x) && path_components(x) == path_components(p),
{
    let n = path_file_name(p)->0;
    lemma_backup_name_restores(n);
    let c = path_components(p);
    assert(c.drop_last().push(backup_name(n)).drop_last().push(n) =~= c) by {
        assert(c[c.len() - 1] == n);
    }
}

/// The backup path (`.<name>.orig`) for a given file.
pub fn backup_path(path: &str) -> (r: String)
    ensures
        backup_of(path@, r@),
{
    let name = match file_name(path) {
        Some(n) => n,
        None => "file".to_string(),
    };
    let mut v: Vec<char> = Vec::new();
    push_str(&mut v, ".");
    push_str(&mut v, name.as_str());
    push_str(&mut v, ".orig");
    let b = string_of(v);
    assert(b@ =~= backup_name(name@));
    proof {
        if path_file_name(path@) is Some {
            lemma_backup_name_plain(name@);
        }
    }
    with_file_name(path, b.as_str())
}

/// If `backup` is a `.<name>.orig` file, return the original path it restores to.
pub fn original_for_backup(backup: &str) -> (r: Option<String>)
    ensures
        restores_to(backup@, opt_view(r)),
{
    let name = match file_name(backup) {
        Some(n) => n,
        None => return None,
    };
    let c = chars_of(name.as_str());
    let n = c.len();
    proof {
        reveal_strlit(".");
        reveal_strlit(".orig");
    }
    if n < 7 || c[0] != '.' || c[n - 5] != '.' || c[n - 4] != 'o' || c[n - 3] != 'r' || c[n - 2] != 'i'
        || c[n - 1] != 'g' {
        proof {
            if n >= 7 && c@.take(1) == "."@ && c@.skip(n - 5) == ".orig"@ {
                assert(c@.take(1)[0] == c@[0]);
                assert(c@.skip(n - 5)[0] == c@[n - 5]);
                assert(c@.skip(n - 5)[1] == c@[n - 4]);
                assert(c@.skip(n - 5)[2] == c@[n - 3]);
                assert(c@.skip(n - 5)[3] == c@[n - 2]);
                assert(c@.skip(n - 5)[4] == c@[n - 1]);
            }
        }
        return None;
    }
    assert(c@.take(1) =~= "."@);
    assert(c@.skip(n - 5) =~= ".orig"@);
    let mut inner: Vec<char> = Vec::new();
    let mut i: usize = 1;
    while i < n - 5
        invariant
            n == c@.len(),
            n >= 7,
            1 <= i <= n - 5,
            inner@ == c@.subrange(1, i as int),
        decreases n - 5 - i,
    {
        inner.push(c[i]);
        i = i + 1;
        assert(inner@ =~= c@.subrange(1, i as int));
    }
    let inner_s = string_of(inner);
    Some(with_file_name(backup, inner_s.as_str()))
}

/// The result for "nothing written; the original stays as it was".
pub fn unchanged(kind: MediaKind, src: &str, old_size: u64, aggressive: bool) -> (r: OptimisationResult)
    ensures
        r.kind == kind,
        r.source@ == src@,
        r.output@ == src@,
        r.backup is None,
        r.old_size == old_size,
        r.new_size == old_size,
        r.aggressive == aggressive,
        !r.cached,
{
    OptimisationResult {
        kind,
        source: src.to_string(),
        output: src.to_string(),
        backup: None,
        old_size,
        new_size: old_size,
        aggressive,
        cached: false,
    }
}

/// Whether an optimisation may be skipped by (and recorded in) the
/// "already optimised" cache: only plain same-format runs with the cache on.
pub fn cacheable(options: &OptimiseOptions, same_format: bool) -> (r: bool)
    ensures
        r == (options.use_cache && same_format),
{
    options.use_cache && same_format
}

/// The result for a file skipped because it was already optimised with
/// these settings: nothing written, reported as cached.
pub fn cached_result(kind: MediaKind, src: &str, size: u64, options: &OptimiseOptions) -> (r: OptimisationResult)
    ensures
        r.kind == kind,
        r.source@ == src@,
        r.output@ == src@,
        r.backup is None,
        r.old_size == size,
        r.new_size == size,
        r.aggressive == options.compression.is_aggressive(),
        r.cached,
{
    let mut r = unchanged(kind, src, size, options.compression.image_is_aggressive());
    r.cached = true;
    r
}

/// How the final step places an optimiser's output.
#[derive(Debug, Clone, Copy, PartialEq, Eq, Structural)]
pub struct Placement {
    /// Keep the original (report "no change") unless the result is smaller.
    /// Ignored when [`OptimiseOptions::allow_larger`] is set.
    pub size_guard: bool,
    /// Back the source up first (only for in-place writes with backups on).
    pub backup: bool,
    /// After an in-place write to a different path (e.g. `clip.mov` ->
    /// `clip.mp4`), delete the source.
    pub replace_source: bool,
}

/// Where a conversion to extension `ext` is written and how: alongside the
/// source, which is kept; only when the new path is the source's own is the
/// source backed up first. No size guard: the conversion was asked for.
pub fn conversion_placement(path: &str, ext: &str) -> (r: (String, Placement))
    requires
        crate::paths::no_separator(ext@),
    ensures
        r.0@ == path_with_extension(path@, ext@),
        r.1 == (Placement { size_guard: false, backup: r.0@ == path@, replace_source: false }),
{
    let dest = with_extension(path, ext);
    let same = dest == path.to_string();
    (dest, Placement { size_guard: false, backup: same, replace_source: false })
}

/// What the final step of an optimiser does with a staged output.
#[derive(Debug, Clone, PartialEq, Eq)]
pub enum FinishPlan {
    /// Write nothing; the original stays as it was.
    KeepOriginal,
    /// Back up the source (when `backup`), put the staged file at `dest`, and
    /// remove the source afterwards when `remove_source` (and it still exists).
    Place { dest: String, backup: bool, remove_source: bool },
}

/// Whether the size guard refuses a staged output of `new_size` bytes.
pub open spec fn guard_refuses(placement: Placement, allow_larger: bool, new_size: u64, old_size: u64) -> bool {
    placement.size_guard && !allow_larger && (new_size == 0 || new_size >= old_size)
}

/// The rules of the final step shared by every optimiser: apply the size
/// guard, choose the destination (`options.output` or `default_dest`), back
/// the original up only for in-place writes, and remove the old source only
/// after an in-place format change.
pub fn finish_plan(
    src: &str,
    default_dest: &str,
    new_size: u64,
    old_size: u64,
    options: &OptimiseOptions,
    placement: Placement,
) -> (r: FinishPlan)
    ensures
        guard_refuses(placement, options.allow_larger, new_size, old_size) ==> r == FinishPlan::KeepOriginal,
        !guard_refuses(placement, options.allow_larger, new_size, old_size) ==> (r matches FinishPlan::Place { dest, backup, remove_source } && {
            &&& dest@ == (match options.output {
                Some(o) => o@,
                None => default_dest@,
            })
            &&& backup == (placement.backup && options.backup && options.output is None)
            &&& remove_source == (placement.replace_source && options.output is None && dest@ != src@)
        }),
{
    if placement.size_guard && !options.allow_larger && (new_size == 0 || new_size >= old_size) {
        return FinishPlan::KeepOriginal;
    }
    let in_place = options.output.is_none();
    let dest = match &options.output {
        Some(o) => o.clone(),
        None => default_dest.to_string(),
    };
    let backup = placement.backup && options.backup && in_place;
    let same = dest == src.to_string();
    let remove_source = placement.replace_source && in_place && !same;
    FinishPlan::Place { dest, backup, remove_source }
}

/// The result reported after a staged output was placed.
pub fn placed_result(
    kind: MediaKind,
    src: &str,
    dest: String,
    backup: Option<String>,
    old_size: u64,
    new_size: u64,
    aggressive: bool,
) -> (r: OptimisationResult)
    ensures
        r.kind == kind,
        r.source@ == src@,
        r.output == dest,
        r.backup == backup,
        r.old_size == old_size,
        r.new_size == new_size,
        r.aggressive == aggressive,
        !r.cached,
{
    OptimisationResult {
        kind,
        source: src.to_string(),
        output: dest,
        backup,
        old_size,
        new_size,
        aggressive,
        cached: false,
    }
}

} // verus!
