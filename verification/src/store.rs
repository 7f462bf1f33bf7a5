//! Persistent storage for saved pipelines and folder automations.
//!
//! Stored as JSON at the per-user config dir:
//!   * macOS:  `~/Library/Application Support/xpress/pipelines.json`
//!   * Linux:  `$XDG_CONFIG_HOME/xpress/pipelines.json` (or `~/.config/...`)
//!   * Windows:`%APPDATA%\xpress\pipelines.json`

use std::collections::BTreeMap;

use vstd::prelude::*;

use crate::config::{config_file, config_file_of, opt_string, ConfigEnv};
use crate::filetype::{classify, kind_of_path, MediaKind};
use crate::paths::{components, file_name, path_components, path_file_name};
use crate::text::{chars_eq, chars_of, string_of};

verus! {

#[derive(Debug)]
pub struct Store {
    /// name -> pipeline DSL string
    pub pipelines: BTreeMap<String, String>,
    /// source (folder path / "clipboard" / "dropZone") -> attachment
    pub automations: Vec<Automation>,
}

#[derive(Debug, Clone)]
pub struct Automation {
    /// A folder path, or a special source name.
    pub source: String,
    /// File type this applies to: "image" | "video" | "audio" | "pdf" | "all".
    pub file_type: String,
    /// Pipeline name or inline DSL.
    pub pipeline: String,
}

/// The file type an automation applies to when none is given.
pub fn all_type() -> (r: String)
    ensures
        r@ == "all"@,
{
    string_of(chars_of("all"))
}

impl Default for Store {
    fn default() -> (r: Self)
        ensures
            r.pipelines@ == Map::<String, String>::empty(),
            r.automations@.len() == 0,
    {
        Store { pipelines: BTreeMap::new(), automations: Vec::new() }
    }
}

/// Whether an automation for `file_type` applies to a file of `kind`:
/// `all`, an empty type and unknown types apply to every kind.
pub open spec fn type_matches_spec(file_type: Seq<char>, kind: MediaKind) -> bool {
    if file_type == "image"@ {
        kind == MediaKind::Image
    } else if file_type == "video"@ {
        kind == MediaKind::Video
    } else if file_type == "audio"@ {
        kind == MediaKind::Audio
    } else if file_type == "pdf"@ {
        kind == MediaKind::Pdf
    } else {
        true
    }
}

/// Whether an automation for `file_type` applies to a file of `kind`.
pub fn type_matches(file_type: &str, kind: MediaKind) -> (r: bool)
    ensures
        r == type_matches_spec(file_type@, kind),
{
    let t = chars_of(file_type);
    if chars_eq(&t, "image") {
        kind == MediaKind::Image
    } else if chars_eq(&t, "video") {
        kind == MediaKind::Video
    } else if chars_eq(&t, "audio") {
        kind == MediaKind::Audio
    } else if chars_eq(&t, "pdf") {
        kind == MediaKind::Pdf
    } else {
        true
    }
}

/// Files a watched folder leaves alone: hidden ones, backups and editor
/// temp files (`name~`).
pub open spec fn ignored_name(name: Seq<char>) -> bool {
    (name.len() > 0 && name[0] == '.') || (name.len() >= 5 && name.skip(name.len() - 5) == ".orig"@) || (
    name.len() > 0 && name.last() == '~')
}

/// Whether a watched folder leaves the file called `name` alone.
pub fn is_ignored_name(name: &str) -> (r: bool)
    ensures
        r == ignored_name(name@),
{
    let c = chars_of(name);
    let n = c.len();
    proof {
        reveal_strlit(".orig");
    }
    let orig = n >= 5 && c[n - 5] == '.' && c[n - 4] == 'o' && c[n - 3] == 'r' && c[n - 2] == 'i' && c[n - 1] == 'g';
    proof {
        if n >= 5 {
            if orig {
                assert(c@.skip(n - 5) =~= ".orig"@);
            } else if c@.skip(n - 5) == ".orig"@ {
                assert(c@.skip(n - 5)[0] == c@[n - 5]);
                assert(c@.skip(n - 5)[1] == c@[n - 4]);
                assert(c@.skip(n - 5)[2] == c@[n - 3]);
                assert(c@.skip(n - 5)[3] == c@[n - 2]);
                assert(c@.skip(n - 5)[4] == c@[n - 1]);
            }
        }
    }
    (n > 0 && c[0] == '.') || orig || (n > 0 && c[n - 1] == '~')
}

impl Store {
    /// Where the store lives: `pipelines.json` in the per-user directory.
    pub fn path(env: &ConfigEnv) -> (r: Option<String>)
        ensures
            opt_string(r) == config_file_of(*env, "pipelines.json"@),
    {
        config_file(env, "pipelines.json")
    }
}



/// An automation by its text: source, file type, pipeline.
pub open spec fn automation_view(a: Automation) -> (Seq<char>, Seq<char>, Seq<char>) {
    (a.source@, a.file_type@, a.pipeline@)
}

/// A list of automations by their text.
pub open spec fn automation_views(v: Seq<Automation>) -> Seq<(Seq<char>, Seq<char>, Seq<char>)> {
    v.map_values(|a: Automation| automation_view(a))
}

/// Automations not on `source`.
pub open spec fn not_on(source: Seq<char>) -> spec_fn((Seq<char>, Seq<char>, Seq<char>)) -> bool {
    |t: (Seq<char>, Seq<char>, Seq<char>)| t.0 != source
}

impl Store {
    /// Remove every automation on `source`; whether there was one.
    pub fn detach(&mut self, source: &str) -> (removed: bool)
        ensures
            automation_views(final(self).automations@) == automation_views(old(self).automations@).filter(
                not_on(source@),
            ),
            removed == (automation_views(final(self).automations@).len() < old(self).automations@.len()),
            final(self).pipelines@ == old(self).pipelines@,
    {
        let ghost start = self.automations@;
        let ghost p = not_on(source@);
        let before_len = self.automations.len();
        let mut i: usize = 0;
        let ghost mut j: int = 0;
        assert(start.skip(0) =~= start);
        assert(automation_views(start.take(0)).filter(p) =~= seq![]) by {
            reveal(Seq::filter);
        }
        assert(automation_views(self.automations@.take(0)) =~= seq![]);
        while i < self.automations.len()
            invariant
                0 <= j <= start.len(),
                i <= self.automations@.len(),
                self.automations@.len() - i == start.len() - j,
                automation_views(self.automations@.take(i as int)) == automation_views(start.take(j)).filter(p),
                self.automations@.skip(i as int) == start.skip(j),
                self.pipelines@ == old(self).pipelines@,
                p == not_on(source@),
                start == old(self).automations@,
            decreases self.automations@.len() - i,
        {
            let ghost before = self.automations@;
            assert(before[i as int] == start[j]) by {
                assert(before.skip(i as int)[0] == start.skip(j)[0]);
            }
            let ghost next = automation_views(start.take(j + 1));
            assert(next.drop_last() =~= automation_views(start.take(j)));
            assert(next.last() == automation_view(start[j]));
            assert(next.filter(p) == if p(next.last()) {
                automation_views(start.take(j)).filter(p).push(next.last())
            } else {
                automation_views(start.take(j)).filter(p)
            }) by {
                reveal(Seq::filter);
            }
            assert(start.skip(j + 1) =~= start.skip(j).drop_first());
            assert(before.skip(i + 1) =~= before.skip(i as int).drop_first());
            assert(before.skip(i + 1) == start.skip(j + 1));
            if chars_eq(&chars_of(self.automations[i].source.as_str()), source) {
                self.automations.remove(i);
                assert(self.automations@.skip(i as int) =~= before.skip(i + 1));
                assert(self.automations@.take(i as int) =~= before.take(i as int));
                assert(self.automations@.skip(i as int) =~= start.skip(j + 1));
            } else {
                assert(self.automations@.take(i + 1) =~= before.take(i as int).push(before[i as int]));
                assert(automation_views(self.automations@.take(i + 1)) =~= automation_views(before.take(i as int)).push(
                    automation_view(before[i as int]),
                ));
                assert(self.automations@.skip(i + 1) =~= start.skip(j + 1));
                i = i + 1;
            }
            proof {
                j = j + 1;
            }
        }
        assert(j == start.len());
        assert(start.take(j) =~= start);
        assert(self.automations@.take(i as int) =~= self.automations@);
        proof {
            automation_views(start).lemma_filter_len(p);
        }
        self.automations.len() < before_len
    }

    /// Attach `a` to its source, replacing whatever was attached there.
    pub fn attach(&mut self, a: Automation)
        ensures
            automation_views(final(self).automations@) == automation_views(old(self).automations@).filter(
                not_on(a.source@),
            ).push(automation_view(a)),
            final(self).pipelines@ == old(self).pipelines@,
    {
        let _ = self.detach(a.source.as_str());
        let ghost kept = self.automations@;
        self.automations.push(a);
        assert(automation_views(self.automations@) =~= automation_views(kept).push(automation_view(a)));
    }
}

/// A watched folder and the media type its automation applies to.
pub struct WatchTarget {
    pub folder: String,
    /// As saved: `all`, `image`, `video`, `audio` or `pdf`.
    pub file_type: String,
}

/// Whether the components `base` begin the components `p`
/// (`Path::starts_with`).
pub open spec fn components_prefix(base: Seq<Seq<char>>, p: Seq<Seq<char>>) -> bool {
    base.len() <= p.len() && p.take(base.len() as int) == base
}

/// Whether the automation on `folder` for `file_type` takes the file `path`
/// of media kind `kind`.
pub open spec fn watches(folder: Seq<char>, file_type: Seq<char>, path: Seq<char>, kind: MediaKind) -> bool {
    components_prefix(path_components(folder), path_components(path)) && type_matches_spec(file_type, kind)
}

/// The last component of `path`, empty when it has none.
pub open spec fn name_of_path(path: Seq<char>) -> Seq<char> {
    match path_file_name(path) {
        Some(n) => n,
        None => seq![],
    }
}

/// Whether the `i`th of `targets` takes the file `path`.
pub open spec fn target_takes(targets: Seq<WatchTarget>, i: int, path: Seq<char>) -> bool {
    kind_of_path(path) is Some && watches(targets[i].folder@, targets[i].file_type@, path, kind_of_path(path)->0)
}

/// The automation a changed file goes to: none for a hidden, backup or
/// temp file or one of no known media kind; otherwise the first target
/// whose folder contains it and whose type matches.
pub fn watch_target(path: &str, targets: &[WatchTarget]) -> (r: Option<usize>)
    ensures
        match r {
            Some(i) => {
                &&& !ignored_name(name_of_path(path@))
                &&& i < targets@.len()
                &&& target_takes(targets@, i as int, path@)
                &&& forall|j: int| 0 <= j < i ==> !target_takes(targets@, j, path@)
            },
            None => ignored_name(name_of_path(path@)) || forall|j: int|
                0 <= j < targets@.len() ==> !target_takes(targets@, j, path@),
        },
{
    let name = match file_name(path) {
        Some(n) => n,
        None => String::new(),
    };
    assert(name@ == name_of_path(path@));
    if is_ignored_name(name.as_str()) {
        return None;
    }
    let kind = match classify(path) {
        Some(k) => k,
        None => return None,
    };
    let parts = components(path);
    let ghost pv = path_components(path@);
    assert(parts@.map_values(|s: String| s@) == pv);
    let mut i: usize = 0;
    while i < targets.len()
        invariant
            i <= targets@.len(),
            kind_of_path(path@) == Some(kind),
            !ignored_name(name_of_path(path@)),
            parts@.map_values(|s: String| s@) == pv,
            pv == path_components(path@),
            forall|j: int| 0 <= j < i ==> !target_takes(targets@, j, path@),
        decreases targets@.len() - i,
    {
        let base = components(targets[i].folder.as_str());
        let ghost bv = path_components(targets@[i as int].folder@);
        let mut prefix = base.len() <= parts.len();
        if prefix {
            let mut k: usize = 0;
            while k < base.len()
                invariant
                    base@.len() <= parts@.len(),
                    k <= base@.len(),
                    base@.map_values(|s: String| s@) == bv,
                    parts@.map_values(|s: String| s@) == pv,
                    prefix == forall|m: int| 0 <= m < k ==> pv[m] == bv[m],
                decreases base@.len() - k,
            {
                assert(pv[k as int] == parts@[k as int]@);
                assert(bv[k as int] == base@[k as int]@);
                if parts[k] != base[k] {
                    prefix = false;
                }
                k = k + 1;
            }
            assert(prefix == (pv.take(bv.len() as int) =~= bv));
        }
        if prefix && type_matches(targets[i].file_type.as_str(), kind) {
            return Some(i);
        }
        i = i + 1;
    }
    None
}

} // verus!
