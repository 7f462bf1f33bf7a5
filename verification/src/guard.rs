//! The read-only CI guard: directories whose files are left out of the
//! scan, and the integer part of judging each file (its size, what it could
//! shrink to, whether it is over the size limit, and how many files fail).

use vstd::prelude::*;

use crate::paths::{components, path_components};
use crate::result::OptimisationResult;
use crate::text::chars_eq;

verus! {

/// Whether some component of `path` is one of the names in `exclude`.
pub open spec fn is_excluded(path: Seq<char>, exclude: Seq<Seq<char>>) -> bool {
    exists|k: int, j: int|
        0 <= k < path_components(path).len() && 0 <= j < exclude.len() && #[trigger] path_components(path)[k]
            == #[trigger] exclude[j]
}

pub open spec fn string_views(v: Seq<String>) -> Seq<Seq<char>> {
    v.map_values(|s: String| s@)
}

/// Whether any component of `path` is one of the excluded directory names.
pub fn excluded(path: &str, exclude: &[String]) -> (r: bool)
    ensures
        r == is_excluded(path@, string_views(exclude@)),
{
    let comps = components(path);
    let ghost pc = path_components(path@);
    assert(comps@.map_values(|s: String| s@) == pc);
    assert(pc.len() == comps@.len());
    let ghost ex = string_views(exclude@);
    let mut k: usize = 0;
    while k < comps.len()
        invariant
            k <= comps@.len(),
            comps@.map_values(|s: String| s@) == pc,
            pc.len() == comps@.len(),
            pc == path_components(path@),
            ex == string_views(exclude@),
            forall|a: int, b: int| 0 <= a < k && 0 <= b < ex.len() ==> pc[a] != ex[b],
        decreases comps.len() - k,
    {
        assert(pc[k as int] == comps@[k as int]@);
        let c = comps[k].as_str();
        let mut j: usize = 0;
        while j < exclude.len()
            invariant
                j <= exclude@.len(),
                k < comps@.len(),
                pc.len() == comps@.len(),
                pc == path_components(path@),
                pc[k as int] == c@,
                ex == string_views(exclude@),
                forall|b: int| 0 <= b < j ==> pc[k as int] != ex[b],
            decreases exclude.len() - j,
        {
            let e = crate::text::chars_of(exclude[j].as_str());
            assert(ex[j as int] == exclude@[j as int]@);
            if chars_eq(&e, c) {
                assert(pc[k as int] == ex[j as int]);
                assert(path_components(path@)[k as int] == string_views(exclude@)[j as int]);
                return true;
            }
            j = j + 1;
        }
        k = k + 1;
    }
    false
}


/// One file's sizes as the guard judges them.
#[derive(Debug, Clone, Copy, PartialEq, Eq)]
pub struct Verdict {
    /// The file's size.
    pub size: u64,
    /// What it could shrink to: the optimised size when optimising
    /// improved it, else its own size.
    pub optimised: u64,
    /// It is larger than the size limit.
    pub over_limit: bool,
}

/// The verdict on a dry-run result against an optional size limit.
pub fn verdict(r: &OptimisationResult, max_size: Option<u64>) -> (v: Verdict)
    ensures
        v.size == r.old_size,
        v.optimised == (if r.improved_spec() { r.new_size } else { r.old_size }),
        v.over_limit == (max_size matches Some(m) && r.old_size > m),
{
    let optimised = if r.improved() {
        r.new_size
    } else {
        r.old_size
    };
    let over_limit = match max_size {
        Some(m) => r.old_size > m,
        None => false,
    };
    Verdict { size: r.old_size, optimised, over_limit }
}

/// How many of the flags are set.
pub open spec fn count_set(flags: Seq<bool>) -> nat
    decreases flags.len(),
{
    if flags.len() == 0 {
        0
    } else {
        count_set(flags.drop_last()) + if flags.last() {
            1nat
        } else {
            0nat
        }
    }
}

/// The number of failing files: those judged with a problem plus those
/// that could not be checked at all.
pub fn failing_count(has_problems: &[bool], errors: usize) -> (n: usize)
    requires
        has_problems@.len() + errors <= usize::MAX,
    ensures
        n == count_set(has_problems@) + errors,
{
    let mut n: usize = 0;
    let mut i: usize = 0;
    while i < has_problems.len()
        invariant
            i <= has_problems@.len(),
            n == count_set(has_problems@.take(i as int)),
            n <= i,
        decreases has_problems@.len() - i,
    {
        assert(has_problems@.take(i + 1).drop_last() =~= has_problems@.take(i as int));
        if has_problems[i] {
            n = n + 1;
        }
        i = i + 1;
    }
    assert(has_problems@.take(has_problems@.len() as int) =~= has_problems@);
    n + errors
}

} // verus!
