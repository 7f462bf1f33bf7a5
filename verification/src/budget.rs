//! Fitting a file into a byte budget. A file already within it is just
//! optimised; video and lossy audio are encoded to the bitrate the budget
//! allows; everything else tries progressively harder compression factors.
//! Running each try is the application's part; this module decides the
//! route, which factor comes next, which candidate is the best so far, when
//! to stop, and where the result goes.

use vstd::prelude::*;

use crate::filetype::MediaKind;
use crate::paths::{no_separator, path_with_extension, with_extension};
use crate::result::Placement;

verus! {

/// The number of factors on the ladder.
pub const LADDER_STEPS: usize = 6;

/// The factors to try, from gentle to aggressive: 30, 50, 64, 80, 90, 100.
pub open spec fn ladder_factor_of(i: int) -> i32 {
    if i == 0 {
        30
    } else if i == 1 {
        50
    } else if i == 2 {
        64
    } else if i == 3 {
        80
    } else if i == 4 {
        90
    } else {
        100
    }
}

/// Where a budget search stands: the next rung to try and the best
/// candidate so far (its rung and its size).
#[derive(Debug, Clone, Copy, PartialEq, Eq)]
pub struct Ladder {
    pub next: usize,
    pub best: Option<(usize, u64)>,
}

impl Ladder {
    /// A search that has tried nothing yet.
    pub fn new() -> (l: Ladder)
        ensures
            l.next == 0,
            l.best is None,
    {
        Ladder { next: 0, best: None }
    }

    /// The factor to try next, while rungs remain.
    pub fn factor(&self) -> (f: Option<i32>)
        ensures
            f == (if self.next < LADDER_STEPS { Some(ladder_factor_of(self.next as int)) } else { None }),
    {
        if self.next >= LADDER_STEPS {
            None
        } else if self.next == 0 {
            Some(30)
        } else if self.next == 1 {
            Some(50)
        } else if self.next == 2 {
            Some(64)
        } else if self.next == 3 {
            Some(80)
        } else if self.next == 4 {
            Some(90)
        } else {
            Some(100)
        }
    }

    /// Record the candidate of the current rung: `size` bytes on disk, its
    /// result reporting `new_size`. It becomes the best when there is none
    /// yet or it is smaller than the best's reported size. Returns whether
    /// to go on: not when it fits `max_bytes`, nor after the last rung.
    pub fn record(&mut self, size: u64, new_size: u64, max_bytes: u64) -> (go_on: bool)
        requires
            old(self).next < LADDER_STEPS,
        ensures
            final(self).next == old(self).next + 1,
            final(self).best == (match old(self).best {
                Some((_, b)) => if size < b {
                    Some((old(self).next, new_size))
                } else {
                    old(self).best
                },
                None => Some((old(self).next, new_size)),
            }),
            go_on == (size > max_bytes && final(self).next < LADDER_STEPS),
    {
        let better = match self.best {
            Some((_, b)) => size < b,
            None => true,
        };
        if better {
            self.best = Some((self.next, new_size));
        }
        self.next = self.next + 1;
        size > max_bytes && self.next < LADDER_STEPS
    }
}


/// How a file is brought within a byte budget.
#[derive(Debug, Clone, Copy, PartialEq, Eq)]
pub enum BudgetRoute {
    /// It already fits: a normal optimise is all that is needed.
    PlainOptimise,
    /// Video and audio: encode straight to the bitrate the budget allows.
    ByBitrate,
    /// Everything else: climb the compression ladder.
    Ladder,
}

/// How a file of `kind` and `size` bytes is fitted into `max_bytes`: a file
/// already within it is just optimised; otherwise video and audio are
/// encoded to a bitrate and the rest climb the ladder.
pub fn budget_route(kind: MediaKind, size: u64, max_bytes: u64) -> (r: BudgetRoute)
    ensures
        r == (if size <= max_bytes {
            BudgetRoute::PlainOptimise
        } else if kind == MediaKind::Video || kind == MediaKind::Audio {
            BudgetRoute::ByBitrate
        } else {
            BudgetRoute::Ladder
        }),
{
    if size <= max_bytes {
        BudgetRoute::PlainOptimise
    } else {
        match kind {
            MediaKind::Video | MediaKind::Audio => BudgetRoute::ByBitrate,
            _ => BudgetRoute::Ladder,
        }
    }
}

/// Where a file encoded to a bitrate goes and how: video is re-encoded to
/// mp4, so in place it replaces a source of another container; audio keeps
/// its path. Either is backed up and kept whatever its size.
pub fn rate_placement(path: &str, kind: MediaKind) -> (r: (String, Placement))
    ensures
        r.0@ == (if kind == MediaKind::Video {
            path_with_extension(path@, "mp4"@)
        } else {
            path@
        }),
        r.1 == (Placement { size_guard: false, backup: true, replace_source: kind == MediaKind::Video }),
{
    if kind == MediaKind::Video {
        proof {
            reveal_strlit("mp4");
        }
        assert(no_separator("mp4"@));
        (with_extension(path, "mp4"), Placement { size_guard: false, backup: true, replace_source: true })
    } else {
        (path.to_string(), Placement { size_guard: false, backup: true, replace_source: false })
    }
}

/// The ladder climbs: it starts at the normal factor, every rung compresses
/// strictly harder than the one before, and the last rung is the hardest
/// factor there is.
pub proof fn lemma_ladder_climbs(i: int, j: int)
    ensures
        ladder_factor_of(0) == crate::compression::COMPRESSION_FACTOR_NORMAL,
        ladder_factor_of(LADDER_STEPS - 1) == 100,
        0 <= i < j < LADDER_STEPS ==> ladder_factor_of(i) < ladder_factor_of(j),
        0 <= i < LADDER_STEPS ==> 0 < ladder_factor_of(i) <= 100,
{
}

} // verus!
