//! Watermark placement for the ffmpeg overlay filter.

use vstd::prelude::*;

use crate::text::{lower, to_lower, chars_eq};

verus! {

/// Where to place the watermark.
#[derive(Debug, Clone, Copy, PartialEq, Eq, Structural)]
pub enum Position {
    TopLeft,
    TopRight,
    BottomLeft,
    BottomRight,
    Center,
}

/// `s` without `-` and `_`.
pub open spec fn without_dashes(s: Seq<char>) -> Seq<char> {
    s.filter(|c: char| c != '-' && c != '_')
}

/// The position a (lowercase, dash-free) name stands for; anything else is
/// bottom-right.
pub open spec fn position_named(s: Seq<char>) -> Position {
    if s == "topleft"@ {
        Position::TopLeft
    } else if s == "topright"@ {
        Position::TopRight
    } else if s == "bottomleft"@ {
        Position::BottomLeft
    } else if s == "center"@ || s == "centre"@ {
        Position::Center
    } else {
        Position::BottomRight
    }
}

impl Position {
    pub fn parse(s: &str) -> (r: Position)
        ensures
            r == position_named(without_dashes(lower(s@))),
    {
        let l = to_lower(s);
        let mut k: Vec<char> = Vec::new();
        let mut i: usize = 0;
        while i < l.len()
            invariant
                i <= l@.len(),
                k@ == without_dashes(l@.take(i as int)),
            decreases l.len() - i,
        {
            let c = l[i];
            proof {
                reveal_with_fuel(Seq::filter, 1);
                assert(l@.take(i + 1).drop_last() =~= l@.take(i as int));
            }
            if c != '-' && c != '_' {
                k.push(c);
            }
            i = i + 1;
            assert(k@ =~= without_dashes(l@.take(i as int)));
        }
        assert(l@.take(l@.len() as int) =~= l@);
        if chars_eq(&k, "topleft") {
            Position::TopLeft
        } else if chars_eq(&k, "topright") {
            Position::TopRight
        } else if chars_eq(&k, "bottomleft") {
            Position::BottomLeft
        } else if chars_eq(&k, "center") || chars_eq(&k, "centre") {
            Position::Center
        } else {
            Position::BottomRight
        }
    }

    pub open spec fn overlay_of(self) -> Seq<char> {
        match self {
            Position::TopLeft => "10:10"@,
            Position::TopRight => "W-w-10:10"@,
            Position::BottomLeft => "10:H-h-10"@,
            Position::BottomRight => "W-w-10:H-h-10"@,
            Position::Center => "(W-w)/2:(H-h)/2"@,
        }
    }

    /// ffmpeg `overlay=` coordinates with a 10px margin.
    pub fn overlay_xy(&self) -> (r: &'static str)
        ensures
            r@ == self.overlay_of(),
    {
        match self {
            Position::TopLeft => "10:10",
            Position::TopRight => "W-w-10:10",
            Position::BottomLeft => "10:H-h-10",
            Position::BottomRight => "W-w-10:H-h-10",
            Position::Center => "(W-w)/2:(H-h)/2",
        }
    }
}

} // verus!
