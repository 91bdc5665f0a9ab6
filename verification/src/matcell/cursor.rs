//! The cursor of a cell: a position between grapheme clusters, or a
//! selection from one position to another.

use vstd::prelude::*;
use crate::matcell::value::{
    next_end_of_word, next_end_of_word_exec, previous_start_of_word, previous_start_of_word_exec,
};
use crate::text::string_views;

verus! {

/// Where the cursor stands.
#[derive(Clone, Copy, Debug, PartialEq, Eq, Structural)]
pub enum CursorState {
    /// A cursor before the cluster at this position.
    Index(usize),
    /// A selection from `start` to `end`; `end` is where the cursor moves.
    Selection { start: usize, end: usize },
}

/// The smaller of two positions.
pub open spec fn min_u(a: usize, b: usize) -> usize {
    if a < b {
        a
    } else {
        b
    }
}

/// The larger of two positions.
pub open spec fn max_u(a: usize, b: usize) -> usize {
    if a < b {
        b
    } else {
        a
    }
}

/// The cursor for a text of `n` clusters: positions past the end are
/// taken to the end, and an empty selection is a plain cursor.
pub open spec fn norm(c: CursorState, n: usize) -> CursorState {
    match c {
        CursorState::Index(i) => CursorState::Index(min_u(i, n)),
        CursorState::Selection { start, end } => {
            let s = min_u(start, n);
            let e = min_u(end, n);
            if s == e {
                CursorState::Index(s)
            } else {
                CursorState::Selection { start: s, end: e }
            }
        },
    }
}

/// The selected range, smaller position first, if there is one.
pub open spec fn selection(c: CursorState, n: usize) -> Option<(usize, usize)> {
    match norm(c, n) {
        CursorState::Selection { start, end } => Some((min_u(start, end), max_u(start, end))),
        _ => None,
    }
}

/// A selection from `start` to `end`, or a plain cursor when they meet.
pub open spec fn select_range(start: usize, end: usize) -> CursorState {
    if start == end {
        CursorState::Index(start)
    } else {
        CursorState::Selection { start, end }
    }
}

/// Where the cursor, or its selection, starts.
pub open spec fn start(c: CursorState, n: usize) -> usize {
    match c {
        CursorState::Index(i) => min_u(i, n),
        CursorState::Selection { start, .. } => min_u(start, n),
    }
}

/// Where the cursor, or its selection, ends.
pub open spec fn end(c: CursorState, n: usize) -> usize {
    match c {
        CursorState::Index(i) => min_u(i, n),
        CursorState::Selection { end, .. } => min_u(end, n),
    }
}

/// The left edge of the cursor.
pub open spec fn left(c: CursorState, n: usize) -> usize {
    match norm(c, n) {
        CursorState::Index(i) => i,
        CursorState::Selection { start, end } => min_u(start, end),
    }
}

/// The right edge of the cursor.
pub open spec fn right(c: CursorState, n: usize) -> usize {
    match norm(c, n) {
        CursorState::Index(i) => i,
        CursorState::Selection { start, end } => max_u(start, end),
    }
}

/// The cursor moved right by `amount`, but not past the end; a selection
/// collapses to its right edge.
pub open spec fn move_right_by(c: CursorState, n: usize, amount: usize) -> CursorState {
    match norm(c, n) {
        CursorState::Index(i) => CursorState::Index(
            if i + amount < n {
                (i + amount) as usize
            } else {
                n
            },
        ),
        CursorState::Selection { start, end } => CursorState::Index(max_u(end, start)),
    }
}

/// The cursor moved one place left, but not past the start; a selection
/// collapses to its left edge.
pub open spec fn move_left(c: CursorState, n: usize) -> CursorState {
    match norm(c, n) {
        CursorState::Index(i) => if i > 0 {
            CursorState::Index((i - 1) as usize)
        } else {
            CursorState::Index(0)
        },
        CursorState::Selection { start, end } => CursorState::Index(min_u(start, end)),
    }
}

/// The selection grown one place to the left, where there is room.
pub open spec fn select_left(c: CursorState, n: usize) -> CursorState {
    match norm(c, n) {
        CursorState::Index(i) => if i > 0 {
            select_range(i, (i - 1) as usize)
        } else {
            c
        },
        CursorState::Selection { start, end } => if end > 0 {
            select_range(start, (end - 1) as usize)
        } else {
            c
        },
    }
}

/// The selection grown one place to the right, where there is room.
pub open spec fn select_right(c: CursorState, n: usize) -> CursorState {
    match norm(c, n) {
        CursorState::Index(i) => if i < n {
            select_range(i, (i + 1) as usize)
        } else {
            c
        },
        CursorState::Selection { start, end } => if end < n {
            select_range(start, (end + 1) as usize)
        } else {
            c
        },
    }
}

/// The selection grown left to the start of the previous word.
pub open spec fn select_left_by_words(c: CursorState, v: Seq<Seq<char>>) -> CursorState {
    match norm(c, v.len() as usize) {
        CursorState::Index(i) => select_range(i, previous_start_of_word(v, i as int) as usize),
        CursorState::Selection { start, end } => select_range(
            start,
            previous_start_of_word(v, end as int) as usize,
        ),
    }
}

/// The selection grown right to the end of the next word.
pub open spec fn select_right_by_words(c: CursorState, v: Seq<Seq<char>>) -> CursorState {
    match norm(c, v.len() as usize) {
        CursorState::Index(i) => select_range(i, next_end_of_word(v, i as int) as usize),
        CursorState::Selection { start, end } => select_range(
            start,
            next_end_of_word(v, end as int) as usize,
        ),
    }
}

/// The cursor moved to the start of the previous word.
pub open spec fn move_left_by_words(c: CursorState, v: Seq<Seq<char>>) -> CursorState {
    CursorState::Index(
        previous_start_of_word(v, left(c, v.len() as usize) as int) as usize,
    )
}

/// The cursor moved to the end of the next word.
pub open spec fn move_right_by_words(c: CursorState, v: Seq<Seq<char>>) -> CursorState {
    CursorState::Index(next_end_of_word(v, right(c, v.len() as usize) as int) as usize)
}

/// Growing the selection to the right keeps its anchor where it is and
/// moves its other end one place right, unless that end is already at the
/// end of the text.
pub proof fn lemma_select_right_keeps_the_anchor(c: CursorState, n: usize)
    ensures
        start(select_right(c, n), n) == start(c, n),
        end(select_right(c, n), n) == if end(c, n) < n {
            end(c, n) + 1
        } else {
            end(c, n) as int
        },
{
}

/// Growing the selection to the left keeps its anchor where it is and
/// moves its other end one place left, unless that end is already at the
/// start of the text.
pub proof fn lemma_select_left_keeps_the_anchor(c: CursorState, n: usize)
    ensures
        start(select_left(c, n), n) == start(c, n),
        end(select_left(c, n), n) == if end(c, n) > 0 {
            end(c, n) - 1
        } else {
            0
        },
{
}

/// Everything selected.
pub open spec fn select_all(n: usize) -> CursorState {
    select_range(0, n)
}

fn min_exec(a: usize, b: usize) -> (r: usize)
    ensures
        r == min_u(a, b),
{
    if a < b {
        a
    } else {
        b
    }
}

fn max_exec(a: usize, b: usize) -> (r: usize)
    ensures
        r == max_u(a, b),
{
    if a < b {
        b
    } else {
        a
    }
}

impl CursorState {
    /// The cursor for a text of `n` clusters.
    pub fn norm(self, n: usize) -> (r: CursorState)
        ensures
            r == norm(self, n),
    {
        match self {
            CursorState::Index(i) => CursorState::Index(min_exec(i, n)),
            CursorState::Selection { start, end } => {
                let s = min_exec(start, n);
                let e = min_exec(end, n);
                if s == e {
                    CursorState::Index(s)
                } else {
                    CursorState::Selection { start: s, end: e }
                }
            },
        }
    }

    /// The selected range, smaller position first, if there is one.
    pub fn selection(self, n: usize) -> (r: Option<(usize, usize)>)
        ensures
            r == selection(self, n),
    {
        match self.norm(n) {
            CursorState::Selection { start, end } => Some((min_exec(start, end), max_exec(start, end))),
            _ => None,
        }
    }

    /// A selection from `start` to `end`, or a plain cursor when they meet.
    pub fn select_range(start: usize, end: usize) -> (r: CursorState)
        ensures
            r == select_range(start, end),
    {
        if start == end {
            CursorState::Index(start)
        } else {
            CursorState::Selection { start, end }
        }
    }

    /// Where the cursor, or its selection, starts.
    pub fn start(self, n: usize) -> (r: usize)
        ensures
            r == start(self, n),
    {
        match self {
            CursorState::Index(i) => min_exec(i, n),
            CursorState::Selection { start, .. } => min_exec(start, n),
        }
    }

    /// Where the cursor, or its selection, ends.
    pub fn end(self, n: usize) -> (r: usize)
        ensures
            r == end(self, n),
    {
        match self {
            CursorState::Index(i) => min_exec(i, n),
            CursorState::Selection { end, .. } => min_exec(end, n),
        }
    }

    /// The cursor moved right by `amount`, but not past the end.
    pub fn move_right_by(self, n: usize, amount: usize) -> (r: CursorState)
        ensures
            r == move_right_by(self, n, amount),
    {
        match self.norm(n) {
            CursorState::Index(i) => CursorState::Index(min_exec(i.saturating_add(amount), n)),
            CursorState::Selection { start, end } => CursorState::Index(max_exec(end, start)),
        }
    }

    /// The cursor moved one place left, but not past the start.
    pub fn move_left(self, n: usize) -> (r: CursorState)
        ensures
            r == move_left(self, n),
    {
        match self.norm(n) {
            CursorState::Index(i) => if i > 0 {
                CursorState::Index(i - 1)
            } else {
                CursorState::Index(0)
            },
            CursorState::Selection { start, end } => CursorState::Index(min_exec(start, end)),
        }
    }

    /// The selection grown one place to the left.
    pub fn select_left(self, n: usize) -> (r: CursorState)
        ensures
            r == select_left(self, n),
    {
        match self.norm(n) {
            CursorState::Index(i) => if i > 0 {
                CursorState::select_range(i, i - 1)
            } else {
                self
            },
            CursorState::Selection { start, end } => if end > 0 {
                CursorState::select_range(start, end - 1)
            } else {
                self
            },
        }
    }

    /// The selection grown one place to the right.
    pub fn select_right(self, n: usize) -> (r: CursorState)
        ensures
            r == select_right(self, n),
    {
        match self.norm(n) {
            CursorState::Index(i) => if i < n {
                CursorState::select_range(i, i + 1)
            } else {
                self
            },
            CursorState::Selection { start, end } => if end < n {
                CursorState::select_range(start, end + 1)
            } else {
                self
            },
        }
    }

    /// The selection grown left to the start of the previous word.
    pub fn select_left_by_words(self, v: &Vec<String>) -> (r: CursorState)
        ensures
            r == select_left_by_words(self, string_views(v@)),
    {
        match self.norm(v.len()) {
            CursorState::Index(i) => CursorState::select_range(i, previous_start_of_word_exec(v, i)),
            CursorState::Selection { start, end } => CursorState::select_range(
                start,
                previous_start_of_word_exec(v, end),
            ),
        }
    }

    /// The selection grown right to the end of the next word.
    pub fn select_right_by_words(self, v: &Vec<String>) -> (r: CursorState)
        ensures
            r == select_right_by_words(self, string_views(v@)),
    {
        match self.norm(v.len()) {
            CursorState::Index(i) => CursorState::select_range(i, next_end_of_word_exec(v, i)),
            CursorState::Selection { start, end } => CursorState::select_range(
                start,
                next_end_of_word_exec(v, end),
            ),
        }
    }

    /// The cursor moved to the start of the previous word.
    pub fn move_left_by_words(self, v: &Vec<String>) -> (r: CursorState)
        ensures
            r == move_left_by_words(self, string_views(v@)),
    {
        let l = match self.norm(v.len()) {
            CursorState::Index(i) => i,
            CursorState::Selection { start, end } => min_exec(start, end),
        };
        CursorState::Index(previous_start_of_word_exec(v, l))
    }

    /// The cursor moved to the end of the next word.
    pub fn move_right_by_words(self, v: &Vec<String>) -> (r: CursorState)
        ensures
            r == move_right_by_words(self, string_views(v@)),
    {
        let r = match self.norm(v.len()) {
            CursorState::Index(i) => i,
            CursorState::Selection { start, end } => max_exec(start, end),
        };
        CursorState::Index(next_end_of_word_exec(v, r))
    }
}

} // verus!
