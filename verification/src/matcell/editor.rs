//! Editing a cell's text at its cursor: typing, pasting and erasing.

use vstd::prelude::*;
use crate::matcell::cursor::{end, move_left, move_right_by, selection, start, CursorState};
use crate::matcell::value::{concat_all, concat_range, graphemes_of, spec_graphemes};
use crate::text::{chars_of, concat_chars, string_of, string_views};

verus! {

/// The clusters of `v` from `from` up to `to`, copied.
pub(crate) fn copy_range(v: &Vec<String>, from: usize, to: usize) -> (r: Vec<String>)
    requires
        from <= to <= v.len(),
    ensures
        string_views(r@) == string_views(v@).subrange(from as int, to as int),
{
    let mut r: Vec<String> = Vec::new();
    let mut i = from;
    while i < to
        invariant
            from <= i <= to <= v.len(),
            string_views(r@) == string_views(v@).subrange(from as int, i as int),
        decreases to - i,
    {
        let ghost before = string_views(r@);
        let c = v[i].clone();
        assert(c@ == v@[i as int]@);
        r.push(c);
        assert(string_views(r@) =~= before.push(c@));
        assert(string_views(r@) =~= string_views(v@).subrange(from as int, i + 1));
        i += 1;
    }
    r
}

/// `v` without its clusters from `s` up to `e`.
pub open spec fn without_range(v: Seq<Seq<char>>, s: int, e: int) -> Seq<Seq<char>> {
    v.subrange(0, s) + v.subrange(e, v.len() as int)
}

/// `v` with `content` put in at position `at`.
pub open spec fn with_inserted(v: Seq<Seq<char>>, at: int, content: Seq<Seq<char>>) -> Seq<
    Seq<char>,
> {
    v.subrange(0, at) + content + v.subrange(at, v.len() as int)
}

/// The clusters of the text of `v` with `ch` put in before cluster `at`.
pub open spec fn with_char(v: Seq<Seq<char>>, at: int, ch: char) -> Seq<Seq<char>> {
    spec_graphemes(
        concat_all(v.subrange(0, at)) + seq![ch] + concat_all(v.subrange(at, v.len() as int)),
    )
}

/// The text after `mid` is put in at the cursor, before it is cut into
/// clusters again: a selection is removed first, then `mid` goes in
/// between the text before the cursor and the text after it.
pub open spec fn spliced_text(v: Seq<Seq<char>>, c: CursorState, mid: Seq<char>) -> Seq<char> {
    let n = v.len() as usize;
    let (v1, c1) = match selection(c, n) {
        Some((l, r)) => (without_range(v, l as int, r as int), move_left(c, n)),
        None => (v, c),
    };
    let at = end(c1, v1.len() as usize) as int;
    concat_all(v1.subrange(0, at)) + mid + concat_all(v1.subrange(at, v1.len() as int))
}

/// The text of two runs of clusters, one after the other, is the text of
/// the first followed by the text of the second.
pub proof fn lemma_concat_all_add(a: Seq<Seq<char>>, b: Seq<Seq<char>>)
    ensures
        concat_all(a + b) == concat_all(a) + concat_all(b),
    decreases b.len(),
{
    if b.len() == 0 {
        assert(a + b =~= a);
        assert(concat_all(a) + concat_all(b) =~= concat_all(a));
    } else {
        lemma_concat_all_add(a, b.drop_last());
        assert((a + b).drop_last() =~= a + b.drop_last());
        assert((a + b).last() == b.last());
        assert(concat_all(a + b) =~= concat_all(a) + concat_all(b));
    }
}

/// Typing `ch`: a selection is removed first, the character goes in at
/// the cursor, the text is cut into clusters again, and the cursor moves
/// one cluster right.
pub open spec fn edit_insert(v: Seq<Seq<char>>, c: CursorState, ch: char) -> (
    Seq<Seq<char>>,
    CursorState,
) {
    let n = v.len() as usize;
    let (v1, c1) = match selection(c, n) {
        Some((l, r)) => (without_range(v, l as int, r as int), move_left(c, n)),
        None => (v, c),
    };
    let at = end(c1, v1.len() as usize);
    let v2 = with_char(v1, at as int, ch);
    (v2, move_right_by(c1, v2.len() as usize, 1))
}

/// Typing a character at a plain cursor `i` that makes one more cluster
/// puts the cursor right after it, at `i + 1`, also at the end of the
/// text.
pub proof fn lemma_typing_moves_the_cursor_past_the_character(v: Seq<Seq<char>>, i: usize, ch: char)
    requires
        i <= v.len() < usize::MAX,
        with_char(v, i as int, ch).len() == v.len() + 1,
    ensures
        edit_insert(v, CursorState::Index(i), ch).1 == CursorState::Index((i + 1) as usize),
        edit_insert(v, CursorState::Index(i), ch).0.len() == v.len() + 1,
{
}

/// Pasting `content`: a selection is removed first, the clusters go in at
/// the cursor, and the cursor moves past them.
pub open spec fn edit_paste(v: Seq<Seq<char>>, c: CursorState, content: Seq<Seq<char>>) -> (
    Seq<Seq<char>>,
    CursorState,
) {
    let n = v.len() as usize;
    let (v1, c1) = match selection(c, n) {
        Some((l, r)) => (without_range(v, l as int, r as int), move_left(c, n)),
        None => (v, c),
    };
    let at = end(c1, v1.len() as usize);
    let v2 = with_inserted(v1, at as int, content);
    (v2, move_right_by(c1, v2.len() as usize, content.len() as usize))
}

/// Backspace: a selection is removed; else the cluster before the cursor,
/// if there is one.
pub open spec fn edit_backspace(v: Seq<Seq<char>>, c: CursorState) -> (Seq<Seq<char>>, CursorState) {
    let n = v.len() as usize;
    match selection(c, n) {
        Some((s, e)) => (without_range(v, s as int, e as int), move_left(c, n)),
        None => {
            let st = start(c, n);
            if st > 0 {
                (v.remove(st - 1), move_left(c, n))
            } else {
                (v, c)
            }
        },
    }
}

/// Delete: a selection is removed as Backspace removes it; else the
/// cluster after the cursor, if there is one.
pub open spec fn edit_delete(v: Seq<Seq<char>>, c: CursorState) -> (Seq<Seq<char>>, CursorState) {
    let n = v.len() as usize;
    match selection(c, n) {
        Some(_) => edit_backspace(v, c),
        None => {
            let e = end(c, n);
            if e < n {
                (v.remove(e as int), c)
            } else {
                (v, c)
            }
        },
    }
}

/// `v` without its clusters from `s` up to `e`.
fn remove_range(v: &Vec<String>, s: usize, e: usize) -> (r: Vec<String>)
    requires
        s <= e <= v.len(),
    ensures
        string_views(r@) == without_range(string_views(v@), s as int, e as int),
{
    let mut a = copy_range(v, 0, s);
    let mut b = copy_range(v, e, v.len());
    let ghost av = string_views(a@);
    let ghost bv = string_views(b@);
    a.append(&mut b);
    assert(string_views(a@) =~= av + bv);
    a
}

/// `v` with `content` put in at position `at`.
fn insert_many(v: &Vec<String>, at: usize, content: &Vec<String>) -> (r: Vec<String>)
    requires
        at <= v.len(),
    ensures
        string_views(r@) == with_inserted(string_views(v@), at as int, string_views(content@)),
        concat_all(string_views(r@)) == concat_all(string_views(v@).subrange(0, at as int))
            + concat_all(string_views(content@)) + concat_all(
            string_views(v@).subrange(at as int, v.len() as int),
        ),
{
    let mut a = copy_range(v, 0, at);
    let mut m = copy_range(content, 0, content.len());
    let mut b = copy_range(v, at, v.len());
    assert(string_views(content@).subrange(0, content.len() as int) =~= string_views(content@));
    let ghost av = string_views(a@);
    let ghost mv = string_views(m@);
    let ghost bv = string_views(b@);
    a.append(&mut m);
    a.append(&mut b);
    assert(string_views(a@) =~= av + mv + bv);
    proof {
        lemma_concat_all_add(av, mv);
        lemma_concat_all_add(av + mv, bv);
    }
    a
}

/// The clusters of the text of `v` with `ch` put in before cluster `at`.
fn insert_char(v: &Vec<String>, at: usize, ch: char) -> (r: Vec<String>)
    requires
        at <= v.len(),
    ensures
        string_views(r@) == with_char(string_views(v@), at as int, ch),
        concat_all(string_views(r@)) == concat_all(string_views(v@).subrange(0, at as int))
            + seq![ch] + concat_all(string_views(v@).subrange(at as int, v.len() as int)),
{
    let before = chars_of(concat_range(v, 0, at).as_str());
    let after = chars_of(concat_range(v, at, v.len()).as_str());
    let mut one: Vec<char> = Vec::new();
    one.push(ch);
    let all = concat_chars(&concat_chars(&before, &one), &after);
    let text = string_of(&all);
    assert(one@ =~= seq![ch]);
    graphemes_of(text.as_str())
}

/// `v` without its cluster at `i`.
fn remove_at(v: Vec<String>, i: usize) -> (r: Vec<String>)
    requires
        i < v.len(),
    ensures
        string_views(r@) == string_views(v@).remove(i as int),
{
    let mut v = v;
    let ghost before = string_views(v@);
    v.remove(i);
    assert(string_views(v@) =~= before.remove(i as int));
    v
}

/// Types `ch` at the cursor.
pub fn insert(value: &mut Vec<String>, cursor: &mut CursorState, ch: char)
    ensures
        (string_views(final(value)@), *final(cursor)) == edit_insert(
            string_views(old(value)@),
            *old(cursor),
            ch,
        ),
        concat_all(string_views(final(value)@)) == spliced_text(
            string_views(old(value)@),
            *old(cursor),
            seq![ch],
        ),
{
    let n = value.len();
    let (v1, c1) = match cursor.selection(n) {
        Some((l, r)) => (remove_range(value, l, r), cursor.move_left(n)),
        None => (copy_range(value, 0, n), *cursor),
    };
    assert(string_views(value@).subrange(0, n as int) =~= string_views(value@));
    let at = c1.end(v1.len());
    let v2 = insert_char(&v1, at, ch);
    let c2 = c1.move_right_by(v2.len(), 1);
    *value = v2;
    *cursor = c2;
}

/// Pastes `content` at the cursor.
pub fn paste(value: &mut Vec<String>, cursor: &mut CursorState, content: &Vec<String>)
    ensures
        (string_views(final(value)@), *final(cursor)) == edit_paste(
            string_views(old(value)@),
            *old(cursor),
            string_views(content@),
        ),
        concat_all(string_views(final(value)@)) == spliced_text(
            string_views(old(value)@),
            *old(cursor),
            concat_all(string_views(content@)),
        ),
{
    let n = value.len();
    let (v1, c1) = match cursor.selection(n) {
        Some((l, r)) => (remove_range(value, l, r), cursor.move_left(n)),
        None => (copy_range(value, 0, n), *cursor),
    };
    assert(string_views(value@).subrange(0, n as int) =~= string_views(value@));
    let at = c1.end(v1.len());
    let v2 = insert_many(&v1, at, content);
    let c2 = c1.move_right_by(v2.len(), content.len());
    *value = v2;
    *cursor = c2;
}

/// Erases backwards from the cursor.
pub fn backspace(value: &mut Vec<String>, cursor: &mut CursorState)
    ensures
        (string_views(final(value)@), *final(cursor)) == edit_backspace(
            string_views(old(value)@),
            *old(cursor),
        ),
{
    let n = value.len();
    match cursor.selection(n) {
        Some((s, e)) => {
            let v1 = remove_range(value, s, e);
            let c1 = cursor.move_left(n);
            *value = v1;
            *cursor = c1;
        },
        None => {
            let st = cursor.start(n);
            if st > 0 {
                let c1 = cursor.move_left(n);
                let v0 = copy_range(value, 0, n);
                assert(string_views(value@).subrange(0, n as int) =~= string_views(value@));
                *value = remove_at(v0, st - 1);
                *cursor = c1;
            }
        },
    }
}

/// Erases forwards from the cursor.
pub fn delete(value: &mut Vec<String>, cursor: &mut CursorState)
    ensures
        (string_views(final(value)@), *final(cursor)) == edit_delete(
            string_views(old(value)@),
            *old(cursor),
        ),
{
    let n = value.len();
    match cursor.selection(n) {
        Some(_) => backspace(value, cursor),
        None => {
            let e = cursor.end(n);
            if e < n {
                let v0 = copy_range(value, 0, n);
                assert(string_views(value@).subrange(0, n as int) =~= string_views(value@));
                *value = remove_at(v0, e);
            }
        },
    }
}

} // verus!
