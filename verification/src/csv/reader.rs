//! The CSV reader: doubled quotes in the text stand for one quote; in
//! each line the quoted cells, written `,"` text `",`, are taken out, the
//! rest is cut at its commas, and the quoted cells go back after the plain
//! cells they follow; the cells of all lines make one table, as wide as
//! the first line.

use vstd::prelude::*;
use crate::text::{
    char_views, chars_of, concat_chars, find_from, find_from_exec, has_substring, join, occurs_at,
    lemma_find_from, lemma_replace_absent, lemma_split_nonempty, lemma_split_then_join, lines,
    lines_exec, replace_exec, replace_str, split_exec, split_from, split_str, split_str_exec,
    string_views,
    strings_of, sub_chars,
};

verus! {

/// The file shown when no file is named.
pub const PLACEHOLDER_FILE: &'static str = "./placeholder.csv";

/// The two characters that open a quoted cell: a comma, then a double
/// quote.
pub open spec fn open_quote() -> Seq<char> {
    seq![',', '"']
}

/// The two characters that close a quoted cell: a double quote, then a
/// comma.
pub open spec fn close_quote() -> Seq<char> {
    seq!['"', ',']
}

/// The line with the quoted cell that opens at `s` and closes at `e` cut
/// out and one comma left in its place.
pub open spec fn without_quoted(line: Seq<char>, s: int, e: int) -> Seq<char> {
    line.subrange(0, s) + seq![','] + line.subrange(e + 2, line.len() as int)
}

/// The quoted cells of a line and what is left of it once they are taken
/// out. While the line holds both an opening `,"` and a closing `",`, and
/// the first opening stands before the first closing, the text between
/// them is a quoted cell, and the cell with its quotes and commas gives
/// way to a single comma.
pub open spec fn extract_quoted(line: Seq<char>) -> (Seq<Seq<char>>, Seq<char>)
    decreases line.len(),
{
    match (find_from(line, open_quote(), 0), find_from(line, close_quote(), 0)) {
        (Some(s), Some(e)) => {
            if s + 2 <= e {
                proof {
                    lemma_find_from(line, open_quote(), 0);
                    lemma_find_from(line, close_quote(), 0);
                }
                let rest = extract_quoted(without_quoted(line, s, e));
                (seq![line.subrange(s + 2, e)] + rest.0, rest.1)
            } else {
                (seq![], line)
            }
        },
        _ => (seq![], line),
    }
}

/// The lines that can be cut into cells: each time the line holds both an
/// opening `,"` and a closing `",`, the first opening comes at least two
/// characters before the first closing. On any other line no cell comes
/// out: the closing stands before the opening, or the two overlap as in
/// `,",`.
pub open spec fn line_splittable(line: Seq<char>) -> bool
    decreases line.len(),
{
    match (find_from(line, open_quote(), 0), find_from(line, close_quote(), 0)) {
        (Some(s), Some(e)) => {
            if s + 2 <= e {
                proof {
                    lemma_find_from(line, open_quote(), 0);
                    lemma_find_from(line, close_quote(), 0);
                }
                line_splittable(without_quoted(line, s, e))
            } else {
                false
            }
        },
        _ => true,
    }
}

/// The quoted cells that follow the plain cell `field`: those `q` of
/// `dbl`, in order, for which `field` followed by `,"` and `q` occurs in
/// the line.
pub open spec fn quoted_after(sorter: Seq<char>, field: Seq<char>, dbl: Seq<Seq<char>>) -> Seq<
    Seq<char>,
>
    decreases dbl.len(),
{
    if dbl.len() == 0 {
        seq![]
    } else {
        let front = quoted_after(sorter, field, dbl.drop_last());
        if has_substring(sorter, field + open_quote() + dbl.last()) {
            front.push(dbl.last())
        } else {
            front
        }
    }
}

/// The plain cells `sgl` in order, each followed by the quoted cells that
/// the line shows right after it.
pub open spec fn interleave(sorter: Seq<char>, sgl: Seq<Seq<char>>, dbl: Seq<Seq<char>>) -> Seq<
    Seq<char>,
>
    decreases sgl.len(),
{
    if sgl.len() == 0 {
        seq![]
    } else {
        interleave(sorter, sgl.drop_last(), dbl) + seq![sgl.last()] + quoted_after(
            sorter,
            sgl.last(),
            dbl,
        )
    }
}

/// The cells of a line: the quoted cells are taken out, what is left is
/// cut at every comma, and each quoted cell is put back after every plain
/// cell that the line shows right before it.
pub open spec fn line_fields(line: Seq<char>) -> Seq<Seq<char>> {
    let (dbl, rest) = extract_quoted(line);
    interleave(line, split_str(rest, seq![',']), dbl)
}

/// With no quoted cells, the plain cells are all there is.
proof fn lemma_interleave_no_quoted(sorter: Seq<char>, sgl: Seq<Seq<char>>)
    ensures
        interleave(sorter, sgl, seq![]) == sgl,
    decreases sgl.len(),
{
    if sgl.len() > 0 {
        lemma_interleave_no_quoted(sorter, sgl.drop_last());
        assert(quoted_after(sorter, sgl.last(), seq![]) == Seq::<Seq<char>>::empty());
        assert(sgl.drop_last() + seq![sgl.last()] =~= sgl);
    }
}

/// Each plain cell stays, so there are at least as many cells as plain
/// ones.
proof fn lemma_interleave_len(sorter: Seq<char>, sgl: Seq<Seq<char>>, dbl: Seq<Seq<char>>)
    ensures
        interleave(sorter, sgl, dbl).len() >= sgl.len(),
    decreases sgl.len(),
{
    if sgl.len() > 0 {
        lemma_interleave_len(sorter, sgl.drop_last(), dbl);
    }
}

/// A line that lacks an opening `,"` or lacks a closing `",` is cut at
/// every comma, quotes and all, and joining its cells with commas gives
/// the line back.
pub proof fn lemma_plain_line(line: Seq<char>)
    requires
        !has_substring(line, open_quote()) || !has_substring(line, close_quote()),
    ensures
        line_splittable(line),
        line_fields(line) == split_str(line, seq![',']),
        join(line_fields(line), seq![',']) == line,
{
    assert(extract_quoted(line) == (Seq::<Seq<char>>::empty(), line));
    lemma_interleave_no_quoted(line, split_str(line, seq![',']));
    lemma_split_then_join(line, seq![',']);
}

/// Every line gives at least one cell.
pub proof fn lemma_line_has_a_cell(line: Seq<char>)
    ensures
        line_fields(line).len() >= 1,
{
    let (dbl, rest) = extract_quoted(line);
    lemma_split_nonempty(rest, seq![',']);
    lemma_interleave_len(line, split_str(rest, seq![',']), dbl);
}

/// No comma stands in `x`.
pub open spec fn no_comma(x: Seq<char>) -> bool {
    forall|k: int| 0 <= k < x.len() ==> x[k] != ','
}

/// `x` occurs in `t` at `m` or after.
pub open spec fn occurs_from(t: Seq<char>, x: Seq<char>, m: int) -> bool {
    exists|p: int| m <= p && #[trigger] occurs_at(t, x, p)
}

/// What occurs somewhere is found by a search.
proof fn lemma_occurs_found(t: Seq<char>, x: Seq<char>, p: int)
    requires
        occurs_at(t, x, p),
    ensures
        has_substring(t, x),
{
    lemma_find_from(t, x, 0);
}

/// A comma-free piece of the line with a quoted cell cut out is a piece
/// of the line.
proof fn lemma_piece_of_without(line: Seq<char>, s: int, e: int, x: Seq<char>, i: int)
    requires
        0 <= s,
        s + 2 <= e,
        e + 2 <= line.len(),
        occurs_at(without_quoted(line, s, e), x, i),
        no_comma(x),
    ensures
        occurs_from(line, x, 0),
{
    let c = without_quoted(line, s, e);
    assert(c.subrange(i, i + x.len()) == x);
    if i + x.len() <= s {
        assert(line.subrange(i, i + x.len()) =~= c.subrange(i, i + x.len()));
        assert(occurs_at(line, x, i));
    } else if i <= s {
        assert(c[s] == ',');
        assert(x[s - i] == c.subrange(i, i + x.len())[s - i]);
    } else {
        let q = i - s - 1 + e + 2;
        assert(line.subrange(q, q + x.len()) =~= c.subrange(i, i + x.len()));
        assert(occurs_at(line, x, q));
    }
}

/// Each quoted cell of a line is a piece of it, found two characters
/// after `m` or later when no `,"` opens before `m`.
proof fn lemma_quoted_pieces(t: Seq<char>, m: int)
    requires
        0 <= m,
        forall|j: int| 0 <= j < m ==> !occurs_at(t, open_quote(), j),
    ensures
        forall|k: int|
            0 <= k < extract_quoted(t).0.len() ==> occurs_from(
                t,
                #[trigger] extract_quoted(t).0[k],
                m + 2,
            ),
    decreases t.len(),
{
    lemma_find_from(t, open_quote(), 0);
    lemma_find_from(t, close_quote(), 0);
    if let (Some(s), Some(e)) = (find_from(t, open_quote(), 0), find_from(t, close_quote(), 0)) {
        if s + 2 <= e {
            let t2 = without_quoted(t, s, e);
            assert(s >= m);
            assert forall|j: int| 0 <= j < s implies !occurs_at(t2, open_quote(), j) by {
                if occurs_at(t2, open_quote(), j) {
                    if j + 2 <= s {
                        assert(t2.subrange(j, j + 2) =~= t.subrange(j, j + 2));
                        assert(occurs_at(t, open_quote(), j));
                    } else {
                        assert(t2[s] == ',');
                        assert(t2.subrange(j, j + 2)[1] == t2[s]);
                        assert(open_quote()[1] == '"');
                    }
                }
            }
            lemma_quoted_pieces(t2, s);
            let d = extract_quoted(t).0;
            let d2 = extract_quoted(t2).0;
            assert(d == seq![t.subrange(s + 2, e)] + d2);
            assert forall|k: int| 0 <= k < d.len() implies occurs_from(t, #[trigger] d[k], m + 2) by {
                if k == 0 {
                    assert(t.subrange(s + 2, s + 2 + d[0].len()) =~= d[0]);
                    assert(occurs_at(t, d[0], s + 2));
                } else {
                    let x = d2[k - 1];
                    assert(d[k] == x);
                    assert(occurs_from(t2, d2[k - 1], s + 2));
                    let p = choose|p: int| s + 2 <= p && #[trigger] occurs_at(t2, x, p);
                    let q = p - s - 1 + e + 2;
                    assert(t.subrange(q, q + x.len()) =~= t2.subrange(p, p + x.len()));
                    assert(occurs_at(t, x, q));
                }
            }
        }
    }
}

/// A comma-free piece of what is left once the quoted cells are out is a
/// piece of the line.
proof fn lemma_rest_pieces(t: Seq<char>, x: Seq<char>, i: int)
    requires
        occurs_at(extract_quoted(t).1, x, i),
        no_comma(x),
    ensures
        occurs_from(t, x, 0),
    decreases t.len(),
{
    lemma_find_from(t, open_quote(), 0);
    lemma_find_from(t, close_quote(), 0);
    match (find_from(t, open_quote(), 0), find_from(t, close_quote(), 0)) {
        (Some(s), Some(e)) => {
            if s + 2 <= e {
                let t2 = without_quoted(t, s, e);
                assert(extract_quoted(t).1 == extract_quoted(t2).1);
                lemma_rest_pieces(t2, x, i);
                let p = choose|p: int| 0 <= p && #[trigger] occurs_at(t2, x, p);
                lemma_piece_of_without(t, s, e, x, p);
            } else {
                assert(occurs_at(t, x, i));
            }
        },
        _ => {
            assert(occurs_at(t, x, i));
        },
    }
}

/// The pieces of a text cut at its commas have no comma and are pieces
/// of the text.
proof fn lemma_split_pieces(t: Seq<char>, start: int)
    requires
        0 <= start <= t.len(),
    ensures
        forall|k: int|
            0 <= k < split_from(t, seq![','], start).len() ==> no_comma(
                #[trigger] split_from(t, seq![','], start)[k],
            ) && occurs_from(t, split_from(t, seq![','], start)[k], start),
    decreases t.len() + 1 - start,
{
    let sep = seq![','];
    lemma_find_from(t, sep, start);
    let parts = split_from(t, sep, start);
    match find_from(t, sep, start) {
        Some(c) => {
            lemma_split_pieces(t, c + 1);
            let rest = split_from(t, sep, c + 1);
            assert(parts == seq![t.subrange(start, c)] + rest);
            assert forall|k: int| 0 <= k < parts.len() implies no_comma(#[trigger] parts[k])
                && occurs_from(t, parts[k], start) by {
                if k == 0 {
                    let x = t.subrange(start, c);
                    assert forall|j: int| 0 <= j < x.len() implies x[j] != ',' by {
                        if x[j] == ',' {
                            assert(t.subrange(start + j, start + j + 1) =~= sep);
                            assert(occurs_at(t, sep, start + j));
                        }
                    }
                    assert(t.subrange(start, start + x.len()) =~= x);
                    assert(occurs_at(t, x, start));
                } else {
                    assert(parts[k] == rest[k - 1]);
                    assert(occurs_from(t, rest[k - 1], c + 1));
                }
            }
        },
        None => {
            let x = t.subrange(start, t.len() as int);
            assert(parts == seq![x]);
            assert forall|j: int| 0 <= j < x.len() implies x[j] != ',' by {
                if x[j] == ',' {
                    assert(t.subrange(start + j, start + j + 1) =~= sep);
                    assert(occurs_at(t, sep, start + j));
                }
            }
            assert(t.subrange(start, start + x.len()) =~= x);
            assert(occurs_at(t, x, start));
        },
    }
}

/// What follows a plain cell is among the quoted cells.
proof fn lemma_quoted_after_pieces(sorter: Seq<char>, field: Seq<char>, dbl: Seq<Seq<char>>)
    requires
        forall|j: int| 0 <= j < dbl.len() ==> has_substring(sorter, #[trigger] dbl[j]),
    ensures
        forall|i: int|
            0 <= i < quoted_after(sorter, field, dbl).len() ==> has_substring(
                sorter,
                #[trigger] quoted_after(sorter, field, dbl)[i],
            ),
    decreases dbl.len(),
{
    if dbl.len() > 0 {
        let rest = dbl.drop_last();
        assert forall|j: int| 0 <= j < rest.len() implies has_substring(sorter, #[trigger] rest[j]) by {
            assert(rest[j] == dbl[j]);
        }
        lemma_quoted_after_pieces(sorter, field, rest);
        assert(has_substring(sorter, dbl[dbl.len() - 1]));
        let front = quoted_after(sorter, field, rest);
        let all = quoted_after(sorter, field, dbl);
        assert forall|i: int| 0 <= i < all.len() implies has_substring(sorter, #[trigger] all[i]) by {
            if i < front.len() {
                assert(all[i] == front[i]);
            } else {
                assert(all[i] == dbl.last());
            }
        }
    }
}

/// The cells put together from pieces of the line are pieces of it.
proof fn lemma_interleave_pieces(sorter: Seq<char>, sgl: Seq<Seq<char>>, dbl: Seq<Seq<char>>)
    requires
        forall|j: int| 0 <= j < sgl.len() ==> has_substring(sorter, #[trigger] sgl[j]),
        forall|j: int| 0 <= j < dbl.len() ==> has_substring(sorter, #[trigger] dbl[j]),
    ensures
        forall|i: int|
            0 <= i < interleave(sorter, sgl, dbl).len() ==> has_substring(
                sorter,
                #[trigger] interleave(sorter, sgl, dbl)[i],
            ),
    decreases sgl.len(),
{
    if sgl.len() > 0 {
        let rest = sgl.drop_last();
        assert forall|j: int| 0 <= j < rest.len() implies has_substring(sorter, #[trigger] rest[j]) by {
            assert(rest[j] == sgl[j]);
        }
        lemma_interleave_pieces(sorter, rest, dbl);
        lemma_quoted_after_pieces(sorter, sgl.last(), dbl);
        assert(has_substring(sorter, sgl[sgl.len() - 1]));
        let front = interleave(sorter, sgl.drop_last(), dbl);
        let after = quoted_after(sorter, sgl.last(), dbl);
        let all = interleave(sorter, sgl, dbl);
        assert(all == front + seq![sgl.last()] + after);
        assert forall|i: int| 0 <= i < all.len() implies has_substring(sorter, #[trigger] all[i]) by {
            if i < front.len() {
                assert(all[i] == front[i]);
            } else if i == front.len() {
                assert(all[i] == sgl.last());
            } else {
                assert(all[i] == after[i - front.len() - 1]);
            }
        }
    }
}

/// Every cell of a line is a piece of the line: a quoted cell is the text
/// between its quotes, and a plain cell a stretch between commas.
pub proof fn lemma_cells_are_pieces_of_the_line(line: Seq<char>)
    ensures
        forall|i: int|
            0 <= i < line_fields(line).len() ==> has_substring(line, #[trigger] line_fields(line)[i]),
{
    let (dbl, rest) = extract_quoted(line);
    let sgl = split_str(rest, seq![',']);
    lemma_quoted_pieces(line, 0);
    lemma_split_pieces(rest, 0);
    assert forall|j: int| 0 <= j < dbl.len() implies has_substring(line, #[trigger] dbl[j]) by {
        assert(occurs_from(line, dbl[j], 2));
        let p = choose|p: int| 2 <= p && #[trigger] occurs_at(line, dbl[j], p);
        lemma_occurs_found(line, dbl[j], p);
    }
    assert forall|j: int| 0 <= j < sgl.len() implies has_substring(line, #[trigger] sgl[j]) by {
        assert(occurs_from(rest, sgl[j], 0));
        let p = choose|p: int| 0 <= p && #[trigger] occurs_at(rest, sgl[j], p);
        lemma_rest_pieces(line, sgl[j], p);
        let q = choose|q: int| 0 <= q && #[trigger] occurs_at(line, sgl[j], q);
        lemma_occurs_found(line, sgl[j], q);
    }
    lemma_interleave_pieces(line, sgl, dbl);
}

/// The cells that follow a plain cell are all among the quoted cells.
proof fn lemma_quoted_after_members(sorter: Seq<char>, field: Seq<char>, dbl: Seq<Seq<char>>)
    ensures
        forall|p: int|
            0 <= p < quoted_after(sorter, field, dbl).len() ==> dbl.contains(
                #[trigger] quoted_after(sorter, field, dbl)[p],
            ),
    decreases dbl.len(),
{
    if dbl.len() > 0 {
        let rest = dbl.drop_last();
        lemma_quoted_after_members(sorter, field, rest);
        let front = quoted_after(sorter, field, rest);
        let qa = quoted_after(sorter, field, dbl);
        assert forall|p: int| 0 <= p < qa.len() implies dbl.contains(#[trigger] qa[p]) by {
            if p < front.len() {
                assert(qa[p] == front[p]);
                assert(rest.contains(front[p]));
                let w = choose|w: int| 0 <= w < rest.len() && rest[w] == front[p];
                assert(dbl[w] == qa[p]);
            } else {
                assert(qa[p] == dbl[dbl.len() - 1]);
            }
        }
    }
}

/// Only quoted cells that the line shows right after the plain cell
/// follow it: for each, the plain cell, `,"` and that quoted cell occur in
/// the line.
pub proof fn lemma_quoted_after_only_what_the_line_shows(
    sorter: Seq<char>,
    field: Seq<char>,
    dbl: Seq<Seq<char>>,
)
    ensures
        forall|p: int|
            0 <= p < quoted_after(sorter, field, dbl).len() ==> has_substring(
                sorter,
                field + open_quote() + #[trigger] quoted_after(sorter, field, dbl)[p],
            ),
    decreases dbl.len(),
{
    if dbl.len() > 0 {
        let rest = dbl.drop_last();
        lemma_quoted_after_only_what_the_line_shows(sorter, field, rest);
        let front = quoted_after(sorter, field, rest);
        let qa = quoted_after(sorter, field, dbl);
        assert forall|p: int| 0 <= p < qa.len() implies has_substring(
            sorter,
            field + open_quote() + #[trigger] qa[p],
        ) by {
            if p < front.len() {
                assert(qa[p] == front[p]);
            } else {
                assert(qa[p] == dbl.last());
            }
        }
    }
}

/// A quoted cell that the line shows right after a plain cell is among
/// the cells that follow that plain cell.
proof fn lemma_quoted_after_finds(
    sorter: Seq<char>,
    field: Seq<char>,
    dbl: Seq<Seq<char>>,
    k: int,
)
    requires
        0 <= k < dbl.len(),
        has_substring(sorter, field + open_quote() + dbl[k]),
    ensures
        quoted_after(sorter, field, dbl).contains(dbl[k]),
    decreases dbl.len(),
{
    let rest = dbl.drop_last();
    let front = quoted_after(sorter, field, rest);
    let qa = quoted_after(sorter, field, dbl);
    if k == dbl.len() - 1 {
        assert(qa == front.push(dbl[k]));
        assert(qa[qa.len() - 1] == dbl[k]);
    } else {
        assert(rest[k] == dbl[k]);
        lemma_quoted_after_finds(sorter, field, rest, k);
        let w = choose|w: int| 0 <= w < front.len() && front[w] == dbl[k];
        assert(qa[w] == front[w]);
    }
}

/// A quoted cell that the line shows right after the plain cell `sgl[j]`
/// comes after that plain cell, with only quoted cells between them.
proof fn lemma_interleave_follows(
    sorter: Seq<char>,
    sgl: Seq<Seq<char>>,
    dbl: Seq<Seq<char>>,
    j: int,
    k: int,
)
    requires
        0 <= j < sgl.len(),
        0 <= k < dbl.len(),
        has_substring(sorter, sgl[j] + open_quote() + dbl[k]),
    ensures
        exists|i: int, m: int|
            #![trigger interleave(sorter, sgl, dbl)[i], interleave(sorter, sgl, dbl)[m]]
            0 <= i < m < interleave(sorter, sgl, dbl).len() && interleave(sorter, sgl, dbl)[i]
                == sgl[j] && interleave(sorter, sgl, dbl)[m] == dbl[k] && forall|t: int|
                i < t <= m ==> dbl.contains(#[trigger] interleave(sorter, sgl, dbl)[t]),
    decreases sgl.len(),
{
    let rest = sgl.drop_last();
    let front = interleave(sorter, rest, dbl);
    let qa = quoted_after(sorter, sgl.last(), dbl);
    let all = interleave(sorter, sgl, dbl);
    assert(all == front + seq![sgl.last()] + qa);
    if j < sgl.len() - 1 {
        assert(rest[j] == sgl[j]);
        lemma_interleave_follows(sorter, rest, dbl, j, k);
        let (i, m) = choose|i: int, m: int|
            #![trigger front[i], front[m]]
            0 <= i < m < front.len() && front[i] == sgl[j] && front[m] == dbl[k] && forall|t: int|
                i < t <= m ==> dbl.contains(#[trigger] front[t]);
        assert(all[i] == front[i]);
        assert(all[m] == front[m]);
        assert forall|t: int| i < t <= m implies dbl.contains(#[trigger] all[t]) by {
            assert(all[t] == front[t]);
        }
    } else {
        lemma_quoted_after_finds(sorter, sgl.last(), dbl, k);
        lemma_quoted_after_members(sorter, sgl.last(), dbl);
        let p = choose|p: int| 0 <= p < qa.len() && qa[p] == dbl[k];
        let i = front.len() as int;
        let m = i + 1 + p;
        assert(all[i] == sgl[j]);
        assert(all[m] == qa[p]);
        assert forall|t: int| i < t <= m implies dbl.contains(#[trigger] all[t]) by {
            assert(all[t] == qa[t - i - 1]);
        }
    }
}

/// Each quoted cell goes back after every plain cell that the line shows
/// followed by `,"` and that quoted cell, empty plain cells included:
/// among the cells of the line, the plain cell comes first and the quoted
/// cell after it, with only quoted cells between them.
pub proof fn lemma_quoted_cell_follows_its_plain_cell(line: Seq<char>, j: int, k: int)
    requires
        0 <= j < split_str(extract_quoted(line).1, seq![',']).len(),
        0 <= k < extract_quoted(line).0.len(),
        has_substring(
            line,
            split_str(extract_quoted(line).1, seq![','])[j] + open_quote() + extract_quoted(
                line,
            ).0[k],
        ),
    ensures
        exists|i: int, m: int|
            #![trigger line_fields(line)[i], line_fields(line)[m]]
            0 <= i < m < line_fields(line).len() && line_fields(line)[i] == split_str(
                extract_quoted(line).1,
                seq![','],
            )[j] && line_fields(line)[m] == extract_quoted(line).0[k] && forall|t: int|
                i < t <= m ==> extract_quoted(line).0.contains(#[trigger] line_fields(line)[t]),
{
    let sgl = split_str(extract_quoted(line).1, seq![',']);
    let dbl = extract_quoted(line).0;
    let all = interleave(line, sgl, dbl);
    assert(line_fields(line) == all);
    lemma_interleave_follows(line, sgl, dbl, j, k);
    let (i, m) = choose|i: int, m: int|
        #![trigger all[i], all[m]]
        0 <= i < m < all.len() && all[i] == sgl[j] && all[m] == dbl[k] && forall|t: int|
            i < t <= m ==> dbl.contains(#[trigger] all[t]);
    assert(line_fields(line)[i] == sgl[j]);
    assert(line_fields(line)[m] == dbl[k]);
    assert forall|t: int| i < t <= m implies dbl.contains(#[trigger] line_fields(line)[t]) by {
        assert(all[t] == line_fields(line)[t]);
    }
}

/// The quoted cells of a line and what is left of it, or nothing when the
/// line cannot be cut.
fn extract_quoted_exec(line: &Vec<char>) -> (r: Option<(Vec<Vec<char>>, Vec<char>)>)
    ensures
        r is Some <==> line_splittable(line@),
        r matches Some(p) ==> (char_views(p.0@), p.1@) == extract_quoted(line@),
{
    let open = vec![',', '"'];
    let close = vec!['"', ','];
    let mut cur = sub_chars(line, 0, line.len());
    let mut dbl: Vec<Vec<char>> = Vec::new();
    assert(line@.subrange(0, line@.len() as int) =~= line@);
    assert(char_views(dbl@) + extract_quoted(cur@).0 =~= extract_quoted(cur@).0);
    loop
        invariant
            open@ == open_quote(),
            close@ == close_quote(),
            line_splittable(line@) == line_splittable(cur@),
            extract_quoted(line@) == (
            char_views(dbl@) + extract_quoted(cur@).0,
            extract_quoted(cur@).1,
            ),
        decreases cur.len(),
    {
        proof {
            lemma_find_from(cur@, open@, 0);
            lemma_find_from(cur@, close@, 0);
        }
        let s = find_from_exec(&cur, &open, 0);
        let e = find_from_exec(&cur, &close, 0);
        match (s, e) {
            (Some(s), Some(e)) => {
                if s + 2 <= e {
                    let quoted = sub_chars(&cur, s + 2, e);
                    let head = sub_chars(&cur, 0, s);
                    let tail = sub_chars(&cur, e + 2, cur.len());
                    let comma = vec![','];
                    let next = concat_chars(&concat_chars(&head, &comma), &tail);
                    assert(next@ =~= without_quoted(cur@, s as int, e as int));
                    let ghost before = char_views(dbl@);
                    dbl.push(quoted);
                    assert(char_views(dbl@) =~= before.push(quoted@));
                    assert(char_views(dbl@) + extract_quoted(next@).0 =~= before + extract_quoted(
                        cur@,
                    ).0);
                    cur = next;
                } else {
                    return None;
                }
            },
            _ => {
                assert(char_views(dbl@) =~= char_views(dbl@) + extract_quoted(cur@).0);
                return Some((dbl, cur));
            },
        }
    }
}

/// A copy of a character vector.
fn copy_chars(v: &Vec<char>) -> (r: Vec<char>)
    ensures
        r@ == v@,
{
    let r = sub_chars(v, 0, v.len());
    assert(v@.subrange(0, v@.len() as int) =~= v@);
    r
}

/// The cells of a line, or nothing when the line cannot be cut.
fn fields_of(line: &Vec<char>) -> (r: Option<Vec<Vec<char>>>)
    ensures
        r is Some <==> line_splittable(line@),
        r matches Some(f) ==> char_views(f@) == line_fields(line@),
{
    let (dbl, rest) = match extract_quoted_exec(line) {
        Some(p) => p,
        None => {
            return None;
        },
    };
    let open = vec![',', '"'];
    let comma = vec![','];
    let sgl = split_exec(&rest, &comma);
    let ghost sgl_v = char_views(sgl@);
    let ghost dbl_v = char_views(dbl@);
    assert(comma@ =~= seq![',']);
    assert(sgl_v == split_str(extract_quoted(line@).1, seq![',']));
    assert(dbl_v == extract_quoted(line@).0);
    let mut all: Vec<Vec<char>> = Vec::new();
    let mut i: usize = 0;
    while i < sgl.len()
        invariant
            open@ == open_quote(),
            sgl_v == char_views(sgl@),
            dbl_v == char_views(dbl@),
            i <= sgl.len(),
            char_views(all@) == interleave(line@, sgl_v.take(i as int), dbl_v),
        decreases sgl.len() - i,
    {
        let ghost done = char_views(all@);
        let field = &sgl[i];
        all.push(copy_chars(field));
        assert(char_views(all@) =~= done + seq![field@]);
        let prefix = concat_chars(field, &open);
        let mut j: usize = 0;
        while j < dbl.len()
            invariant
                open@ == open_quote(),
                sgl_v == char_views(sgl@),
                dbl_v == char_views(dbl@),
                i < sgl.len(),
                field@ == sgl_v[i as int],
                prefix@ == field@ + open_quote(),
                j <= dbl.len(),
                char_views(all@) == done + seq![field@] + quoted_after(
                    line@,
                    field@,
                    dbl_v.take(j as int),
                ),
            decreases dbl.len() - j,
        {
            let pat = concat_chars(&prefix, &dbl[j]);
            let ghost front = char_views(all@);
            assert(dbl_v.take(j + 1).drop_last() =~= dbl_v.take(j as int));
            assert(dbl_v.take(j + 1).last() == dbl@[j as int]@);
            if find_from_exec(line, &pat, 0).is_some() {
                all.push(copy_chars(&dbl[j]));
                assert(char_views(all@) =~= front.push(dbl@[j as int]@));
            }
            j += 1;
        }
        assert(dbl_v.take(dbl.len() as int) =~= dbl_v);
        assert(sgl_v.take(i + 1).drop_last() =~= sgl_v.take(i as int));
        assert(sgl_v.take(i + 1).last() == sgl_v[i as int]);
        i += 1;
    }
    assert(sgl_v.take(sgl.len() as int) =~= sgl_v);
    Some(all)
}

/// The cells of one line of CSV text.
///
/// The quoted cells, each written as `,"` then its text then `",`, are
/// taken out of the line first and a comma left in the place of each;
/// what remains is cut at every comma, quotes kept; then each quoted cell
/// is put back right after every plain cell that the line shows followed
/// by `,"` and that quoted cell. The line must be one that can be cut.
pub fn break_line_and_sort(line: String) -> (cells: Vec<String>)
    requires
        line_splittable(line@),
    ensures
        string_views(cells@) == line_fields(line@),
{
    let chars = chars_of(line.as_str());
    match fields_of(&chars) {
        Some(cells) => strings_of(&cells),
        None => Vec::new(),
    }
}

/// The cells of all the lines, line after line.
pub open spec fn table_cells(ls: Seq<Seq<char>>) -> Seq<Seq<char>>
    decreases ls.len(),
{
    if ls.len() == 0 {
        seq![]
    } else {
        table_cells(ls.drop_last()) + line_fields(ls.last())
    }
}

/// The cells of the lines begin with the cells of the first line.
proof fn lemma_table_cells_first(ls: Seq<Seq<char>>)
    requires
        ls.len() > 0,
    ensures
        table_cells(ls).len() >= line_fields(ls[0]).len(),
        table_cells(ls).take(line_fields(ls[0]).len() as int) == line_fields(ls[0]),
    decreases ls.len(),
{
    let first = line_fields(ls[0]);
    if ls.len() == 1 {
        assert(ls.drop_last() =~= Seq::<Seq<char>>::empty());
        assert(table_cells(ls.drop_last()) == Seq::<Seq<char>>::empty());
        assert(ls.last() == ls[0]);
        assert(table_cells(ls) =~= first);
        assert(first.take(first.len() as int) =~= first);
    } else {
        lemma_table_cells_first(ls.drop_last());
        assert(ls.drop_last()[0] == ls[0]);
        let front = table_cells(ls.drop_last());
        assert((front + line_fields(ls.last())).take(first.len() as int) =~= front.take(
            first.len() as int,
        ));
    }
}

/// The text has a first line, and each of its lines can be cut into
/// cells.
pub open spec fn buffer_readable(buffer: Seq<char>) -> bool {
    &&& lines(buffer).len() > 0
    &&& forall|i: int| 0 <= i < lines(buffer).len() ==> line_splittable(#[trigger] lines(buffer)[i])
}

/// The table of a text: as many columns as the first line has cells, and
/// the cells of all lines in reading order.
pub open spec fn buffer_table(buffer: Seq<char>) -> (nat, Seq<Seq<char>>) {
    (line_fields(lines(buffer)[0]).len(), table_cells(lines(buffer)))
}

/// The first row of the table is the first line: its first `cols` cells
/// are the cells of that line.
pub proof fn lemma_first_row_is_first_line(buffer: Seq<char>)
    requires
        lines(buffer).len() > 0,
    ensures
        buffer_table(buffer).1.len() >= buffer_table(buffer).0,
        buffer_table(buffer).1.take(buffer_table(buffer).0 as int) == line_fields(lines(buffer)[0]),
{
    lemma_table_cells_first(lines(buffer));
}

/// The table of a text with at least one line, or nothing when one of
/// its lines cannot be cut.
fn table_of(buffer: &Vec<char>) -> (r: Option<(usize, Vec<Vec<char>>)>)
    requires
        lines(buffer@).len() > 0,
    ensures
        r is Some <==> buffer_readable(buffer@),
        r matches Some(t) ==> t.0 == buffer_table(buffer@).0 && char_views(t.1@) == buffer_table(
            buffer@,
        ).1,
{
    let ls = lines_exec(buffer);
    let ghost ls_v = char_views(ls@);
    let mut cols: usize = 0;
    let mut tab: Vec<Vec<char>> = Vec::new();
    let mut i: usize = 0;
    while i < ls.len()
        invariant
            ls_v == char_views(ls@),
            ls_v == lines(buffer@),
            ls.len() > 0,
            i <= ls.len(),
            char_views(tab@) == table_cells(ls_v.take(i as int)),
            i > 0 ==> cols == line_fields(ls_v[0]).len(),
            forall|k: int| 0 <= k < i ==> line_splittable(#[trigger] ls_v[k]),
        decreases ls.len() - i,
    {
        assert(ls_v[i as int] == ls@[i as int]@);
        let mut f = match fields_of(&ls[i]) {
            Some(f) => f,
            None => {
                return None;
            },
        };
        if i == 0 {
            cols = f.len();
        }
        let ghost before = char_views(tab@);
        let ghost added = char_views(f@);
        tab.append(&mut f);
        assert(char_views(tab@) =~= before + added);
        assert(ls_v.take(i + 1).drop_last() =~= ls_v.take(i as int));
        i += 1;
    }
    assert(ls_v.take(ls.len() as int) =~= ls_v);
    Some((cols, tab))
}

/// Reads CSV text into a table: the number of columns, which is the
/// number of cells of the first line, and the cells of all the lines, row
/// after row.
pub fn read_buffer_to_table(buffer: String) -> (table: (usize, Vec<String>))
    requires
        buffer_readable(buffer@),
    ensures
        table.0 == buffer_table(buffer@).0,
        string_views(table.1@) == buffer_table(buffer@).1,
{
    let chars = chars_of(buffer.as_str());
    match table_of(&chars) {
        Some((cols, cells)) => (cols, strings_of(&cells)),
        None => (0, Vec::new()),
    }
}

/// The text of a CSV file as it is read: every doubled quote `""`, taken
/// from the left without overlap, stands for one `"`.
pub open spec fn unescape_quotes(contents: Seq<char>) -> Seq<char> {
    replace_str(contents, seq!['"', '"'], seq!['"'])
}

/// Contents without a doubled quote are read as they are.
pub proof fn lemma_no_doubled_quotes(contents: Seq<char>)
    requires
        !has_substring(contents, seq!['"', '"']),
    ensures
        unescape_quotes(contents) == contents,
{
    lemma_replace_absent(contents, seq!['"', '"'], seq!['"']);
}

/// The contents of a CSV file with each doubled quote made one.
fn unescaped(contents: &str) -> (r: Vec<char>)
    ensures
        r@ == unescape_quotes(contents@),
{
    let chars = chars_of(contents);
    let dq = vec!['"', '"'];
    let q = vec!['"'];
    let r = replace_exec(&chars, &dq, &q);
    assert(dq@ =~= seq!['"', '"']);
    assert(q@ =~= seq!['"']);
    r
}

/// The table of the contents of a CSV file: each doubled quote `""` is
/// made one `"`, then the text is read as `read_buffer_to_table` reads
/// it.
pub fn full_read(contents: &str) -> (table: (usize, Vec<String>))
    requires
        buffer_readable(unescape_quotes(contents@)),
    ensures
        table.0 == buffer_table(unescape_quotes(contents@)).0,
        string_views(table.1@) == buffer_table(unescape_quotes(contents@)).1,
{
    let chars = unescaped(contents);
    match table_of(&chars) {
        Some((cols, cells)) => (cols, strings_of(&cells)),
        None => (0, Vec::new()),
    }
}

/// The table of the contents of a CSV file, as `full_read` gives it, or
/// nothing when the text has no first line or a line that cannot be cut.
pub fn try_full_read(contents: &str) -> (table: Option<(usize, Vec<String>)>)
    ensures
        table is Some <==> buffer_readable(unescape_quotes(contents@)),
        table matches Some(t) ==> t.0 == buffer_table(unescape_quotes(contents@)).0 && string_views(
            t.1@,
        ) == buffer_table(unescape_quotes(contents@)).1,
{
    let chars = unescaped(contents);
    let ls = lines_exec(&chars);
    if ls.len() == 0 {
        return None;
    }
    match table_of(&chars) {
        Some((cols, cells)) => Some((cols, strings_of(&cells))),
        None => None,
    }
}

/// Every piece of `pieces` split at `p`, all in one sequence.
pub open spec fn split_each(pieces: Seq<Seq<char>>, p: Seq<char>) -> Seq<Seq<char>>
    decreases pieces.len(),
{
    if pieces.len() == 0 {
        seq![]
    } else {
        split_each(pieces.drop_last(), p) + split_str(pieces.last(), p)
    }
}

/// `s` split at the first separator, then every piece split at the next
/// one, and so on through the separators.
pub open spec fn split_all(s: Seq<char>, seps: Seq<Seq<char>>) -> Seq<Seq<char>>
    decreases seps.len(),
{
    if seps.len() <= 1 {
        split_str(s, seps[0])
    } else {
        split_each(split_all(s, seps.drop_last()), seps.last())
    }
}

/// The views of a sequence of string slices.
pub open spec fn str_views(v: Seq<&str>) -> Seq<Seq<char>> {
    v.map_values(|x: &str| x@)
}

/// Every piece of `pieces` split at `p`, all in one vector.
fn split_each_exec(pieces: &Vec<Vec<char>>, p: &Vec<char>) -> (r: Vec<Vec<char>>)
    ensures
        char_views(r@) == split_each(char_views(pieces@), p@),
{
    let mut r: Vec<Vec<char>> = Vec::new();
    let mut i: usize = 0;
    while i < pieces.len()
        invariant
            i <= pieces.len(),
            char_views(r@) == split_each(char_views(pieces@).take(i as int), p@),
        decreases pieces.len() - i,
    {
        let mut parts = split_str_exec(&pieces[i], p);
        let ghost before = char_views(r@);
        let ghost added = char_views(parts@);
        r.append(&mut parts);
        assert(char_views(r@) =~= before + added);
        assert(char_views(pieces@).take(i + 1).drop_last() =~= char_views(pieces@).take(i as int));
        i += 1;
    }
    assert(char_views(pieces@).take(pieces.len() as int) =~= char_views(pieces@));
    r
}

/// `s` split at each separator in turn: first at `args[0]`, then every
/// piece at `args[1]`, and so on.
pub fn multi_split(s: &str, args: Vec<&str>) -> (pieces: Vec<String>)
    requires
        args.len() > 0,
    ensures
        string_views(pieces@) == split_all(s@, str_views(args@)),
{
    let chars = chars_of(s);
    let first = chars_of(args[0]);
    let mut v = split_str_exec(&chars, &first);
    let ghost seps = str_views(args@);
    assert(seps.take(1) =~= seq![seps[0]]);
    let mut k: usize = 1;
    while k < args.len()
        invariant
            seps == str_views(args@),
            1 <= k <= args.len(),
            char_views(v@) == split_all(s@, seps.take(k as int)),
        decreases args.len() - k,
    {
        let sep = chars_of(args[k]);
        v = split_each_exec(&v, &sep);
        assert(seps.take(k + 1).drop_last() =~= seps.take(k as int));
        k += 1;
    }
    assert(seps.take(args.len() as int) =~= seps);
    strings_of(&v)
}

} // verus!
