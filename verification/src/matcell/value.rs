//! The text of a cell, held as its grapheme clusters.

use vstd::prelude::*;
use crate::text::{chars_of, concat_chars, string_of, string_views};

verus! {

/// The pieces joined into one text, in order.
pub open spec fn concat_all(ss: Seq<Seq<char>>) -> Seq<char>
    decreases ss.len(),
{
    if ss.len() == 0 {
        seq![]
    } else {
        concat_all(ss.drop_last()) + ss.last()
    }
}

/// The extended grapheme clusters of a text, as
/// `unicode_segmentation::UnicodeSegmentation::graphemes(s, true)` gives
/// them.
pub uninterp spec fn spec_graphemes(s: Seq<char>) -> Seq<Seq<char>>;

/// The pieces of a text cut at its word boundaries, as
/// `unicode_segmentation::UnicodeSegmentation::split_word_bounds` gives
/// them.
pub uninterp spec fn spec_word_bounds(s: Seq<char>) -> Seq<Seq<char>>;

/// `UnicodeSegmentation::graphemes(s, true)`, each cluster made a `String`.
/// Its result is named `spec_graphemes(s@)`; the iterator hands out
/// consecutive non-empty slices of `s` from its start to its end, so the
/// clusters are non-empty and joined give `s` back.
#[verifier::external_body]
pub fn graphemes_of(s: &str) -> (g: Vec<String>)
    ensures
        string_views(g@) == spec_graphemes(s@),
        concat_all(string_views(g@)) == s@,
        forall|i: int| 0 <= i < g.len() ==> #[trigger] g[i]@.len() > 0,
{
    unicode_segmentation::UnicodeSegmentation::graphemes(s, true).map(String::from).collect()
}

/// `UnicodeSegmentation::split_word_bounds(s)`, each piece made a
/// `String`. Its result is named `spec_word_bounds(s@)`; its documentation
/// says the pieces joined are the text again.
#[verifier::external_body]
pub fn word_bounds_of(s: &str) -> (w: Vec<String>)
    ensures
        string_views(w@) == spec_word_bounds(s@),
        concat_all(string_views(w@)) == s@,
{
    unicode_segmentation::UnicodeSegmentation::split_word_bounds(s).map(String::from).collect()
}

/// The strings of `v` from `from` up to `to`, joined into one.
pub fn concat_range(v: &Vec<String>, from: usize, to: usize) -> (s: String)
    requires
        from <= to <= v.len(),
    ensures
        s@ == concat_all(string_views(v@).subrange(from as int, to as int)),
{
    let mut acc: Vec<char> = Vec::new();
    let mut i = from;
    while i < to
        invariant
            from <= i <= to <= v.len(),
            acc@ == concat_all(string_views(v@).subrange(from as int, i as int)),
        decreases to - i,
    {
        let piece = chars_of(v[i].as_str());
        acc = concat_chars(&acc, &piece);
        assert(string_views(v@).subrange(from as int, i + 1).drop_last() =~= string_views(
            v@,
        ).subrange(from as int, i as int));
        i += 1;
    }
    string_of(&acc)
}

/// Whether `c` has the Unicode `White_Space` property, as
/// `char::is_whitespace` documents.
pub open spec fn is_white_space(c: char) -> bool {
    let u = c as u32;
    (0x9 <= u && u <= 0xd) || u == 0x20 || u == 0x85 || u == 0xa0 || u == 0x1680 || (0x2000 <= u
        && u <= 0x200a) || u == 0x2028 || u == 0x2029 || u == 0x202f || u == 0x205f || u == 0x3000
}

/// Whether `c` is a control character (general category `Cc`), as
/// `char::is_control` documents.
pub open spec fn is_control(c: char) -> bool {
    let u = c as u32;
    u < 0x20 || (0x7f <= u && u < 0xa0)
}

/// Whether `c` has the Unicode `White_Space` property.
pub fn white_space(c: char) -> (b: bool)
    ensures
        b == is_white_space(c),
{
    let u = c as u32;
    (0x9 <= u && u <= 0xd) || u == 0x20 || u == 0x85 || u == 0xa0 || u == 0x1680 || (0x2000 <= u
        && u <= 0x200a) || u == 0x2028 || u == 0x2029 || u == 0x202f || u == 0x205f || u == 0x3000
}

/// Whether `c` is a control character.
pub fn control(c: char) -> (b: bool)
    ensures
        b == is_control(c),
{
    let u = c as u32;
    u < 0x20 || (0x7f <= u && u < 0xa0)
}

/// The text is nothing but white space (what `trim_start` would leave
/// empty).
pub open spec fn all_space(w: Seq<char>) -> bool {
    forall|i: int| 0 <= i < w.len() ==> is_white_space(#[trigger] w[i])
}

/// Whether the text is nothing but white space.
fn all_space_exec(w: &String) -> (b: bool)
    ensures
        b == all_space(w@),
{
    let cs = chars_of(w.as_str());
    let mut i: usize = 0;
    while i < cs.len()
        invariant
            cs@ == w@,
            i <= cs.len(),
            forall|j: int| 0 <= j < i ==> is_white_space(#[trigger] cs@[j]),
        decreases cs.len() - i,
    {
        if !white_space(cs[i]) {
            return false;
        }
        i += 1;
    }
    true
}

/// The last of the first `k` pieces that is not all white space.
pub open spec fn last_word(ws: Seq<Seq<char>>, k: int) -> Option<int>
    decreases k,
{
    if k <= 0 {
        None
    } else if !all_space(ws[k - 1]) {
        Some(k - 1)
    } else {
        last_word(ws, k - 1)
    }
}

/// The first piece at or after `j` that is not all white space.
pub open spec fn first_word(ws: Seq<Seq<char>>, j: int) -> Option<int>
    decreases ws.len() - j,
{
    if j < 0 || j >= ws.len() {
        None
    } else if !all_space(ws[j]) {
        Some(j)
    } else {
        first_word(ws, j + 1)
    }
}

/// `a - b`, or 0 when `b` is larger.
pub open spec fn sat_sub(a: int, b: int) -> int {
    if a >= b {
        a - b
    } else {
        0
    }
}

/// The number of grapheme clusters of a text.
pub open spec fn grapheme_count(s: Seq<char>) -> int {
    spec_graphemes(s).len() as int
}

/// Where the word before grapheme `index` starts: the clusters before
/// `index` are cut at word boundaries, and from `index` go back over the
/// last piece that is not all white space and every piece after it, each
/// counted in grapheme clusters. With no such piece, the start.
pub open spec fn previous_start_of_word(v: Seq<Seq<char>>, index: int) -> int {
    let before = concat_all(v.take(if index < v.len() { index } else { v.len() as int }));
    let ws = spec_word_bounds(before);
    match last_word(ws, ws.len() as int) {
        None => 0,
        Some(j) => sat_sub(
            index,
            grapheme_count(ws[j]) + grapheme_count(concat_all(ws.skip(j + 1))),
        ),
    }
}

/// Where the word after grapheme `index` ends: the clusters from `index`
/// on are cut at word boundaries, and from `index` go forward over every
/// piece up to the first that is not all white space, and over that one,
/// each counted in grapheme clusters. With no such piece, the end.
pub open spec fn next_end_of_word(v: Seq<Seq<char>>, index: int) -> int {
    let after = concat_all(v.skip(index));
    let ws = spec_word_bounds(after);
    match first_word(ws, 0) {
        None => v.len() as int,
        Some(j) => {
            let e = index + grapheme_count(ws[j]) + grapheme_count(concat_all(ws.take(j)));
            if e > usize::MAX {
                usize::MAX as int
            } else {
                e
            }
        },
    }
}

/// The end of the next word: the text from `index` on is cut at word
/// boundaries; when some piece is not all white space, the first such
/// piece is the word, the pieces before it are all white space, and the
/// end lies as many clusters after `index` as the white space before the
/// word and the word itself have (at most `usize::MAX`); when every piece
/// is white space, the end is the end of the text.
pub proof fn lemma_next_end_of_word_skips_space_then_word(v: Seq<Seq<char>>, index: int)
    ensures
        ({
            let ws = spec_word_bounds(concat_all(v.skip(index)));
            &&& (forall|p: int| 0 <= p < ws.len() ==> all_space(#[trigger] ws[p]))
                ==> next_end_of_word(v, index) == v.len()
            &&& forall|j: int|
                0 <= j < ws.len() && !all_space(#[trigger] ws[j]) && (forall|p: int|
                    0 <= p < j ==> all_space(#[trigger] ws[p])) ==> next_end_of_word(v, index)
                    == if index + grapheme_count(concat_all(ws.take(j))) + grapheme_count(ws[j])
                    > usize::MAX {
                    usize::MAX as int
                } else {
                    index + grapheme_count(concat_all(ws.take(j))) + grapheme_count(ws[j])
                }
        }),
{
    let ws = spec_word_bounds(concat_all(v.skip(index)));
    lemma_first_word(ws, 0);
}

/// The first piece at or after `j` that is not all white space is one,
/// and all pieces from `j` up to it are white space; with none, all pieces
/// from `j` on are white space.
proof fn lemma_first_word(ws: Seq<Seq<char>>, j: int)
    requires
        0 <= j,
    ensures
        match first_word(ws, j) {
            Some(k) => j <= k < ws.len() && !all_space(ws[k]) && forall|p: int|
                j <= p < k ==> all_space(#[trigger] ws[p]),
            None => forall|p: int| j <= p < ws.len() ==> all_space(#[trigger] ws[p]),
        },
    decreases ws.len() - j,
{
    if j < ws.len() && all_space(ws[j]) {
        lemma_first_word(ws, j + 1);
    }
}

/// The last piece that is not all white space.
pub fn last_word_exec(ws: &Vec<String>) -> (j: Option<usize>)
    ensures
        match j {
            Some(j) => j < ws.len() && last_word(string_views(ws@), ws.len() as int) == Some(j as int),
            None => last_word(string_views(ws@), ws.len() as int) is None,
        },
{
    let ghost wv = string_views(ws@);
    let mut j = ws.len();
    while j > 0
        invariant
            wv == string_views(ws@),
            j <= ws.len(),
            last_word(wv, ws.len() as int) == last_word(wv, j as int),
        decreases j,
    {
        assert(wv[j - 1] == ws[j - 1]@);
        if !all_space_exec(&ws[j - 1]) {
            return Some(j - 1);
        }
        j -= 1;
    }
    None
}

/// The first piece that is not all white space.
pub fn first_word_exec(ws: &Vec<String>) -> (j: Option<usize>)
    ensures
        match j {
            Some(j) => j < ws.len() && first_word(string_views(ws@), 0) == Some(j as int),
            None => first_word(string_views(ws@), 0) is None,
        },
{
    let ghost wv = string_views(ws@);
    let mut j: usize = 0;
    while j < ws.len()
        invariant
            wv == string_views(ws@),
            j <= ws.len(),
            first_word(wv, 0) == first_word(wv, j as int),
        decreases ws.len() - j,
    {
        assert(wv[j as int] == ws[j as int]@);
        if !all_space_exec(&ws[j]) {
            return Some(j);
        }
        j += 1;
    }
    None
}

/// The number of grapheme clusters of a text.
fn grapheme_count_exec(s: &str) -> (n: usize)
    ensures
        n == grapheme_count(s@),
{
    graphemes_of(s).len()
}

/// Where the word before grapheme `index` starts.
pub fn previous_start_of_word_exec(v: &Vec<String>, index: usize) -> (p: usize)
    ensures
        p == previous_start_of_word(string_views(v@), index as int),
{
    let k = if index < v.len() {
        index
    } else {
        v.len()
    };
    let before = concat_range(v, 0, k);
    assert(string_views(v@).subrange(0, k as int) =~= string_views(v@).take(k as int));
    let ws = word_bounds_of(before.as_str());
    let ghost wv = string_views(ws@);
    match last_word_exec(&ws) {
        None => 0,
        Some(j) => {
            let word = grapheme_count_exec(ws[j].as_str());
            let rest = concat_range(&ws, j + 1, ws.len());
            assert(wv.subrange(j + 1, ws.len() as int) =~= wv.skip(j + 1));
            let tail = grapheme_count_exec(rest.as_str());
            assert(wv[j as int] == ws[j as int]@);
            if word <= index && tail <= index - word {
                index - word - tail
            } else {
                0
            }
        },
    }
}

/// Where the word after grapheme `index` ends.
pub fn next_end_of_word_exec(v: &Vec<String>, index: usize) -> (p: usize)
    requires
        index <= v.len(),
    ensures
        p == next_end_of_word(string_views(v@), index as int),
{
    let after = concat_range(v, index, v.len());
    assert(string_views(v@).subrange(index as int, v.len() as int) =~= string_views(v@).skip(
        index as int,
    ));
    let ws = word_bounds_of(after.as_str());
    let ghost wv = string_views(ws@);
    match first_word_exec(&ws) {
        None => v.len(),
        Some(j) => {
            let word = grapheme_count_exec(ws[j].as_str());
            let lead = concat_range(&ws, 0, j);
            assert(wv.subrange(0, j as int) =~= wv.take(j as int));
            let before = grapheme_count_exec(lead.as_str());
            assert(wv[j as int] == ws[j as int]@);
            let e1 = index.saturating_add(word);
            assert(e1 == if index + word > usize::MAX { usize::MAX as int } else { index + word });
            e1.saturating_add(before)
        },
    }
}

} // verus!
