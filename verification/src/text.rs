//! Text as sequences of characters: searching for a pattern, splitting at
//! a separator, joining, replacing and breaking into lines.

use vstd::prelude::*;

verus! {

/// `p` occurs in `s` at position `i`.
pub open spec fn occurs_at(s: Seq<char>, p: Seq<char>, i: int) -> bool {
    0 <= i && i + p.len() <= s.len() && s.subrange(i, i + p.len()) == p
}

/// The first position at or after `i` where `p` occurs in `s`.
pub open spec fn find_from(s: Seq<char>, p: Seq<char>, i: int) -> Option<int>
    decreases s.len() + 1 - i,
{
    if i < 0 || i + p.len() > s.len() {
        None
    } else if occurs_at(s, p, i) {
        Some(i)
    } else {
        find_from(s, p, i + 1)
    }
}

/// `p` occurs somewhere in `s`.
pub open spec fn has_substring(s: Seq<char>, p: Seq<char>) -> bool {
    find_from(s, p, 0) is Some
}

/// What a search from `i` finds: the earliest occurrence at or after `i`,
/// or nothing when there is none.
pub proof fn lemma_find_from(s: Seq<char>, p: Seq<char>, i: int)
    requires
        0 <= i,
    ensures
        match find_from(s, p, i) {
            Some(k) => i <= k && occurs_at(s, p, k) && forall|j: int|
                i <= j < k ==> !occurs_at(s, p, j),
            None => forall|j: int| i <= j ==> !occurs_at(s, p, j),
        },
    decreases s.len() + 1 - i,
{
    if i + p.len() > s.len() {
    } else if occurs_at(s, p, i) {
    } else {
        lemma_find_from(s, p, i + 1);
    }
}

/// Whether `p` occurs in `s` at position `i`.
fn occurs_at_exec(s: &Vec<char>, p: &Vec<char>, i: usize) -> (b: bool)
    requires
        i + p.len() <= s.len(),
    ensures
        b == occurs_at(s@, p@, i as int),
{
    let mut k: usize = 0;
    while k < p.len()
        invariant
            k <= p.len(),
            i + p.len() <= s.len(),
            forall|j: int| 0 <= j < k ==> s@[i + j] == p@[j],
        decreases p.len() - k,
    {
        if s[i + k] != p[k] {
            assert(s@.subrange(i as int, i + p.len())[k as int] != p@[k as int]);
            return false;
        }
        k += 1;
    }
    assert(s@.subrange(i as int, i + p.len()) =~= p@);
    true
}

/// The first position at or after `start` where `p` occurs in `s`.
pub fn find_from_exec(s: &Vec<char>, p: &Vec<char>, start: usize) -> (r: Option<usize>)
    ensures
        match r {
            Some(k) => find_from(s@, p@, start as int) == Some(k as int),
            None => find_from(s@, p@, start as int) is None,
        },
{
    if p.len() > s.len() || start > s.len() - p.len() {
        return None;
    }
    if p.len() == 0 {
        assert(s@.subrange(start as int, start as int) =~= p@);
        return Some(start);
    }
    let mut i = start;
    while i <= s.len() - p.len()
        invariant
            1 <= p.len() <= s.len(),
            start <= i,
            i <= s.len() - p.len() + 1,
            find_from(s@, p@, start as int) == find_from(s@, p@, i as int),
        decreases s.len() - i,
    {
        if occurs_at_exec(s, p, i) {
            return Some(i);
        }
        i += 1;
    }
    None
}


/// The views of a sequence of character vectors.
pub open spec fn char_views(v: Seq<Vec<char>>) -> Seq<Seq<char>> {
    v.map_values(|x: Vec<char>| x@)
}

/// The views of a sequence of strings.
pub open spec fn string_views(v: Seq<String>) -> Seq<Seq<char>> {
    v.map_values(|x: String| x@)
}

/// The pieces of `s` from `start` on, cut at each occurrence of the
/// non-empty pattern `p`, taken from the left without overlap.
pub open spec fn split_from(s: Seq<char>, p: Seq<char>, start: int) -> Seq<Seq<char>>
    decreases s.len() + 1 - start,
{
    if p.len() == 0 || start < 0 || start > s.len() {
        seq![]
    } else {
        match find_from(s, p, start) {
            Some(k) => {
                proof {
                    lemma_find_from(s, p, start);
                }
                seq![s.subrange(start, k)] + split_from(s, p, k + p.len())
            },
            None => seq![s.subrange(start, s.len() as int)],
        }
    }
}

/// The pieces of `s` between the matches of `p`, as `str::split` gives
/// them: an empty pattern matches at every character boundary, the
/// beginning and the end included.
pub open spec fn split_str(s: Seq<char>, p: Seq<char>) -> Seq<Seq<char>> {
    if p.len() == 0 {
        seq![Seq::<char>::empty()] + s.map_values(|c: char| seq![c]) + seq![Seq::<char>::empty()]
    } else {
        split_from(s, p, 0)
    }
}

/// The pieces joined into one sequence, with `sep` between neighbours.
pub open spec fn join(parts: Seq<Seq<char>>, sep: Seq<char>) -> Seq<char>
    decreases parts.len(),
{
    if parts.len() == 0 {
        seq![]
    } else if parts.len() == 1 {
        parts[0]
    } else {
        parts[0] + sep + join(parts.drop_first(), sep)
    }
}

/// A line without the carriage return that ends it, if it has one.
pub open spec fn strip_cr(t: Seq<char>) -> Seq<char> {
    if t.len() > 0 && t.last() == '\r' {
        t.drop_last()
    } else {
        t
    }
}

/// The lines of `s` from `start` on, as `str::lines` gives them: split at
/// `\n` or `\r\n`; a last line ending is optional and yields no empty line.
pub open spec fn lines_from(s: Seq<char>, start: int) -> Seq<Seq<char>>
    decreases s.len() - start,
{
    if start < 0 || start >= s.len() {
        seq![]
    } else {
        match find_from(s, seq!['\n'], start) {
            Some(k) => {
                proof {
                    lemma_find_from(s, seq!['\n'], start);
                }
                seq![strip_cr(s.subrange(start, k))] + lines_from(s, k + 1)
            },
            None => seq![s.subrange(start, s.len() as int)],
        }
    }
}

/// The lines of `s`.
pub open spec fn lines(s: Seq<char>) -> Seq<Seq<char>> {
    lines_from(s, 0)
}

/// A split from a position inside the text yields at least one piece.
pub proof fn lemma_split_from_nonempty(s: Seq<char>, p: Seq<char>, start: int)
    requires
        p.len() > 0,
        0 <= start <= s.len(),
    ensures
        split_from(s, p, start).len() >= 1,
{
}

/// A split always yields at least one piece.
pub proof fn lemma_split_nonempty(s: Seq<char>, p: Seq<char>)
    ensures
        split_str(s, p).len() >= 1,
{
    if p.len() > 0 {
        lemma_split_from_nonempty(s, p, 0);
    }
}

/// The pieces of a split from `start`, joined with the pattern, give back
/// the text from `start` on.
proof fn lemma_join_split_from(s: Seq<char>, p: Seq<char>, start: int)
    requires
        p.len() > 0,
        0 <= start <= s.len(),
    ensures
        join(split_from(s, p, start), p) == s.subrange(start, s.len() as int),
    decreases s.len() + 1 - start,
{
    lemma_find_from(s, p, start);
    match find_from(s, p, start) {
        Some(k) => {
            let a = s.subrange(start, k);
            let rest = split_from(s, p, k + p.len());
            lemma_join_split_from(s, p, k + p.len());
            lemma_split_from_nonempty(s, p, k + p.len());
            assert(split_from(s, p, start) == seq![a] + rest);
            assert((seq![a] + rest).drop_first() =~= rest);
            assert((seq![a] + rest)[0] == a);
            assert(s.subrange(start, s.len() as int) =~= a + p + s.subrange(
                k + p.len(),
                s.len() as int,
            ));
        },
        None => {},
    }
}

/// Joining the pieces of `s` cut at the empty pattern, with nothing
/// between them, gives back the first `k` characters and the leading
/// empty piece.
proof fn lemma_join_singles(s: Seq<char>, k: int)
    requires
        0 <= k <= s.len(),
    ensures
        join(seq![Seq::<char>::empty()] + s.map_values(|c: char| seq![c]).take(k), Seq::<char>::empty())
            == s.take(k),
    decreases k,
{
    let singles = s.map_values(|c: char| seq![c]);
    if k == 0 {
        assert(seq![Seq::<char>::empty()] + singles.take(0) =~= seq![Seq::<char>::empty()]);
        assert(s.take(0) =~= Seq::<char>::empty());
    } else {
        lemma_join_singles(s, k - 1);
        let prev = seq![Seq::<char>::empty()] + singles.take(k - 1);
        assert(seq![Seq::<char>::empty()] + singles.take(k) =~= prev.push(seq![s[k - 1]]));
        lemma_join_push(prev, Seq::<char>::empty(), seq![s[k - 1]]);
        assert(s.take(k) =~= s.take(k - 1) + Seq::<char>::empty() + seq![s[k - 1]]);
    }
}

/// Split, then join with the same pattern: the text comes back whole.
pub proof fn lemma_split_then_join(s: Seq<char>, p: Seq<char>)
    ensures
        join(split_str(s, p), p) == s,
{
    if p.len() == 0 {
        let singles = s.map_values(|c: char| seq![c]);
        let front = seq![Seq::<char>::empty()] + singles;
        lemma_join_singles(s, s.len() as int);
        assert(singles.take(s.len() as int) =~= singles);
        assert(s.take(s.len() as int) =~= s);
        assert(split_str(s, p) =~= front.push(Seq::<char>::empty()));
        lemma_join_push(front, p, Seq::<char>::empty());
        assert(s + p + Seq::<char>::empty() =~= s);
    } else {
        lemma_join_split_from(s, p, 0);
        assert(s.subrange(0, s.len() as int) =~= s);
    }
}

/// No line of the text from `start` on holds a line feed.
proof fn lemma_lines_from_no_newline(s: Seq<char>, start: int)
    ensures
        forall|i: int, j: int|
            #![trigger lines_from(s, start)[i][j]]
            0 <= i < lines_from(s, start).len() && 0 <= j < lines_from(s, start)[i].len()
                ==> lines_from(s, start)[i][j] != '\n',
    decreases s.len() - start,
{
    if start < 0 || start >= s.len() {
    } else {
        lemma_find_from(s, seq!['\n'], start);
        match find_from(s, seq!['\n'], start) {
            Some(k) => {
                lemma_lines_from_no_newline(s, k + 1);
                let piece = s.subrange(start, k);
                assert forall|j: int| 0 <= j < piece.len() implies piece[j] != '\n' by {
                    if piece[j] == '\n' {
                        assert(s.subrange(start + j, start + j + 1) =~= seq!['\n']);
                        assert(occurs_at(s, seq!['\n'], start + j));
                    }
                }
                let ls = lines_from(s, start);
                assert(ls == seq![strip_cr(piece)] + lines_from(s, k + 1));
                assert forall|i: int, j: int|
                    0 <= i < ls.len() && 0 <= j < ls[i].len() implies ls[i][j] != '\n' by {
                    if i == 0 {
                        assert(ls[0] == strip_cr(piece));
                        assert(strip_cr(piece)[j] == piece[j]);
                    } else {
                        assert(ls[i] == lines_from(s, k + 1)[i - 1]);
                    }
                }
            },
            None => {
                let piece = s.subrange(start, s.len() as int);
                assert forall|j: int| 0 <= j < piece.len() implies piece[j] != '\n' by {
                    if piece[j] == '\n' {
                        assert(s.subrange(start + j, start + j + 1) =~= seq!['\n']);
                        assert(occurs_at(s, seq!['\n'], start + j));
                    }
                }
            },
        }
    }
}

/// No line holds a line feed.
pub proof fn lemma_lines_have_no_newline(s: Seq<char>)
    ensures
        forall|i: int, j: int|
            #![trigger lines(s)[i][j]]
            0 <= i < lines(s).len() && 0 <= j < lines(s)[i].len() ==> lines(s)[i][j] != '\n',
{
    lemma_lines_from_no_newline(s, 0);
}

/// Without carriage returns, the lines from `start` on joined with line
/// feeds give back the text from `start` on, less a final line feed.
proof fn lemma_lines_from_join(s: Seq<char>, start: int)
    requires
        0 <= start < s.len(),
        forall|i: int| 0 <= i < s.len() ==> s[i] != '\r',
    ensures
        lines_from(s, start).len() >= 1,
        join(lines_from(s, start), seq!['\n']) == if s.last() == '\n' {
            s.subrange(start, s.len() - 1)
        } else {
            s.subrange(start, s.len() as int)
        },
    decreases s.len() - start,
{
    lemma_find_from(s, seq!['\n'], start);
    match find_from(s, seq!['\n'], start) {
        Some(k) => {
            let piece = s.subrange(start, k);
            assert(s.subrange(k, k + 1) == seq!['\n']);
            assert(s[k] == s.subrange(k, k + 1)[0]);
            assert(piece.len() > 0 ==> piece.last() == s[k - 1]);
            assert(strip_cr(piece) == piece);
            if k + 1 == s.len() {
                assert(lines_from(s, k + 1) == Seq::<Seq<char>>::empty());
                assert(lines_from(s, start) =~= seq![piece]);
            } else {
                lemma_lines_from_join(s, k + 1);
                let rest = lines_from(s, k + 1);
                assert(lines_from(s, start) == seq![piece] + rest);
                assert((seq![piece] + rest).drop_first() =~= rest);
                assert((seq![piece] + rest)[0] == piece);
                if s.last() == '\n' {
                    assert(s.subrange(start, s.len() - 1) =~= piece + seq!['\n'] + s.subrange(
                        k + 1,
                        s.len() - 1,
                    ));
                } else {
                    assert(s.subrange(start, s.len() as int) =~= piece + seq!['\n'] + s.subrange(
                        k + 1,
                        s.len() as int,
                    ));
                }
            }
        },
        None => {
            if s.last() == '\n' {
                assert(s.subrange(s.len() - 1, s.len() as int) =~= seq!['\n']);
                assert(occurs_at(s, seq!['\n'], s.len() - 1));
            }
        },
    }
}

/// A text without carriage returns, cut into lines and joined again with
/// line feeds, comes back whole but for a final line feed.
pub proof fn lemma_lines_then_join(s: Seq<char>)
    requires
        forall|i: int| 0 <= i < s.len() ==> s[i] != '\r',
    ensures
        join(lines(s), seq!['\n']) == if s.len() > 0 && s.last() == '\n' {
            s.drop_last()
        } else {
            s
        },
{
    if s.len() > 0 {
        lemma_lines_from_join(s, 0);
        assert(s.subrange(0, s.len() - 1) =~= s.drop_last());
        assert(s.subrange(0, s.len() as int) =~= s);
    } else {
        assert(lines(s) == Seq::<Seq<char>>::empty());
        assert(s =~= Seq::<char>::empty());
    }
}

/// The characters of `s` from `from` up to `to`.
pub fn sub_chars(s: &Vec<char>, from: usize, to: usize) -> (r: Vec<char>)
    requires
        from <= to <= s.len(),
    ensures
        r@ == s@.subrange(from as int, to as int),
{
    let mut r: Vec<char> = Vec::new();
    let mut i = from;
    while i < to
        invariant
            from <= i <= to <= s.len(),
            r@ == s@.subrange(from as int, i as int),
        decreases to - i,
    {
        r.push(s[i]);
        assert(r@ =~= s@.subrange(from as int, i + 1));
        i += 1;
    }
    r
}

/// `a` followed by `b`.
pub fn concat_chars(a: &Vec<char>, b: &Vec<char>) -> (r: Vec<char>)
    ensures
        r@ == a@ + b@,
{
    let mut r = sub_chars(a, 0, a.len());
    let mut i: usize = 0;
    while i < b.len()
        invariant
            i <= b.len(),
            r@ == a@ + b@.subrange(0, i as int),
        decreases b.len() - i,
    {
        r.push(b[i]);
        assert(r@ =~= a@ + b@.subrange(0, i + 1));
        i += 1;
    }
    assert(b@.subrange(0, b.len() as int) =~= b@);
    r
}

/// The pieces of `s` cut at each match of the non-empty pattern `p`.
pub fn split_exec(s: &Vec<char>, p: &Vec<char>) -> (parts: Vec<Vec<char>>)
    requires
        p.len() > 0,
    ensures
        char_views(parts@) == split_str(s@, p@),
{
    let mut parts: Vec<Vec<char>> = Vec::new();
    let mut start: usize = 0;
    loop
        invariant
            p.len() > 0,
            start <= s.len(),
            char_views(parts@) + split_from(s@, p@, start as int) == split_from(s@, p@, 0),
        decreases s.len() + 1 - start,
    {
        proof {
            lemma_find_from(s@, p@, start as int);
        }
        match find_from_exec(s, p, start) {
            Some(k) => {
                let piece = sub_chars(s, start, k);
                let ghost before = char_views(parts@);
                parts.push(piece);
                assert(char_views(parts@) =~= before.push(piece@));
                assert(char_views(parts@) + split_from(s@, p@, k + p.len()) =~= before
                    + split_from(s@, p@, start as int));
                start = k + p.len();
            },
            None => {
                let piece = sub_chars(s, start, s.len());
                let ghost before = char_views(parts@);
                parts.push(piece);
                assert(char_views(parts@) =~= before.push(piece@));
                assert(char_views(parts@) =~= before + split_from(s@, p@, start as int));
                return parts;
            },
        }
    }
}


/// Joining one more piece appends the separator and that piece.
pub proof fn lemma_join_push(parts: Seq<Seq<char>>, sep: Seq<char>, x: Seq<char>)
    ensures
        join(parts.push(x), sep) == if parts.len() == 0 {
            x
        } else {
            join(parts, sep) + sep + x
        },
    decreases parts.len(),
{
    if parts.len() == 0 {
        assert(parts.push(x).len() == 1);
        assert(parts.push(x)[0] == x);
    } else if parts.len() == 1 {
        assert(parts.push(x).drop_first() =~= seq![x]);
        assert(join(seq![x], sep) == x);
        assert(parts.push(x)[0] == parts[0]);
    } else {
        assert(parts.push(x).drop_first() =~= parts.drop_first().push(x));
        lemma_join_push(parts.drop_first(), sep, x);
        assert(join(parts.push(x), sep) =~= join(parts, sep) + sep + x);
    }
}

/// The pieces joined with `sep` between neighbours.
pub fn join_exec(parts: &Vec<Vec<char>>, sep: &Vec<char>) -> (r: Vec<char>)
    ensures
        r@ == join(char_views(parts@), sep@),
{
    let mut r: Vec<char> = Vec::new();
    let mut i: usize = 0;
    while i < parts.len()
        invariant
            i <= parts.len(),
            r@ == join(char_views(parts@).take(i as int), sep@),
        decreases parts.len() - i,
    {
        proof {
            lemma_join_push(char_views(parts@).take(i as int), sep@, parts@[i as int]@);
            assert(char_views(parts@).take(i + 1) =~= char_views(parts@).take(i as int).push(
                parts@[i as int]@,
            ));
        }
        if i > 0 {
            r = concat_chars(&r, sep);
        }
        r = concat_chars(&r, &parts[i]);
        i += 1;
    }
    assert(char_views(parts@).take(parts.len() as int) =~= char_views(parts@));
    r
}

/// A line without the carriage return that ends it, if it has one.
pub fn strip_cr_exec(t: Vec<char>) -> (r: Vec<char>)
    ensures
        r@ == strip_cr(t@),
{
    let mut t = t;
    if t.len() > 0 && t[t.len() - 1] == '\r' {
        let ghost before = t@;
        t.pop();
        assert(t@ =~= before.drop_last());
    }
    t
}

/// The lines of `s`.
pub fn lines_exec(s: &Vec<char>) -> (ls: Vec<Vec<char>>)
    ensures
        char_views(ls@) == lines(s@),
{
    let newline = vec!['\n'];
    let mut ls: Vec<Vec<char>> = Vec::new();
    let mut start: usize = 0;
    while start < s.len()
        invariant
            newline@ == seq!['\n'],
            start <= s.len(),
            char_views(ls@) + lines_from(s@, start as int) == lines(s@),
        decreases s.len() - start,
    {
        proof {
            lemma_find_from(s@, newline@, start as int);
        }
        match find_from_exec(s, &newline, start) {
            Some(k) => {
                let line = strip_cr_exec(sub_chars(s, start, k));
                let ghost before = char_views(ls@);
                ls.push(line);
                assert(char_views(ls@) =~= before.push(line@));
                assert(char_views(ls@) + lines_from(s@, k + 1) =~= before + lines_from(
                    s@,
                    start as int,
                ));
                start = k + 1;
            },
            None => {
                let line = sub_chars(s, start, s.len());
                let ghost before = char_views(ls@);
                ls.push(line);
                assert(char_views(ls@) =~= before.push(line@));
                assert(char_views(ls@) =~= before + lines_from(s@, start as int));
                return ls;
            },
        }
    }
    assert(char_views(ls@) =~= char_views(ls@) + lines_from(s@, start as int));
    ls
}


/// The characters of `s`, in order.
pub fn chars_of(s: &str) -> (v: Vec<char>)
    ensures
        v@ == s@,
{
    broadcast use vstd::string::group_string_axioms;

    let mut v: Vec<char> = Vec::new();
    for c in it: s.chars()
        invariant
            v@ == it.seq().take(it.index() as int),
            it.seq() == s@,
    {
        v.push(c);
    }
    v
}

/// `String::push`: appends the character at the end of the string.
#[verifier::external_body]
pub(crate) fn push_char(s: &mut String, c: char)
    ensures
        final(s)@ == old(s)@.push(c),
{
    s.push(c);
}

/// The string made of the characters of `v`.
pub fn string_of(v: &Vec<char>) -> (s: String)
    ensures
        s@ == v@,
{
    let mut s = String::new();
    let mut i: usize = 0;
    while i < v.len()
        invariant
            i <= v.len(),
            s@ == v@.take(i as int),
        decreases v.len() - i,
    {
        push_char(&mut s, v[i]);
        assert(s@ =~= v@.take(i + 1));
        i += 1;
    }
    assert(v@.take(v.len() as int) =~= v@);
    s
}


/// The pieces of `s` between the matches of `p`, as `str::split` gives
/// them, for any pattern.
pub fn split_str_exec(s: &Vec<char>, p: &Vec<char>) -> (parts: Vec<Vec<char>>)
    ensures
        char_views(parts@) == split_str(s@, p@),
{
    if p.len() > 0 {
        return split_exec(s, p);
    }
    let mut parts: Vec<Vec<char>> = Vec::new();
    parts.push(Vec::new());
    let ghost singles = s@.map_values(|c: char| seq![c]);
    let mut i: usize = 0;
    while i < s.len()
        invariant
            i <= s.len(),
            singles == s@.map_values(|c: char| seq![c]),
            char_views(parts@) == seq![Seq::<char>::empty()] + singles.take(i as int),
        decreases s.len() - i,
    {
        let ghost before = char_views(parts@);
        let mut one: Vec<char> = Vec::new();
        one.push(s[i]);
        parts.push(one);
        assert(char_views(parts@) =~= before.push(seq![s@[i as int]]));
        assert(singles.take(i + 1) =~= singles.take(i as int).push(seq![s@[i as int]]));
        i += 1;
    }
    let ghost before = char_views(parts@);
    parts.push(Vec::new());
    assert(char_views(parts@) =~= before.push(Seq::<char>::empty()));
    assert(singles.take(s.len() as int) =~= singles);
    assert(char_views(parts@) =~= split_str(s@, p@));
    parts
}

/// The strings made of each character vector, in order.
pub fn strings_of(v: &Vec<Vec<char>>) -> (r: Vec<String>)
    ensures
        string_views(r@) == char_views(v@),
{
    let mut r: Vec<String> = Vec::new();
    let mut i: usize = 0;
    while i < v.len()
        invariant
            i <= v.len(),
            string_views(r@) == char_views(v@).take(i as int),
        decreases v.len() - i,
    {
        let ghost before = string_views(r@);
        r.push(string_of(&v[i]));
        assert(string_views(r@) =~= before.push(v@[i as int]@));
        assert(char_views(v@).take(i + 1) =~= char_views(v@).take(i as int).push(v@[i as int]@));
        i += 1;
    }
    assert(char_views(v@).take(v.len() as int) =~= char_views(v@));
    r
}


/// `s` with every match of `p`, taken from the left without overlap,
/// replaced by `r`, as `str::replace` does it.
pub open spec fn replace_str(s: Seq<char>, p: Seq<char>, r: Seq<char>) -> Seq<char> {
    join(split_str(s, p), r)
}

/// Text in which the non-empty pattern does not occur is left as it is by
/// a replacement of that pattern.
pub proof fn lemma_replace_absent(s: Seq<char>, p: Seq<char>, r: Seq<char>)
    requires
        p.len() > 0,
        !has_substring(s, p),
    ensures
        replace_str(s, p, r) == s,
{
    lemma_find_from(s, p, 0);
    assert(split_str(s, p) == seq![s.subrange(0, s.len() as int)]);
    assert(s.subrange(0, s.len() as int) =~= s);
}

/// `s` with every match of `p` replaced by `r`.
pub fn replace_exec(s: &Vec<char>, p: &Vec<char>, r: &Vec<char>) -> (t: Vec<char>)
    ensures
        t@ == replace_str(s@, p@, r@),
{
    let parts = split_str_exec(s, p);
    join_exec(&parts, r)
}

} // verus!
