//! Line classification for the lexer: each kind of line the grammar
//! distinguishes has a specification function over character sequences
//! and an executable classifier proved against it.

use vstd::prelude::*;

use crate::org::chars::{
    all_space, back_run_len, char_in, char_is, first_ix, has_prefix, is_letter, is_space, last_ix,
    lemma_back_run_len_bounds, lemma_back_run_len_is, lemma_first_ix_bounds, lemma_first_ix_is,
    lemma_run_len_bounds, lower_char, lower_seq, run_len, scan_back, scan_run, trim, trim_end,
    trim_start, CharKind,
};
use crate::org::lex::{TokenKind, TokenKindV};
use crate::org::strings::{chars_of, lower_range, string_of, string_range, vec_range};

verus! {

/// A line that is entirely whitespace.
pub open spec fn is_blank(l: Seq<char>) -> bool {
    all_space(l)
}

pub fn blank_x(l: &Vec<char>) -> (r: bool)
    ensures
        r == is_blank(l@),
{
    let n = scan_run(l, 0, CharKind::Space);
    proof {
        lemma_run_len_bounds(l@, 0, CharKind::Space);
    }
    n == l.len()
}

/// The value part of a `NAME: value` line: the rest of the line after
/// the colon with leading whitespace skipped, except that a rest made
/// only of whitespace yields its final character.
pub open spec fn value_after_colon(rest: Seq<char>) -> Seq<char> {
    if rest.len() == 0 {
        Seq::empty()
    } else {
        let k = run_len(rest, 0, CharKind::Space);
        if k >= rest.len() {
            rest.skip(rest.len() - 1)
        } else {
            rest.skip(k)
        }
    }
}

fn value_after_colon_x(l: &Vec<char>, from: usize) -> (r: String)
    requires
        from <= l@.len(),
    ensures
        r@ == value_after_colon(l@.skip(from as int)),
{
    let ghost rest = l@.skip(from as int);
    if from == l.len() {
        proof {
            assert(rest.len() == 0);
        }
        return String::new();
    }
    let k = scan_run(l, from, CharKind::Space);
    proof {
        lemma_run_len_bounds(l@, from as int, CharKind::Space);
        crate::org::lines::lemma_run_len_skip(l@, from as int, CharKind::Space);
    }
    if from + k == l.len() {
        let r = string_range(l, l.len() - 1, l.len());
        proof {
            assert(rest.skip(rest.len() - 1) =~= l@.subrange(l@.len() - 1, l@.len() as int));
        }
        r
    } else {
        let r = string_range(l, from + k, l.len());
        proof {
            assert(rest.skip(k as int) =~= l@.subrange(from + k, l@.len() as int));
        }
        r
    }
}

/// A run within a suffix equals the run at the translated position.
pub proof fn lemma_run_len_skip(l: Seq<char>, from: int, k: CharKind)
    requires
        0 <= from <= l.len(),
    ensures
        run_len(l.skip(from), 0, k) == run_len(l, from, k),
{
    lemma_run_len_bounds(l, from, k);
    let n = run_len(l, from, k);
    let s = l.skip(from);
    assert forall|m: int| 0 <= m < n implies char_in(k, s[m]) by {
        assert(s[m] == l[from + m]);
    }
    if from + n < l.len() {
        assert(s[n] == l[from + n]);
    }
    lemma_run_len_is(s, 0, n, k);
}

pub proof fn lemma_run_len_is(l: Seq<char>, i: int, j: int, k: CharKind)
    requires
        0 <= i <= j <= l.len(),
        forall|m: int| i <= m < j ==> char_in(k, l[m]),
        j == l.len() || !char_in(k, l[j as int]),
    ensures
        run_len(l, i, k) == j - i,
{
    crate::org::chars::lemma_run_len_is(l, i, j, k);
}

/// `l` with whitespace trimmed from both ends.
pub fn trim_of(sub: &Vec<char>) -> (r: String)
    ensures
        r@ == trim(sub@),
{
    let s0 = scan_run(sub, 0, CharKind::Space);
    proof {
        lemma_run_len_bounds(sub@, 0, CharKind::Space);
    }
    if s0 == sub.len() {
        proof {
            assert(trim_start(sub@) =~= Seq::<char>::empty());
            assert(trim(sub@) =~= Seq::<char>::empty());
        }
        return String::new();
    }
    let e = scan_back(sub, sub.len(), CharKind::Space);
    proof {
        lemma_back_run_len_bounds(sub@, sub@.len() as int, CharKind::Space);
        let n = sub@.len() as int;
        // the trailing run cannot reach the first non-space character
        assert(!is_space(sub@[s0 as int]));
        assert(n - e >= s0 + 1);
        let t = trim_start(sub@);
        assert(t =~= sub@.subrange(s0 as int, n));
        assert forall|m: int| (n - e - s0) <= m < t.len() implies char_in(
            CharKind::Space,
            t[m],
        ) by {
            assert(t[m] == sub@[m + s0]);
        }
        if n - e - s0 > 0 {
            assert(t[n - e - s0 - 1] == sub@[n - e - 1]);
        }
        lemma_back_run_len_is(t, n - e - s0, t.len() as int, CharKind::Space);
        assert(trim_end(t) =~= sub@.subrange(s0 as int, n - e));
    }
    string_range(sub, s0, sub.len() - e)
}

/// `l` trimmed as [`trim`], where `l` is the range `[from, to)`.
pub fn trim_range_x(l: &Vec<char>, from: usize, to: usize) -> (r: String)
    requires
        from <= to <= l@.len(),
    ensures
        r@ == trim(l@.subrange(from as int, to as int)),
{
    let sub = vec_range(l, from, to);
    trim_of(&sub)
}

// --- planning lines ---------------------------------------------------
/// An indented `KEYWORD: value` line (only a planning line when the
/// preceding token is a heading or another planning line).
pub open spec fn planning_of(l: Seq<char>) -> Option<(Seq<char>, Seq<char>)> {
    let w = run_len(l, 0, CharKind::Space);
    let r = run_len(l, w, CharKind::Word);
    if w >= 1 && r >= 1 && w + r < l.len() && l[w + r] == ':' && l.len() > w + r + 1 {
        Some((l.subrange(w, w + r), value_after_colon(l.skip(w + r + 1))))
    } else {
        None
    }
}

pub fn planning_x(l: &Vec<char>) -> (res: Option<(String, String)>)
    ensures
        (res is Some) == (planning_of(l@) is Some),
        res is Some ==> ((res->0).0@, (res->0).1@) == planning_of(l@)->0,
{
    let n = l.len();
    let w = scan_run(l, 0, CharKind::Space);
    if w < 1 {
        return None;
    }
    let r = scan_run(l, w, CharKind::Word);
    if r < 1 || w + r >= n || l[w + r] != ':' || n <= w + r + 1 {
        return None;
    }
    let name = string_range(l, w, w + r);
    let value = value_after_colon_x(l, w + r + 1);
    Some((name, value))
}

// --- drawers ----------------------------------------------------------
/// An indented `:NAME:` line opening a drawer; the rest of the line is
/// ignored.
pub open spec fn drawer_open_of(l: Seq<char>) -> Option<Seq<char>> {
    let w = run_len(l, 0, CharKind::Space);
    let r = run_len(l, w + 1, CharKind::DrawerName);
    if w >= 1 && w < l.len() && l[w] == ':' && r >= 1 && w + 1 + r < l.len() && l[w + 1 + r]
        == ':' {
        Some(l.subrange(w + 1, w + 1 + r))
    } else {
        None
    }
}

pub fn drawer_open_x(l: &Vec<char>) -> (res: Option<String>)
    ensures
        (res is Some) == (drawer_open_of(l@) is Some),
        res is Some ==> res->0@ == drawer_open_of(l@)->0,
{
    let w = scan_run(l, 0, CharKind::Space);
    if w < 1 || w >= l.len() || l[w] != ':' {
        return None;
    }
    let r = scan_run(l, w + 1, CharKind::DrawerName);
    if r < 1 || w + 1 + r >= l.len() || l[w + 1 + r] != ':' {
        return None;
    }
    Some(string_range(l, w + 1, w + 1 + r))
}

/// An indented, case-insensitive `:end:` line closing a drawer.
pub open spec fn is_drawer_close(l: Seq<char>) -> bool {
    let w = run_len(l, 0, CharKind::Space);
    w >= 1 && l.len() >= w + 5 && l[w] == ':' && lower_char(l[w + 1]) == 'e' && lower_char(
        l[w + 2],
    ) == 'n' && lower_char(l[w + 3]) == 'd' && l[w + 4] == ':'
}

pub fn drawer_close_x(l: &Vec<char>) -> (r: bool)
    ensures
        r == is_drawer_close(l@),
{
    let n = l.len();
    let w = scan_run(l, 0, CharKind::Space);
    w >= 1 && n - w >= 5 && l[w] == ':' && to_low(l[w + 1]) == 'e' && to_low(l[w + 2]) == 'n'
        && to_low(l[w + 3]) == 'd' && l[w + 4] == ':'
}

fn to_low(c: char) -> (r: char)
    ensures
        r == lower_char(c),
{
    crate::org::chars::to_lower_char(c)
}

// --- blocks -----------------------------------------------------------
/// The line starts with `#+begin`, case-insensitively.
pub open spec fn begin_prefix(l: Seq<char>) -> bool {
    l.len() >= 7 && l[0] == '#' && l[1] == '+' && lower_char(l[2]) == 'b' && lower_char(l[3])
        == 'e' && lower_char(l[4]) == 'g' && lower_char(l[5]) == 'i' && lower_char(l[6]) == 'n'
}

/// The line starts with `#+end`, case-insensitively.
pub open spec fn end_prefix(l: Seq<char>) -> bool {
    l.len() >= 5 && l[0] == '#' && l[1] == '+' && lower_char(l[2]) == 'e' && lower_char(l[3])
        == 'n' && lower_char(l[4]) == 'd'
}

/// A `#+BEGIN[_TYPE][: ARGS]` line: the lower-cased type tag, if any,
/// and the argument text after leading whitespace.
pub open spec fn block_open_of(l: Seq<char>) -> Option<(Option<Seq<char>>, Seq<char>)> {
    if !begin_prefix(l) {
        None
    } else {
        let r = run_len(l, 8, CharKind::Letter);
        let has_type = l.len() > 7 && l[7] == '_' && r >= 1;
        let t: Option<Seq<char>> = if has_type {
            Some(lower_seq(l.subrange(8, 8 + r)))
        } else {
            None
        };
        let j: int = if has_type {
            8 + r
        } else {
            7
        };
        let j2: int = if j < l.len() && l[j] == ':' {
            j + 1
        } else {
            j
        };
        let k = run_len(l, j2, CharKind::Space);
        Some((t, l.skip(j2 + k)))
    }
}

pub fn block_open_x(l: &Vec<char>) -> (res: Option<(Option<String>, String)>)
    ensures
        (res is Some) == (block_open_of(l@) is Some),
        res is Some ==> ((res->0).0.deep_view(), (res->0).1@) == block_open_of(l@)->0,
{
    if !(l.len() >= 7 && l[0] == '#' && l[1] == '+' && to_low(l[2]) == 'b' && to_low(l[3]) == 'e'
        && to_low(l[4]) == 'g' && to_low(l[5]) == 'i' && to_low(l[6]) == 'n') {
        return None;
    }
    let r = scan_run(l, if l.len() >= 8 {
        8
    } else {
        l.len()
    }, CharKind::Letter);
    proof {
        if l@.len() == 7 {
            assert(run_len(l@, 8, CharKind::Letter) == 0);
        }
    }
    let has_type = l.len() > 7 && l[7] == '_' && r >= 1;
    let t: Option<String> = if has_type {
        Some(lower_range(l, 8, 8 + r))
    } else {
        None
    };
    let j: usize = if has_type {
        8 + r
    } else {
        7
    };
    let j2: usize = if j < l.len() && l[j] == ':' {
        j + 1
    } else {
        j
    };
    let k = scan_run(l, j2, CharKind::Space);
    let args = string_range(l, j2 + k, l.len());
    proof {
        assert(l@.skip(j2 + k) =~= l@.subrange(j2 + k, l@.len() as int));
    }
    Some((t, args))
}

/// A `#+END[_TYPE]` line: `Some(tag)` when it closes a block, where the
/// tag is the lower-cased type or `None` for a bare `#+end`.
pub open spec fn block_close_of(l: Seq<char>) -> Option<Option<Seq<char>>> {
    if !end_prefix(l) {
        None
    } else if l.len() == 5 {
        Some(None)
    } else if l[5] == '_' {
        let r = run_len(l, 6, CharKind::Letter);
        if r >= 1 {
            Some(Some(lower_seq(l.subrange(6, 6 + r))))
        } else {
            None
        }
    } else if is_letter(l[5]) {
        None
    } else {
        Some(None)
    }
}

pub fn block_close_x(l: &Vec<char>) -> (res: Option<Option<String>>)
    ensures
        (res is Some) == (block_close_of(l@) is Some),
        res is Some ==> res->0.deep_view() == block_close_of(l@)->0,
{
    if !(l.len() >= 5 && l[0] == '#' && l[1] == '+' && to_low(l[2]) == 'e' && to_low(l[3]) == 'n'
        && to_low(l[4]) == 'd') {
        return None;
    }
    if l.len() == 5 {
        return Some(None);
    }
    if l[5] == '_' {
        let r = scan_run(l, 6, CharKind::Letter);
        if r >= 1 {
            return Some(Some(lower_range(l, 6, 6 + r)));
        }
        return None;
    }
    if char_is(CharKind::Letter, l[5]) {
        return None;
    }
    Some(None)
}

// --- comments and keywords --------------------------------------------
/// A `# text` comment line; its content is kept trimmed.
pub open spec fn comment_of(l: Seq<char>) -> Option<Seq<char>> {
    if l.len() >= 3 && l[0] == '#' && is_space(l[1]) {
        Some(trim(l.skip(1)))
    } else {
        None
    }
}

pub fn comment_x(l: &Vec<char>) -> (res: Option<String>)
    ensures
        (res is Some) == (comment_of(l@) is Some),
        res is Some ==> res->0@ == comment_of(l@)->0,
{
    if l.len() >= 3 && l[0] == '#' && char_is(CharKind::Space, l[1]) {
        let r = trim_range_x(l, 1, l.len());
        proof {
            assert(l@.subrange(1, l@.len() as int) =~= l@.skip(1));
        }
        Some(r)
    } else {
        None
    }
}

/// A `#+NAME: value` keyword line; the name is kept lower-cased.
pub open spec fn keyword_of(l: Seq<char>) -> Option<(Seq<char>, Seq<char>)> {
    let r = run_len(l, 2, CharKind::KeywordName);
    if l.len() >= 2 && l[0] == '#' && l[1] == '+' && r >= 1 && 2 + r < l.len() && l[2 + r] == ':'
        && l.len() > 2 + r + 1 {
        Some((lower_seq(l.subrange(2, 2 + r)), value_after_colon(l.skip(2 + r + 1))))
    } else {
        None
    }
}

pub fn keyword_x(l: &Vec<char>) -> (res: Option<(String, String)>)
    ensures
        (res is Some) == (keyword_of(l@) is Some),
        res is Some ==> ((res->0).0@, (res->0).1@) == keyword_of(l@)->0,
{
    if l.len() < 2 || l[0] != '#' || l[1] != '+' {
        return None;
    }
    let r = scan_run(l, 2, CharKind::KeywordName);
    if r < 1 || 2 + r >= l.len() || l[2 + r] != ':' || l.len() <= 2 + r + 1 {
        return None;
    }
    let name = lower_range(l, 2, 2 + r);
    let value = value_after_colon_x(l, 2 + r + 1);
    Some((name, value))
}

// --- tables -----------------------------------------------------------
/// A table-row line: it starts with `|` and has at least one more
/// character.
pub open spec fn is_table_row(l: Seq<char>) -> bool {
    l.len() >= 2 && l[0] == '|'
}

pub fn table_row_x(l: &Vec<char>) -> (r: bool)
    ensures
        r == is_table_row(l@),
{
    l.len() >= 2 && l[0] == '|'
}

/// The cells of one trimmed row split on every `|`; the empty cells the
/// split produces at both ends are kept.
pub open spec fn cells_of(s: Seq<char>) -> Seq<Seq<char>>
    decreases s.len(),
    via cells_of_dec
{
    let i = first_ix(s, '|');
    if i == s.len() {
        seq![trim(s)]
    } else {
        seq![trim(s.take(i))] + cells_of(s.skip(i + 1))
    }
}

#[via_fn]
proof fn cells_of_dec(s: Seq<char>) {
    lemma_first_ix_bounds(s, '|');
}

/// The cell matrix row a table line contributes.
pub open spec fn table_cells(l: Seq<char>) -> Seq<Seq<char>> {
    cells_of(trim(l))
}

/// Index of the first `c` at or after `from`, or the length if absent.
pub fn find_char_from(l: &Vec<char>, from: usize, c: char) -> (ix: usize)
    requires
        from <= l@.len(),
    ensures
        from <= ix <= l@.len(),
        ix - from == first_ix(l@.skip(from as int), c),
        ix < l@.len() ==> l@[ix as int] == c,
        forall|j: int| from <= j < ix ==> l@[j] != c,
{
    let mut i: usize = from;
    while i < l.len() && l[i] != c
        invariant
            from <= i <= l@.len(),
            forall|j: int| from <= j < i ==> l@[j] != c,
        decreases l@.len() - i,
    {
        i = i + 1;
    }
    proof {
        let s = l@.skip(from as int);
        assert forall|m: int| 0 <= m < i - from implies s[m] != c by {
            assert(s[m] == l@[from + m]);
        }
        if i < l@.len() {
            assert(s[i - from] == l@[i as int]);
        }
        lemma_first_ix_is(s, i - from, c);
    }
    i
}

fn cells_x(tv: &Vec<char>) -> (cells: Vec<String>)
    ensures
        cells.deep_view() == cells_of(tv@),
{
    let mut cells: Vec<String> = Vec::new();
    let mut pos: usize = 0;
    proof {
        assert(cells.deep_view() =~= Seq::<Seq<char>>::empty());
        assert(tv@.skip(0) =~= tv@);
    }
    loop
        invariant
            pos <= tv@.len(),
            cells_of(tv@) =~= cells.deep_view() + cells_of(tv@.skip(pos as int)),
        decreases tv@.len() - pos,
    {
        let ix = find_char_from(tv, pos, '|');
        let piece = trim_range_x(tv, pos, ix);
        let ghost rest = tv@.skip(pos as int);
        proof {
            assert(rest.take(ix - pos) =~= tv@.subrange(pos as int, ix as int));
        }
        cells.push(piece);
        if ix == tv.len() {
            proof {
                assert(first_ix(rest, '|') == rest.len());
                assert(cells_of(rest) =~= seq![trim(rest)]);
                assert(rest =~= tv@.subrange(pos as int, ix as int));
                assert(cells.deep_view() =~= cells.deep_view().drop_last().push(trim(rest)));
                assert(cells_of(tv@) =~= cells.deep_view());
            }
            return cells;
        }
        proof {
            assert(first_ix(rest, '|') == ix - pos);
            assert(cells_of(rest) =~= seq![trim(rest.take(ix - pos))] + cells_of(
                rest.skip(ix - pos + 1),
            ));
            assert(rest.skip(ix - pos + 1) =~= tv@.skip(ix + 1));
            assert(cells.deep_view() + cells_of(tv@.skip(ix + 1)) =~= cells.deep_view().drop_last()
                + (seq![trim(rest.take(ix - pos))] + cells_of(rest.skip(ix - pos + 1))));
        }
        pos = ix + 1;
    }
}

/// The cells of a table-row line.
pub fn table_cells_x(l: &Vec<char>) -> (cells: Vec<String>)
    ensures
        cells.deep_view() == table_cells(l@),
{
    let s0 = scan_run(l, 0, CharKind::Space);
    proof {
        lemma_run_len_bounds(l@, 0, CharKind::Space);
    }
    if s0 == l.len() {
        let tv: Vec<char> = Vec::new();
        proof {
            assert(trim_start(l@) =~= Seq::<char>::empty());
            assert(trim(l@) =~= Seq::<char>::empty());
        }
        return cells_x(&tv);
    }
    let e = scan_back(l, l.len(), CharKind::Space);
    proof {
        lemma_back_run_len_bounds(l@, l@.len() as int, CharKind::Space);
        let n = l@.len() as int;
        assert(!is_space(l@[s0 as int]));
        assert(n - e >= s0 + 1);
        let t = trim_start(l@);
        assert(t =~= l@.subrange(s0 as int, n));
        assert forall|m: int| (n - e - s0) <= m < t.len() implies char_in(
            CharKind::Space,
            t[m],
        ) by {
            assert(t[m] == l@[m + s0]);
        }
        if n - e - s0 > 0 {
            assert(t[n - e - s0 - 1] == l@[n - e - 1]);
        }
        lemma_back_run_len_is(t, n - e - s0, t.len() as int, CharKind::Space);
        assert(trim_end(t) =~= l@.subrange(s0 as int, n - e));
    }
    let tv = vec_range(l, s0, l.len() - e);
    cells_x(&tv)
}

// --- headings ---------------------------------------------------------
/// An optional all-caps state word of at least two letters at the start
/// of the heading rest; it may not begin the literal word `COMMENT`,
/// and must leave a nonempty remainder after the following whitespace.
pub open spec fn take_todo(rest: Seq<char>) -> (Option<Seq<char>>, Seq<char>) {
    let u = run_len(rest, 0, CharKind::Upper);
    let w = run_len(rest, u, CharKind::Space);
    if !has_prefix(rest, "COMMENT"@) && u >= 2 && w >= 1 && u + w < rest.len() {
        (Some(rest.take(u)), rest.skip(u + w))
    } else {
        (None, rest)
    }
}

/// An optional `#[c]` priority marker, `c` alphanumeric, followed by
/// whitespace and a nonempty remainder.
pub open spec fn take_priority(r: Seq<char>) -> (Option<Seq<char>>, Seq<char>) {
    let w = run_len(r, 4, CharKind::Space);
    if r.len() >= 4 && r[0] == '#' && r[1] == '[' && char_in(CharKind::Alnum, r[2]) && r[3] == ']'
        && w >= 1 && 4 + w < r.len() {
        (Some(r.subrange(2, 3)), r.skip(4 + w))
    } else {
        (None, r)
    }
}

/// The body of a trailing completion marker: `n/n` or a digits-and-dots
/// percentage.
pub open spec fn is_completion_body(s: Seq<char>) -> bool {
    let d = run_len(s, 0, CharKind::Digit);
    (d >= 1 && d < s.len() && s[d] == '/' && s.len() - d - 1 >= 1 && run_len(s, d + 1, CharKind::Digit)
        == s.len() - d - 1) || (s.len() >= 2 && s[s.len() - 1] == '%' && run_len(
        s,
        0,
        CharKind::DigitDot,
    ) == s.len() - 1)
}

/// Strip an optional trailing ` [n/n]` or ` [p%]` completion marker,
/// returning its body and the text before it without the separating
/// whitespace.
pub open spec fn strip_completion(b: Seq<char>) -> (Option<Seq<char>>, Seq<char>) {
    if b.len() < 1 || b[b.len() - 1] != ']' {
        (None, b)
    } else {
        let p = last_ix(b, '[');
        if p < 0 || p >= b.len() - 1 {
            (None, b)
        } else {
            let body = b.subrange(p + 1, b.len() - 1);
            let wsr = back_run_len(b, p, CharKind::Space);
            if is_completion_body(body) && wsr >= 1 && p - wsr >= 1 {
                (Some(body), b.take(p - wsr))
            } else {
                (None, b)
            }
        }
    }
}

/// From `i`, the text is one or more groups of tag characters, each
/// closed by a `:`, reaching exactly the end of the line.
pub open spec fn cluster_groups(b: Seq<char>, i: int) -> bool
    decreases b.len() - i,
{
    let r = run_len(b, i, CharKind::TagChar);
    if i < 0 || i >= b.len() || r < 1 || i + r >= b.len() || b[i + r] != ':' {
        false
    } else if i + r + 1 == b.len() {
        true
    } else {
        cluster_groups(b, i + r + 1)
    }
}

/// `b[q..]` is a whole `:tag:tag:` cluster running to the end.
pub open spec fn tag_cluster_at(b: Seq<char>, q: int) -> bool {
    0 <= q < b.len() && b[q] == ':' && cluster_groups(b, q + 1)
}

/// The first position at or after `q` where a tag cluster preceded by
/// whitespace begins.
pub open spec fn find_tag_start(b: Seq<char>, q: int) -> Option<int>
    decreases b.len() - q,
{
    if q < 1 || q >= b.len() {
        None
    } else if is_space(b[q - 1]) && tag_cluster_at(b, q) {
        Some(q)
    } else {
        find_tag_start(b, q + 1)
    }
}

/// The tags of a cluster whose groups start at `i`.
pub open spec fn cluster_tags(b: Seq<char>, i: int) -> Seq<Seq<char>>
    decreases b.len() - i,
{
    let r = run_len(b, i, CharKind::TagChar);
    if i < 0 || i >= b.len() || r < 1 || i + r >= b.len() {
        Seq::empty()
    } else if i + r + 1 == b.len() {
        seq![b.subrange(i, i + r)]
    } else {
        seq![b.subrange(i, i + r)] + cluster_tags(b, i + r + 1)
    }
}

/// Strip an optional trailing `:tag:tag:` cluster, returning the tags
/// and the title text before them without the separating whitespace.
pub open spec fn strip_tags(b: Seq<char>) -> (Seq<Seq<char>>, Seq<char>) {
    match find_tag_start(b, 1) {
        None => (Seq::empty(), b),
        Some(q) => {
            let wsr = back_run_len(b, q, CharKind::Space);
            if q - wsr >= 1 {
                (cluster_tags(b, q + 1), b.take(q - wsr))
            } else {
                (Seq::empty(), b)
            }
        },
    }
}

/// A heading line: a leading `*` run (its length is the level), then
/// whitespace, an optional state word, an optional priority, the title,
/// an optional tag cluster and an optional completion marker.
pub open spec fn heading_of(l: Seq<char>) -> Option<TokenKindV> {
    let stars = run_len(l, 0, CharKind::Star);
    let w1 = run_len(l, stars, CharKind::Space);
    if stars < 1 || w1 < 1 || stars + w1 >= l.len() {
        None
    } else {
        let rest = l.skip(stars + w1);
        let tr = take_todo(rest);
        let pr = take_priority(tr.1);
        let cr = strip_completion(pr.1);
        let tg = strip_tags(cr.1);
        Some(
            TokenKindV::Heading {
                level: stars as usize,
                todo_state: tr.0,
                priority: pr.0,
                commented: has_prefix(tg.1, "COMMENT"@),
                title: tg.1,
                tags: tg.0,
                archived: tg.0.contains("ARCHIVED"@),
                completion_amount: cr.0,
            },
        )
    }
}

/// Does `v` start with the literal word `COMMENT`?
fn comment_prefix_x(v: &Vec<char>) -> (r: bool)
    ensures
        r == has_prefix(v@, "COMMENT"@),
{
    proof {
        reveal_strlit("COMMENT");
    }
    let r = v.len() >= 7 && v[0] == 'C' && v[1] == 'O' && v[2] == 'M' && v[3] == 'M' && v[4] == 'E'
        && v[5] == 'N' && v[6] == 'T';
    proof {
        if v@.len() >= 7 {
            assert(has_prefix(v@, "COMMENT"@) == (v@[0] == 'C' && v@[1] == 'O' && v@[2] == 'M'
                && v@[3] == 'M' && v@[4] == 'E' && v@[5] == 'N' && v@[6] == 'T')) by {
                assert(v@.take(7)[0] == v@[0] && v@.take(7)[1] == v@[1] && v@.take(7)[2] == v@[2]
                    && v@.take(7)[3] == v@[3] && v@.take(7)[4] == v@[4] && v@.take(7)[5] == v@[5]
                    && v@.take(7)[6] == v@[6]);
                if v@[0] == 'C' && v@[1] == 'O' && v@[2] == 'M' && v@[3] == 'M' && v@[4] == 'E'
                    && v@[5] == 'N' && v@[6] == 'T' {
                    assert(v@.take(7) =~= "COMMENT"@);
                }
            }
        }
    }
    r
}

fn take_todo_x(rest: Vec<char>) -> (out: (Option<String>, Vec<char>))
    ensures
        out.0.deep_view() == take_todo(rest@).0,
        out.1@ == take_todo(rest@).1,
{
    let n = rest.len();
    let u = scan_run(&rest, 0, CharKind::Upper);
    let w = scan_run(&rest, u, CharKind::Space);
    if !comment_prefix_x(&rest) && u >= 2 && w >= 1 && u + w < n {
        let t = string_range(&rest, 0, u);
        proof {
            assert(rest@.take(u as int) =~= rest@.subrange(0, u as int));
            assert(rest@.skip(u + w) =~= rest@.subrange(u + w, rest@.len() as int));
        }
        let r2 = vec_range(&rest, u + w, n);
        (Some(t), r2)
    } else {
        (None, rest)
    }
}

fn take_priority_x(r: Vec<char>) -> (out: (Option<String>, Vec<char>))
    ensures
        out.0.deep_view() == take_priority(r@).0,
        out.1@ == take_priority(r@).1,
{
    let n = r.len();
    if !(n >= 4 && r[0] == '#' && r[1] == '[' && char_is(CharKind::Alnum, r[2]) && r[3] == ']') {
        return (None, r);
    }
    let w = scan_run(&r, 4, CharKind::Space);
    if w >= 1 && 4 + w < n {
        let p = string_range(&r, 2, 3);
        proof {
            assert(r@.skip(4 + w) =~= r@.subrange(4 + w, r@.len() as int));
        }
        let r2 = vec_range(&r, 4 + w, n);
        (Some(p), r2)
    } else {
        (None, r)
    }
}

fn completion_body_x(s: &Vec<char>) -> (r: bool)
    ensures
        r == is_completion_body(s@),
{
    let n = s.len();
    let d = scan_run(s, 0, CharKind::Digit);
    let frac = d >= 1 && d < n && s[d] == '/' && n - d - 1 >= 1 && {
        let d2 = scan_run(s, d + 1, CharKind::Digit);
        d2 == n - d - 1
    };
    let pct = n >= 2 && s[n - 1] == '%' && scan_run(s, 0, CharKind::DigitDot) == n - 1;
    frac || pct
}

fn strip_completion_x(b: Vec<char>) -> (out: (Option<String>, Vec<char>))
    ensures
        out.0.deep_view() == strip_completion(b@).0,
        out.1@ == strip_completion(b@).1,
{
    let n = b.len();
    if n < 1 || b[n - 1] != ']' {
        return (None, b);
    }
    // find the last `[`
    let mut i: usize = n;
    while i > 0 && b[i - 1] != '['
        invariant
            0 <= i <= n == b@.len(),
            forall|j: int| i <= j < n ==> b@[j] != '[',
        decreases i,
    {
        i = i - 1;
    }
    if i == 0 {
        proof {
            crate::org::chars::lemma_last_ix_bounds(b@, '[');
            assert(last_ix(b@, '[') == -1) by {
                if last_ix(b@, '[') >= 0 {
                    assert(b@[last_ix(b@, '[')] == '[');
                }
            }
        }
        return (None, b);
    }
    let p = i - 1;
    proof {
        crate::org::chars::lemma_last_ix_is(b@, p as int, '[');
    }
    if p >= n - 1 {
        return (None, b);
    }
    let body = vec_range(&b, p + 1, n - 1);
    let wsr = scan_back(&b, p, CharKind::Space);
    if completion_body_x(&body) && wsr >= 1 && p - wsr >= 1 {
        let bs = string_of(&body);
        proof {
            assert(b@.take(p - wsr) =~= b@.subrange(0, p - wsr));
        }
        let title = vec_range(&b, 0, p - wsr);
        (Some(bs), title)
    } else {
        (None, b)
    }
}

fn cluster_at_x(b: &Vec<char>, q: usize) -> (r: bool)
    requires
        q < b@.len(),
    ensures
        r == tag_cluster_at(b@, q as int),
{
    if b[q] != ':' {
        return false;
    }
    let n = b.len();
    let mut i: usize = q + 1;
    loop
        invariant
            q + 1 <= i <= n == b@.len(),
            q < b@.len(),
            b@[q as int] == ':',
            cluster_groups(b@, q + 1) == cluster_groups(b@, i as int),
        decreases n - i,
    {
        let r = scan_run(b, i, CharKind::TagChar);
        if r < 1 || i + r >= n || b[i + r] != ':' {
            proof {
                assert(!cluster_groups(b@, i as int));
            }
            return false;
        }
        if i + r + 1 == n {
            proof {
                assert(cluster_groups(b@, i as int));
            }
            return true;
        }
        i = i + r + 1;
    }
}

fn find_tag_start_x(b: &Vec<char>) -> (res: Option<usize>)
    ensures
        res is Some ==> find_tag_start(b@, 1) == Some(res->0 as int),
        res is None ==> find_tag_start(b@, 1) is None,
{
    let n = b.len();
    if n < 1 {
        return None;
    }
    let mut q: usize = 1;
    while q < n
        invariant
            1 <= q <= n == b@.len(),
            find_tag_start(b@, 1) == find_tag_start(b@, q as int),
        decreases n - q,
    {
        if char_is(CharKind::Space, b[q - 1]) && cluster_at_x(b, q) {
            return Some(q);
        }
        q = q + 1;
    }
    None
}

fn cluster_tags_x(b: &Vec<char>, start: usize) -> (tags: Vec<String>)
    requires
        start <= b@.len(),
    ensures
        tags.deep_view() == cluster_tags(b@, start as int),
{
    let n = b.len();
    let mut tags: Vec<String> = Vec::new();
    let mut i: usize = start;
    proof {
        assert(tags.deep_view() =~= Seq::<Seq<char>>::empty());
    }
    loop
        invariant
            start <= i <= n == b@.len(),
            cluster_tags(b@, start as int) =~= tags.deep_view() + cluster_tags(b@, i as int),
        decreases n - i,
    {
        let r = scan_run(b, i, CharKind::TagChar);
        if r < 1 || i + r >= n {
            proof {
                assert(cluster_tags(b@, i as int) =~= Seq::<Seq<char>>::empty());
                assert(cluster_tags(b@, start as int) =~= tags.deep_view());
            }
            return tags;
        }
        let tag = string_range(b, i, i + r);
        tags.push(tag);
        if i + r + 1 == n {
            proof {
                assert(cluster_tags(b@, i as int) =~= seq![b@.subrange(i as int, i + r)]);
                assert(cluster_tags(b@, start as int) =~= tags.deep_view());
            }
            return tags;
        }
        proof {
            assert(cluster_tags(b@, i as int) =~= seq![b@.subrange(i as int, i + r)]
                + cluster_tags(b@, i + r + 1));
            assert(tags.deep_view() + cluster_tags(b@, i + r + 1) =~= tags.deep_view().drop_last()
                + (seq![b@.subrange(i as int, i + r)] + cluster_tags(b@, i + r + 1)));
        }
        i = i + r + 1;
    }
}

fn strip_tags_x(b: Vec<char>) -> (out: (Vec<String>, Vec<char>))
    ensures
        out.0.deep_view() == strip_tags(b@).0,
        out.1@ == strip_tags(b@).1,
{
    let found = find_tag_start_x(&b);
    match found {
        None => {
            let empty: Vec<String> = Vec::new();
            proof {
                assert(empty.deep_view() =~= Seq::<Seq<char>>::empty());
            }
            (empty, b)
        },
        Some(q) => {
            proof {
                crate::org::lines::lemma_find_tag_start_bounds(b@, 1);
            }
            let wsr = scan_back(&b, q, CharKind::Space);
            if q - wsr >= 1 {
                let tags = cluster_tags_x(&b, q + 1);
                proof {
                    assert(b@.take(q - wsr) =~= b@.subrange(0, q - wsr));
                }
                let title = vec_range(&b, 0, q - wsr);
                (tags, title)
            } else {
                let empty: Vec<String> = Vec::new();
                proof {
                    assert(empty.deep_view() =~= Seq::<Seq<char>>::empty());
                }
                (empty, b)
            }
        },
    }
}

/// A found tag start lies inside the line.
pub proof fn lemma_find_tag_start_bounds(b: Seq<char>, q: int)
    requires
        q >= 1,
    ensures
        find_tag_start(b, q) is Some ==> q <= find_tag_start(b, q)->0 < b.len(),
    decreases b.len() - q,
{
    if !(q < 1 || q >= b.len()) && !(is_space(b[q - 1]) && tag_cluster_at(b, q)) {
        lemma_find_tag_start_bounds(b, q + 1);
    }
}

fn archived_x(tags: &Vec<String>) -> (r: bool)
    ensures
        r == tags.deep_view().contains("ARCHIVED"@),
{
    let lit: String = "ARCHIVED".to_owned();
    let mut i: usize = 0;
    while i < tags.len()
        invariant
            i <= tags@.len(),
            lit@ == "ARCHIVED"@,
            tags.deep_view().len() == tags@.len(),
            forall|j: int| 0 <= j < tags@.len() ==> tags.deep_view()[j] == tags@[j]@,
            forall|j: int| 0 <= j < i ==> tags@[j]@ != "ARCHIVED"@,
        decreases tags@.len() - i,
    {
        if crate::org::strings::streq(&tags[i], &lit) {
            proof {
                assert(tags.deep_view()[i as int] == "ARCHIVED"@);
            }
            return true;
        }
        i = i + 1;
    }
    false
}

/// Classify a heading line and build its token.
pub fn heading_x(l: &Vec<char>) -> (res: Option<TokenKind>)
    ensures
        (res is Some) == (heading_of(l@) is Some),
        res is Some ==> res->0@ == heading_of(l@)->0,
{
    let n = l.len();
    let stars = scan_run(l, 0, CharKind::Star);
    if stars < 1 {
        return None;
    }
    let w1 = scan_run(l, stars, CharKind::Space);
    if w1 < 1 || stars + w1 >= n {
        return None;
    }
    proof {
        assert(l@.skip(stars + w1) =~= l@.subrange(stars + w1, l@.len() as int));
    }
    let rest = vec_range(l, stars + w1, n);
    let (todo_state, r2) = take_todo_x(rest);
    let (priority, r3) = take_priority_x(r2);
    let (completion_amount, r4) = strip_completion_x(r3);
    let (tags, title_v) = strip_tags_x(r4);
    let commented = comment_prefix_x(&title_v);
    let archived = archived_x(&tags);
    let title = string_of(&title_v);
    Some(
        TokenKind::Heading {
            level: stars,
            todo_state,
            priority,
            commented,
            title,
            tags,
            archived,
            completion_amount,
        },
    )
}

// --- paragraphs -------------------------------------------------------
/// How a continuation line joins a pending paragraph: an indented line
/// joins with a single space, any other with a newline kept verbatim.
pub open spec fn merged_para(c: Seq<char>, l: Seq<char>) -> Seq<char> {
    if run_len(l, 0, CharKind::Space) >= 1 {
        trim_end(c) + seq![' '] + trim_start(l)
    } else {
        trim_end(c) + seq!['\n'] + l
    }
}

/// A fresh paragraph takes the line with leading whitespace stripped.
pub open spec fn new_para(l: Seq<char>) -> Seq<char> {
    trim_start(l)
}

pub fn para_merge_x(c: &String, l: &Vec<char>) -> (r: String)
    ensures
        r@ == merged_para(c@, l@),
{
    let cv = chars_of(c.as_str());
    let e = scan_back(&cv, cv.len(), CharKind::Space);
    let mut r = string_range(&cv, 0, cv.len() - e);
    proof {
        assert(trim_end(c@) =~= cv@.subrange(0, cv@.len() - e));
    }
    let ind = scan_run(l, 0, CharKind::Space);
    if ind >= 1 {
        crate::org::strings::push_char(&mut r, ' ');
        let tail = string_range(l, ind, l.len());
        proof {
            assert(trim_start(l@) =~= l@.subrange(ind as int, l@.len() as int));
        }
        r.append(tail.as_str());
        proof {
            assert(r@ =~= trim_end(c@) + seq![' '] + trim_start(l@));
        }
    } else {
        crate::org::strings::push_char(&mut r, '\n');
        let tail = string_of(l);
        r.append(tail.as_str());
        proof {
            assert(r@ =~= trim_end(c@) + seq!['\n'] + l@);
        }
    }
    r
}

pub fn para_new_x(l: &Vec<char>) -> (r: String)
    ensures
        r@ == new_para(l@),
{
    let ind = scan_run(l, 0, CharKind::Space);
    let r = string_range(l, ind, l.len());
    proof {
        assert(trim_start(l@) =~= l@.subrange(ind as int, l@.len() as int));
    }
    r
}

} // verus!
