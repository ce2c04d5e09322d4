//! Character classes and sequence scanning primitives shared by the
//! outline-markup lexer: runs of characters, trimming, splitting and
//! ASCII case folding, each with an exact specification.

use vstd::prelude::*;

verus! {

/// The character classes the line grammar distinguishes.
#[derive(Clone, Copy, Debug, PartialEq, Eq)]
pub enum CharKind {
    /// Unicode whitespace (the `White_Space` property).
    Space,
    /// `*`
    Star,
    /// ASCII upper-case letter.
    Upper,
    /// ASCII letter.
    Letter,
    /// ASCII letter, digit or `_`.
    Word,
    /// ASCII letter, digit, `_` or `-` (drawer names).
    DrawerName,
    /// ASCII letter or `_` (keyword names).
    KeywordName,
    /// ASCII letter, digit or one of `_ @ # %` (heading tags).
    TagChar,
    /// ASCII letter or digit.
    Alnum,
    /// ASCII digit.
    Digit,
    /// ASCII digit or `.` (completion percentages).
    DigitDot,
    /// Anything that is not whitespace.
    NonSpace,
}

/// Unicode `White_Space` characters.
pub open spec fn is_space(c: char) -> bool {
    let u = c as u32;
    (9 <= u && u <= 13) || u == 32 || u == 0x85 || u == 0xA0 || u == 0x1680 || (0x2000 <= u
        && u <= 0x200A) || u == 0x2028 || u == 0x2029 || u == 0x202F || u == 0x205F || u == 0x3000
}

pub open spec fn is_upper(c: char) -> bool {
    'A' <= c && c <= 'Z'
}

pub open spec fn is_lower(c: char) -> bool {
    'a' <= c && c <= 'z'
}

pub open spec fn is_letter(c: char) -> bool {
    is_upper(c) || is_lower(c)
}

pub open spec fn is_digit(c: char) -> bool {
    '0' <= c && c <= '9'
}

/// Which characters a [`CharKind`] accepts.
pub open spec fn char_in(k: CharKind, c: char) -> bool {
    match k {
        CharKind::Space => is_space(c),
        CharKind::Star => c == '*',
        CharKind::Upper => is_upper(c),
        CharKind::Letter => is_letter(c),
        CharKind::Word => is_letter(c) || is_digit(c) || c == '_',
        CharKind::DrawerName => is_letter(c) || is_digit(c) || c == '_' || c == '-',
        CharKind::KeywordName => is_letter(c) || c == '_',
        CharKind::TagChar => is_letter(c) || is_digit(c) || c == '_' || c == '@' || c == '#' || c
            == '%',
        CharKind::Alnum => is_letter(c) || is_digit(c),
        CharKind::Digit => is_digit(c),
        CharKind::DigitDot => is_digit(c) || c == '.',
        CharKind::NonSpace => !is_space(c),
    }
}

/// Does character `c` belong to class `k`?
pub fn char_is(k: CharKind, c: char) -> (r: bool)
    ensures
        r == char_in(k, c),
{
    let u = c as u32;
    match k {
        CharKind::Space => (9 <= u && u <= 13) || u == 32 || u == 0x85 || u == 0xA0 || u == 0x1680
            || (0x2000 <= u && u <= 0x200A) || u == 0x2028 || u == 0x2029 || u == 0x202F || u
            == 0x205F || u == 0x3000,
        CharKind::Star => c == '*',
        CharKind::Upper => 'A' <= c && c <= 'Z',
        CharKind::Letter => ('A' <= c && c <= 'Z') || ('a' <= c && c <= 'z'),
        CharKind::Word => ('A' <= c && c <= 'Z') || ('a' <= c && c <= 'z') || ('0' <= c && c
            <= '9') || c == '_',
        CharKind::DrawerName => ('A' <= c && c <= 'Z') || ('a' <= c && c <= 'z') || ('0' <= c && c
            <= '9') || c == '_' || c == '-',
        CharKind::KeywordName => ('A' <= c && c <= 'Z') || ('a' <= c && c <= 'z') || c == '_',
        CharKind::TagChar => ('A' <= c && c <= 'Z') || ('a' <= c && c <= 'z') || ('0' <= c && c
            <= '9') || c == '_' || c == '@' || c == '#' || c == '%',
        CharKind::Alnum => ('A' <= c && c <= 'Z') || ('a' <= c && c <= 'z') || ('0' <= c && c
            <= '9'),
        CharKind::Digit => '0' <= c && c <= '9',
        CharKind::DigitDot => ('0' <= c && c <= '9') || c == '.',
        CharKind::NonSpace => !((9 <= u && u <= 13) || u == 32 || u == 0x85 || u == 0xA0 || u
            == 0x1680 || (0x2000 <= u && u <= 0x200A) || u == 0x2028 || u == 0x2029 || u == 0x202F
            || u == 0x205F || u == 0x3000),
    }
}

/// Length of the run of class-`k` characters starting at `i`.
pub open spec fn run_len(l: Seq<char>, i: int, k: CharKind) -> int
    decreases l.len() - i,
{
    if i < 0 || i >= l.len() || !char_in(k, l[i]) {
        0
    } else {
        1 + run_len(l, i + 1, k)
    }
}

pub proof fn lemma_run_len_bounds(l: Seq<char>, i: int, k: CharKind)
    requires
        0 <= i <= l.len(),
    ensures
        0 <= run_len(l, i, k) <= l.len() - i,
        forall|j: int| i <= j < i + run_len(l, i, k) ==> char_in(k, l[j]),
        i + run_len(l, i, k) < l.len() ==> !char_in(k, l[i + run_len(l, i, k)]),
    decreases l.len() - i,
{
    if i < l.len() && char_in(k, l[i]) {
        lemma_run_len_bounds(l, i + 1, k);
    }
}

/// A run is exactly `j - i` when everything in `[i, j)` is in the class
/// and `j` is the end of the line or out of the class.
pub proof fn lemma_run_len_is(l: Seq<char>, i: int, j: int, k: CharKind)
    requires
        0 <= i <= j <= l.len(),
        forall|m: int| i <= m < j ==> char_in(k, l[m]),
        j == l.len() || !char_in(k, l[j as int]),
    ensures
        run_len(l, i, k) == j - i,
    decreases j - i,
{
    if i < j {
        lemma_run_len_is(l, i + 1, j, k);
    }
}

/// Length of the run of class-`k` characters starting at `from`.
pub fn scan_run(l: &Vec<char>, from: usize, k: CharKind) -> (n: usize)
    requires
        from <= l@.len(),
    ensures
        n == run_len(l@, from as int, k),
        from + n <= l@.len(),
{
    let mut j: usize = from;
    while j < l.len() && char_is(k, l[j])
        invariant
            from <= j <= l@.len(),
            forall|m: int| from <= m < j ==> char_in(k, l@[m]),
        decreases l@.len() - j,
    {
        j = j + 1;
    }
    proof {
        lemma_run_len_is(l@, from as int, j as int, k);
    }
    j - from
}

/// Length of the run of class-`k` characters that ends just before `to`.
pub open spec fn back_run_len(l: Seq<char>, to: int, k: CharKind) -> int
    decreases to,
{
    if to <= 0 || to > l.len() || !char_in(k, l[to - 1]) {
        0
    } else {
        1 + back_run_len(l, to - 1, k)
    }
}

pub proof fn lemma_back_run_len_bounds(l: Seq<char>, to: int, k: CharKind)
    requires
        0 <= to <= l.len(),
    ensures
        0 <= back_run_len(l, to, k) <= to,
        forall|j: int| to - back_run_len(l, to, k) <= j < to ==> char_in(k, l[j]),
        to - back_run_len(l, to, k) > 0 ==> !char_in(k, l[to - back_run_len(l, to, k) - 1]),
    decreases to,
{
    if to > 0 && char_in(k, l[to - 1]) {
        lemma_back_run_len_bounds(l, to - 1, k);
    }
}

pub proof fn lemma_back_run_len_is(l: Seq<char>, i: int, to: int, k: CharKind)
    requires
        0 <= i <= to <= l.len(),
        forall|m: int| i <= m < to ==> char_in(k, l[m]),
        i == 0 || !char_in(k, l[i - 1]),
    ensures
        back_run_len(l, to, k) == to - i,
    decreases to - i,
{
    if i < to {
        lemma_back_run_len_is(l, i, to - 1, k);
    }
}

/// Length of the run of class-`k` characters ending just before `to`.
pub fn scan_back(l: &Vec<char>, to: usize, k: CharKind) -> (n: usize)
    requires
        to <= l@.len(),
    ensures
        n == back_run_len(l@, to as int, k),
        n <= to,
{
    let mut i: usize = to;
    while i > 0 && char_is(k, l[i - 1])
        invariant
            0 <= i <= to <= l@.len(),
            forall|m: int| i <= m < to ==> char_in(k, l@[m]),
        decreases i,
    {
        i = i - 1;
    }
    proof {
        lemma_back_run_len_is(l@, i as int, to as int, k);
    }
    to - i
}

/// `l` with leading whitespace removed.
pub open spec fn trim_start(l: Seq<char>) -> Seq<char> {
    l.skip(run_len(l, 0, CharKind::Space))
}

/// `l` with trailing whitespace removed.
pub open spec fn trim_end(l: Seq<char>) -> Seq<char> {
    l.take(l.len() - back_run_len(l, l.len() as int, CharKind::Space))
}

/// `l` with whitespace removed at both ends.
pub open spec fn trim(l: Seq<char>) -> Seq<char> {
    trim_end(trim_start(l))
}

/// Every character of `l` is whitespace.
pub open spec fn all_space(l: Seq<char>) -> bool {
    forall|i: int| 0 <= i < l.len() ==> is_space(#[trigger] l[i])
}

/// Index of the first occurrence of `c` in `l`, or `l.len()` if absent.
pub open spec fn first_ix(l: Seq<char>, c: char) -> int
    decreases l.len(),
{
    if l.len() == 0 {
        0
    } else if l[0] == c {
        0
    } else {
        1 + first_ix(l.drop_first(), c)
    }
}

pub proof fn lemma_first_ix_bounds(l: Seq<char>, c: char)
    ensures
        0 <= first_ix(l, c) <= l.len(),
        forall|j: int| 0 <= j < first_ix(l, c) ==> l[j] != c,
        first_ix(l, c) < l.len() ==> l[first_ix(l, c)] == c,
    decreases l.len(),
{
    if l.len() > 0 && l[0] != c {
        lemma_first_ix_bounds(l.drop_first(), c);
        assert forall|j: int| 0 <= j < first_ix(l, c) implies l[j] != c by {
            if j > 0 {
                assert(l.drop_first()[j - 1] == l[j]);
            }
        }
    }
}

pub proof fn lemma_first_ix_is(l: Seq<char>, j: int, c: char)
    requires
        0 <= j <= l.len(),
        forall|m: int| 0 <= m < j ==> l[m] != c,
        j == l.len() || l[j as int] == c,
    ensures
        first_ix(l, c) == j,
    decreases l.len(),
{
    if l.len() > 0 && l[0] != c {
        lemma_first_ix_is(l.drop_first(), j - 1, c);
    }
}

/// Index of the last occurrence of `c` in `l`, or `-1` if absent.
pub open spec fn last_ix(l: Seq<char>, c: char) -> int
    decreases l.len(),
{
    if l.len() == 0 {
        -1
    } else if l[l.len() - 1] == c {
        l.len() - 1
    } else {
        last_ix(l.take(l.len() - 1), c)
    }
}

pub proof fn lemma_last_ix_bounds(l: Seq<char>, c: char)
    ensures
        -1 <= last_ix(l, c) < l.len(),
        last_ix(l, c) >= 0 ==> l[last_ix(l, c)] == c,
        forall|j: int| last_ix(l, c) < j < l.len() ==> l[j] != c,
    decreases l.len(),
{
    if l.len() > 0 && l[l.len() - 1] != c {
        let lp = l.take(l.len() - 1);
        lemma_last_ix_bounds(lp, c);
        if last_ix(lp, c) >= 0 {
            assert(l[last_ix(lp, c)] == lp[last_ix(lp, c)]);
        }
        assert forall|j: int| last_ix(l, c) < j < l.len() implies l[j] != c by {
            if j < l.len() - 1 {
                assert(lp[j] == l[j]);
            }
        }
    }
}

pub proof fn lemma_last_ix_is(l: Seq<char>, j: int, c: char)
    requires
        0 <= j < l.len(),
        l[j] == c,
        forall|m: int| j < m < l.len() ==> l[m] != c,
    ensures
        last_ix(l, c) == j,
    decreases l.len(),
{
    if l.len() - 1 != j {
        let lp = l.take(l.len() - 1);
        assert forall|m: int| j < m < lp.len() implies lp[m] != c by {
            assert(lp[m] == l[m]);
        }
        assert(lp[j] == l[j]);
        lemma_last_ix_is(lp, j, c);
    }
}

/// `l` split on every occurrence of `c`; empty pieces are kept, so the
/// result always has one more piece than `l` has separators.
pub open spec fn split_char(l: Seq<char>, c: char) -> Seq<Seq<char>>
    decreases l.len(),
    via split_char_dec
{
    let i = first_ix(l, c);
    if i == l.len() {
        seq![l]
    } else {
        seq![l.take(i)] + split_char(l.skip(i + 1), c)
    }
}

#[via_fn]
proof fn split_char_dec(l: Seq<char>, c: char) {
    lemma_first_ix_bounds(l, c);
}

/// The whitespace-separated words of `l`, in order; never contains an
/// empty word.
pub open spec fn words(l: Seq<char>) -> Seq<Seq<char>>
    decreases l.len(),
    via words_dec
{
    let s = run_len(l, 0, CharKind::Space);
    if s >= l.len() {
        Seq::empty()
    } else {
        let w = run_len(l, s, CharKind::NonSpace);
        seq![l.subrange(s, s + w)] + words(l.skip(s + w))
    }
}

#[via_fn]
proof fn words_dec(l: Seq<char>) {
    lemma_run_len_bounds(l, 0, CharKind::Space);
    let s = run_len(l, 0, CharKind::Space);
    if s < l.len() {
        lemma_run_len_bounds(l, s, CharKind::NonSpace);
        assert(char_in(CharKind::NonSpace, l[s]));
        assert(run_len(l, s, CharKind::NonSpace) >= 1);
    }
}

/// `parts` joined with the single character `c`.
pub open spec fn join_char(parts: Seq<Seq<char>>, c: char) -> Seq<char>
    decreases parts.len(),
{
    if parts.len() == 0 {
        Seq::empty()
    } else if parts.len() == 1 {
        parts[0]
    } else {
        parts[0] + seq![c] + join_char(parts.drop_first(), c)
    }
}

/// `parts` joined with the separator text `sep`.
pub open spec fn join_str(parts: Seq<Seq<char>>, sep: Seq<char>) -> Seq<char>
    decreases parts.len(),
{
    if parts.len() == 0 {
        Seq::empty()
    } else if parts.len() == 1 {
        parts[0]
    } else {
        parts[0] + sep + join_str(parts.drop_first(), sep)
    }
}

/// `l` split on every whitespace character; empty pieces are kept.
pub open spec fn split_space(l: Seq<char>) -> Seq<Seq<char>>
    decreases l.len(),
    via split_space_dec
{
    let i = first_space_ix(l);
    if i == l.len() {
        seq![l]
    } else {
        seq![l.take(i)] + split_space(l.skip(i + 1))
    }
}

#[via_fn]
proof fn split_space_dec(l: Seq<char>) {
    lemma_first_space_ix_bounds(l);
}

/// Index of the first whitespace character, or the length if none.
pub open spec fn first_space_ix(l: Seq<char>) -> int
    decreases l.len(),
{
    if l.len() == 0 {
        0
    } else if is_space(l[0]) {
        0
    } else {
        1 + first_space_ix(l.drop_first())
    }
}

pub proof fn lemma_first_space_ix_bounds(l: Seq<char>)
    ensures
        0 <= first_space_ix(l) <= l.len(),
        forall|j: int| 0 <= j < first_space_ix(l) ==> !is_space(l[j]),
        first_space_ix(l) < l.len() ==> is_space(l[first_space_ix(l)]),
    decreases l.len(),
{
    if l.len() > 0 && !is_space(l[0]) {
        lemma_first_space_ix_bounds(l.drop_first());
        assert forall|j: int| 0 <= j < first_space_ix(l) implies !is_space(l[j]) by {
            if j > 0 {
                assert(l.drop_first()[j - 1] == l[j]);
            }
        }
    }
}

pub proof fn lemma_first_space_ix_is(l: Seq<char>, j: int)
    requires
        0 <= j <= l.len(),
        forall|m: int| 0 <= m < j ==> !is_space(l[m]),
        j == l.len() || is_space(l[j as int]),
    ensures
        first_space_ix(l) == j,
    decreases l.len(),
{
    if l.len() > 0 && !is_space(l[0]) {
        lemma_first_space_ix_is(l.drop_first(), j - 1);
    }
}

/// ASCII lower-casing of one character; anything but `A`..`Z` is kept.
pub open spec fn lower_char(c: char) -> char {
    if c == 'A' {
        'a'
    } else if c == 'B' {
        'b'
    } else if c == 'C' {
        'c'
    } else if c == 'D' {
        'd'
    } else if c == 'E' {
        'e'
    } else if c == 'F' {
        'f'
    } else if c == 'G' {
        'g'
    } else if c == 'H' {
        'h'
    } else if c == 'I' {
        'i'
    } else if c == 'J' {
        'j'
    } else if c == 'K' {
        'k'
    } else if c == 'L' {
        'l'
    } else if c == 'M' {
        'm'
    } else if c == 'N' {
        'n'
    } else if c == 'O' {
        'o'
    } else if c == 'P' {
        'p'
    } else if c == 'Q' {
        'q'
    } else if c == 'R' {
        'r'
    } else if c == 'S' {
        's'
    } else if c == 'T' {
        't'
    } else if c == 'U' {
        'u'
    } else if c == 'V' {
        'v'
    } else if c == 'W' {
        'w'
    } else if c == 'X' {
        'x'
    } else if c == 'Y' {
        'y'
    } else if c == 'Z' {
        'z'
    } else {
        c
    }
}

pub fn to_lower_char(c: char) -> (r: char)
    ensures
        r == lower_char(c),
{
    match c {
        'A' => 'a',
        'B' => 'b',
        'C' => 'c',
        'D' => 'd',
        'E' => 'e',
        'F' => 'f',
        'G' => 'g',
        'H' => 'h',
        'I' => 'i',
        'J' => 'j',
        'K' => 'k',
        'L' => 'l',
        'M' => 'm',
        'N' => 'n',
        'O' => 'o',
        'P' => 'p',
        'Q' => 'q',
        'R' => 'r',
        'S' => 's',
        'T' => 't',
        'U' => 'u',
        'V' => 'v',
        'W' => 'w',
        'X' => 'x',
        'Y' => 'y',
        'Z' => 'z',
        _ => c,
    }
}

/// ASCII lower-casing of a whole sequence.
pub open spec fn lower_seq(l: Seq<char>) -> Seq<char> {
    l.map_values(|c: char| lower_char(c))
}

/// `pre` is a prefix of `l`.
pub open spec fn has_prefix(l: Seq<char>, pre: Seq<char>) -> bool {
    l.len() >= pre.len() && l.take(pre.len() as int) == pre
}

} // verus!
