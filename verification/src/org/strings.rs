//! Bridging between `String` values held in tokens and the `Vec<char>`
//! form the lexer scans: conversions, equality, and joining.

use vstd::prelude::*;

use crate::org::chars::{join_char, lower_char, lower_seq};

verus! {

/// The deep view of a character vector is its view.
pub broadcast proof fn lemma_vec_char_deep_view(v: Vec<char>)
    ensures
        #[trigger] v.deep_view() == v@,
{
    assert(v.deep_view() =~= v@);
}

/// Relies on `String::push`: appends exactly the one character.
#[verifier::external_body]
pub(crate) fn push_char(s: &mut String, c: char)
    ensures
        final(s)@ == old(s)@.push(c),
{
    s.push(c)
}

/// The characters of `s`, in order.
pub fn chars_of(s: &str) -> (v: Vec<char>)
    ensures
        v@ == s@,
{
    let n = s.unicode_len();
    let mut v: Vec<char> = Vec::new();
    let mut i: usize = 0;
    while i < n
        invariant
            i <= n,
            n == s@.len(),
            v@ == s@.take(i as int),
        decreases n - i,
    {
        v.push(s.get_char(i));
        proof {
            assert(v@ =~= s@.take(i + 1));
        }
        i = i + 1;
    }
    proof {
        assert(v@ =~= s@);
    }
    v
}

/// The characters `l[from..to]` as an owned vector.
pub fn vec_range(l: &Vec<char>, from: usize, to: usize) -> (r: Vec<char>)
    requires
        from <= to <= l@.len(),
    ensures
        r@ == l@.subrange(from as int, to as int),
{
    let mut r: Vec<char> = Vec::new();
    let mut i: usize = from;
    while i < to
        invariant
            from <= i <= to <= l@.len(),
            r@ == l@.subrange(from as int, i as int),
        decreases to - i,
    {
        r.push(l[i]);
        proof {
            assert(r@ =~= l@.subrange(from as int, i + 1));
        }
        i = i + 1;
    }
    r
}

/// The substring `l[from..to]` as an owned `String`.
pub fn string_range(l: &Vec<char>, from: usize, to: usize) -> (r: String)
    requires
        from <= to <= l@.len(),
    ensures
        r@ == l@.subrange(from as int, to as int),
{
    let mut r = String::new();
    let mut i: usize = from;
    while i < to
        invariant
            from <= i <= to <= l@.len(),
            r@ == l@.subrange(from as int, i as int),
        decreases to - i,
    {
        push_char(&mut r, l[i]);
        proof {
            assert(r@ =~= l@.subrange(from as int, i + 1));
        }
        i = i + 1;
    }
    r
}

/// The whole of `l` as an owned `String`.
pub fn string_of(l: &Vec<char>) -> (r: String)
    ensures
        r@ == l@,
{
    let r = string_range(l, 0, l.len());
    proof {
        assert(l@.subrange(0, l@.len() as int) =~= l@);
    }
    r
}

/// The substring `l[from..to]`, ASCII lower-cased, as an owned `String`.
pub fn lower_range(l: &Vec<char>, from: usize, to: usize) -> (r: String)
    requires
        from <= to <= l@.len(),
    ensures
        r@ == lower_seq(l@.subrange(from as int, to as int)),
{
    let mut r = String::new();
    let mut i: usize = from;
    while i < to
        invariant
            from <= i <= to <= l@.len(),
            r@ == lower_seq(l@.subrange(from as int, i as int)),
        decreases to - i,
    {
        push_char(&mut r, to_lower(l[i]));
        proof {
            assert(r@ =~= lower_seq(l@.subrange(from as int, i + 1)));
        }
        i = i + 1;
    }
    r
}

/// Are two character vectors equal?
pub fn chars_eq(a: &Vec<char>, b: &Vec<char>) -> (r: bool)
    ensures
        r == (a@ == b@),
{
    if a.len() != b.len() {
        proof {
            assert(a@ !~= b@);
        }
        return false;
    }
    let mut i: usize = 0;
    while i < a.len()
        invariant
            i <= a@.len() == b@.len(),
            forall|j: int| 0 <= j < i ==> a@[j] == b@[j],
        decreases a@.len() - i,
    {
        if a[i] != b[i] {
            return false;
        }
        i = i + 1;
    }
    proof {
        assert(a@ =~= b@);
    }
    true
}

/// Are two strings equal? Uses the standard `String` equality.
pub fn streq(a: &String, b: &String) -> (r: bool)
    ensures
        r == (a@ == b@),
{
    a.eq(b)
}

/// The parts joined with the single character `c`.
pub fn join_with(parts: &Vec<String>, c: char) -> (r: String)
    ensures
        r@ == join_char(parts.deep_view(), c),
{
    let mut r = String::new();
    if parts.len() == 0 {
        return r;
    }
    let mut i: usize = parts.len() - 1;
    let mut tail: String = parts[i].clone();
    proof {
        assert(parts.deep_view().skip(i as int) =~= seq![parts@[i as int]@]);
    }
    while i > 0
        invariant
            i < parts@.len(),
            parts.deep_view().len() == parts@.len(),
            forall|j: int| 0 <= j < parts@.len() ==> parts.deep_view()[j] == parts@[j]@,
            tail@ == join_char(parts.deep_view().skip(i as int), c),
        decreases i,
    {
        i = i - 1;
        let mut piece: String = parts[i].clone();
        push_char(&mut piece, c);
        piece.append(tail.as_str());
        tail = piece;
        proof {
            let dv = parts.deep_view();
            assert(dv.skip(i as int).drop_first() =~= dv.skip(i + 1));
            assert(dv.skip(i as int)[0] == parts@[i as int]@);
            assert(dv.skip(i as int).len() >= 2);
        }
    }
    proof {
        assert(parts.deep_view().skip(0) =~= parts.deep_view());
    }
    tail
}

/// The parts joined with the separator text `sep`.
pub fn join_with_str(parts: &Vec<String>, sep: &str) -> (r: String)
    ensures
        r@ == crate::org::chars::join_str(parts.deep_view(), sep@),
{
    let mut r = String::new();
    if parts.len() == 0 {
        return r;
    }
    let mut i: usize = parts.len() - 1;
    let mut tail: String = parts[i].clone();
    proof {
        assert(parts.deep_view().skip(i as int) =~= seq![parts@[i as int]@]);
    }
    while i > 0
        invariant
            i < parts@.len(),
            parts.deep_view().len() == parts@.len(),
            forall|j: int| 0 <= j < parts@.len() ==> parts.deep_view()[j] == parts@[j]@,
            tail@ == crate::org::chars::join_str(parts.deep_view().skip(i as int), sep@),
        decreases i,
    {
        i = i - 1;
        let mut piece: String = parts[i].clone();
        piece.append(sep);
        piece.append(tail.as_str());
        tail = piece;
        proof {
            let dv = parts.deep_view();
            assert(dv.skip(i as int).drop_first() =~= dv.skip(i + 1));
            assert(dv.skip(i as int)[0] == parts@[i as int]@);
            assert(dv.skip(i as int).len() >= 2);
        }
    }
    proof {
        assert(parts.deep_view().skip(0) =~= parts.deep_view());
    }
    tail
}

fn to_lower(c: char) -> (r: char)
    ensures
        r == lower_char(c),
{
    crate::org::chars::to_lower_char(c)
}

} // verus!
