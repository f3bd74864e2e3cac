//! Text as sequences of characters: conversion between strings and
//! character vectors, and splitting on separator characters.

use vstd::prelude::*;

verus! {

/// `String::push` appends the one character to the end of the string.
pub assume_specification[ String::push ](s: &mut String, c: char)
    ensures
        final(s)@ == old(s)@.push(c),
;

/// The position of the first character of `s` that is one of `seps`,
/// or the length of `s` where it holds none of them.
pub open spec fn first_sep(s: Seq<char>, seps: Seq<char>) -> nat
    decreases s.len(),
{
    if s.len() == 0 || seps.contains(s[0]) {
        0
    } else {
        1 + first_sep(s.drop_first(), seps)
    }
}

/// The pieces of `s` between separators. Every character of `s` that is
/// one of `seps` ends a piece and is left out; a piece may be empty, and
/// text without a separator is one piece.
pub open spec fn split(s: Seq<char>, seps: Seq<char>) -> Seq<Seq<char>>
    decreases s.len(),
{
    let k = first_sep(s, seps);
    if k >= s.len() {
        seq![s]
    } else {
        seq![s.take(k as int)] + split(s.skip(k + 1 as int), seps)
    }
}

/// The views of the vectors of `v`, in order.
pub open spec fn views(v: Seq<Vec<char>>) -> Seq<Seq<char>> {
    Seq::new(v.len(), |i: int| v[i]@)
}

/// The views of the strings of `v`, in order.
pub open spec fn texts(v: Seq<&str>) -> Seq<Seq<char>> {
    Seq::new(v.len(), |i: int| v[i]@)
}

/// The first separator of `s` is at `k` where none stands before `k` and
/// either one stands at `k` or `k` is the length of `s`.
pub proof fn lemma_first_sep_at(s: Seq<char>, seps: Seq<char>, k: int)
    requires
        0 <= k <= s.len(),
        forall|j: int| 0 <= j < k ==> !seps.contains(#[trigger] s[j]),
        k < s.len() ==> seps.contains(s[k]),
    ensures
        first_sep(s, seps) == k,
    decreases s.len(),
{
    if k == 0 {
    } else {
        let t = s.drop_first();
        assert forall|j: int| 0 <= j < k - 1 implies !seps.contains(#[trigger] t[j]) by {
            assert(t[j] == s[j + 1]);
        }
        lemma_first_sep_at(t, seps, k - 1);
    }
}

/// Whether no character of `s` is one of `seps`.
pub open spec fn free_of(s: Seq<char>, seps: Seq<char>) -> bool {
    forall|i: int| 0 <= i < s.len() ==> !seps.contains(#[trigger] s[i])
}

/// Text without a separator is one piece.
pub proof fn lemma_split_whole(s: Seq<char>, seps: Seq<char>)
    requires
        free_of(s, seps),
    ensures
        split(s, seps) == seq![s],
{
    lemma_first_sep_at(s, seps, s.len() as int);
}

/// Splitting cuts at the first separator: what stands before it is the
/// first piece, and the other pieces are those of what stands after it.
pub proof fn lemma_split_first(head: Seq<char>, sep: char, tail: Seq<char>, seps: Seq<char>)
    requires
        free_of(head, seps),
        seps.contains(sep),
    ensures
        split(head + seq![sep] + tail, seps) == seq![head] + split(tail, seps),
{
    let s = head + seq![sep] + tail;
    let k = head.len() as int;
    assert forall|j: int| 0 <= j < k implies !seps.contains(#[trigger] s[j]) by {
        assert(s[j] == head[j]);
    }
    assert(s[k] == sep);
    lemma_first_sep_at(s, seps, k);
    assert(s.take(k) == head);
    assert(s.skip(k + 1) == tail);
}

/// The characters of `s`, in order.
pub fn chars_of(s: &str) -> (v: Vec<char>)
    ensures
        v@ == s@,
{
    let mut v: Vec<char> = Vec::new();
    for c in it: s.chars()
        invariant
            it.seq() == s@,
            v@ == it.seq().take(it.index()),
    {
        v.push(c);
    }
    v
}

/// The string made of the characters of `v`, in order.
pub fn string_of(v: &Vec<char>) -> (s: String)
    ensures
        s@ == v@,
{
    let mut s = String::new();
    let mut i: usize = 0;
    while i < v.len()
        invariant
            i <= v.len(),
            s@ == v@.take(i as int),
        decreases v.len() - i,
    {
        s.push(v[i]);
        i = i + 1;
    }
    s
}

/// Whether `c` is one of the characters of `seps`.
pub fn is_one_of(c: char, seps: &Vec<char>) -> (b: bool)
    ensures
        b == seps@.contains(c),
{
    let mut i: usize = 0;
    while i < seps.len()
        invariant
            i <= seps.len(),
            forall|j: int| 0 <= j < i ==> seps@[j] != c,
        decreases seps.len() - i,
    {
        if seps[i] == c {
            return true;
        }
        i = i + 1;
    }
    false
}

/// Splits `s` at every character that is one of `seps`.
pub fn split_chars(s: &Vec<char>, seps: &Vec<char>) -> (pieces: Vec<Vec<char>>)
    ensures
        views(pieces@) == split(s@, seps@),
{
    let mut pieces: Vec<Vec<char>> = Vec::new();
    let mut piece: Vec<char> = Vec::new();
    let mut start: usize = 0;
    let mut i: usize = 0;
    proof {
        assert(s@.skip(0) == s@);
        assert(views(pieces@) + split(s@, seps@) == split(s@, seps@));
    }
    while i < s.len()
        invariant
            start <= i <= s.len(),
            piece@ == s@.subrange(start as int, i as int),
            forall|j: int| start <= j < i ==> !seps@.contains(#[trigger] s@[j]),
            split(s@, seps@) == views(pieces@) + split(s@.skip(start as int), seps@),
        decreases s.len() - i,
    {
        let c = s[i];
        if is_one_of(c, seps) {
            proof {
                let rest = s@.skip(start as int);
                lemma_first_sep_at(rest, seps@, i - start);
                assert(rest.take(i - start) == piece@);
                assert(rest.skip(i - start + 1) == s@.skip(i + 1));
                assert(views(pieces@.push(piece)) == views(pieces@).push(piece@));
                assert(views(pieces@).push(piece@) + split(s@.skip(i + 1), seps@) == views(
                    pieces@,
                ) + (seq![piece@] + split(s@.skip(i + 1), seps@)));
            }
            pieces.push(piece);
            piece = Vec::new();
            start = i + 1;
        } else {
            piece.push(c);
        }
        i = i + 1;
        assert(piece@ == s@.subrange(start as int, i as int));
    }
    proof {
        let rest = s@.skip(start as int);
        lemma_first_sep_at(rest, seps@, rest.len() as int);
        assert(rest == piece@);
        assert(views(pieces@.push(piece)) == views(pieces@).push(piece@));
        assert(views(pieces@).push(piece@) == views(pieces@) + seq![piece@]);
    }
    pieces.push(piece);
    pieces
}

} // verus!
