//! Splitting and joining of sequences around a separator element.
//!
//! Lines, dotted quads, colon-separated groups and `key:value` pairs are all
//! described with the three functions of this module.

use vstd::prelude::*;

verus! {

/// Index of the first occurrence of `x` in `s`; `s.len()` when `x` does not occur.
pub open spec fn first_index<T>(s: Seq<T>, x: T) -> int
    decreases s.len(),
{
    if s.len() == 0 || s[0] == x {
        0
    } else {
        1 + first_index(s.skip(1), x)
    }
}

/// The pieces of `s` between occurrences of `sep`. There is always at least
/// one piece; `n` separators give `n + 1` pieces, some of which may be empty.
pub open spec fn split_on<T>(s: Seq<T>, sep: T) -> Seq<Seq<T>>
    decreases s.len(),
{
    let i = first_index(s, sep);
    if 0 <= i < s.len() {
        seq![s.take(i)] + split_on(s.skip(i + 1), sep)
    } else {
        seq![s]
    }
}

/// The pieces written one after the other with `sep` between neighbours.
pub open spec fn join<T>(pieces: Seq<Seq<T>>, sep: T) -> Seq<T>
    decreases pieces.len(),
{
    if pieces.len() == 0 {
        Seq::empty()
    } else if pieces.len() == 1 {
        pieces[0]
    } else {
        pieces[0] + seq![sep] + join(pieces.skip(1), sep)
    }
}

/// The views of a sequence of slices.
pub open spec fn slice_views<T>(v: Seq<&[T]>) -> Seq<Seq<T>> {
    Seq::new(v.len(), |i: int| v[i]@)
}

/// The views of the elements of a sequence.
pub open spec fn views<T: View>(s: Seq<T>) -> Seq<T::V> {
    Seq::new(s.len(), |i: int| s[i]@)
}

/// `first_index` is in range, points at `x` when in range, and nothing before it is `x`.
pub proof fn lemma_first_index<T>(s: Seq<T>, x: T)
    ensures
        0 <= first_index(s, x) <= s.len(),
        first_index(s, x) < s.len() ==> s[first_index(s, x)] == x,
        forall|j: int| 0 <= j < first_index(s, x) ==> s[j] != x,
    decreases s.len(),
{
    if s.len() == 0 || s[0] == x {
    } else {
        lemma_first_index(s.skip(1), x);
        let r = first_index(s.skip(1), x);
        assert forall|j: int| 0 <= j < 1 + r implies s[j] != x by {
            if j > 0 {
                assert(s.skip(1)[j - 1] == s[j]);
            }
        }
    }
}

/// An index with nothing equal to `x` before it, which holds `x` or is the
/// length, is the first index.
pub proof fn lemma_first_index_is<T>(s: Seq<T>, x: T, i: int)
    requires
        0 <= i <= s.len(),
        forall|j: int| 0 <= j < i ==> s[j] != x,
        i < s.len() ==> s[i] == x,
    ensures
        first_index(s, x) == i,
    decreases s.len(),
{
    if s.len() == 0 || s[0] == x {
    } else {
        assert forall|j: int| 0 <= j < i - 1 implies s.skip(1)[j] != x by {
            assert(s.skip(1)[j] == s[j + 1]);
        }
        lemma_first_index_is(s.skip(1), x, i - 1);
    }
}

/// A sequence without the separator is its own single piece.
pub proof fn lemma_split_none<T>(s: Seq<T>, sep: T)
    requires
        !s.contains(sep),
    ensures
        split_on(s, sep) == seq![s],
{
    lemma_first_index(s, sep);
    if first_index(s, sep) < s.len() {
        assert(s.contains(sep));
    }
}

/// The first piece of a split ends at the first separator.
pub proof fn lemma_split_cons<T>(head: Seq<T>, sep: T, rest: Seq<T>)
    requires
        !head.contains(sep),
    ensures
        split_on(head + seq![sep] + rest, sep) == seq![head] + split_on(rest, sep),
{
    let s = head + seq![sep] + rest;
    assert forall|j: int| 0 <= j < head.len() implies s[j] != sep by {
        assert(s[j] == head[j]);
        if head[j] == sep {
            assert(head.contains(sep));
        }
    }
    lemma_first_index_is(s, sep, head.len() as int);
    assert(s.take(head.len() as int) =~= head);
    assert(s.skip(head.len() as int + 1) =~= rest);
}

/// Splitting undoes joining, as long as no piece holds the separator and there is a piece.
pub proof fn lemma_split_join<T>(pieces: Seq<Seq<T>>, sep: T)
    requires
        pieces.len() > 0,
        forall|i: int| 0 <= i < pieces.len() ==> !(#[trigger] pieces[i]).contains(sep),
    ensures
        split_on(join(pieces, sep), sep) == pieces,
    decreases pieces.len(),
{
    if pieces.len() == 1 {
        lemma_split_none(pieces[0], sep);
        assert(seq![pieces[0]] =~= pieces);
    } else {
        let rest = pieces.skip(1);
        assert forall|i: int| 0 <= i < rest.len() implies !(#[trigger] rest[i]).contains(sep) by {
            assert(rest[i] == pieces[i + 1]);
        }
        lemma_split_join(rest, sep);
        lemma_split_cons(pieces[0], sep, join(rest, sep));
        assert(seq![pieces[0]] + rest =~= pieces);
    }
}

/// A joined sequence holds an element only if it is the separator or some piece holds it.
pub proof fn lemma_join_contains<T>(pieces: Seq<Seq<T>>, sep: T, x: T)
    requires
        x != sep,
        forall|i: int| 0 <= i < pieces.len() ==> !(#[trigger] pieces[i]).contains(x),
    ensures
        !join(pieces, sep).contains(x),
    decreases pieces.len(),
{
    if pieces.len() == 0 {
    } else if pieces.len() == 1 {
    } else {
        let rest = pieces.skip(1);
        assert forall|i: int| 0 <= i < rest.len() implies !(#[trigger] rest[i]).contains(x) by {
            assert(rest[i] == pieces[i + 1]);
        }
        lemma_join_contains(rest, sep, x);
        let j = join(pieces, sep);
        if j.contains(x) {
            let k = choose|k: int| 0 <= k < j.len() && j[k] == x;
            if k < pieces[0].len() {
                assert(pieces[0][k] == x);
                assert(pieces[0].contains(x));
            } else if k == pieces[0].len() {
            } else {
                assert(join(rest, sep)[k - pieces[0].len() - 1] == x);
                assert(join(rest, sep).contains(x));
            }
        }
    }
}

/// Joining one more piece at the end.
pub proof fn lemma_join_push<T>(pieces: Seq<Seq<T>>, sep: T, last: Seq<T>)
    requires
        pieces.len() > 0,
    ensures
        join(pieces.push(last), sep) == join(pieces, sep) + seq![sep] + last,
    decreases pieces.len(),
{
    let all = pieces.push(last);
    if pieces.len() == 1 {
        assert(all.skip(1) =~= seq![last]);
        assert(join(all.skip(1), sep) == last);
    } else {
        assert(all.skip(1) =~= pieces.skip(1).push(last));
        lemma_join_push(pieces.skip(1), sep, last);
        assert(join(all, sep) =~= join(pieces, sep) + seq![sep] + last);
    }
}

/// The views of a pushed sequence.
pub proof fn lemma_views_push<T: View>(s: Seq<T>, x: T)
    ensures
        views(s.push(x)) == views(s).push(x@),
{
    assert(views(s.push(x)) =~= views(s).push(x@));
}

} // verus!
