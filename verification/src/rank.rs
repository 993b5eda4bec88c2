//! Ordering values by rank, and the stable sort that the collections are
//! kept in.

use vstd::prelude::*;

verus! {

/// A type whose values are ranked by a total preorder. Two values may tie;
/// a stable sort keeps tied values in the order in which it found them.
pub trait Ranked: Sized {
    /// `self` does not rank after `other`.
    spec fn rank_le(&self, other: &Self) -> bool;

    /// Decides `rank_le`.
    fn ranks_le(&self, other: &Self) -> (le: bool)
        ensures
            le == self.rank_le(other),
    ;

    /// Of any two values one does not rank after the other.
    proof fn rank_total(a: &Self, b: &Self)
        ensures
            a.rank_le(b) || b.rank_le(a),
    ;

    /// The ranking is transitive.
    proof fn rank_transitive(a: &Self, b: &Self, c: &Self)
        requires
            a.rank_le(b),
            b.rank_le(c),
        ensures
            a.rank_le(c),
    ;
}

/// Whole numbers are ranked by size.
impl Ranked for i32 {
    open spec fn rank_le(&self, other: &Self) -> bool {
        *self <= *other
    }

    fn ranks_le(&self, other: &Self) -> (le: bool) {
        *self <= *other
    }

    proof fn rank_total(a: &Self, b: &Self) {
    }

    proof fn rank_transitive(a: &Self, b: &Self, c: &Self) {
    }
}

/// Each element does not rank after any later one.
pub open spec fn ranked<T: Ranked>(s: Seq<T>) -> bool {
    forall|i: int, j: int| 0 <= i < j < s.len() ==> (#[trigger] s[i]).rank_le(#[trigger] &s[j])
}

/// `x` and `y` have the same rank.
pub open spec fn tied<T: Ranked>(x: T, y: T) -> bool {
    x.rank_le(&y) && y.rank_le(&x)
}

/// The elements of `s` that tie with `x`, in the order in which `s` has them.
pub open spec fn ties<T: Ranked>(s: Seq<T>, x: T) -> Seq<T> {
    s.filter(|y: T| tied(x, y))
}

/// `out` is `input` sorted by rank with ties left in place: `out` is ranked,
/// and for every rank it has the elements of that rank that `input` has, in
/// the same order.
pub open spec fn is_stable_sort_of<T: Ranked>(out: Seq<T>, input: Seq<T>) -> bool {
    &&& ranked(out)
    &&& forall|x: T| #[trigger] ties(out, x) == ties(input, x)
}

/// A sequence none of whose elements ties with `x` has no ties with `x`.
proof fn lemma_no_ties<T: Ranked>(s: Seq<T>, x: T)
    requires
        forall|i: int| 0 <= i < s.len() ==> !tied(x, #[trigger] s[i]),
    ensures
        ties(s, x) == Seq::<T>::empty(),
    decreases s.len(),
{
    reveal(Seq::filter);
    if s.len() > 0 {
        lemma_no_ties(s.drop_last(), x);
    }
}

/// The ties of a one-element sequence.
proof fn lemma_ties_of_one<T: Ranked>(e: T, x: T)
    ensures
        ties(seq![e], x) == if tied(x, e) {
            seq![e]
        } else {
            Seq::<T>::empty()
        },
{
    reveal(Seq::filter);
    let s = seq![e];
    assert(s.drop_last() =~= Seq::<T>::empty());
    assert(s.drop_last().filter(|y: T| tied(x, y)) =~= Seq::<T>::empty());
    assert(s.last() == e);
    if tied(x, e) {
        assert(ties(s, x) =~= seq![e]);
    }
}

/// Taking one more element of `s` adds that element to the ties it belongs to.
proof fn lemma_ties_of_prefix<T: Ranked>(s: Seq<T>, i: int, x: T)
    requires
        0 <= i < s.len(),
    ensures
        ties(s.subrange(0, i + 1), x) == ties(s.subrange(0, i), x) + ties(seq![s[i]], x),
{
    assert(s.subrange(0, i + 1) =~= s.subrange(0, i) + seq![s[i]]);
    Seq::filter_distributes_over_add(s.subrange(0, i), seq![s[i]], |y: T| tied(x, y));
}

/// Putting `e` behind the elements that do not rank after it, and before the
/// first that does, keeps a ranked sequence ranked and adds `e` at the end of
/// its ties.
proof fn lemma_insert_ranked<T: Ranked>(s: Seq<T>, p: int, e: T)
    requires
        ranked(s),
        0 <= p <= s.len(),
        forall|i: int| 0 <= i < p ==> (#[trigger] s[i]).rank_le(&e),
        p < s.len() ==> !s[p].rank_le(&e),
    ensures
        ranked(s.insert(p, e)),
        forall|x: T| #[trigger] ties(s.insert(p, e), x) == ties(s, x) + ties(seq![e], x),
{
    let t = s.insert(p, e);
    // Every element from `p` on ranks strictly after `e`.
    assert forall|j: int| p <= j < s.len() implies e.rank_le(&s[j]) && !(#[trigger] s[j]).rank_le(
        &e,
    ) by {
        T::rank_total(&e, &s[j]);
        if s[j].rank_le(&e) {
            if p < j {
                assert(s[p].rank_le(&s[j]));
                T::rank_transitive(&s[p], &s[j], &e);
            }
        }
    }
    assert forall|i: int, j: int| 0 <= i < j < t.len() implies (#[trigger] t[i]).rank_le(
        #[trigger] &t[j],
    ) by {
        if j < p {
            assert(t[i] == s[i] && t[j] == s[j]);
        } else if j == p {
            assert(t[i] == s[i]);
        } else if i < p {
            assert(t[i] == s[i] && t[j] == s[j - 1]);
            if i < j - 1 {
            } else {
                T::rank_transitive(&s[i], &e, &s[j - 1]);
            }
        } else if i == p {
            assert(t[j] == s[j - 1]);
        } else {
            assert(t[i] == s[i - 1] && t[j] == s[j - 1]);
        }
    }
    assert forall|x: T| #[trigger] ties(t, x) == ties(s, x) + ties(seq![e], x) by {
        let head = s.subrange(0, p);
        let tail = s.subrange(p, s.len() as int);
        let pred = |y: T| tied(x, y);
        assert(t =~= head + seq![e] + tail);
        assert(s =~= head + tail);
        Seq::filter_distributes_over_add(head + seq![e], tail, pred);
        Seq::filter_distributes_over_add(head, seq![e], pred);
        Seq::filter_distributes_over_add(head, tail, pred);
        lemma_ties_of_one(e, x);
        if tied(x, e) {
            assert forall|j: int| 0 <= j < tail.len() implies !tied(x, #[trigger] tail[j]) by {
                assert(tail[j] == s[p + j]);
                if tied(x, tail[j]) {
                    T::rank_transitive(&s[p + j], &x, &e);
                }
            }
            lemma_no_ties(tail, x);
            assert(ties(t, x) =~= ties(s, x) + ties(seq![e], x));
        } else {
            assert(ties(t, x) =~= ties(s, x) + ties(seq![e], x));
        }
    }
}

/// What the last element adds to the ties of what stands before it.
proof fn lemma_ties_of_last<T: Ranked>(s: Seq<T>, x: T)
    requires
        s.len() > 0,
    ensures
        ties(s, x) == if tied(x, s.last()) {
            ties(s.drop_last(), x).push(s.last())
        } else {
            ties(s.drop_last(), x)
        },
{
    reveal(Seq::filter);
}

/// An element of a sequence is among its own ties.
proof fn lemma_ties_hold<T: Ranked>(s: Seq<T>, i: int)
    requires
        0 <= i < s.len(),
    ensures
        ties(s, s[i]).contains(s[i]),
{
    T::rank_total(&s[i], &s[i]);
    s.lemma_filter_contains(|y: T| tied(s[i], y), i);
}

/// What is among the ties of `x` in `s` is an element of `s`.
proof fn lemma_ties_are_elements<T: Ranked>(s: Seq<T>, x: T, e: T)
    requires
        ties(s, x).contains(e),
    ensures
        s.contains(e),
    decreases s.len(),
{
    reveal(Seq::filter);
    if s.len() > 0 {
        lemma_ties_of_last(s, x);
        let front = ties(s.drop_last(), x);
        let k = choose|k: int| 0 <= k < ties(s, x).len() && ties(s, x)[k] == e;
        if k < front.len() {
            assert(front[k] == e);
            lemma_ties_are_elements(s.drop_last(), x, e);
            let m = choose|m: int| 0 <= m < s.drop_last().len() && s.drop_last()[m] == e;
            assert(s[m] == e);
        } else {
            assert(s[s.len() - 1] == e);
        }
    }
}

/// In a ranked sequence no element ranks after the last.
proof fn lemma_last_ranks_last<T: Ranked>(s: Seq<T>, e: T)
    requires
        ranked(s),
        s.contains(e),
    ensures
        e.rank_le(&s.last()),
{
    let k = choose|k: int| 0 <= k < s.len() && s[k] == e;
    if k < s.len() - 1 {
        assert(s[k].rank_le(&s[s.len() - 1]));
    } else {
        T::rank_total(&e, &e);
    }
}

/// The stable sort of a sequence is unique: two sequences that are both
/// `input` sorted by rank with ties left in place are the same sequence.
pub proof fn law_stable_sort_is_unique<T: Ranked>(a: Seq<T>, b: Seq<T>, input: Seq<T>)
    requires
        is_stable_sort_of(a, input),
        is_stable_sort_of(b, input),
    ensures
        a == b,
{
    assert forall|x: T| #[trigger] ties(a, x) == ties(b, x) by {
        assert(ties(a, x) == ties(input, x));
        assert(ties(b, x) == ties(input, x));
    }
    lemma_same_ties_same_order(a, b);
}

/// Two ranked sequences with the same ties at every rank are the same.
proof fn lemma_same_ties_same_order<T: Ranked>(a: Seq<T>, b: Seq<T>)
    requires
        ranked(a),
        ranked(b),
        forall|x: T| #[trigger] ties(a, x) == ties(b, x),
    ensures
        a == b,
    decreases a.len(),
{
    reveal(Seq::filter);
    if a.len() == 0 {
        if b.len() > 0 {
            lemma_ties_hold(b, 0);
            assert(ties(a, b[0]) == ties(b, b[0]));
            assert(ties(a, b[0]) =~= Seq::<T>::empty());
            assert(false);
        }
        assert(a =~= b);
    } else {
        let z = a.last();
        lemma_ties_hold(a, a.len() - 1);
        assert(ties(a, z) == ties(b, z));
        lemma_ties_are_elements(b, z, z);
        assert(b.len() > 0);
        let w = b.last();
        lemma_ties_hold(b, b.len() - 1);
        assert(ties(a, w) == ties(b, w));
        lemma_ties_are_elements(a, w, w);
        lemma_last_ranks_last(a, w);
        lemma_last_ranks_last(b, z);
        assert(tied(z, w));
        lemma_ties_of_last(a, z);
        lemma_ties_of_last(b, z);
        assert(ties(a, z).last() == z);
        assert(ties(b, z).last() == w);
        assert(z == w);
        assert(ranked(a.drop_last())) by {
            assert forall|i: int, j: int| 0 <= i < j < a.drop_last().len() implies (
            #[trigger] a.drop_last()[i]).rank_le(#[trigger] &a.drop_last()[j]) by {
                assert(a[i].rank_le(&a[j]));
            }
        }
        assert(ranked(b.drop_last())) by {
            assert forall|i: int, j: int| 0 <= i < j < b.drop_last().len() implies (
            #[trigger] b.drop_last()[i]).rank_le(#[trigger] &b.drop_last()[j]) by {
                assert(b[i].rank_le(&b[j]));
            }
        }
        assert forall|x: T| #[trigger] ties(a.drop_last(), x) == ties(b.drop_last(), x) by {
            lemma_ties_of_last(a, x);
            lemma_ties_of_last(b, x);
            assert(ties(a, x) == ties(b, x));
            if tied(x, z) {
                assert(ties(a.drop_last(), x) =~= ties(a, x).drop_last());
                assert(ties(b.drop_last(), x) =~= ties(b, x).drop_last());
            }
        }
        lemma_same_ties_same_order(a.drop_last(), b.drop_last());
        assert(a =~= a.drop_last().push(z));
        assert(b =~= b.drop_last().push(w));
    }
}

/// Sorts `items` by rank. Elements that tie keep the order they had.
pub fn sort_stable<T: Ranked>(items: Vec<T>) -> (out: Vec<T>)
    ensures
        is_stable_sort_of(out@, items@),
{
    let ghost input = items@;
    let mut rest = items;
    let mut out: Vec<T> = Vec::new();
    let ghost mut taken: int = 0;
    proof {
        assert(input.subrange(0, 0) =~= out@);
    }
    while rest.len() > 0
        invariant
            0 <= taken <= input.len(),
            rest@ == input.subrange(taken, input.len() as int),
            ranked(out@),
            forall|x: T| #[trigger] ties(out@, x) == ties(input.subrange(0, taken), x),
        decreases rest.len(),
    {
        let e = rest.remove(0);
        assert(e == input[taken]);
        let mut p: usize = 0;
        while p < out.len() && out[p].ranks_le(&e)
            invariant
                p <= out.len(),
                forall|i: int| 0 <= i < p ==> (#[trigger] out@[i]).rank_le(&e),
            decreases out.len() - p,
        {
            p = p + 1;
        }
        proof {
            lemma_insert_ranked(out@, p as int, e);
            assert forall|x: T| #[trigger]
                ties(out@.insert(p as int, e), x) == ties(input.subrange(0, taken + 1), x) by {
                lemma_ties_of_prefix(input, taken, x);
            }
            assert(rest@ =~= input.subrange(taken + 1, input.len() as int));
            taken = taken + 1;
        }
        out.insert(p, e);
    }
    proof {
        assert(input.subrange(0, taken) =~= input);
    }
    out
}

} // verus!
