//! How often a value occurs in a sequence.

use vstd::prelude::*;

verus! {

/// How often `x` occurs in `s`.
pub open spec fn occurrences<A>(s: Seq<A>, x: A) -> nat
    decreases s.len(),
{
    if s.len() == 0 {
        0
    } else {
        occurrences(s.drop_last(), x) + if s.last() == x {
            1nat
        } else {
            0nat
        }
    }
}

/// One more element occurs once more, and the others as often as before.
pub proof fn lemma_occurrences_push<A>(s: Seq<A>, y: A, x: A)
    ensures
        occurrences(s.push(y), x) == occurrences(s, x) + if y == x {
            1nat
        } else {
            0nat
        },
{
    assert(s.push(y).drop_last() =~= s);
}

/// In two sequences, one after the other, a value occurs as often as in the
/// two together.
pub proof fn lemma_occurrences_add<A>(a: Seq<A>, b: Seq<A>, x: A)
    ensures
        occurrences(a + b, x) == occurrences(a, x) + occurrences(b, x),
    decreases b.len(),
{
    if b.len() == 0 {
        assert(a + b =~= a);
    } else {
        assert((a + b).drop_last() =~= a + b.drop_last());
        lemma_occurrences_add(a, b.drop_last(), x);
    }
}

/// After each element is replaced by its image under `g`, the image of `x`
/// occurs as often as `x` did, where no other element has that image.
pub proof fn lemma_occurrences_map<A, B>(s: Seq<A>, g: spec_fn(A) -> B, x: A)
    requires
        forall|i: int| 0 <= i < s.len() && g(#[trigger] s[i]) == g(x) ==> s[i] == x,
    ensures
        occurrences(s.map_values(g), g(x)) == occurrences(s, x),
    decreases s.len(),
{
    if s.len() > 0 {
        assert(s.map_values(g).drop_last() =~= s.drop_last().map_values(g));
        assert(s.last() == s[s.len() - 1]);
        assert forall|i: int|
            0 <= i < s.drop_last().len() && g(#[trigger] s.drop_last()[i]) == g(
                x,
            ) implies s.drop_last()[i] == x by {
            assert(s.drop_last()[i] == s[i]);
        }
        lemma_occurrences_map(s.drop_last(), g, x);
    }
}

/// A value that occurs is one of the elements.
pub proof fn lemma_occurrences_index<A>(s: Seq<A>, x: A)
    ensures
        occurrences(s, x) > 0 <==> exists|i: int| 0 <= i < s.len() && #[trigger] s[i] == x,
    decreases s.len(),
{
    if s.len() > 0 {
        lemma_occurrences_index(s.drop_last(), x);
        if occurrences(s, x) > 0 {
            if s.last() == x {
                assert(s[s.len() - 1] == x);
            } else {
                let rest = s.drop_last();
                let i = choose|i: int| 0 <= i < rest.len() && #[trigger] rest[i] == x;
                assert(s[i] == x);
            }
        }
        if exists|i: int| 0 <= i < s.len() && #[trigger] s[i] == x {
            let i = choose|i: int| 0 <= i < s.len() && #[trigger] s[i] == x;
            if i < s.len() - 1 {
                assert(s.drop_last()[i] == x);
            }
        }
    }
}

/// How many elements of `s` satisfy `pred`.
pub open spec fn count_where<A>(s: Seq<A>, pred: spec_fn(A) -> bool) -> nat
    decreases s.len(),
{
    if s.len() == 0 {
        0
    } else {
        count_where(s.drop_last(), pred) + if pred(s.last()) {
            1nat
        } else {
            0nat
        }
    }
}

/// One more element counts where it satisfies the predicate.
pub proof fn lemma_count_where_push<A>(s: Seq<A>, y: A, pred: spec_fn(A) -> bool)
    ensures
        count_where(s.push(y), pred) == count_where(s, pred) + if pred(y) {
            1nat
        } else {
            0nat
        },
{
    assert(s.push(y).drop_last() =~= s);
}

/// Two sequences, one after the other, hold as many elements that satisfy
/// a predicate as the two together.
pub proof fn lemma_count_where_add<A>(a: Seq<A>, b: Seq<A>, pred: spec_fn(A) -> bool)
    ensures
        count_where(a + b, pred) == count_where(a, pred) + count_where(b, pred),
    decreases b.len(),
{
    if b.len() == 0 {
        assert(a + b =~= a);
    } else {
        assert((a + b).drop_last() =~= a + b.drop_last());
        lemma_count_where_add(a, b.drop_last(), pred);
    }
}

/// The elements that satisfy a predicate are those that satisfy one of two
/// predicates that split it.
pub proof fn lemma_count_where_split<A>(
    s: Seq<A>,
    pred: spec_fn(A) -> bool,
    left: spec_fn(A) -> bool,
    right: spec_fn(A) -> bool,
)
    requires
        forall|i: int|
            0 <= i < s.len() ==> (pred(#[trigger] s[i]) <==> left(s[i]) || right(s[i])) && !(left(
                s[i],
            ) && right(s[i])),
    ensures
        count_where(s, pred) == count_where(s, left) + count_where(s, right),
    decreases s.len(),
{
    if s.len() > 0 {
        let rest = s.drop_last();
        assert forall|i: int| 0 <= i < rest.len() implies (pred(#[trigger] rest[i]) <==> left(
            rest[i],
        ) || right(rest[i])) && !(left(rest[i]) && right(rest[i])) by {
            assert(rest[i] == s[i]);
        }
        lemma_count_where_split(rest, pred, left, right);
        assert(s.last() == s[s.len() - 1]);
    }
}

/// Where each element satisfies the predicate, each counts; where none
/// does, none counts.
pub proof fn lemma_count_where_all<A>(s: Seq<A>, pred: spec_fn(A) -> bool)
    ensures
        (forall|i: int| 0 <= i < s.len() ==> pred(#[trigger] s[i])) ==> count_where(s, pred)
            == s.len(),
        (forall|i: int| 0 <= i < s.len() ==> !pred(#[trigger] s[i])) ==> count_where(s, pred) == 0,
    decreases s.len(),
{
    if s.len() > 0 {
        let rest = s.drop_last();
        lemma_count_where_all(rest, pred);
        assert(s.last() == s[s.len() - 1]);
        if forall|i: int| 0 <= i < s.len() ==> pred(#[trigger] s[i]) {
            assert forall|i: int| 0 <= i < rest.len() implies pred(#[trigger] rest[i]) by {
                assert(rest[i] == s[i]);
            }
        }
        if forall|i: int| 0 <= i < s.len() ==> !pred(#[trigger] s[i]) {
            assert forall|i: int| 0 <= i < rest.len() implies !pred(#[trigger] rest[i]) by {
                assert(rest[i] == s[i]);
            }
        }
    }
}

/// Among the elements that `keep` keeps, as many satisfy `pred` as there are
/// elements that satisfy both.
pub proof fn lemma_count_where_filter<A>(
    s: Seq<A>,
    keep: spec_fn(A) -> bool,
    pred: spec_fn(A) -> bool,
    both: spec_fn(A) -> bool,
)
    requires
        forall|i: int| 0 <= i < s.len() ==> (both(#[trigger] s[i]) <==> keep(s[i]) && pred(s[i])),
    ensures
        count_where(s.filter(keep), pred) == count_where(s, both),
    decreases s.len(),
{
    reveal(Seq::filter);
    if s.len() > 0 {
        let rest = s.drop_last();
        assert forall|i: int| 0 <= i < rest.len() implies (both(#[trigger] rest[i]) <==> keep(
            rest[i],
        ) && pred(rest[i])) by {
            assert(rest[i] == s[i]);
        }
        lemma_count_where_filter(rest, keep, pred, both);
        assert(s.last() == s[s.len() - 1]);
        if keep(s.last()) {
            lemma_count_where_push(rest.filter(keep), s.last(), pred);
        }
    }
}

} // verus!
