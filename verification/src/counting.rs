//! Counting and selecting the elements of a sequence that satisfy a
//! predicate, with the small lemmas the query matcher is proved against.

use vstd::prelude::*;

verus! {

/// How many elements of `s` satisfy `p`.
pub open spec fn count_where<A>(s: Seq<A>, p: spec_fn(A) -> bool) -> int
    decreases s.len(),
{
    if s.len() == 0 {
        0
    } else {
        count_where(s.drop_last(), p) + if p(s.last()) {
            1int
        } else {
            0int
        }
    }
}

/// The elements of `s` that satisfy `p`, in their original order.
pub open spec fn where_seq<A>(s: Seq<A>, p: spec_fn(A) -> bool) -> Seq<A>
    decreases s.len(),
{
    if s.len() == 0 {
        Seq::empty()
    } else {
        where_seq(s.drop_last(), p) + if p(s.last()) {
            seq![s.last()]
        } else {
            Seq::empty()
        }
    }
}

pub proof fn lemma_count_where_push<A>(s: Seq<A>, p: spec_fn(A) -> bool, x: A)
    ensures
        count_where(s.push(x), p) == count_where(s, p) + if p(x) {
            1int
        } else {
            0int
        },
{
    assert(s.push(x).drop_last() =~= s);
    assert(s.push(x).last() == x);
}

pub proof fn lemma_where_seq_push<A>(s: Seq<A>, p: spec_fn(A) -> bool, x: A)
    ensures
        where_seq(s.push(x), p) == where_seq(s, p) + if p(x) {
            seq![x]
        } else {
            Seq::<A>::empty()
        },
{
    assert(s.push(x).drop_last() =~= s);
    assert(s.push(x).last() == x);
}

pub proof fn lemma_count_where_bounds<A>(s: Seq<A>, p: spec_fn(A) -> bool)
    ensures
        0 <= count_where(s, p) <= s.len(),
    decreases s.len(),
{
    if s.len() > 0 {
        lemma_count_where_bounds(s.drop_last(), p);
    }
}

/// Counting two mutually exclusive predicates separately and counting their
/// disjunction agree: no element is ever counted twice.
pub proof fn lemma_count_where_disjoint<A>(
    s: Seq<A>,
    p: spec_fn(A) -> bool,
    q: spec_fn(A) -> bool,
    either: spec_fn(A) -> bool,
)
    requires
        forall|x: A| #[trigger] either(x) == (p(x) || q(x)),
        forall|x: A| !(#[trigger] p(x) && q(x)),
    ensures
        count_where(s, either) == count_where(s, p) + count_where(s, q),
    decreases s.len(),
{
    if s.len() > 0 {
        lemma_count_where_disjoint(s.drop_last(), p, q, either);
    }
}

/// Among the `n + 1` candidates `0 ..= n` there is at least one value that a
/// sequence of at most `n` ids does not contain.
pub proof fn lemma_id_exhaustion(ids: Seq<int>, n: int)
    requires
        ids.len() <= n,
    ensures
        exists|c: int| 0 <= c <= n && !ids.contains(c),
{
    broadcast use vstd::seq_lib::seq_to_set_is_finite;

    if forall|c: int| 0 <= c <= n ==> #[trigger] ids.contains(c) {
        let range = vstd::set_lib::set_int_range(0, n + 1);
        vstd::set_lib::lemma_int_range(0, n + 1);
        assert(range.subset_of(ids.to_set()));
        vstd::set_lib::lemma_len_subset(range, ids.to_set());
        ids.lemma_cardinality_of_set();
        assert(false);
    }
}

} // verus!
