//! Facts about sequences that the proofs of the library share.

use vstd::prelude::*;

verus! {

/// What a sequence holds after one more element was appended.
pub proof fn lemma_contains_push<A>(s: Seq<A>, last: A, x: A)
    ensures
        s.push(last).contains(x) <==> s.contains(x) || x == last,
{
    let longer = s.push(last);
    if s.contains(x) {
        let i = choose|i: int| 0 <= i < s.len() && s[i] == x;
        assert(longer[i] == x);
    }
    if x == last {
        assert(longer[s.len() as int] == x);
    }
    if longer.contains(x) {
        let i = choose|i: int| 0 <= i < longer.len() && longer[i] == x;
        if i < s.len() {
            assert(s[i] == x);
        }
    }
}

/// How a filter goes on by one element.
pub proof fn lemma_filter_step<A>(s: Seq<A>, pred: spec_fn(A) -> bool, j: int)
    requires
        0 <= j < s.len(),
    ensures
        s.take(j + 1).filter(pred) == if pred(s[j]) {
            s.take(j).filter(pred).push(s[j])
        } else {
            s.take(j).filter(pred)
        },
{
    reveal(Seq::filter);
    assert(s.take(j + 1).drop_last() =~= s.take(j));
}

/// A filter whose test every element passes keeps the sequence.
pub proof fn lemma_filter_all<A>(s: Seq<A>, pred: spec_fn(A) -> bool)
    requires
        forall|i: int| 0 <= i < s.len() ==> pred(#[trigger] s[i]),
    ensures
        s.filter(pred) == s,
    decreases s.len(),
{
    reveal(Seq::filter);
    if s.len() > 0 {
        let front = s.drop_last();
        assert forall|i: int| 0 <= i < front.len() implies pred(#[trigger] front[i]) by {
            assert(front[i] == s[i]);
        }
        lemma_filter_all(front, pred);
        assert(front.push(s.last()) =~= s);
    } else {
        assert(s.filter(pred) =~= s);
    }
}

/// `from` tells, for each element that a filter keeps, where it stood:
/// the places rise, each holds an element that passes the test, and no
/// place whose element passes the test is left out.
pub open spec fn filter_witness<A>(s: Seq<A>, pred: spec_fn(A) -> bool, from: Seq<int>) -> bool {
    &&& from.len() == s.filter(pred).len()
    &&& forall|i: int| 0 <= i < from.len() ==> 0 <= #[trigger] from[i] < s.len()
    &&& forall|i: int| 0 <= i < from.len() ==> s.filter(pred)[i] == s[#[trigger] from[i]]
    &&& forall|i: int| 0 <= i < from.len() ==> pred(s[#[trigger] from[i]])
    &&& forall|i: int, j: int| 0 <= i < j < from.len() ==> #[trigger] from[i] < #[trigger] from[j]
    &&& forall|j: int| 0 <= j < s.len() && pred(#[trigger] s[j]) ==> from.contains(j)
}

/// A filter keeps the elements that pass the test, all of them and in
/// their order.
pub proof fn lemma_filter_order<A>(s: Seq<A>, pred: spec_fn(A) -> bool)
    ensures
        exists|from: Seq<int>| filter_witness(s, pred, from),
    decreases s.len(),
{
    reveal(Seq::filter);
    if s.len() == 0 {
        assert(filter_witness(s, pred, Seq::<int>::empty()));
    } else {
        let front = s.drop_last();
        lemma_filter_order(front, pred);
        let from = choose|from: Seq<int>| filter_witness(front, pred, from);
        if pred(s.last()) {
            let longer = from.push(s.len() - 1);
            assert forall|i: int| 0 <= i < longer.len() implies s.filter(pred)[i] == s[
            #[trigger] longer[i]] by {
                if i < from.len() {
                    assert(front.filter(pred)[i] == front[from[i]]);
                }
            }
            assert forall|j: int| 0 <= j < s.len() && pred(#[trigger] s[j]) implies longer.contains(
                j,
            ) by {
                if j < front.len() {
                    assert(pred(front[j]));
                    let k = choose|k: int| 0 <= k < from.len() && from[k] == j;
                    assert(longer[k] == j);
                } else {
                    assert(longer[from.len() as int] == j);
                }
            }
            assert(filter_witness(s, pred, longer));
        } else {
            assert forall|i: int| 0 <= i < from.len() implies s.filter(pred)[i] == s[
            #[trigger] from[i]] by {
                assert(front.filter(pred)[i] == front[from[i]]);
            }
            assert forall|j: int| 0 <= j < s.len() && pred(#[trigger] s[j]) implies from.contains(
                j,
            ) by {
                assert(pred(front[j]));
            }
            assert(filter_witness(s, pred, from));
        }
    }
}

} // verus!
