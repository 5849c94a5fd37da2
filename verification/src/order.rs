//! Lists in a strict order.

use vstd::prelude::*;

verus! {

/// Whether each item of a list comes before all that follow it.
pub open spec fn in_strict_order<A>(list: Seq<A>, before: spec_fn(A, A) -> bool) -> bool {
    forall|i: int, j: int| 0 <= i < j < list.len() ==> before(#[trigger] list[i], #[trigger] list[j])
}

/// Whether no two items come before each other, nor one before itself.
pub open spec fn is_asymmetric<A>(before: spec_fn(A, A) -> bool) -> bool {
    forall|a: A, b: A| #[trigger] before(a, b) ==> !before(b, a)
}

/// Two lists with the same items, both in the same strict order, are the same.
pub proof fn lemma_ordered_lists_agree<A>(a: Seq<A>, b: Seq<A>, before: spec_fn(A, A) -> bool)
    requires
        is_asymmetric(before),
        in_strict_order(a, before),
        in_strict_order(b, before),
        forall|item: A| #[trigger] a.contains(item) <==> b.contains(item),
    ensures
        a == b,
    decreases a.len(),
{
    if a.len() == 0 {
        if b.len() > 0 {
            assert(b.contains(b[0]));
            assert(a.contains(b[0]));
        }
        assert(a =~= b);
    } else {
        assert(a.contains(a.last()));
        let i = choose|i: int| 0 <= i < b.len() && b[i] == a.last();
        assert(b.contains(b.last()));
        assert(a.contains(b.last()));
        let j = choose|j: int| 0 <= j < a.len() && a[j] == b.last();
        if i < b.len() - 1 && j < a.len() - 1 {
            assert(before(b[i], b[b.len() - 1]));
            assert(before(a[j], a[a.len() - 1]));
            assert(before(b.last(), a.last()));
        } else if i < b.len() - 1 {
            assert(a.last() == b.last());
            assert(before(b[i], b[b.len() - 1]));
        }
        assert(a.last() == b.last());
        let shorter_a = a.drop_last();
        let shorter_b = b.drop_last();
        assert forall|item: A| #[trigger] shorter_a.contains(item) <==> shorter_b.contains(
            item,
        ) by {
            if shorter_a.contains(item) {
                let k = choose|k: int| 0 <= k < shorter_a.len() && shorter_a[k] == item;
                assert(before(a[k], a[a.len() - 1]));
                assert(a.contains(item));
                let m = choose|m: int| 0 <= m < b.len() && b[m] == item;
                assert(m < b.len() - 1);
                assert(shorter_b[m] == item);
            }
            if shorter_b.contains(item) {
                let k = choose|k: int| 0 <= k < shorter_b.len() && shorter_b[k] == item;
                assert(before(b[k], b[b.len() - 1]));
                assert(b.contains(item) && a.contains(item));
                let m = choose|m: int| 0 <= m < a.len() && a[m] == item;
                assert(m < a.len() - 1);
                assert(shorter_a[m] == item);
            }
        }
        lemma_ordered_lists_agree(shorter_a, shorter_b, before);
        assert(a =~= shorter_a.push(a.last()));
        assert(b =~= shorter_b.push(b.last()));
    }
}

} // verus!
