//! Sets of ids listed in ascending order.

use vstd::prelude::*;

verus! {

/// Every element of `q` is smaller than those behind it.
pub open spec fn strictly_ascending(q: Seq<u32>) -> bool {
    forall|i: int, j: int| 0 <= i < j < q.len() ==> q[i] < q[j]
}

/// The elements of `s` below `bound`, smallest first.
pub open spec fn ascending_below(s: Set<u32>, bound: nat) -> Seq<u32>
    decreases bound,
{
    if bound == 0 {
        Seq::empty()
    } else {
        let below = ascending_below(s, (bound - 1) as nat);
        if bound - 1 <= u32::MAX && s.contains((bound - 1) as u32) {
            below.push((bound - 1) as u32)
        } else {
            below
        }
    }
}

/// The elements of `s`, smallest first.
pub open spec fn ascending(s: Set<u32>) -> Seq<u32> {
    ascending_below(s, 0x1_0000_0000)
}

proof fn lemma_ascending_below(s: Set<u32>, bound: nat)
    ensures
        strictly_ascending(ascending_below(s, bound)),
        forall|id: u32| #[trigger]
            ascending_below(s, bound).contains(id) <==> s.contains(id) && id < bound,
    decreases bound,
{
    let all = ascending_below(s, bound);
    if bound > 0 {
        let below = ascending_below(s, (bound - 1) as nat);
        lemma_ascending_below(s, (bound - 1) as nat);
        if bound - 1 <= u32::MAX && s.contains((bound - 1) as u32) {
            let top = (bound - 1) as u32;
            assert(all == below.push(top));
            assert forall|i: int, j: int| 0 <= i < j < all.len() implies all[i] < all[j] by {
                assert(all[i] == below[i]);
                assert(below.contains(below[i]));
                assert(below[i] < bound - 1);
                if j < below.len() {
                    assert(all[j] == below[j]);
                } else {
                    assert(all[j] == top);
                }
            }
            assert forall|id: u32| #[trigger] all.contains(id) <==> s.contains(id) && id
                < bound by {
                if all.contains(id) {
                    let i = choose|i: int| 0 <= i < all.len() && all[i] == id;
                    if i < below.len() {
                        assert(below[i] == id);
                        assert(below.contains(id));
                    }
                }
                if s.contains(id) && id < bound {
                    if id == top {
                        assert(all[below.len() as int] == id);
                    } else {
                        assert(below.contains(id));
                        let i = choose|i: int| 0 <= i < below.len() && below[i] == id;
                        assert(all[i] == id);
                    }
                }
            }
        } else {
            assert(all == below);
            assert forall|id: u32| #[trigger] all.contains(id) <==> s.contains(id) && id
                < bound by {
                if s.contains(id) && id < bound {
                    assert(id != bound - 1);
                }
            }
        }
    } else {
        assert(all.len() == 0);
    }
}

/// `ascending(s)` is strictly ascending and lists exactly the elements of `s`.
pub proof fn lemma_ascending_lists(s: Set<u32>)
    ensures
        strictly_ascending(ascending(s)),
        forall|id: u32| #[trigger] ascending(s).contains(id) <==> s.contains(id),
{
    lemma_ascending_below(s, 0x1_0000_0000);
}

/// Two strictly ascending sequences with the same elements are equal.
pub proof fn lemma_ascending_same_elements(a: Seq<u32>, b: Seq<u32>)
    requires
        strictly_ascending(a),
        strictly_ascending(b),
        forall|id: u32| a.contains(id) <==> b.contains(id),
    ensures
        a == b,
    decreases a.len(),
{
    if a.len() == 0 {
        if b.len() > 0 {
            assert(b.contains(b[0]));
        }
        assert(a =~= b);
    } else {
        let top = a.last();
        assert(a.contains(top));
        let j = choose|j: int| 0 <= j < b.len() && b[j] == top;
        if j < b.len() - 1 {
            assert(b.contains(b.last()));
            let i = choose|i: int| 0 <= i < a.len() && a[i] == b.last();
            assert(false);
        }
        let a0 = a.drop_last();
        let b0 = b.drop_last();
        assert forall|id: u32| a0.contains(id) <==> b0.contains(id) by {
            if a0.contains(id) {
                let i = choose|i: int| 0 <= i < a0.len() && a0[i] == id;
                assert(a[i] == id);
                assert(a.contains(id));
                let k = choose|k: int| 0 <= k < b.len() && b[k] == id;
                assert(b0[k] == id);
            }
            if b0.contains(id) {
                let k = choose|k: int| 0 <= k < b0.len() && b0[k] == id;
                assert(b[k] == id);
                assert(b.contains(id));
                let i = choose|i: int| 0 <= i < a.len() && a[i] == id;
                assert(a0[i] == id);
            }
        }
        lemma_ascending_same_elements(a0, b0);
        assert(a =~= a0.push(top));
        assert(b =~= b0.push(top));
    }
}

/// A strictly ascending sequence that lists exactly the elements of `s` is
/// `ascending(s)`.
pub proof fn lemma_ascending_unique(q: Seq<u32>, s: Set<u32>)
    requires
        strictly_ascending(q),
        forall|id: u32| q.contains(id) <==> s.contains(id),
    ensures
        q == ascending(s),
{
    lemma_ascending_lists(s);
    lemma_ascending_same_elements(q, ascending(s));
}

/// Puts `id` at its place in the strictly ascending `ids`, unless it is
/// there already.
pub(crate) fn insert_ascending(ids: &mut Vec<u32>, id: u32)
    requires
        strictly_ascending(old(ids)@),
    ensures
        strictly_ascending(final(ids)@),
        forall|other: u32| #[trigger]
            final(ids)@.contains(other) <==> old(ids)@.contains(other) || other == id,
{
    let mut low: usize = 0;
    let mut high: usize = ids.len();
    while low < high
        invariant
            low <= high <= ids.len(),
            strictly_ascending(ids@),
            forall|i: int| 0 <= i < low ==> ids@[i] < id,
            forall|i: int| high <= i < ids.len() ==> id <= ids@[i],
        decreases high - low,
    {
        let mid = low + (high - low) / 2;
        if ids[mid] < id {
            low = mid + 1;
        } else {
            high = mid;
        }
    }
    if low < ids.len() && ids[low] == id {
        return ;
    }
    let ghost before = ids@;
    ids.insert(low, id);
    proof {
        let after = ids@;
        assert(after.len() == before.len() + 1);
        assert forall|i: int| 0 <= i < after.len() implies after[i] == (if i < low {
            before[i]
        } else if i == low {
            id
        } else {
            before[i - 1]
        }) by {}
        assert forall|other: u32| after.contains(other) <==> before.contains(other) || other
            == id by {
            if after.contains(other) {
                let i = choose|i: int| 0 <= i < after.len() && after[i] == other;
                if i < low {
                    assert(before[i] == other);
                } else if i > low {
                    assert(before[i - 1] == other);
                }
            }
            if before.contains(other) {
                let i = choose|i: int| 0 <= i < before.len() && before[i] == other;
                if i < low {
                    assert(after[i] == other);
                } else {
                    assert(after[i + 1] == other);
                }
            }
            if other == id {
                assert(after[low as int] == other);
            }
        }
    }
}

} // verus!
