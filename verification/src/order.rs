use vstd::prelude::*;
use vstd::multiset::Multiset;

use crate::content::{ClipboardItem, ItemView};

verus! {

/// Scan order of the history: more recent first, ties broken by ascending
/// identifier, so that the position of an item never depends on its pin
/// state.
pub open spec fn item_le(a: ItemView, b: ItemView) -> bool {
    a.timestamp > b.timestamp || (a.timestamp == b.timestamp && a.id <= b.id)
}

/// The sequence is sorted most recent first.
pub open spec fn sorted_by_recency(s: Seq<ItemView>) -> bool {
    forall|i: int, j: int| 0 <= i < j < s.len() ==> item_le(s[i], s[j])
}

/// The views of a sequence of items.
pub open spec fn seq_views(s: Seq<ClipboardItem>) -> Seq<ItemView> {
    s.map_values(|it: ClipboardItem| it@)
}

/// Recency order does not read the pin flag: toggling `pinned` moves no
/// item relative to any other.
pub proof fn lemma_order_ignores_pin(a1: ItemView, a2: ItemView, b: ItemView)
    requires
        a1.id == a2.id,
        a1.timestamp == a2.timestamp,
    ensures
        item_le(a1, b) == item_le(a2, b),
        item_le(b, a1) == item_le(b, a2),
{
}

/// Executable comparison in recency order.
fn item_before(a: &ClipboardItem, b: &ClipboardItem) -> (r: bool)
    ensures
        r == item_le(a@, b@),
{
    a.timestamp > b.timestamp || (a.timestamp == b.timestamp && a.id <= b.id)
}

/// Sorts items most recent first (ties by ascending identifier). The result
/// holds exactly the given items.
pub fn sort_items(items: Vec<ClipboardItem>) -> (r: Vec<ClipboardItem>)
    ensures
        sorted_by_recency(seq_views(r@)),
        r@.to_multiset() == items@.to_multiset(),
        r@.len() == items@.len(),
{
    broadcast use vstd::seq_lib::group_to_multiset_ensures, vstd::multiset::group_multiset_axioms;

    let mut rest = items;
    let mut out: Vec<ClipboardItem> = Vec::new();
    let ghost all: Seq<ClipboardItem> = rest@;
    proof {
        assert(out@.to_multiset().add(rest@.to_multiset()) =~= all.to_multiset());
    }
    while rest.len() > 0
        invariant
            out@.to_multiset().add(rest@.to_multiset()) == all.to_multiset(),
            out@.len() + rest@.len() == all.len(),
            sorted_by_recency(seq_views(out@)),
            forall|i: int, j: int|
                0 <= i < out@.len() && 0 <= j < rest@.len() ==> item_le(out@[i]@, rest@[j]@),
        decreases rest@.len(),
    {
        let mut bi: usize = 0;
        let mut k: usize = 1;
        while k < rest.len()
            invariant
                0 < rest@.len(),
                bi < rest@.len(),
                k <= rest@.len(),
                forall|t: int| 0 <= t < k ==> item_le(rest@[bi as int]@, rest@[t]@),
            decreases rest@.len() - k,
        {
            if item_before(&rest[k], &rest[bi]) {
                bi = k;
            }
            k += 1;
        }
        let ghost old_out = out@;
        let ghost old_rest = rest@;
        let x = rest.remove(bi);
        out.push(x);
        proof {
            broadcast use vstd::seq_lib::group_to_multiset_ensures, vstd::multiset::group_multiset_axioms;

            assert(old_rest.contains(old_rest[bi as int]));
            assert(old_rest.to_multiset().count(old_rest[bi as int]) > 0);
            assert(out@.to_multiset().add(rest@.to_multiset()) =~= all.to_multiset());
            assert forall|i: int, j: int|
                0 <= i < out@.len() && 0 <= j < rest@.len() implies item_le(
                out@[i]@,
                rest@[j]@,
            ) by {
                if i < old_out.len() {
                    if j < bi {
                        assert(rest@[j] == old_rest[j]);
                    } else {
                        assert(rest@[j] == old_rest[j + 1]);
                    }
                } else {
                    assert(out@[i] == old_rest[bi as int]);
                    if j < bi {
                        assert(rest@[j] == old_rest[j]);
                    } else {
                        assert(rest@[j] == old_rest[j + 1]);
                    }
                }
            }
            assert forall|i: int, j: int|
                0 <= i < j < out@.len() implies item_le(
                seq_views(out@)[i],
                seq_views(out@)[j],
            ) by {
                if j < old_out.len() {
                    assert(item_le(seq_views(old_out)[i], seq_views(old_out)[j]));
                    assert(seq_views(old_out)[i] == old_out[i]@);
                    assert(seq_views(old_out)[j] == old_out[j]@);
                    assert(seq_views(out@)[i] == out@[i]@);
                    assert(seq_views(out@)[j] == out@[j]@);
                } else {
                    assert(out@[j] == old_rest[bi as int]);
                    assert(item_le(old_out[i]@, old_rest[bi as int]@));
                }
            }
        }
    }
    proof {
        assert(rest@.to_multiset() =~= Multiset::<ClipboardItem>::empty());
        assert(out@.to_multiset() =~= all.to_multiset());
    }
    out
}

} // verus!
