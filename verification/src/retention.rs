use vstd::prelude::*;

use crate::content::{ClipboardItem, ItemView};
use crate::order::seq_views;

verus! {

/// Identifiers that the advisory history cap evicts from a most-recent-first
/// scan: every unpinned item after the first `quota` unpinned ones. Pinned
/// items are never planned for eviction.
pub open spec fn eviction_ids(s: Seq<ItemView>, quota: int) -> Seq<u128>
    decreases s.len(),
{
    if s.len() == 0 {
        Seq::empty()
    } else if s[0].pinned {
        eviction_ids(s.drop_first(), quota)
    } else if quota > 0 {
        eviction_ids(s.drop_first(), quota - 1)
    } else {
        seq![s[0].id] + eviction_ids(s.drop_first(), quota)
    }
}

/// How many items of the sequence are unpinned.
pub open spec fn unpinned_count(s: Seq<ItemView>) -> int
    decreases s.len(),
{
    if s.len() == 0 {
        0
    } else {
        (if s[0].pinned {
            0int
        } else {
            1int
        }) + unpinned_count(s.drop_first())
    }
}

/// Law: the plan holds exactly the unpinned items in excess of the cap —
/// none when the cap is met, and never a pinned one.
pub proof fn lemma_eviction_count(s: Seq<ItemView>, quota: int)
    requires
        quota >= 0,
    ensures
        unpinned_count(s) >= 0,
        eviction_ids(s, quota).len() == if unpinned_count(s) >= quota {
            unpinned_count(s) - quota
        } else {
            0
        },
    decreases s.len(),
{
    if s.len() == 0 {
        assert(eviction_ids(s, quota) == Seq::<u128>::empty());
        assert(unpinned_count(s) == 0);
    } else {
        if s[0].pinned {
            lemma_eviction_count(s.drop_first(), quota);
            assert(eviction_ids(s, quota) == eviction_ids(s.drop_first(), quota));
            assert(unpinned_count(s) == unpinned_count(s.drop_first()));
        } else if quota > 0 {
            lemma_eviction_count(s.drop_first(), quota - 1);
            assert(eviction_ids(s, quota) == eviction_ids(s.drop_first(), quota - 1));
            assert(unpinned_count(s) == 1 + unpinned_count(s.drop_first()));
        } else {
            lemma_eviction_count(s.drop_first(), quota);
            assert(eviction_ids(s, quota) == seq![s[0].id] + eviction_ids(s.drop_first(), quota));
            assert(eviction_ids(s, quota).len() == 1 + eviction_ids(s.drop_first(), quota).len());
            assert(unpinned_count(s) == 1 + unpinned_count(s.drop_first()));
        }
    }
}

/// Plans the eviction pass that enforces the advisory history cap: given
/// the history most recent first, returns the identifiers of every
/// unpinned item past the first `max_history_size` unpinned ones.
pub fn plan_eviction(items: &Vec<ClipboardItem>, max_history_size: usize) -> (r: Vec<u128>)
    ensures
        r@ == eviction_ids(seq_views(items@), max_history_size as int),
{
    let ghost full = seq_views(items@);
    let mut out: Vec<u128> = Vec::new();
    let mut quota = max_history_size;
    proof {
        assert(full.skip(0) =~= full);
        assert(out@ + eviction_ids(full, max_history_size as int) =~= eviction_ids(
            full,
            max_history_size as int,
        ));
    }
    let mut i: usize = 0;
    while i < items.len()
        invariant
            i <= items@.len(),
            full == seq_views(items@),
            eviction_ids(full, max_history_size as int) == out@ + eviction_ids(
                full.skip(i as int),
                quota as int,
            ),
        decreases items@.len() - i,
    {
        proof {
            assert(full.skip(i as int).drop_first() =~= full.skip(i + 1));
            assert(full.skip(i as int)[0] == items@[i as int]@);
        }
        let it = &items[i];
        if it.pinned {
        } else if quota > 0 {
            quota = quota - 1;
        } else {
            out.push(it.id);
            proof {
                assert(out@ + eviction_ids(full.skip(i + 1), quota as int) =~= eviction_ids(
                    full,
                    max_history_size as int,
                ));
            }
        }
        i += 1;
    }
    proof {
        assert(full.skip(items@.len() as int) =~= Seq::<ItemView>::empty());
        assert(out@ + Seq::<u128>::empty() =~= out@);
    }
    out
}

} // verus!
