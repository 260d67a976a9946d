use vstd::prelude::*;

use crate::content::{spec_matches_search, ClipboardItem, ItemView};
use crate::order::seq_views;

verus! {

/// The search predicate induced by a query.
pub open spec fn query_pred(query: Seq<char>) -> spec_fn(ItemView) -> bool {
    |m: ItemView| spec_matches_search(m.content, query)
}

/// Presentation state: the row the keyboard selection rests on.
#[derive(Debug, Clone)]
pub struct State {
    pub selected_index: usize,
}

impl Default for State {
    /// Selection on the first row.
    fn default() -> (r: Self)
        ensures
            r.selected_index == 0,
    {
        State { selected_index: 0 }
    }
}

impl State {
    /// Moves the selection one row up, wrapping from the first row to the
    /// last of `len` rows; with no rows the selection stays put.
    pub fn navigate_up(&mut self, len: usize)
        ensures
            final(self).selected_index as int == if len == 0 {
                old(self).selected_index as int
            } else if old(self).selected_index == 0 {
                len - 1
            } else {
                old(self).selected_index - 1
            },
    {
        if len != 0 {
            if self.selected_index == 0 {
                self.selected_index = len - 1;
            } else {
                self.selected_index = self.selected_index - 1;
            }
        }
    }

    /// Moves the selection one row down, wrapping from the last of `len`
    /// rows to the first; with no rows the selection stays put.
    pub fn navigate_down(&mut self, len: usize)
        ensures
            final(self).selected_index as int == if len == 0 {
                old(self).selected_index as int
            } else if old(self).selected_index + 1 >= len {
                0
            } else {
                old(self).selected_index + 1
            },
    {
        if len != 0 {
            if self.selected_index >= len - 1 {
                self.selected_index = 0;
            } else {
                self.selected_index = self.selected_index + 1;
            }
        }
    }
}

/// Keeps, in order, the items whose content matches the query.
pub fn filter_items(items: &Vec<ClipboardItem>, query: &str) -> (r: Vec<ClipboardItem>)
    ensures
        seq_views(r@) == seq_views(items@).filter(query_pred(query@)),
{
    let mut out: Vec<ClipboardItem> = Vec::new();
    proof {
        reveal(Seq::filter);
        assert(seq_views(items@.subrange(0, 0)) =~= Seq::<ItemView>::empty());
        assert(seq_views(out@) =~= seq_views(items@.subrange(0, 0)).filter(query_pred(query@)));
    }
    let mut i: usize = 0;
    while i < items.len()
        invariant
            i <= items@.len(),
            seq_views(out@) == seq_views(items@.subrange(0, i as int)).filter(query_pred(query@)),
        decreases items@.len() - i,
    {
        let it = &items[i];
        let keep = it.matches_search(query);
        proof {
            assert(keep == query_pred(query@)(items@[i as int]@));
        }
        if keep {
            out.push(it.clone());
        }
        proof {
            reveal(Seq::filter);
            let pred = query_pred(query@);
            let vsub1 = seq_views(items@.subrange(0, i + 1));
            assert(vsub1.len() == i + 1);
            assert(vsub1.drop_last() =~= seq_views(items@.subrange(0, i as int)));
            assert(vsub1.last() == items@[i as int]@);
            assert(vsub1.filter(pred) == if pred(vsub1.last()) {
                vsub1.drop_last().filter(pred).push(vsub1.last())
            } else {
                vsub1.drop_last().filter(pred)
            });
            assert(vsub1.drop_last().filter(pred) == seq_views(items@.subrange(0, i as int)).filter(
                pred,
            ));
            assert(seq_views(out@) =~= vsub1.filter(pred));
        }
        i += 1;
    }
    proof {
        assert(items@.subrange(0, items@.len() as int) =~= items@);
    }
    out
}

/// Looks up the item carrying the given identifier.
pub fn find_by_id<'a>(items: &'a Vec<ClipboardItem>, id: u128) -> (r: Option<&'a ClipboardItem>)
    ensures
        r matches Some(item) ==> item@.id == id && items@.contains(*item),
        r is None ==> forall|i: int| #![auto] 0 <= i < items@.len() ==> items@[i]@.id != id,
{
    let mut i: usize = 0;
    while i < items.len()
        invariant
            i <= items@.len(),
            forall|t: int| #![auto] 0 <= t < i ==> items@[t]@.id != id,
        decreases items@.len() - i,
    {
        if items[i].id == id {
            let item = &items[i];
            proof {
                assert(items@.contains(items@[i as int]));
            }
            return Some(item);
        }
        i += 1;
    }
    None
}

/// The same item with the pin flag inverted; nothing else changes, so its
/// position in the history's order is unchanged.
pub fn with_pin_toggled(item: &ClipboardItem) -> (r: ClipboardItem)
    ensures
        r@.id == item@.id,
        r@.content == item@.content,
        r@.timestamp == item@.timestamp,
        r@.pinned == !item@.pinned,
{
    let mut copy = item.clone();
    copy.pinned = !copy.pinned;
    copy
}

} // verus!
