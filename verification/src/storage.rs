use vstd::prelude::*;

use vstd::bytes::lemma_auto_spec_u128_to_from_le_bytes;

use crate::backend::{
    db_entries, db_flush, db_get, db_insert, db_remove, db_scan, open_db, open_temp_db,
};
use crate::codec::{
    content_len_ok, decode_item, encode_item, id_to_key, lemma_codec_round_trip, spec_decode_item,
    spec_encode_item, spec_key_of,
};
use crate::content::{ClipboardItem, ItemView};
use crate::error::{ClipboardError, ClipboardResult};
use crate::order::{seq_views, sort_items, sorted_by_recency};

verus! {

/// Sled cache size used by the store, in bytes.
pub const CACHE_CAPACITY: u64 = 64 * 1024 * 1024;

/// How often sled flushes on its own, in milliseconds.
pub const FLUSH_EVERY_MS: u64 = 1000;

/// The record stored under the key of `id`, decoded.
pub open spec fn stored_item(entries: Map<Seq<u8>, Seq<u8>>, id: u128) -> Option<ItemView> {
    if entries.dom().contains(spec_key_of(id)) {
        spec_decode_item(entries[spec_key_of(id)])
    } else {
        None
    }
}

/// The stored bytes decode to an unpinned item.
pub open spec fn is_unpinned_value(v: Seq<u8>) -> bool {
    spec_decode_item(v) matches Some(m) && !m.pinned
}

/// Keys of records that decode at all.
pub open spec fn good_keys(entries: Map<Seq<u8>, Seq<u8>>) -> Set<Seq<u8>> {
    entries.dom().filter(|k: Seq<u8>| spec_decode_item(entries[k]) is Some)
}

/// Keys of records that decode to unpinned items.
pub open spec fn unpinned_keys(entries: Map<Seq<u8>, Seq<u8>>) -> Set<Seq<u8>> {
    entries.dom().filter(|k: Seq<u8>| is_unpinned_value(entries[k]))
}

/// The store after an insert or update of `item`: its record stands under
/// its key; every other entry is untouched.
pub open spec fn upserted(entries: Map<Seq<u8>, Seq<u8>>, item: ItemView) -> Map<Seq<u8>, Seq<u8>> {
    entries.insert(spec_key_of(item.id), spec_encode_item(item))
}

/// Some entry of the store decodes to this record.
pub open spec fn decodes_from(entries: Map<Seq<u8>, Seq<u8>>, m: ItemView) -> bool {
    exists|k: Seq<u8>|
        #![auto]
        entries.dom().contains(k) && spec_decode_item(entries[k]) == Some(m)
}

/// Some element of the sequence is the decoding of these bytes.
pub open spec fn holds_decode_of(s: Seq<ClipboardItem>, v: Seq<u8>) -> bool {
    exists|i: int| #![auto] 0 <= i < s.len() && Some(s[i]@) == spec_decode_item(v)
}

/// Some pair of the scan decodes to this record.
pub open spec fn pair_decodes_to(pseq: Seq<(Vec<u8>, Vec<u8>)>, m: ItemView) -> bool {
    exists|j: int| #![auto] 0 <= j < pseq.len() && spec_decode_item(pseq[j].1@) == Some(m)
}

/// Durable storage of clipboard items over an embedded key-value store.
///
/// Every record is kept under the fixed-width key of its identifier, as the
/// bytes of the record codec; all contracts speak of the store's entry map.
pub struct SledStorage {
    db: sled::Db,
}

impl SledStorage {
    /// The entry map of the backing store.
    pub closed spec fn entries(&self) -> Map<Seq<u8>, Seq<u8>> {
        db_entries(&self.db)
    }

    /// The store is well formed: it holds finitely many entries.
    pub open spec fn wf(&self) -> bool {
        self.entries().dom().finite()
    }

    /// Opens (creating when absent) the store rooted at `data_dir`.
    pub fn new(data_dir: &String) -> (r: ClipboardResult<Self>)
        ensures
            r matches Ok(s) ==> s.wf(),
            r matches Err(e) ==> e matches ClipboardError::Storage(_),
    {
        match open_db(data_dir, CACHE_CAPACITY, FLUSH_EVERY_MS) {
            Ok(db) => Ok(SledStorage { db }),
            Err(msg) => Err(ClipboardError::Storage(msg)),
        }
    }

    /// Opens a fresh, empty store in a scratch directory that is removed on
    /// drop.
    pub fn new_temporary() -> (r: ClipboardResult<Self>)
        ensures
            r matches Ok(s) ==> s.wf() && s.entries() == Map::<Seq<u8>, Seq<u8>>::empty(),
            r matches Err(e) ==> e matches ClipboardError::Storage(_),
    {
        match open_temp_db() {
            Ok(db) => Ok(SledStorage { db }),
            Err(msg) => Err(ClipboardError::Storage(msg)),
        }
    }

    /// Prepares the store for use. Opening already did the work, so this
    /// always succeeds; it is idempotent.
    pub fn init(&self) -> (r: ClipboardResult<()>)
        ensures
            r is Ok,
    {
        Ok(())
    }

    /// Point lookup by identifier.
    pub fn get_item(&self, id: u128) -> (r: ClipboardResult<Option<ClipboardItem>>)
        ensures
            r matches Ok(Some(item)) ==> stored_item(self.entries(), id) == Some(item@),
            r matches Ok(None) ==> !self.entries().dom().contains(spec_key_of(id)),
            r matches Err(e) ==> e matches ClipboardError::Storage(_) || e
                matches ClipboardError::Serialization(_),
            r matches Err(ClipboardError::Serialization(_)) ==> self.entries().dom().contains(
                spec_key_of(id),
            ) && stored_item(self.entries(), id) is None,
    {
        let key = id_to_key(id);
        match db_get(&self.db, &key) {
            Ok(Some(v)) => match decode_item(&v) {
                Some(item) => Ok(Some(item)),
                None => Err(ClipboardError::Serialization("stored record does not decode".to_owned())),
            },
            Ok(None) => Ok(None),
            Err(msg) => Err(ClipboardError::Storage(msg)),
        }
    }

    /// Inserts a record; an existing record under the same identifier is
    /// overwritten.
    pub fn add_item(&mut self, item: ClipboardItem) -> (r: ClipboardResult<()>)
        requires
            old(self).wf(),
        ensures
            final(self).wf(),
            content_len_ok(item@.content),
            r is Ok ==> final(self).entries() == upserted(old(self).entries(), item@),
            r matches Err(e) ==> e matches ClipboardError::Storage(_),
            r is Err ==> final(self).entries() == old(self).entries() || final(self).entries()
                == upserted(old(self).entries(), item@),
    {
        let key = id_to_key(item.id);
        let value = encode_item(&item);
        match db_insert(&mut self.db, &key, &value) {
            Ok(()) => Ok(()),
            Err(msg) => Err(ClipboardError::Storage(msg)),
        }
    }

    /// Replaces the record with the matching identifier; when it is absent,
    /// behaves exactly as `add_item`.
    pub fn update_item(&mut self, item: ClipboardItem) -> (r: ClipboardResult<()>)
        requires
            old(self).wf(),
        ensures
            final(self).wf(),
            content_len_ok(item@.content),
            r is Ok ==> final(self).entries() == upserted(old(self).entries(), item@),
            r matches Err(e) ==> e matches ClipboardError::Storage(_),
            r is Err ==> final(self).entries() == old(self).entries() || final(self).entries()
                == upserted(old(self).entries(), item@),
    {
        self.add_item(item)
    }

    /// Deletes the record under the identifier's key; removing an absent
    /// identifier is not an error.
    pub fn remove_item(&mut self, id: u128) -> (r: ClipboardResult<()>)
        requires
            old(self).wf(),
        ensures
            final(self).wf(),
            r is Ok ==> final(self).entries() == old(self).entries().remove(spec_key_of(id)),
            r matches Err(e) ==> e matches ClipboardError::Storage(_),
            r is Err ==> final(self).entries() == old(self).entries() || final(self).entries()
                == old(self).entries().remove(spec_key_of(id)),
    {
        let key = id_to_key(id);
        match db_remove(&mut self.db, &key) {
            Ok(()) => Ok(()),
            Err(msg) => Err(ClipboardError::Storage(msg)),
        }
    }

    /// Full scan: every record that decodes, one per stored key, sorted most
    /// recent first.
    /// Records that do not decode are skipped; a read failure of the
    /// backing store fails the whole scan.
    #[verifier::rlimit(50)]
    pub fn get_all_items(&self) -> (r: ClipboardResult<Vec<ClipboardItem>>)
        requires
            self.wf(),
        ensures
            r matches Ok(v) ==> {
                &&& sorted_by_recency(seq_views(v@))
                &&& forall|i: int|
                    #![trigger v@[i]]
                    0 <= i < v@.len() ==> decodes_from(self.entries(), v@[i]@)
                &&& forall|k: Seq<u8>|
                    #![trigger self.entries().dom().contains(k)]
                    self.entries().dom().contains(k) && spec_decode_item(self.entries()[k]) is Some
                        ==> holds_decode_of(v@, self.entries()[k])
                &&& v@.len() == good_keys(self.entries()).len()
            },
            r matches Err(e) ==> e matches ClipboardError::Storage(_),
    {
        match db_scan(&self.db) {
            Ok(pairs) => {
                let collected = collect_decoded(pairs);
                let ghost cseq = collected@;
                let ghost pseq = pairs@;
                let v = sort_items(collected);
                proof {
                    lemma_scan_sound(self.entries(), pseq, cseq, v@);
                    lemma_scan_complete(self.entries(), pseq, cseq, v@);
                    lemma_count_matches_good_keys(self.entries(), pseq);
                }
                Ok(v)
            },
            Err(msg) => Err(ClipboardError::Storage(msg)),
        }
    }

    /// Deletes every record that decodes to an unpinned item; pinned and
    /// undecodable records are left untouched. Returns how many records it
    /// deleted. A scan or delete failure of the backing store stops the
    /// sweep: whatever was already deleted stays deleted, and everything
    /// deleted was unpinned.
    #[verifier::rlimit(30)]
    pub fn clear_non_pinned(&mut self) -> (r: ClipboardResult<usize>)
        requires
            old(self).wf(),
        ensures
            final(self).wf(),
            r matches Ok(n) ==> final(self).entries() == old(self).entries().remove_keys(
                unpinned_keys(old(self).entries()),
            ) && n == unpinned_keys(old(self).entries()).len(),
            r matches Err(e) ==> e matches ClipboardError::Storage(_),
            forall|k: Seq<u8>|
                #![auto]
                old(self).entries().dom().contains(k) && !unpinned_keys(
                    old(self).entries(),
                ).contains(k) ==> final(self).entries().dom().contains(k)
                    && final(self).entries()[k] == old(self).entries()[k],
            forall|k: Seq<u8>|
                #![auto]
                final(self).entries().dom().contains(k) ==> old(self).entries().dom().contains(k)
                    && final(self).entries()[k] == old(self).entries()[k],
    {
        let ghost entries0 = self.entries();
        let pairs = match db_scan(&self.db) {
            Ok(p) => p,
            Err(msg) => {
                return Err(ClipboardError::Storage(msg));
            },
        };
        let mut removed: usize = 0;
        let ghost mut removed_set: Set<Seq<u8>> = Set::empty();
        proof {
            assert(self.entries() =~= entries0.remove_keys(removed_set));
        }
        let mut j: usize = 0;
        while j < pairs.len()
            invariant
                entries0 == old(self).entries(),
                j <= pairs@.len(),
                removed == removed_set.len(),
                removed <= j,
                removed_set.finite(),
                entries0.dom().finite(),
                self.entries() == entries0.remove_keys(removed_set),
                forall|k: Seq<u8>| #![auto] removed_set.contains(k) ==> unpinned_keys(entries0).contains(k),
                forall|t: int|
                    #![auto]
                    0 <= t < j && is_unpinned_value(pairs@[t].1@) ==> removed_set.contains(
                        pairs@[t].0@,
                    ),
                forall|k: Seq<u8>|
                    #![auto]
                    removed_set.contains(k) ==> exists|t: int| 0 <= t < j && pairs@[t].0@ == k,
                forall|i: int|
                    #![auto]
                    0 <= i < pairs@.len() ==> entries0.contains_pair(pairs@[i].0@, pairs@[i].1@),
                forall|i: int, t: int|
                    #![auto]
                    0 <= i < t < pairs@.len() ==> pairs@[i].0@ != pairs@[t].0@,
                forall|k: Seq<u8>|
                    #![auto]
                    entries0.dom().contains(k) ==> exists|t: int|
                        0 <= t < pairs@.len() && pairs@[t].0@ == k,
            decreases pairs@.len() - j,
        {
            let do_remove = match decode_item(&pairs[j].1) {
                Some(item) => !item.pinned,
                None => false,
            };
            if do_remove {
                let ghost pre = self.entries();
                let ghost kseq = pairs@[j as int].0@;
                match db_remove(&mut self.db, &pairs[j].0) {
                    Ok(()) => {
                        removed = removed + 1;
                        proof {
                            assert(!removed_set.contains(kseq));
                            removed_set = removed_set.insert(kseq);
                            assert(self.entries() =~= entries0.remove_keys(removed_set));
                            assert(unpinned_keys(entries0).contains(kseq));
                        }
                    },
                    Err(msg) => {
                        proof {
                            lemma_remove_keys_finite(entries0, removed_set);
                            lemma_remove_keys_finite(entries0, removed_set.insert(kseq));
                            assert(pre.remove(kseq) =~= entries0.remove_keys(
                                removed_set.insert(kseq),
                            ));
                            assert(unpinned_keys(entries0).contains(kseq));
                            assert forall|k2: Seq<u8>|
                                #![auto]
                                self.entries().dom().contains(k2) implies entries0.dom().contains(
                                k2,
                            ) && self.entries()[k2] == entries0[k2] by {
                                assert(self.entries() == pre || self.entries() == pre.remove(
                                    kseq,
                                ));
                            }
                            assert forall|k2: Seq<u8>|
                                #![auto]
                                entries0.dom().contains(k2) && !unpinned_keys(entries0).contains(
                                k2,
                            ) implies self.entries().dom().contains(k2) && self.entries()[k2]
                                == entries0[k2] by {
                                assert(!removed_set.contains(k2));
                                assert(k2 != kseq);
                                assert(self.entries() == pre || self.entries() == pre.remove(
                                    kseq,
                                ));
                            }
                        }
                        return Err(ClipboardError::Storage(msg));
                    },
                }
            }
            j += 1;
        }
        proof {
            assert forall|k: Seq<u8>| #![auto] unpinned_keys(entries0).contains(k) implies removed_set.contains(
                k,
            ) by {
                assert(entries0.dom().contains(k));
                let t = choose|t: int| 0 <= t < pairs@.len() && pairs@[t].0@ == k;
                assert(entries0.contains_pair(pairs@[t].0@, pairs@[t].1@));
                assert(pairs@[t].1@ == entries0[k]);
                assert(is_unpinned_value(pairs@[t].1@));
            }
            assert(removed_set =~= unpinned_keys(entries0));
            lemma_remove_keys_finite(entries0, removed_set);
        }
        Ok(removed)
    }

    /// Forces all buffered writes to durable storage.
    pub fn flush(&self) -> (r: ClipboardResult<()>)
        ensures
            r matches Err(e) ==> e matches ClipboardError::Storage(_),
    {
        match db_flush(&self.db) {
            Ok(()) => Ok(()),
            Err(msg) => Err(ClipboardError::Storage(msg)),
        }
    }
}

/// Removing keys from a finite map leaves a finite map.
proof fn lemma_remove_keys_finite(m: Map<Seq<u8>, Seq<u8>>, s: Set<Seq<u8>>)
    requires
        m.dom().finite(),
    ensures
        m.remove_keys(s).dom().finite(),
{
    assert(m.remove_keys(s).dom() =~= m.dom().difference(s));
}

/// An element of one sequence stands in any other with the same multiset.
proof fn lemma_multiset_transfer(a: Seq<ClipboardItem>, b: Seq<ClipboardItem>, x: ClipboardItem)
    requires
        a.to_multiset() == b.to_multiset(),
        a.contains(x),
    ensures
        b.contains(x),
{
    broadcast use vstd::seq_lib::group_to_multiset_ensures;

    assert(a.to_multiset().count(x) > 0);
}

/// A scan that enumerates a finite store's keys exactly once holds as many
/// decodable pairs as the store holds decodable records.
proof fn lemma_count_matches_good_keys(entries: Map<Seq<u8>, Seq<u8>>, pseq: Seq<(Vec<u8>, Vec<u8>)>)
    requires
        entries.dom().finite(),
        forall|i: int|
            #![auto]
            0 <= i < pseq.len() ==> entries.contains_pair(pseq[i].0@, pseq[i].1@),
        forall|i: int, j: int| #![auto] 0 <= i < j < pseq.len() ==> pseq[i].0@ != pseq[j].0@,
        forall|k: Seq<u8>|
            #![auto]
            entries.dom().contains(k) ==> exists|i: int| 0 <= i < pseq.len() && pseq[i].0@ == k,
    ensures
        decodable_count(pseq) == good_keys(entries).len(),
    decreases pseq.len(),
{
    entries.dom().lemma_len_filter(|k: Seq<u8>| spec_decode_item(entries[k]) is Some);
    if pseq.len() == 0 {
        assert(entries.dom() =~= Set::<Seq<u8>>::empty());
        assert(good_keys(entries) =~= Set::<Seq<u8>>::empty());
    } else {
        let n = pseq.len() as int;
        let k = pseq[n - 1].0@;
        let v = pseq[n - 1].1@;
        let rest = entries.remove(k);
        let pseq2 = pseq.drop_last();
        assert forall|k2: Seq<u8>| #![auto] rest.dom().contains(k2) implies exists|i: int|
            0 <= i < pseq2.len() && pseq2[i].0@ == k2 by {
            let i = choose|i: int| 0 <= i < pseq.len() && pseq[i].0@ == k2;
            assert(i < n - 1);
            assert(pseq2[i] == pseq[i]);
        }
        assert forall|i: int| #![auto] 0 <= i < pseq2.len() implies rest.contains_pair(
            pseq2[i].0@,
            pseq2[i].1@,
        ) by {
            assert(pseq2[i] == pseq[i]);
            assert(pseq[i].0@ != k);
        }
        lemma_count_matches_good_keys(rest, pseq2);
        rest.dom().lemma_len_filter(|k2: Seq<u8>| spec_decode_item(rest[k2]) is Some);
        assert(entries[k] == v);
        if spec_decode_item(v) is Some {
            assert(good_keys(entries) =~= good_keys(rest).insert(k));
            assert(!good_keys(rest).contains(k));
            assert(good_keys(entries).len() == good_keys(rest).len() + 1);
        } else {
            assert(good_keys(entries) =~= good_keys(rest));
        }
    }
}

/// Every item in the sorted result decodes from some entry of the store.
proof fn lemma_scan_sound(
    entries: Map<Seq<u8>, Seq<u8>>,
    pseq: Seq<(Vec<u8>, Vec<u8>)>,
    cseq: Seq<ClipboardItem>,
    vseq: Seq<ClipboardItem>,
)
    requires
        forall|i: int|
            #![auto]
            0 <= i < pseq.len() ==> entries.contains_pair(pseq[i].0@, pseq[i].1@),
        forall|i: int| #![trigger cseq[i]] 0 <= i < cseq.len() ==> pair_decodes_to(pseq, cseq[i]@),
        vseq.to_multiset() == cseq.to_multiset(),
    ensures
        forall|i: int| #![trigger vseq[i]] 0 <= i < vseq.len() ==> decodes_from(entries, vseq[i]@),
{
    assert forall|i: int| #![trigger vseq[i]] 0 <= i < vseq.len() implies decodes_from(
        entries,
        vseq[i]@,
    ) by {
        assert(vseq.contains(vseq[i]));
        lemma_multiset_transfer(vseq, cseq, vseq[i]);
        let t = choose|t: int| 0 <= t < cseq.len() && cseq[t] == vseq[i];
        assert(pair_decodes_to(pseq, cseq[t]@));
        let j = choose|j: int|
            #![auto]
            0 <= j < pseq.len() && spec_decode_item(pseq[j].1@) == Some(cseq[t]@);
        assert(entries.contains_pair(pseq[j].0@, pseq[j].1@));
        assert(entries.dom().contains(pseq[j].0@) && spec_decode_item(entries[pseq[j].0@])
            == Some(vseq[i]@));
    }
}

/// Every entry of the store that decodes stands in the sorted result.
proof fn lemma_scan_complete(
    entries: Map<Seq<u8>, Seq<u8>>,
    pseq: Seq<(Vec<u8>, Vec<u8>)>,
    cseq: Seq<ClipboardItem>,
    vseq: Seq<ClipboardItem>,
)
    requires
        forall|i: int|
            #![auto]
            0 <= i < pseq.len() ==> entries.contains_pair(pseq[i].0@, pseq[i].1@),
        forall|k: Seq<u8>|
            #![auto]
            entries.dom().contains(k) ==> exists|i: int| 0 <= i < pseq.len() && pseq[i].0@ == k,
        forall|j: int|
            #![trigger pseq[j]]
            0 <= j < pseq.len() && spec_decode_item(pseq[j].1@) is Some ==> holds_decode_of(
                cseq,
                pseq[j].1@,
            ),
        vseq.to_multiset() == cseq.to_multiset(),
    ensures
        forall|k: Seq<u8>|
            #![trigger entries.dom().contains(k)]
            entries.dom().contains(k) && spec_decode_item(entries[k]) is Some ==> holds_decode_of(
                vseq,
                entries[k],
            ),
{
    assert forall|k: Seq<u8>|
        #![trigger entries.dom().contains(k)]
        entries.dom().contains(k) && spec_decode_item(entries[k]) is Some implies holds_decode_of(
        vseq,
        entries[k],
    ) by {
        let j = choose|j: int| 0 <= j < pseq.len() && pseq[j].0@ == k;
        assert(entries.contains_pair(pseq[j].0@, pseq[j].1@));
        assert(entries[k] == pseq[j].1@);
        assert(holds_decode_of(cseq, pseq[j].1@));
        let t = choose|t: int|
            #![auto]
            0 <= t < cseq.len() && Some(cseq[t]@) == spec_decode_item(pseq[j].1@);
        assert(cseq.contains(cseq[t]));
        lemma_multiset_transfer(cseq, vseq, cseq[t]);
        let i = choose|i: int| 0 <= i < vseq.len() && vseq[i] == cseq[t];
        assert(Some(vseq[i]@) == spec_decode_item(entries[k]));
    }
}

/// Decodes the scanned pairs in order, skipping those that do not decode.
/// The result holds exactly the decodable records.
pub fn collect_decoded(pairs: Vec<(Vec<u8>, Vec<u8>)>) -> (r: Vec<ClipboardItem>)
    ensures
        forall|i: int| #![trigger r@[i]] 0 <= i < r@.len() ==> pair_decodes_to(pairs@, r@[i]@),
        forall|j: int|
            #![trigger pairs@[j]]
            0 <= j < pairs@.len() && spec_decode_item(pairs@[j].1@) is Some ==> holds_decode_of(
                r@,
                pairs@[j].1@,
            ),
        r@.len() == decodable_count(pairs@),
{
    let mut out: Vec<ClipboardItem> = Vec::new();
    let mut j: usize = 0;
    while j < pairs.len()
        invariant
            j <= pairs@.len(),
            forall|i: int|
                #![trigger out@[i]]
                0 <= i < out@.len() ==> pair_decodes_to(pairs@, out@[i]@),
            forall|t: int|
                #![trigger pairs@[t]]
                0 <= t < j && spec_decode_item(pairs@[t].1@) is Some ==> holds_decode_of(
                    out@,
                    pairs@[t].1@,
                ),
            out@.len() == decodable_count(pairs@.subrange(0, j as int)),
        decreases pairs@.len() - j,
    {
        let ghost prev = j as int;
        let ghost old_out = out@;
        match decode_item(&pairs[j].1) {
            Some(item) => {
                proof {
                    assert(spec_decode_item(pairs@[prev].1@) == Some(item@));
                }
                out.push(item);
                proof {
                    assert(Some(out@[out@.len() - 1]@) == spec_decode_item(pairs@[prev].1@));
                    assert(pair_decodes_to(pairs@, out@[out@.len() - 1]@));
                }
            },
            None => {},
        }
        j += 1;
        proof {
            assert(pairs@.subrange(0, j as int).drop_last() =~= pairs@.subrange(0, prev));
            assert(pairs@.subrange(0, j as int).last() == pairs@[prev]);
            assert forall|i: int|
                #![trigger out@[i]]
                0 <= i < out@.len() implies pair_decodes_to(pairs@, out@[i]@) by {
                if i < old_out.len() {
                    assert(out@[i] == old_out[i]);
                    assert(pair_decodes_to(pairs@, old_out[i]@));
                }
            }
            assert forall|t: int|
                #![trigger pairs@[t]]
                0 <= t < j && spec_decode_item(pairs@[t].1@) is Some implies holds_decode_of(
                out@,
                pairs@[t].1@,
            ) by {
                if t < prev {
                    assert(holds_decode_of(old_out, pairs@[t].1@));
                    let i0 = choose|i0: int|
                        #![auto]
                        0 <= i0 < old_out.len() && Some(old_out[i0]@) == spec_decode_item(
                            pairs@[t].1@,
                        );
                    assert(out@[i0] == old_out[i0]);
                    assert(Some(out@[i0]@) == spec_decode_item(pairs@[t].1@));
                } else {
                    assert(Some(out@[out@.len() - 1]@) == spec_decode_item(pairs@[t].1@));
                }
            }
        }
    }
    proof {
        assert(pairs@.subrange(0, pairs@.len() as int) =~= pairs@);
    }
    out
}

/// How many of the scanned pairs decode.
pub open spec fn decodable_count(s: Seq<(Vec<u8>, Vec<u8>)>) -> int
    decreases s.len(),
{
    if s.len() == 0 {
        0
    } else {
        decodable_count(s.drop_last()) + if spec_decode_item(s.last().1@) is Some {
            1int
        } else {
            0int
        }
    }
}

/// Law: adding an item and then looking its identifier up yields exactly
/// that item, structurally equal.
pub proof fn lemma_add_then_get(entries: Map<Seq<u8>, Seq<u8>>, item: ItemView)
    requires
        content_len_ok(item.content),
    ensures
        stored_item(upserted(entries, item), item.id) == Some(item),
{
    lemma_codec_round_trip(item);
}

/// Law: an upsert touches only its own record; every other identifier
/// resolves exactly as before.
pub proof fn lemma_update_preserves_others(
    entries: Map<Seq<u8>, Seq<u8>>,
    item: ItemView,
    other: u128,
)
    requires
        other != item.id,
    ensures
        stored_item(upserted(entries, item), other) == stored_item(entries, other),
{
    lemma_auto_spec_u128_to_from_le_bytes();
    assert(spec_key_of(other) != spec_key_of(item.id));
}

/// Law: an update whose identifier is absent from the store has exactly
/// the effect an add has — `add_item` and `update_item` share one
/// postcondition — and the record then stands in the store, retrievable
/// by `get_item`.
pub proof fn lemma_update_absent_acts_as_add(entries: Map<Seq<u8>, Seq<u8>>, item: ItemView)
    requires
        content_len_ok(item.content),
        !entries.dom().contains(spec_key_of(item.id)),
    ensures
        stored_item(entries, item.id) is None,
        stored_item(upserted(entries, item), item.id) == Some(item),
{
    lemma_add_then_get(entries, item);
}

/// Law: the bulk sweep keeps every pinned or undecodable record unchanged,
/// drops every unpinned record, and on a store with no unpinned records —
/// the empty store included — removes nothing and counts zero.
pub proof fn lemma_clear_non_pinned_effect(entries: Map<Seq<u8>, Seq<u8>>)
    requires
        entries.dom().finite(),
    ensures
        ({
            let after = entries.remove_keys(unpinned_keys(entries));
            &&& forall|k: Seq<u8>|
                #![auto]
                entries.dom().contains(k) && !is_unpinned_value(entries[k])
                    ==> after.dom().contains(k) && after[k] == entries[k]
            &&& forall|k: Seq<u8>|
                #![auto]
                entries.dom().contains(k) && is_unpinned_value(entries[k])
                    ==> !after.dom().contains(k)
            &&& forall|k: Seq<u8>|
                #![auto]
                after.dom().contains(k) ==> entries.dom().contains(k) && after[k] == entries[k]
        }),
        unpinned_keys(entries).is_empty() ==> entries.remove_keys(unpinned_keys(entries)) == entries
            && unpinned_keys(entries).len() == 0,
{
    if unpinned_keys(entries).is_empty() {
        assert(entries.remove_keys(unpinned_keys(entries)) =~= entries);
        assert(unpinned_keys(entries) =~= Set::<Seq<u8>>::empty());
    }
}

/// Opens and initializes the configured storage engine.
pub fn create_storage(data_dir: &String) -> (r: ClipboardResult<SledStorage>)
    ensures
        r matches Ok(s) ==> s.wf(),
        r matches Err(e) ==> e matches ClipboardError::Storage(_),
{
    let storage = match SledStorage::new(data_dir) {
        Ok(s) => s,
        Err(e) => {
            return Err(e);
        },
    };
    match storage.init() {
        Ok(()) => Ok(storage),
        Err(e) => Err(e),
    }
}

} // verus!
