use vstd::prelude::*;

verus! {

/// The sled database handle, declared so that it can stand in fields and
/// signatures. Verus sees nothing inside a value of it.
#[verifier::external_type_specification]
#[verifier::external_body]
pub struct ExDb(sled::Db);

/// A name for what a sled database holds: its key-value pairs, as a map of
/// byte sequences.
pub uninterp spec fn db_entries(db: &sled::Db) -> Map<Seq<u8>, Seq<u8>>;

/// Relies on sled::Config::open, with path, cache_capacity and
/// flush_every_ms set: opens the store rooted at `path`, creating it when
/// absent. What it holds depends on the disk, so only finiteness is
/// promised.
#[verifier::external_body]
pub(crate) fn open_db(path: &String, cache_capacity: u64, flush_every_ms: u64) -> (r: Result<
    sled::Db,
    String,
>)
    ensures
        r is Ok ==> db_entries(&r->Ok_0).dom().finite(),
{
    sled::Config::new().path(path.as_str()).cache_capacity(cache_capacity).flush_every_ms(
        Some(flush_every_ms),
    ).open().map_err(|e| e.to_string())
}

/// Relies on sled::Config::open with temporary(true): opens a store in a
/// fresh scratch directory, so it starts empty and is removed on drop.
#[verifier::external_body]
pub(crate) fn open_temp_db() -> (r: Result<sled::Db, String>)
    ensures
        (match r {
            Ok(db) => db_entries(&db) == Map::<Seq<u8>, Seq<u8>>::empty(),
            Err(_) => true,
        }),
{
    sled::Config::new().temporary(true).open().map_err(|e| e.to_string())
}

/// Relies on sled::Tree::get: returns the value stored under the key, or
/// `None` when the key is absent.
#[verifier::external_body]
pub(crate) fn db_get(db: &sled::Db, key: &Vec<u8>) -> (r: Result<Option<Vec<u8>>, String>)
    ensures
        r matches Ok(Some(v)) ==> db_entries(db).contains_pair(key@, v@),
        r matches Ok(None) ==> !db_entries(db).dom().contains(key@),
{
    match db.get(key.as_slice()) {
        Ok(Some(iv)) => Ok(Some(iv.as_ref().to_vec())),
        Ok(None) => Ok(None),
        Err(e) => Err(e.to_string()),
    }
}

/// Relies on sled::Tree::insert: maps the key to the value. On failure the
/// write either took effect or did not; the source leaves it open.
#[verifier::external_body]
pub(crate) fn db_insert(db: &mut sled::Db, key: &Vec<u8>, value: &Vec<u8>) -> (r: Result<
    (),
    String,
>)
    ensures
        r is Ok ==> db_entries(final(db)) == db_entries(old(db)).insert(key@, value@),
        r is Err ==> db_entries(final(db)) == db_entries(old(db)) || db_entries(final(db))
            == db_entries(old(db)).insert(key@, value@),
{
    db.insert(key.as_slice(), value.as_slice()).map(|_| ()).map_err(|e| e.to_string())
}

/// Relies on sled::Tree::remove: unmaps the key. On failure the removal
/// either took effect or did not; the source leaves it open.
#[verifier::external_body]
pub(crate) fn db_remove(db: &mut sled::Db, key: &Vec<u8>) -> (r: Result<(), String>)
    ensures
        r is Ok ==> db_entries(final(db)) == db_entries(old(db)).remove(key@),
        r is Err ==> db_entries(final(db)) == db_entries(old(db)) || db_entries(final(db))
            == db_entries(old(db)).remove(key@),
{
    db.remove(key.as_slice()).map(|_| ()).map_err(|e| e.to_string())
}

/// Relies on sled::Tree::iter: enumerates every key-value pair, each key
/// once; the whole scan fails on the first read error.
#[verifier::external_body]
pub(crate) fn db_scan(db: &sled::Db) -> (r: Result<Vec<(Vec<u8>, Vec<u8>)>, String>)
    ensures
        r matches Ok(v) ==> {
            &&& forall|i: int|
                #![auto]
                0 <= i < v@.len() ==> db_entries(db).contains_pair(v@[i].0@, v@[i].1@)
            &&& forall|i: int, j: int|
                #![auto]
                0 <= i < j < v@.len() ==> v@[i].0@ != v@[j].0@
            &&& forall|k: Seq<u8>|
                #![auto]
                db_entries(db).dom().contains(k) ==> exists|i: int|
                    0 <= i < v@.len() && v@[i].0@ == k
        },
{
    let mut out = Vec::new();
    for entry in db.iter() {
        match entry {
            Ok((k, v)) => out.push((k.as_ref().to_vec(), v.as_ref().to_vec())),
            Err(e) => return Err(e.to_string()),
        }
    }
    Ok(out)
}

/// Relies on sled::Tree::flush: forces buffered writes to durable storage.
/// Durability is outside the model, so nothing is stated of the entries.
#[verifier::external_body]
pub(crate) fn db_flush(db: &sled::Db) -> Result<(), String> {
    db.flush().map(|_| ()).map_err(|e| e.to_string())
}

} // verus!
