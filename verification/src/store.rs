use vstd::prelude::*;

verus! {

/// The error type of the storage engine.
#[verifier::external_type_specification]
#[verifier::external_body]
pub struct ExSledError(sled::Error);

/// A pending atomic multi-key write of the storage engine.
#[verifier::external_type_specification]
#[verifier::external_body]
pub struct ExSledBatch(sled::Batch);

/// The durable byte-keyed store, an on-disk ordered map.
#[verifier::external_body]
pub struct Store {
    db: sled::Db,
}

/// What the store holds: each key's bytes mapped to its value's bytes.
pub uninterp spec fn store_contents(s: Store) -> Map<Seq<u8>, Seq<u8>>;

/// What a pending batch holds: the keys it will write, each with the last
/// value inserted for it.
pub uninterp spec fn batch_contents(b: sled::Batch) -> Map<Seq<u8>, Seq<u8>>;

/// Relies on sled::Batch::default: a new batch holds no writes.
#[verifier::external_body]
pub fn batch_new() -> (r: sled::Batch)
    ensures
        batch_contents(r) =~= Map::empty(),
{
    sled::Batch::default()
}

/// Relies on sled::Batch::insert: it records the pair, overwriting any
/// earlier write of the same key in this batch.
#[verifier::external_body]
pub fn batch_insert(b: &mut sled::Batch, key: &Vec<u8>, value: &Vec<u8>)
    ensures
        batch_contents(*final(b)) == batch_contents(*old(b)).insert(key@, value@),
{
    b.insert(key.as_slice(), value.as_slice());
}

impl Store {
    /// Relies on sled::Config::open: opens (or creates) the store at the
    /// given path. What it holds depends on the disk, so nothing is said of
    /// the contents.
    #[verifier::external_body]
    pub fn open(path: &str, use_compression: bool) -> (r: Result<Store, sled::Error>)
    {
        let config = sled::Config::default().use_compression(use_compression).path(path);
        match config.open() {
            Ok(db) => Ok(Store { db }),
            Err(e) => Err(e),
        }
    }

    /// Relies on sled::Config::temporary: with no path set it opens a fresh
    /// store at a new private path, removed again on drop, so it starts
    /// empty.
    #[verifier::external_body]
    pub fn open_temporary() -> (r: Result<Store, sled::Error>)
        ensures
            r matches Ok(s) ==> store_contents(s) =~= Map::empty()
                && store_contents(s).dom().finite(),
    {
        match sled::Config::default().temporary(true).open() {
            Ok(db) => Ok(Store { db }),
            Err(e) => Err(e),
        }
    }

    /// Relies on sled::Tree::insert: sets the key to the value and returns
    /// the previous value at that key, if any. On an error nothing is known
    /// of the contents.
    #[verifier::external_body]
    pub fn insert(&mut self, key: &Vec<u8>, value: &Vec<u8>) -> (r: Result<
        Option<Vec<u8>>,
        sled::Error,
    >)
        ensures
            r matches Ok(prev) ==> {
                &&& store_contents(*final(self)) == store_contents(*old(self)).insert(key@, value@)
                &&& store_contents(*old(self)).dom().finite() ==> store_contents(
                    *final(self),
                ).dom().finite()
                &&& match prev {
                    Some(p) => store_contents(*old(self)).contains_key(key@) && p@ == store_contents(
                        *old(self),
                    )[key@],
                    None => !store_contents(*old(self)).contains_key(key@),
                }
            },
    {
        match self.db.insert(key.as_slice(), value.as_slice()) {
            Ok(Some(prev)) => Ok(Some(prev.to_vec())),
            Ok(None) => Ok(None),
            Err(e) => Err(e),
        }
    }

    /// Relies on sled::Tree::get: returns the value at the key, if any.
    #[verifier::external_body]
    pub fn get(&self, key: &Vec<u8>) -> (r: Result<Option<Vec<u8>>, sled::Error>)
        ensures
            r matches Ok(found) ==> match found {
                Some(v) => store_contents(*self).contains_key(key@) && v@ == store_contents(
                    *self,
                )[key@],
                None => !store_contents(*self).contains_key(key@),
            },
    {
        match self.db.get(key.as_slice()) {
            Ok(Some(v)) => Ok(Some(v.to_vec())),
            Ok(None) => Ok(None),
            Err(e) => Err(e),
        }
    }

    /// Relies on sled::Tree::apply_batch: on success every write of the
    /// batch is applied together. On an error nothing is known of the
    /// contents.
    #[verifier::external_body]
    pub fn apply_batch(&mut self, batch: sled::Batch) -> (r: Result<(), sled::Error>)
        ensures
            r is Ok ==> store_contents(*final(self)) == store_contents(
                *old(self),
            ).union_prefer_right(batch_contents(batch)) && (store_contents(*old(
                self,
            )).dom().finite() && batch_contents(batch).dom().finite() ==> store_contents(
                *final(self),
            ).dom().finite()),
    {
        self.db.apply_batch(batch)
    }

    /// Relies on sled::Tree::len: the number of keys the store holds.
    #[verifier::external_body]
    pub fn entry_count(&self) -> (r: usize)
        ensures
            r == store_contents(*self).dom().len(),
    {
        self.db.len()
    }
}

} // verus!
