use vstd::prelude::*;
use crate::codec::{enc_record, encode_record};
use crate::record::NewsData;
use crate::store::{batch_contents, batch_insert, batch_new, store_contents, Store};

verus! {

/// The reply to a health check.
pub struct HealthcheckResponse {
    pub is_healthy: bool,
    pub message: String,
}

/// The reply to a write: whether the store took the pair, and either the
/// value the key held before, the new value where there was none, or an
/// empty string on a store error.
pub struct WriteResponse {
    pub was_successful: bool,
    pub reply: String,
}

/// Why a read returned no value.
#[derive(Clone, Copy, PartialEq, Eq, Structural, Debug)]
pub enum ReadError {
    /// The key is not in the store.
    NotFound,
    /// The value's bytes are not valid text.
    Corrupt,
    /// The storage engine itself failed.
    Internal,
}

/// Why a batch persist failed.
#[derive(Clone, Copy, PartialEq, Eq, Structural, Debug)]
pub enum PersistError {
    /// The storage engine rejected the atomic batch.
    Backend,
}

/// Relies on String::from_utf8: succeeds exactly on valid UTF-8, and then
/// returns the text those bytes encode.
#[verifier::external_body]
fn bytes_to_string(v: Vec<u8>) -> (r: Option<String>)
    ensures
        r matches Some(s) ==> s@ == vstd::utf8::decode_utf8(v@),
        r is Some <==> vstd::utf8::valid_utf8(v@),
{
    String::from_utf8(v).ok()
}

/// The text a stored value stands for: its UTF-8 decoding, or empty where
/// the bytes are not valid UTF-8.
pub open spec fn stored_text(b: Seq<u8>) -> Seq<char> {
    if vstd::utf8::valid_utf8(b) {
        vstd::utf8::decode_utf8(b)
    } else {
        Seq::empty()
    }
}

/// The store-backed data service: three independent operations against one
/// shared store.
pub struct SwarmAPI {
    pub database: Store,
}

impl SwarmAPI {
    /// Health check: always healthy, no store access.
    pub fn healthcheck(&self) -> (r: HealthcheckResponse)
        ensures
            r.is_healthy,
            r.message@ == "healthy"@,
    {
        HealthcheckResponse { is_healthy: true, message: String::from_str("healthy") }
    }

    /// Writes `data` at `key`. On success the reply carries the *previous*
    /// value at the key if one existed, else it echoes the new data; on a
    /// store error the reply is empty and the write is reported
    /// unsuccessful.
    pub fn write_data(&mut self, key: Vec<u8>, data: String) -> (r: WriteResponse)
        ensures
            r.was_successful ==> {
                &&& store_contents(final(self).database) == store_contents(
                    old(self).database,
                ).insert(key@, vstd::utf8::encode_utf8(data@))
                &&& r.reply@ == if store_contents(old(self).database).contains_key(key@) {
                    stored_text(store_contents(old(self).database)[key@])
                } else {
                    data@
                }
            },
            !r.was_successful ==> r.reply@ == Seq::<char>::empty(),
    {
        let value = data.as_str().as_bytes_vec();
        match self.database.insert(&key, &value) {
            Ok(Some(prev)) => {
                let reply = match bytes_to_string(prev) {
                    Some(s) => s,
                    None => String::new(),
                };
                WriteResponse { was_successful: true, reply }
            },
            Ok(None) => WriteResponse { was_successful: true, reply: data },
            Err(_) => WriteResponse { was_successful: false, reply: String::new() },
        }
    }

    /// Reads the value at `key` as text. An absent key is an explicit
    /// `NotFound`, never a crash; a value that is not valid text is
    /// `Corrupt`; a storage failure is `Internal`.
    pub fn read_data(&self, key: &Vec<u8>) -> (r: Result<String, ReadError>)
        ensures
            match r {
                Ok(s) => store_contents(self.database).contains_key(key@)
                    && vstd::utf8::valid_utf8(store_contents(self.database)[key@]) && s@
                    == vstd::utf8::decode_utf8(store_contents(self.database)[key@]),
                Err(ReadError::NotFound) => !store_contents(self.database).contains_key(key@),
                Err(ReadError::Corrupt) => store_contents(self.database).contains_key(key@)
                    && !vstd::utf8::valid_utf8(store_contents(self.database)[key@]),
                Err(ReadError::Internal) => true,
            },
    {
        match self.database.get(key) {
            Ok(Some(v)) => match bytes_to_string(v) {
                Some(s) => Ok(s),
                None => Err(ReadError::Corrupt),
            },
            Ok(None) => Err(ReadError::NotFound),
            Err(_) => Err(ReadError::Internal),
        }
    }
}

/// Writes a text value at a text key, handing back the key's previous raw
/// bytes if it held any.
pub fn write_to_db(store: &mut Store, key: String, value: String) -> (r: Result<
    Option<Vec<u8>>,
    sled::Error,
>)
    ensures
        r matches Ok(prev) ==> {
            &&& store_contents(*final(store)) == store_contents(*old(store)).insert(
                vstd::utf8::encode_utf8(key@),
                vstd::utf8::encode_utf8(value@),
            )
            &&& match prev {
                Some(p) => store_contents(*old(store)).contains_key(vstd::utf8::encode_utf8(key@))
                    && p@ == store_contents(*old(store))[vstd::utf8::encode_utf8(key@)],
                None => !store_contents(*old(store)).contains_key(vstd::utf8::encode_utf8(key@)),
            }
        },
{
    let k = key.as_str().as_bytes_vec();
    let v = value.as_str().as_bytes_vec();
    store.insert(&k, &v)
}

/// The store writes a batch of records stands for: each article id's UTF-8
/// bytes mapped to its record's encoding. A later pair wins a repeated id.
pub open spec fn records_map(entries: Seq<(String, NewsData)>) -> Map<Seq<u8>, Seq<u8>>
    decreases entries.len(),
{
    if entries.len() == 0 {
        Map::empty()
    } else {
        records_map(entries.drop_last()).insert(
            vstd::utf8::encode_utf8(entries.last().0@),
            enc_record(entries.last().1@),
        )
    }
}

/// Serializes every record and applies all pairs as one atomic batch:
/// either the store takes them together, or the error is propagated and
/// reported. Keys already present are overwritten, not duplicated.
pub fn persist_records(store: &mut Store, records: &Vec<(String, NewsData)>) -> (r: Result<
    (),
    PersistError,
>)
    ensures
        r is Ok ==> store_contents(*final(store)) == store_contents(*old(store)).union_prefer_right(
            records_map(records@),
        ),
{
    let mut batch = batch_new();
    let n = records.len();
    let mut i: usize = 0;
    while i < n
        invariant
            0 <= i <= n,
            n == records@.len(),
            batch_contents(batch) == records_map(records@.take(i as int)),
        decreases n - i,
    {
        let encoded = encode_record(&records[i].1);
        let key = records[i].0.as_str().as_bytes_vec();
        batch_insert(&mut batch, &key, &encoded);
        proof {
            assert(records@.take(i + 1).drop_last() =~= records@.take(i as int));
            assert(records@.take(i + 1).last() == records@[i as int]);
        }
        i = i + 1;
    }
    proof {
        assert(records@.take(n as int) =~= records@);
    }
    match store.apply_batch(batch) {
        Ok(_) => Ok(()),
        Err(_) => Err(PersistError::Backend),
    }
}

proof fn lemma_len_disjoint_union<A>(s1: Set<A>, s2: Set<A>)
    requires
        s1.finite(),
        s2.finite(),
        s1.disjoint(s2),
    ensures
        s1.union(s2).len() == s1.len() + s2.len(),
        s1.union(s2).finite(),
    decreases s1.len(),
{
    if s1.is_empty() {
        assert(s1.union(s2) =~= s2);
    } else {
        let x = s1.choose();
        lemma_len_disjoint_union(s1.remove(x), s2);
        assert(s1.remove(x).union(s2) =~= s1.union(s2).remove(x));
        assert(s1.union(s2).contains(x));
    }
}

/// Persisting a batch whose keys are all new grows the store by exactly the
/// batch's size.
pub proof fn lemma_persist_adds_new_keys(
    contents: Map<Seq<u8>, Seq<u8>>,
    batch: Map<Seq<u8>, Seq<u8>>,
)
    requires
        contents.dom().finite(),
        batch.dom().finite(),
        contents.dom().disjoint(batch.dom()),
    ensures
        contents.union_prefer_right(batch).dom().len() == contents.dom().len()
            + batch.dom().len(),
{
    assert(contents.union_prefer_right(batch).dom() =~= contents.dom().union(batch.dom()));
    lemma_len_disjoint_union(contents.dom(), batch.dom());
}

/// Applying the same batch a second time overwrites and leaves the store
/// exactly as after the first time: no duplicates arise.
pub proof fn lemma_persist_reapply(contents: Map<Seq<u8>, Seq<u8>>, batch: Map<Seq<u8>, Seq<u8>>)
    ensures
        contents.union_prefer_right(batch).union_prefer_right(batch) == contents.union_prefer_right(
            batch,
        ),
{
    assert(contents.union_prefer_right(batch).union_prefer_right(batch)
        =~= contents.union_prefer_right(batch));
}

} // verus!
