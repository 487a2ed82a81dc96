//! The metadata index: per key, the binary form of its record. The embedded
//! database that holds it is driven by the caller; here are the operations it
//! is asked to perform, what each does to the index, and the garbage
//! collection of records whose file is gone.
use vstd::prelude::*;
use crate::keys::{join, join_path};
use crate::record::{
    decode_encoding_timestamp_from_value, decoded, encode_record, info_bytes, DataInfo, Encoding,
    RecordError,
};
use crate::timestamp::Timestamp;

verus! {

/// The name of the directory, right under the root, that holds the index.
pub const DB_FILENAME: &'static str = ".zenoh_datainfo";

/// Records younger than this, in NTP time (5 seconds), survive garbage collection.
pub const MIN_DELAY_BEFORE_REMOVAL: u64 = 0x5_0000_0000;

/// One write to the index.
#[derive(Clone, Debug, PartialEq, Eq)]
pub enum IndexOp {
    Put { key: String, value: Vec<u8> },
    Delete { key: String },
}

/// Why an index operation could not be planned.
#[derive(Clone, Copy, Debug, PartialEq, Eq, Structural)]
pub enum IndexError {
    /// The key to rename has no record.
    NotFound,
}

/// What an index operation does to the index.
pub open spec fn apply_op(m: Map<Seq<char>, Seq<u8>>, op: IndexOp) -> Map<Seq<char>, Seq<u8>> {
    match op {
        IndexOp::Put { key, value } => m.insert(key@, value@),
        IndexOp::Delete { key } => m.remove(key@),
    }
}

/// What a sequence of index operations does, in order.
pub open spec fn apply_ops(m: Map<Seq<char>, Seq<u8>>, ops: Seq<IndexOp>) -> Map<
    Seq<char>,
    Seq<u8>,
>
    decreases ops.len(),
{
    if ops.len() == 0 {
        m
    } else {
        apply_ops(apply_op(m, ops[0]), ops.drop_first())
    }
}

/// The path of the index directory under a root.
pub fn db_path(base_dir: &str) -> (r: String)
    ensures
        r@ == join_path(base_dir@, DB_FILENAME@),
{
    join(base_dir, DB_FILENAME)
}

/// The index write that stores the record of `key`.
pub fn put_data_info(key: &str, encoding: Encoding, timestamp: &Timestamp) -> (r: IndexOp)
    ensures
        r is Put,
        r->Put_key@ == key@,
        r->Put_value@ == info_bytes(DataInfo { timestamp: *timestamp, encoding }),
{
    let info = DataInfo { timestamp: *timestamp, encoding };
    IndexOp::Put { key: key.to_owned(), value: encode_record(&info) }
}

/// The index write that drops the record of `key`; dropping an absent
/// record changes nothing. No tombstone is kept: once a key is deleted, a
/// late write whose timestamp predates the delete finds nothing stored and is
/// applied, so it brings the key back.
pub fn del_data_info(key: &str) -> (r: IndexOp)
    ensures
        r is Delete,
        r->Delete_key@ == key@,
{
    IndexOp::Delete { key: key.to_owned() }
}

/// The index writes that move the record of `from` to `to`, given what is
/// stored under `from`: it is written under `to`, then dropped from `from`.
pub fn rename_key(from: &str, to: &str, stored: Option<Vec<u8>>) -> (r: Result<
    Vec<IndexOp>,
    IndexError,
>)
    ensures
        match stored {
            Some(v) => r matches Ok(ops) && forall|m: Map<Seq<char>, Seq<u8>>|
                #[trigger] apply_ops(m, ops@) == m.insert(to@, v@).remove(from@),
            None => r == Err::<Vec<IndexOp>, IndexError>(IndexError::NotFound),
        },
{
    match stored {
        Some(v) => {
            let put = IndexOp::Put { key: to.to_owned(), value: v };
            let del = IndexOp::Delete { key: from.to_owned() };
            let ops = vec![put, del];
            proof {
                assert forall|m: Map<Seq<char>, Seq<u8>>|
                    #[trigger] apply_ops(m, ops@) == m.insert(to@, v@).remove(from@) by {
                    let m1 = apply_op(m, ops@[0]);
                    assert(ops@.drop_first().drop_first().len() == 0);
                    assert(apply_ops(m, ops@) == apply_ops(m1, ops@.drop_first()));
                    assert(apply_ops(m1, ops@.drop_first()) == apply_ops(
                        apply_op(m1, ops@[1]),
                        ops@.drop_first().drop_first(),
                    ));
                }
            }
            Ok(ops)
        },
        None => Err(IndexError::NotFound),
    }
}

/// The encoding and timestamp held under a key, given what is stored there:
/// `None` where nothing is.
pub fn get_encoding_and_timestamp(stored: Option<&[u8]>) -> (r: Result<
    Option<(Encoding, Timestamp)>,
    RecordError,
>)
    ensures
        match stored {
            None => r == Ok::<Option<(Encoding, Timestamp)>, RecordError>(None),
            Some(b) => match (r, decoded(b@)) {
                (Ok(Some((e, t))), Ok(d)) => t.time == d.0 && t.id@ == d.1 && e.id == d.2
                    && e.schema@ == d.3,
                (Err(x), Err(y)) => x == y,
                _ => false,
            },
        },
{
    match stored {
        None => Ok(None),
        Some(b) => match decode_encoding_timestamp_from_value(b) {
            Ok(p) => Ok(Some(p)),
            Err(e) => Err(e),
        },
    }
}

/// One index entry as seen by a sweep: its key, its stored bytes, and
/// whether its file still exists.
#[derive(Clone, Debug)]
pub struct SweepEntry {
    pub key: String,
    pub value: Vec<u8>,
    pub file_exists: bool,
}

/// Whether a sweep at time `now` drops a record: its file is gone, it
/// decodes, and it is older than the grace delay.
pub open spec fn stale(now: u64, value: Seq<u8>, file_exists: bool) -> bool {
    match decoded(value) {
        Ok(r) => !file_exists && r.0 + MIN_DELAY_BEFORE_REMOVAL < now,
        Err(_) => false,
    }
}

/// Whether a sweep at time `now` drops this entry.
pub fn is_stale(now: u64, entry: &SweepEntry) -> (r: bool)
    ensures
        r == stale(now, entry.value@, entry.file_exists),
{
    if entry.file_exists {
        return false;
    }
    match decode_encoding_timestamp_from_value(entry.value.as_slice()) {
        Ok((_, t)) => t.time < now && now - t.time > MIN_DELAY_BEFORE_REMOVAL,
        Err(_) => false,
    }
}

/// The keys a garbage-collection sweep at time `now` deletes: exactly those
/// of the stale entries, in order. Entries that do not decode are left alone
/// and the sweep goes on.
pub fn gc_sweep(now: u64, entries: &Vec<SweepEntry>) -> (r: Vec<String>)
    ensures
        r@.len() == entries@.filter(|e: SweepEntry| stale(now, e.value@, e.file_exists)).len(),
        forall|i: int|
            0 <= i < r@.len() ==> r@[i]@ == entries@.filter(
                |e: SweepEntry| stale(now, e.value@, e.file_exists),
            )[i].key@,
{
    let ghost f = |e: SweepEntry| stale(now, e.value@, e.file_exists);
    let mut r: Vec<String> = Vec::new();
    let mut i: usize = 0;
    while i < entries.len()
        invariant
            f == (|e: SweepEntry| stale(now, e.value@, e.file_exists)),
            i <= entries@.len(),
            r@.len() == entries@.subrange(0, i as int).filter(f).len(),
            forall|j: int|
                0 <= j < r@.len() ==> r@[j]@ == entries@.subrange(0, i as int).filter(f)[j].key@,
        decreases entries@.len() - i,
    {
        let ghost pre = entries@.subrange(0, i as int);
        assert(entries@.subrange(0, i + 1) =~= pre.push(entries@[i as int]));
        let ghost e = entries@[i as int];
        proof {
            pre.lemma_filter_push(e, f);
        }
        let ghost old_r = r@;
        let drop = is_stale(now, &entries[i]);
        assert(drop == f(e));
        if drop {
            r.push(entries[i].key.clone());
            proof {
                assert(f(e));
                assert(pre.push(e).filter(f) == pre.filter(f).push(e));
                assert forall|j: int| 0 <= j < r@.len() implies r@[j]@ == pre.push(e).filter(f)[j].key@ by {
                    if j < old_r.len() {
                        assert(r@[j] == old_r[j]);
                    }
                }
            }
        } else {
            proof {
                assert(!f(e));
                assert(pre.push(e).filter(f) == pre.filter(f));
            }
        }
        i = i + 1;
    }
    assert(entries@.subrange(0, entries@.len() as int) =~= entries@);
    r
}

} // verus!
