//! A model of the store: the files and directories below the root, by
//! relative name, and the metadata index. Each operation is put together from
//! the decisions the library computes (the ancestors of a key, the files among
//! them that are pushed aside, where a write or delete lands), applied as the
//! caller applies them. The laws of the store are proved over it.
use vstd::prelude::*;
use crate::files::{
    ancestors_rel, delete_target_rel, moved_ancestors, walk_len, write_target_rel, EntryKind,
};
use crate::keys::conflict_suffix;
use crate::record::{decoded, info_bytes, lemma_record_round_trip, DataInfo};
use crate::timestamp::{id_nonzero, lemma_ts_before_asymmetric, ts_before, ts_lt};

verus! {

/// What a name below the root holds.
pub enum Node {
    File(Seq<u8>),
    Dir,
}

/// The files and directories below the root, and the metadata index.
pub struct Disk {
    pub nodes: Map<Seq<char>, Node>,
    pub index: Map<Seq<char>, Seq<u8>>,
}

/// What a name holds, as the caller observes it.
pub open spec fn kind_at(d: Disk, p: Seq<char>) -> EntryKind {
    if !d.nodes.contains_key(p) {
        EntryKind::Absent
    } else {
        match d.nodes[p] {
            Node::File(_) => EntryKind::File,
            Node::Dir => EntryKind::Dir,
        }
    }
}

/// A file pushed aside to its suffixed name, with its record; a file without
/// a record gets `fallback`.
pub open spec fn move_aside(d: Disk, m: Seq<char>, fallback: Seq<u8>) -> Disk {
    let to = m + conflict_suffix();
    Disk {
        nodes: d.nodes.remove(m).insert(to, d.nodes[m]),
        index: if d.index.contains_key(m) {
            d.index.insert(to, d.index[m]).remove(m)
        } else {
            d.index.insert(to, fallback)
        },
    }
}

/// The names in `ms` pushed aside, one after the other.
pub open spec fn move_all(d: Disk, ms: Seq<Seq<char>>, fallback: Seq<u8>) -> Disk
    decreases ms.len(),
{
    if ms.len() == 0 {
        d
    } else {
        move_all(move_aside(d, ms[0], fallback), ms.drop_first(), fallback)
    }
}

/// The first `n` ancestors made directories.
pub open spec fn make_dirs(d: Disk, anc: Seq<Seq<char>>, n: nat) -> Disk
    decreases n,
{
    if n == 0 {
        d
    } else {
        let d1 = make_dirs(d, anc, (n - 1) as nat);
        Disk { nodes: d1.nodes.insert(anc[n - 1], Node::Dir), index: d1.index }
    }
}

/// A write of `bytes` with record `rec` under key `k`: the files among the
/// ancestors up to the first directory are pushed aside, the ancestors are
/// made directories, and the content and record go to the write target.
pub open spec fn model_put(d: Disk, k: Seq<char>, bytes: Seq<u8>, rec: Seq<u8>, fallback: Seq<u8>) -> Disk {
    let anc = ancestors_rel(k);
    let kinds = Seq::new(anc.len(), |i: int| kind_at(d, anc[i]));
    let d1 = move_all(d, moved_ancestors(anc, kinds, walk_len(kinds)), fallback);
    let d2 = make_dirs(d1, anc, anc.len());
    let t = write_target_rel(k, kind_at(d2, k));
    Disk { nodes: d2.nodes.insert(t, Node::File(bytes)), index: d2.index.insert(t, rec) }
}

/// A read of key `k`: the content and the stored record, if any, of its
/// file, or else of its suffixed file.
pub open spec fn model_get(d: Disk, k: Seq<char>) -> Option<(Seq<u8>, Option<Seq<u8>>)> {
    let c = k + conflict_suffix();
    let p = if kind_at(d, k) == EntryKind::File {
        k
    } else {
        c
    };
    if kind_at(d, p) == EntryKind::File {
        Some(
            (
                d.nodes[p]->File_0,
                if d.index.contains_key(p) {
                    Some(d.index[p])
                } else {
                    None
                },
            ),
        )
    } else {
        None
    }
}

/// A delete of key `k`: its file, or else its suffixed file, is removed
/// together with its record; a name that holds nothing is left as it is.
pub open spec fn model_delete(d: Disk, k: Seq<char>) -> Disk {
    let t = delete_target_rel(k, kind_at(d, k));
    Disk {
        nodes: if kind_at(d, t) == EntryKind::File {
            d.nodes.remove(t)
        } else {
            d.nodes
        },
        index: d.index.remove(t),
    }
}

/// The timestamp recorded for key `k`, as time and identity, where its
/// record decodes.
pub open spec fn stored_time(d: Disk, k: Seq<char>) -> Option<(u64, Seq<u8>)> {
    match model_get(d, k) {
        Some((_, Some(rec))) => match decoded(rec) {
            Ok(r) => Some((r.0, r.1)),
            Err(_) => None,
        },
        _ => None,
    }
}

/// A write that passes the last-writer-wins rule: dropped where the stored
/// timestamp does not come before that of `info`.
pub open spec fn model_update(d: Disk, k: Seq<char>, bytes: Seq<u8>, info: DataInfo, fallback: Seq<u8>) -> Disk {
    match stored_time(d, k) {
        Some((t, id)) => if ts_before(t, id, info.timestamp.time, info.timestamp.id@) {
            model_put(d, k, bytes, info_bytes(info), fallback)
        } else {
            d
        },
        None => model_put(d, k, bytes, info_bytes(info), fallback),
    }
}

/// A delete that passes the last-writer-wins rule: dropped where the stored
/// timestamp does not come before `time` and `id`.
pub open spec fn model_remove(d: Disk, k: Seq<char>, time: u64, id: Seq<u8>) -> Disk {
    match stored_time(d, k) {
        Some((t, i)) => if ts_before(t, i, time, id) {
            model_delete(d, k)
        } else {
            d
        },
        None => model_delete(d, k),
    }
}

/// Round trip: after a write of `bytes` with record `rec` under `k`, a read
/// of `k` gives `bytes` and `rec`, whatever the store held before.
pub proof fn lemma_put_then_get(d: Disk, k: Seq<char>, bytes: Seq<u8>, rec: Seq<u8>, fallback: Seq<u8>)
    ensures
        model_get(model_put(d, k, bytes, rec, fallback), k) == Some((bytes, Some(rec))),
{
    let anc = ancestors_rel(k);
    let kinds = Seq::new(anc.len(), |i: int| kind_at(d, anc[i]));
    let d1 = move_all(d, moved_ancestors(anc, kinds, walk_len(kinds)), fallback);
    let d2 = make_dirs(d1, anc, anc.len());
    let t = write_target_rel(k, kind_at(d2, k));
    let d3 = model_put(d, k, bytes, rec, fallback);
    if kind_at(d2, k) == EntryKind::Dir {
        assert(t.len() == k.len() + 4);
        assert(t != k);
        assert(d3.nodes[k] == d2.nodes[k]);
        assert(kind_at(d3, k) == EntryKind::Dir);
    }
}

/// The stored record of a written timestamp decodes back to it.
pub proof fn lemma_record_decodes(info: DataInfo)
    requires
        id_nonzero(info.timestamp.id@),
        info.encoding.schema@.len() <= u64::MAX,
    ensures
        decoded(info_bytes(info)) == Ok::<(u64, Seq<u8>, u16, Seq<u8>), crate::record::RecordError>(
            (info.timestamp.time, info.timestamp.id@, info.encoding.id, info.encoding.schema@),
        ),
{
    lemma_record_round_trip(
        info.timestamp.time,
        info.timestamp.id@,
        info.encoding.id,
        info.encoding.schema@,
    );
}

/// Ordering: once a write with `first` is in place, a later write under the
/// same key whose timestamp comes before that of `first` is dropped, and a
/// read still gives what `first` wrote.
pub proof fn lemma_older_write_dropped(
    d: Disk,
    k: Seq<char>,
    b1: Seq<u8>,
    first: DataInfo,
    b2: Seq<u8>,
    second: DataInfo,
    fallback: Seq<u8>,
)
    requires
        id_nonzero(first.timestamp.id@),
        first.encoding.schema@.len() <= u64::MAX,
        ts_lt(second.timestamp, first.timestamp),
    ensures
        ({
            let d1 = model_put(d, k, b1, info_bytes(first), fallback);
            &&& model_update(d1, k, b2, second, fallback) == d1
            &&& model_get(model_update(d1, k, b2, second, fallback), k) == Some(
                (b1, Some(info_bytes(first))),
            )
        }),
{
    let d1 = model_put(d, k, b1, info_bytes(first), fallback);
    lemma_put_then_get(d, k, b1, info_bytes(first), fallback);
    lemma_record_decodes(first);
    lemma_ts_before_asymmetric(
        second.timestamp.time,
        second.timestamp.id@,
        first.timestamp.time,
        first.timestamp.id@,
    );
    assert(stored_time(d1, k) == Some((first.timestamp.time, first.timestamp.id@)));
}


/// Every ancestor of `k` is a proper prefix of it followed by a `/`.
proof fn lemma_ancestor_shape(k: Seq<char>, j: int)
    requires
        0 <= j < ancestors_rel(k).len(),
    ensures
        ancestors_rel(k)[j].len() < k.len(),
        k.subrange(0, ancestors_rel(k)[j].len() as int) == ancestors_rel(k)[j],
        k[ancestors_rel(k)[j].len() as int] == '/',
    decreases k.len(),
{
    let p = k.drop_last();
    if k.last() == '/' {
        if j == 0 {
            assert(k.subrange(0, p.len() as int) =~= p);
        } else {
            lemma_ancestor_shape(p, j - 1);
            let a = ancestors_rel(p)[j - 1];
            assert(k.subrange(0, a.len() as int) =~= p.subrange(0, a.len() as int));
        }
    } else {
        lemma_ancestor_shape(p, j);
        let a = ancestors_rel(p)[j];
        assert(k.subrange(0, a.len() as int) =~= p.subrange(0, a.len() as int));
    }
}

/// The ancestors of `k/s`, for a segment `s` without `/`, are `k` and the
/// ancestors of `k`.
proof fn lemma_ancestors_child(k: Seq<char>, s: Seq<char>)
    requires
        forall|i: int| 0 <= i < s.len() ==> s[i] != '/',
    ensures
        ancestors_rel(k + seq!['/'] + s) == seq![k] + ancestors_rel(k),
    decreases s.len(),
{
    let c = k + seq!['/'] + s;
    if s.len() == 0 {
        assert(c.drop_last() =~= k);
        assert(c.last() == '/');
    } else {
        lemma_ancestors_child(k, s.drop_last());
        assert(c.drop_last() =~= k + seq!['/'] + s.drop_last());
        assert(c.last() == s.last());
    }
}

proof fn lemma_make_dirs_hit(d: Disk, anc: Seq<Seq<char>>, n: nat, i: int)
    requires
        0 <= i < n <= anc.len(),
    ensures
        make_dirs(d, anc, n).nodes.contains_key(anc[i]),
        make_dirs(d, anc, n).nodes[anc[i]] == Node::Dir,
    decreases n,
{
    if i < n - 1 {
        lemma_make_dirs_hit(d, anc, (n - 1) as nat, i);
    }
}

proof fn lemma_make_dirs_miss(d: Disk, anc: Seq<Seq<char>>, n: nat, p: Seq<char>)
    requires
        n <= anc.len(),
        forall|i: int| 0 <= i < n ==> anc[i] != p,
    ensures
        make_dirs(d, anc, n).nodes.contains_key(p) == d.nodes.contains_key(p),
        make_dirs(d, anc, n).nodes[p] == d.nodes[p],
        make_dirs(d, anc, n).index == d.index,
    decreases n,
{
    if n > 0 {
        lemma_make_dirs_miss(d, anc, (n - 1) as nat, p);
    }
}

/// Two names that agree up to position `i` but differ there are different.
proof fn lemma_differ_at(a: Seq<char>, b: Seq<char>, i: int)
    requires
        0 <= i < a.len(),
        i < b.len(),
        a[i] != b[i],
    ensures
        a != b,
{
}

/// What a write leaves behind, for the proof of the conflict law: the
/// ancestors of the key are directories, and the content and record sit
/// under the key, or under its suffixed name with the key a directory.
proof fn lemma_put_shape(d: Disk, k: Seq<char>, bytes: Seq<u8>, rec: Seq<u8>, fallback: Seq<u8>)
    ensures
        ({
            let d1 = model_put(d, k, bytes, rec, fallback);
            let c = k + conflict_suffix();
            &&& forall|j: int|
                0 <= j < ancestors_rel(k).len() ==> kind_at(d1, #[trigger] ancestors_rel(k)[j])
                    == EntryKind::Dir
            &&& (kind_at(d1, k) == EntryKind::File && d1.nodes[k] == Node::File(bytes)
                && d1.index.contains_key(k) && d1.index[k] == rec) || (kind_at(d1, k)
                == EntryKind::Dir && d1.nodes.contains_key(c) && d1.nodes[c] == Node::File(bytes)
                && d1.index.contains_key(c) && d1.index[c] == rec)
        }),
{
    let anc = ancestors_rel(k);
    let kinds = Seq::new(anc.len(), |i: int| kind_at(d, anc[i]));
    let da = move_all(d, moved_ancestors(anc, kinds, walk_len(kinds)), fallback);
    let db = make_dirs(da, anc, anc.len());
    let t = write_target_rel(k, kind_at(db, k));
    let d1 = model_put(d, k, bytes, rec, fallback);
    assert forall|j: int| 0 <= j < anc.len() implies kind_at(d1, #[trigger] anc[j])
        == EntryKind::Dir by {
        lemma_ancestor_shape(k, j);
        lemma_make_dirs_hit(da, anc, anc.len(), j);
        assert(anc[j].len() < t.len());
        assert(anc[j] != t);
    }
    if kind_at(db, k) == EntryKind::Dir {
        assert(t.len() == k.len() + 4);
        assert(t != k);
        assert(d1.nodes[k] == db.nodes[k]);
    }
}

/// Conflict resolution: write a key `k`, then a key `k/s` one segment
/// below it. Both are then readable with what was written to each, though
/// `k` had to make room for the directory `k`.
pub proof fn lemma_conflict_resolution(
    d: Disk,
    k: Seq<char>,
    s: Seq<char>,
    b1: Seq<u8>,
    r1: Seq<u8>,
    b2: Seq<u8>,
    r2: Seq<u8>,
    fallback: Seq<u8>,
)
    requires
        s.len() > 0,
        forall|i: int| 0 <= i < s.len() ==> s[i] != '/',
    ensures
        ({
            let k2 = k + seq!['/'] + s;
            let c = k + conflict_suffix();
            let d1 = model_put(d, k, b1, r1, fallback);
            let d2 = model_put(d1, k2, b2, r2, fallback);
            &&& model_get(d2, k) == Some((b1, Some(r1)))
            &&& model_get(d2, k2) == Some((b2, Some(r2)))
            &&& kind_at(d2, k) == EntryKind::Dir
            &&& d2.nodes.contains_key(c) && d2.nodes[c] == Node::File(b1)
            &&& d2.index.contains_key(c) && d2.index[c] == r1
            &&& (kind_at(d1, k) == EntryKind::File ==> !d2.index.contains_key(k))
        }),
{
    let k2 = k + seq!['/'] + s;
    let c = k + conflict_suffix();
    let d1 = model_put(d, k, b1, r1, fallback);
    let d2 = model_put(d1, k2, b2, r2, fallback);
    lemma_put_then_get(d1, k2, b2, r2, fallback);
    lemma_put_shape(d, k, b1, r1, fallback);
    lemma_ancestors_child(k, s);
    let anc = ancestors_rel(k);
    let anc2 = ancestors_rel(k2);
    assert(anc2 == seq![k] + anc);
    let kinds2 = Seq::new(anc2.len(), |i: int| kind_at(d1, anc2[i]));
    assert(kinds2[0] == kind_at(d1, k));
    assert forall|i: int| 1 <= i < kinds2.len() implies kinds2[i] == EntryKind::Dir by {
        assert(anc2[i] == anc[i - 1]);
    }
    let ms = moved_ancestors(anc2, kinds2, walk_len(kinds2));
    let da = move_all(d1, ms, fallback);
    if kind_at(d1, k) == EntryKind::File {
        let rest = kinds2.drop_first();
        if rest.len() > 0 {
            assert(rest[0] == kinds2[1]);
        }
        assert(walk_len(rest) == 0);
        assert(walk_len(kinds2) == 1);
        assert(anc2[0] == k);
        assert(moved_ancestors(anc2, kinds2, 0) == Seq::<Seq<char>>::empty());
        assert(ms == Seq::<Seq<char>>::empty().push(anc2[0]));
        assert(ms =~= seq![k]);
        assert(ms.drop_first().len() == 0);
        let moved = move_aside(d1, k, fallback);
        assert(move_all(moved, ms.drop_first(), fallback) == moved);
        assert(da == moved);
        assert(c != k);
        assert(da.nodes[c] == d1.nodes[k]);
        assert(da.nodes.contains_key(c));
        assert(da.index.contains_key(c) && da.index[c] == r1);
    } else {
        assert(walk_len(kinds2) == 0);
        assert(ms.len() == 0);
        assert(da == d1);
    }
    // The suffixed name of `k` is neither an ancestor of `k2` nor a target of the write.
    assert forall|i: int| 0 <= i < anc2.len() implies anc2[i] != c by {
        if i > 0 {
            lemma_ancestor_shape(k, i - 1);
        }
    }
    lemma_make_dirs_miss(da, anc2, anc2.len(), c);
    lemma_make_dirs_hit(da, anc2, anc2.len(), 0);
    let db = make_dirs(da, anc2, anc2.len());
    let t = write_target_rel(k2, kind_at(db, k2));
    assert(t[k.len() as int] == '/');
    assert(c[k.len() as int] == '.');
    lemma_differ_at(t, c, k.len() as int);
    assert(t.len() > k.len());
    assert(t != k);
    assert(d2.nodes[k] == Node::Dir);
    assert(kind_at(d2, k) == EntryKind::Dir);
    assert(d2.nodes[c] == Node::File(b1));
    assert(d2.nodes.contains_key(c));
    assert(d2.index[c] == r1);
    if kind_at(d1, k) == EntryKind::File {
        assert(!da.index.contains_key(k));
        assert(!d2.index.contains_key(k));
    }
}

/// Deleting a key that holds nothing, under its name or its suffixed name,
/// leaves the files as they are; doing it again changes nothing more.
pub proof fn lemma_delete_absent_idempotent(d: Disk, k: Seq<char>)
    requires
        !d.nodes.contains_key(k),
        !d.nodes.contains_key(k + conflict_suffix()),
    ensures
        model_delete(d, k).nodes == d.nodes,
        model_delete(model_delete(d, k), k) == model_delete(d, k),
        model_get(model_delete(d, k), k) is None,
{
    let d1 = model_delete(d, k);
    let c = k + conflict_suffix();
    assert(d1.index.remove(c) =~= d1.index);
}
/// After a delete of `k`, a read of `k` finds nothing, provided `k` and its
/// suffixed name did not both hold a file.
pub proof fn lemma_delete_then_get(d: Disk, k: Seq<char>)
    requires
        !(kind_at(d, k) == EntryKind::File && kind_at(d, k + conflict_suffix()) == EntryKind::File),
    ensures
        model_get(model_delete(d, k), k) is None,
{
    let c = k + conflict_suffix();
    assert(c.len() == k.len() + 4);
    assert(c != k);
}

/// Ordering applies to deletes too: once a write with `first` is in place, a
/// delete whose timestamp comes before that of `first` is dropped.
pub proof fn lemma_older_delete_dropped(
    d: Disk,
    k: Seq<char>,
    b1: Seq<u8>,
    first: DataInfo,
    time: u64,
    id: Seq<u8>,
    fallback: Seq<u8>,
)
    requires
        id_nonzero(first.timestamp.id@),
        first.encoding.schema@.len() <= u64::MAX,
        ts_before(time, id, first.timestamp.time, first.timestamp.id@),
    ensures
        ({
            let d1 = model_put(d, k, b1, info_bytes(first), fallback);
            &&& model_remove(d1, k, time, id) == d1
            &&& model_get(model_remove(d1, k, time, id), k) == Some((b1, Some(info_bytes(first))))
        }),
{
    let d1 = model_put(d, k, b1, info_bytes(first), fallback);
    lemma_put_then_get(d, k, b1, info_bytes(first), fallback);
    lemma_record_decodes(first);
    lemma_ts_before_asymmetric(time, id, first.timestamp.time, first.timestamp.id@);
    assert(stored_time(d1, k) == Some((first.timestamp.time, first.timestamp.id@)));
}

} // verus!
