//! The decisions of the file store: where a key lives on disk, which
//! ancestors must make room for a write, what a read may look at, and the
//! metadata a file without a record is given. The caller observes the
//! file system, hands the observations in, and carries out what comes back.
use vstd::prelude::*;
use crate::external::{
    encoding_from_str, encoding_of_str, guessed_mime, is_key_expr, key_expr_intersects,
    key_expr_valid, key_exprs_intersect, mime_of_path, octet_stream_id,
};
use crate::keys::{
    conflict_suffix, conflict_suffix_chars, get_trimmed_keyexpr, is_valid_key, join, join_path,
    trimmed_key, valid_key,
};
use crate::record::{
    decode_encoding_timestamp_from_value, decode_timestamp, decoded, parse_timestamp, Encoding,
    RecordError,
};
use crate::text::{chars_of, extend_chars, slice_chars, string_of};
use crate::timestamp::{fallback_id, id_nonzero, ntp64_of, timestamp_from_file_time, Timestamp};

verus! {

/// What to do with the root directory when the store is closed.
#[derive(Clone, Copy, Debug, PartialEq, Eq, Structural)]
pub enum OnClosure {
    DeleteAll,
    DoNothing,
}

/// What a path names on disk (links followed).
#[derive(Clone, Copy, Debug, PartialEq, Eq, Structural)]
pub enum EntryKind {
    Absent,
    File,
    Dir,
}

/// Why a key cannot be placed under the root.
#[derive(Clone, Copy, Debug, PartialEq, Eq, Structural)]
pub enum KeyError {
    Invalid,
}

/// A key and the path of its file.
#[derive(Clone, Debug, PartialEq, Eq)]
pub struct ZFile {
    pub zpath: String,
    pub fspath: String,
}

/// The file store rooted at `base_dir`.
#[derive(Clone, Debug)]
pub struct FilesMgr {
    pub base_dir: String,
    pub follow_links: bool,
    pub keep_mime: bool,
    pub on_closure: OnClosure,
}

/// The proper ancestors of a relative name, nearest first: the prefixes that
/// stop before one of its `/`.
pub open spec fn ancestors_rel(k: Seq<char>) -> Seq<Seq<char>>
    decreases k.len(),
{
    if k.len() == 0 {
        seq![]
    } else if k.last() == '/' {
        seq![k.drop_last()] + ancestors_rel(k.drop_last())
    } else {
        ancestors_rel(k.drop_last())
    }
}

/// How many of the ancestors, nearest first, come before the first one that
/// is a directory: the walk up stops there.
pub open spec fn walk_len(kinds: Seq<EntryKind>) -> nat
    decreases kinds.len(),
{
    if kinds.len() == 0 || kinds[0] == EntryKind::Dir {
        0
    } else {
        1 + walk_len(kinds.drop_first())
    }
}

/// The relative name a write of `k` goes to: the suffixed name where `k`
/// is a directory.
pub open spec fn write_target_rel(k: Seq<char>, kind: EntryKind) -> Seq<char> {
    if kind == EntryKind::Dir {
        k + conflict_suffix()
    } else {
        k
    }
}

/// The relative name a delete of `k` removes: `k` where it is a file, else
/// the suffixed name.
pub open spec fn delete_target_rel(k: Seq<char>, kind: EntryKind) -> Seq<char> {
    if kind == EntryKind::File {
        k
    } else {
        k + conflict_suffix()
    }
}

/// The encoding given to a file without a metadata record.
pub open spec fn guessed_encoding(keep_mime: bool, path: Seq<char>) -> (u16, Seq<u8>) {
    if keep_mime {
        encoding_of_str(guessed_mime(path))
    } else {
        (3u16, Seq::<u8>::empty())
    }
}

/// The position of the first `*` of a pattern, or its length where it has none.
pub open spec fn star_pos(p: Seq<char>) -> int
    decreases p.len(),
{
    if p.len() == 0 || p[0] == '*' {
        0
    } else {
        1 + star_pos(p.drop_first())
    }
}

/// The position of the last `/` among the first `n` characters, or -1.
pub open spec fn last_slash_before(p: Seq<char>, n: int) -> int
    decreases n,
{
    if n <= 0 {
        -1
    } else if p[n - 1] == '/' {
        n - 1
    } else {
        last_slash_before(p, n - 1)
    }
}

/// The longest leading part of a pattern that ends before a `/` and holds
/// no `*`: the relative directory below which every match lies.
pub open spec fn literal_dir(p: Seq<char>) -> Seq<char> {
    let i = last_slash_before(p, star_pos(p));
    if i < 0 {
        Seq::<char>::empty()
    } else {
        p.subrange(0, i)
    }
}

/// The characters of the index directory's name.
pub open spec fn db_dir_name() -> Seq<char> {
    seq!['.', 'z', 'e', 'n', 'o', 'h', '_', 'd', 'a', 't', 'a', 'i', 'n', 'f', 'o']
}

/// What a walk does with one entry.
#[derive(Clone, Debug, PartialEq, Eq)]
pub enum WalkStep {
    /// Do not descend into this directory.
    SkipDir,
    /// Go on to the next entry.
    Skip,
    /// The entry is a file whose key matches.
    Yield(ZFile),
}

/// The ancestors, among the first `n`, that are files: those a write pushes
/// aside, nearest first.
pub open spec fn moved_ancestors(anc: Seq<Seq<char>>, kinds: Seq<EntryKind>, n: nat) -> Seq<Seq<char>>
    decreases n,
{
    if n == 0 {
        Seq::<Seq<char>>::empty()
    } else if kinds[n - 1] == EntryKind::File {
        moved_ancestors(anc, kinds, (n - 1) as nat).push(anc[n - 1])
    } else {
        moved_ancestors(anc, kinds, (n - 1) as nat)
    }
}

/// Suffixing a relative name and then joining it to the root is joining it
/// and then suffixing the path.
proof fn lemma_join_suffix(base: Seq<char>, k: Seq<char>)
    ensures
        join_path(base, k + conflict_suffix()) == join_path(base, k) + conflict_suffix(),
{
    if base.len() > 0 && base.last() == '/' {
        assert(base + (k + conflict_suffix()) =~= (base + k) + conflict_suffix());
    } else {
        assert(base + seq!['/'] + (k + conflict_suffix()) =~= (base + seq!['/'] + k)
            + conflict_suffix());
    }
}

proof fn lemma_ancestors_step(k: Seq<char>, i: int)
    requires
        0 <= i < k.len(),
    ensures
        ancestors_rel(k.subrange(0, i + 1)) == (if k[i] == '/' {
            seq![k.subrange(0, i)]
        } else {
            Seq::<Seq<char>>::empty()
        }) + ancestors_rel(k.subrange(0, i)),
{
    let s = k.subrange(0, i + 1);
    assert(s.drop_last() =~= k.subrange(0, i));
    assert(s.last() == k[i]);
    if k[i] != '/' {
        assert(Seq::<Seq<char>>::empty() + ancestors_rel(k.subrange(0, i)) =~= ancestors_rel(
            k.subrange(0, i),
        ));
    }
}

proof fn lemma_walk_len_bound(kinds: Seq<EntryKind>)
    ensures
        walk_len(kinds) <= kinds.len(),
    decreases kinds.len(),
{
    if kinds.len() > 0 && kinds[0] != EntryKind::Dir {
        lemma_walk_len_bound(kinds.drop_first());
    }
}

/// The proper ancestors of a relative name, nearest first.
pub fn ancestor_keys(zpath: &str) -> (r: Vec<String>)
    ensures
        r@.len() == ancestors_rel(zpath@).len(),
        forall|i: int| 0 <= i < r@.len() ==> r@[i]@ == ancestors_rel(zpath@)[i],
{
    let k = chars_of(zpath);
    let mut r: Vec<String> = Vec::new();
    let mut i: usize = k.len();
    assert(k@.subrange(0, k@.len() as int) =~= k@);
    while i > 0
        invariant
            k@ == zpath@,
            i <= k@.len(),
            ({
                let want = ancestors_rel(zpath@);
                let rest = ancestors_rel(k@.subrange(0, i as int));
                &&& r@.len() + rest.len() == want.len()
                &&& forall|j: int| 0 <= j < r@.len() ==> r@[j]@ == want[j]
                &&& forall|j: int| 0 <= j < rest.len() ==> rest[j] == want[r@.len() + j]
            }),
        decreases i,
    {
        proof {
            lemma_ancestors_step(k@, i - 1);
        }
        let ghost old_r = r@;
        let ghost want = ancestors_rel(zpath@);
        let ghost rest_old = ancestors_rel(k@.subrange(0, i as int));
        let ghost rest_new = ancestors_rel(k@.subrange(0, i - 1));
        if k[i - 1] == '/' {
            let p = slice_chars(&k, 0, i - 1);
            let s = string_of(&p);
            r.push(s);
            proof {
                assert(rest_old =~= seq![k@.subrange(0, i - 1)] + rest_new);
                assert(rest_old[0] == want[old_r.len() as int]);
                assert forall|j: int| 0 <= j < rest_new.len() implies rest_new[j] == want[r@.len()
                    + j] by {
                    assert(rest_old[j + 1] == rest_new[j]);
                }
                assert forall|j: int| 0 <= j < r@.len() implies r@[j]@ == want[j] by {
                    if j < old_r.len() {
                        assert(r@[j] == old_r[j]);
                    }
                }
            }
        } else {
            proof {
                assert(rest_old =~= rest_new);
            }
        }
        i = i - 1;
    }
    r
}

/// The number of ancestors, nearest first, that the walk up looks at before
/// it meets a directory.
pub fn walk_length(kinds: &Vec<EntryKind>) -> (r: usize)
    ensures
        r == walk_len(kinds@),
{
    let mut i: usize = 0;
    assert(kinds@.subrange(0, kinds@.len() as int) =~= kinds@);
    while i < kinds.len() && kinds[i] != EntryKind::Dir
        invariant
            i <= kinds@.len(),
            walk_len(kinds@) == i + walk_len(kinds@.subrange(i as int, kinds@.len() as int)),
        decreases kinds@.len() - i,
    {
        let ghost s = kinds@.subrange(i as int, kinds@.len() as int);
        assert(s.drop_first() =~= kinds@.subrange(i + 1, kinds@.len() as int));
        i = i + 1;
    }
    proof {
        let s = kinds@.subrange(i as int, kinds@.len() as int);
        if i < kinds@.len() {
            assert(s[0] == kinds@[i as int]);
        }
    }
    i
}

/// Whether two character sequences are equal.
pub fn chars_equal(a: &Vec<char>, b: &Vec<char>) -> (r: bool)
    ensures
        r == (a@ == b@),
{
    if a.len() != b.len() {
        return false;
    }
    let mut i: usize = 0;
    while i < a.len()
        invariant
            a@.len() == b@.len(),
            i <= a@.len(),
            forall|j: int| 0 <= j < i ==> a@[j] == b@[j],
        decreases a@.len() - i,
    {
        if a[i] != b[i] {
            return false;
        }
        i = i + 1;
    }
    assert(a@ =~= b@);
    true
}

impl FilesMgr {
    /// A store rooted at `base_dir`.
    pub fn new(base_dir: String, follow_links: bool, keep_mime: bool, on_closure: OnClosure) -> (r:
        FilesMgr)
        ensures
            r.base_dir@ == base_dir@,
            r.follow_links == follow_links,
            r.keep_mime == keep_mime,
            r.on_closure == on_closure,
    {
        FilesMgr { base_dir, follow_links, keep_mime, on_closure }
    }

    /// The root directory.
    pub fn base_dir(&self) -> (r: &str)
        ensures
            r@ == self.base_dir@,
    {
        self.base_dir.as_str()
    }

    /// The path under the root of a relative name: the root itself for the
    /// empty name, else a valid key, which cannot lead out of the root.
    pub fn to_fspath(&self, zpath: &str) -> (r: String)
        requires
            zpath@.len() == 0 || valid_key(zpath@),
        ensures
            r@ == join_path(self.base_dir@, zpath@),
    {
        join(self.base_dir.as_str(), zpath)
    }

    /// The key and its path, for a key that can be placed under the root.
    pub fn to_zfile(&self, zpath: &str) -> (r: Result<ZFile, KeyError>)
        ensures
            match r {
                Ok(z) => valid_key(zpath@) && z.zpath@ == zpath@ && z.fspath@ == join_path(
                    self.base_dir@,
                    zpath@,
                ),
                Err(_) => !valid_key(zpath@),
            },
    {
        if !is_valid_key(zpath) {
            return Err(KeyError::Invalid);
        }
        Ok(ZFile { zpath: zpath.to_owned(), fspath: self.to_fspath(zpath) })
    }

    /// The suffixed form of a path, where a file that makes room for a
    /// directory of its name goes.
    pub fn get_conflict_file(&self, file: &str) -> (r: String)
        ensures
            r@ == file@ + conflict_suffix(),
    {
        let mut v = chars_of(file);
        let s = conflict_suffix_chars();
        extend_chars(&mut v, &s);
        string_of(&v)
    }

    /// The paths of the proper ancestors of a key below the root, nearest
    /// first: the directories a write needs, and those a delete may prune.
    pub fn ancestor_paths(&self, zfile: &ZFile) -> (r: Vec<String>)
        requires
            valid_key(zfile.zpath@),
        ensures
            r@.len() == ancestors_rel(zfile.zpath@).len(),
            forall|i: int|
                0 <= i < r@.len() ==> r@[i]@ == join_path(
                    self.base_dir@,
                    ancestors_rel(zfile.zpath@)[i],
                ),
    {
        let keys = ancestor_keys(zfile.zpath.as_str());
        let mut r: Vec<String> = Vec::new();
        let mut i: usize = 0;
        while i < keys.len()
            invariant
                keys@.len() == ancestors_rel(zfile.zpath@).len(),
                forall|j: int| 0 <= j < keys@.len() ==> keys@[j]@ == ancestors_rel(zfile.zpath@)[j],
                i <= keys@.len(),
                r@.len() == i,
                forall|j: int|
                    0 <= j < i ==> r@[j]@ == join_path(
                        self.base_dir@,
                        ancestors_rel(zfile.zpath@)[j],
                    ),
            decreases keys@.len() - i,
        {
            let p = join(self.base_dir.as_str(), keys[i].as_str());
            r.push(p);
            i = i + 1;
        }
        r
    }

    /// The paths a write of the key pushes aside to their suffixed names,
    /// given what each ancestor of the key is, nearest first: the files met
    /// before the first directory.
    pub fn conflict_moves(&self, zfile: &ZFile, kinds: &Vec<EntryKind>) -> (r: Vec<String>)
        requires
            valid_key(zfile.zpath@),
            kinds@.len() == ancestors_rel(zfile.zpath@).len(),
        ensures
            ({
                let m = moved_ancestors(ancestors_rel(zfile.zpath@), kinds@, walk_len(kinds@));
                &&& r@.len() == m.len()
                &&& forall|i: int| 0 <= i < r@.len() ==> r@[i]@ == join_path(self.base_dir@, m[i])
            }),
    {
        let keys = ancestor_keys(zfile.zpath.as_str());
        let n = walk_length(kinds);
        proof {
            lemma_walk_len_bound(kinds@);
        }
        let ghost anc = ancestors_rel(zfile.zpath@);
        let mut r: Vec<String> = Vec::new();
        let mut i: usize = 0;
        while i < n
            invariant
                n == walk_len(kinds@),
                n <= kinds@.len(),
                kinds@.len() == anc.len(),
                anc == ancestors_rel(zfile.zpath@),
                keys@.len() == anc.len(),
                forall|j: int| 0 <= j < keys@.len() ==> keys@[j]@ == anc[j],
                i <= n,
                r@.len() == moved_ancestors(anc, kinds@, i as nat).len(),
                forall|j: int|
                    0 <= j < r@.len() ==> r@[j]@ == join_path(
                        self.base_dir@,
                        moved_ancestors(anc, kinds@, i as nat)[j],
                    ),
            decreases n - i,
        {
            let ghost old_r = r@;
            if kinds[i] == EntryKind::File {
                let p = join(self.base_dir.as_str(), keys[i].as_str());
                r.push(p);
                proof {
                    assert forall|j: int| 0 <= j < r@.len() implies r@[j]@ == join_path(
                        self.base_dir@,
                        moved_ancestors(anc, kinds@, (i + 1) as nat)[j],
                    ) by {
                        if j < old_r.len() {
                            assert(r@[j] == old_r[j]);
                        }
                    }
                }
            }
            i = i + 1;
        }
        r
    }

    /// Where a write of the key goes, given what its path is now: its path,
    /// or the suffixed path where a directory holds that name.
    pub fn write_target(&self, zfile: &ZFile, kind: EntryKind) -> (r: String)
        ensures
            kind == EntryKind::Dir ==> r@ == zfile.fspath@ + conflict_suffix(),
            kind != EntryKind::Dir ==> r@ == zfile.fspath@,
            zfile.fspath@ == join_path(self.base_dir@, zfile.zpath@) ==> r@ == join_path(
                self.base_dir@,
                write_target_rel(zfile.zpath@, kind),
            ),
    {
        proof {
            lemma_join_suffix(self.base_dir@, zfile.zpath@);
        }
        if kind == EntryKind::Dir {
            self.get_conflict_file(zfile.fspath.as_str())
        } else {
            zfile.fspath.clone()
        }
    }

    /// What a delete of the key removes, given what its path is now: its
    /// path where that is a file, else the suffixed path.
    pub fn delete_target(&self, zfile: &ZFile, kind: EntryKind) -> (r: String)
        ensures
            kind == EntryKind::File ==> r@ == zfile.fspath@,
            kind != EntryKind::File ==> r@ == zfile.fspath@ + conflict_suffix(),
            zfile.fspath@ == join_path(self.base_dir@, zfile.zpath@) ==> r@ == join_path(
                self.base_dir@,
                delete_target_rel(zfile.zpath@, kind),
            ),
    {
        proof {
            lemma_join_suffix(self.base_dir@, zfile.zpath@);
        }
        if kind == EntryKind::File {
            zfile.fspath.clone()
        } else {
            self.get_conflict_file(zfile.fspath.as_str())
        }
    }

    /// Whether any of the flags is set: the flags tell, for a path and each of
    /// its ancestors below the root, whether it is a symbolic link.
    pub fn contains_symlink(&self, link_flags: &Vec<bool>) -> (r: bool)
        ensures
            r == exists|i: int| 0 <= i < link_flags@.len() && link_flags@[i],
    {
        let mut i: usize = 0;
        while i < link_flags.len()
            invariant
                i <= link_flags@.len(),
                forall|j: int| 0 <= j < i ==> !link_flags@[j],
            decreases link_flags@.len() - i,
        {
            if link_flags[i] {
                return true;
            }
            i = i + 1;
        }
        false
    }

    /// Whether a path may be read: it is a regular file, and unless links are
    /// followed, neither it nor an ancestor below the root is a symbolic link.
    pub fn is_readable(&self, kind: EntryKind, through_link: bool) -> (r: bool)
        ensures
            r == (kind == EntryKind::File && (self.follow_links || !through_link)),
    {
        kind == EntryKind::File && (self.follow_links || !through_link)
    }

    /// Whether a search may walk a directory: unless links are followed, not
    /// one reached through a symbolic link.
    pub fn may_search(&self, through_link: bool) -> (r: bool)
        ensures
            r == (self.follow_links || !through_link),
    {
        self.follow_links || !through_link
    }

    /// The encoding given to a file without a metadata record: guessed from
    /// its extension, or `application/octet-stream` when guessing is off.
    pub fn guess_encoding(&self, file: &str) -> (r: Encoding)
        ensures
            (r.id, r.schema@) == guessed_encoding(self.keep_mime, file@),
    {
        if self.keep_mime {
            let mime = mime_of_path(file);
            encoding_from_str(mime.as_str())
        } else {
            let id = octet_stream_id();
            Encoding { id, schema: Vec::new() }
        }
    }

    /// The timestamp given to a file without a metadata record: its time on
    /// disk, as seconds and nanoseconds since the epoch, with the fallback identity.
    pub fn get_timestamp_from_metadata(&self, secs: u64, nanos: u32) -> (r: Timestamp)
        requires
            secs <= 0xFFFF_FFFF,
            nanos < 1_000_000_000,
        ensures
            r.time == ntp64_of(secs, nanos),
            r.id@ == fallback_id(),
    {
        timestamp_from_file_time(secs, nanos)
    }

    /// The encoding and timestamp of a file being read: those of its stored
    /// record where there is one, else the guessed encoding and its time on disk.
    pub fn get_encoding_and_timestamp(
        &self,
        stored: Option<&[u8]>,
        file: &str,
        secs: u64,
        nanos: u32,
    ) -> (r: Result<(Encoding, Timestamp), RecordError>)
        requires
            secs <= 0xFFFF_FFFF,
            nanos < 1_000_000_000,
        ensures
            match stored {
                Some(b) => match (r, decoded(b@)) {
                    (Ok((e, t)), Ok(d)) => t.time == d.0 && t.id@ == d.1 && e.id == d.2
                        && e.schema@ == d.3,
                    (Err(x), Err(y)) => x == y,
                    _ => false,
                },
                None => match r {
                    Ok((e, t)) => (e.id, e.schema@) == guessed_encoding(self.keep_mime, file@)
                        && t.time == ntp64_of(secs, nanos) && t.id@ == fallback_id(),
                    Err(_) => false,
                },
            },
    {
        match stored {
            Some(b) => decode_encoding_timestamp_from_value(b),
            None => {
                let e = self.guess_encoding(file);
                let t = self.get_timestamp_from_metadata(secs, nanos);
                Ok((e, t))
            },
        }
    }

    /// The timestamp of a key, for ordering updates: read from the head of
    /// its stored record where there is one, else the time on disk of its file
    /// where it has one, else none.
    pub fn get_timestamp(&self, stored: Option<&[u8]>, file_time: Option<(u64, u32)>) -> (r: Result<
        Option<Timestamp>,
        RecordError,
    >)
        requires
            file_time matches Some((s, n)) ==> s <= 0xFFFF_FFFF && n < 1_000_000_000,
        ensures
            match stored {
                Some(b) => match (r, parse_timestamp(b@)) {
                    (Ok(Some(t)), Some(p)) => id_nonzero(p.1) && t.time == p.0 && t.id@ == p.1,
                    (Err(e), Some(p)) => !id_nonzero(p.1) && e == RecordError::InvalidTimestampId,
                    (Err(e), None) => e == RecordError::Malformed,
                    _ => false,
                },
                None => match file_time {
                    Some((s, n)) => r matches Ok(Some(t)) && t.time == ntp64_of(s, n) && t.id@
                        == fallback_id(),
                    None => r == Ok::<Option<Timestamp>, RecordError>(None),
                },
            },
    {
        match stored {
            Some(b) => match decode_timestamp(b) {
                Ok(t) => Ok(Some(t)),
                Err(e) => Err(e),
            },
            None => match file_time {
                Some((s, n)) => Ok(Some(self.get_timestamp_from_metadata(s, n))),
                None => Ok(None),
            },
        }
    }

    /// The metadata given to a file pushed aside by a write when it had no
    /// record: guessed encoding, and its time on disk where that is known,
    /// else the timestamp of the write.
    pub fn generate_metadata(&self, file: &str, file_time: Option<(u64, u32)>, timestamp: &Timestamp)
        -> (r: (Encoding, Timestamp))
        requires
            file_time matches Some((s, n)) ==> s <= 0xFFFF_FFFF && n < 1_000_000_000,
        ensures
            (r.0.id, r.0.schema@) == guessed_encoding(self.keep_mime, file@),
            match file_time {
                Some((s, n)) => r.1.time == ntp64_of(s, n) && r.1.id@ == fallback_id(),
                None => r.1 == *timestamp,
            },
    {
        let e = self.guess_encoding(file);
        let t = match file_time {
            Some((s, n)) => self.get_timestamp_from_metadata(s, n),
            None => *timestamp,
        };
        (e, t)
    }

    /// The directory a search for `pattern` walks: the root joined with the
    /// pattern's longest literal directory. None where that directory is not
    /// a valid key, as it could lead out of the root.
    pub fn search_dir(&self, pattern: &str) -> (r: Option<String>)
        ensures
            ({
                let d = literal_dir(pattern@);
                match r {
                    Some(p) => (d.len() == 0 || valid_key(d)) && p@ == join_path(self.base_dir@, d),
                    None => d.len() > 0 && !valid_key(d),
                }
            }),
    {
        match self.search_key(pattern) {
            Some(d) => Some(self.to_fspath(d.as_str())),
            None => None,
        }
    }

    /// The pattern's longest literal directory, relative to the root: the
    /// empty name or a valid key. None where it is neither.
    pub fn search_key(&self, pattern: &str) -> (r: Option<String>)
        ensures
            ({
                let d = literal_dir(pattern@);
                match r {
                    Some(k) => k@ == d && (d.len() == 0 || valid_key(d)),
                    None => d.len() > 0 && !valid_key(d),
                }
            }),
    {
        let p = chars_of(pattern);
        let n: usize = p.len();
        let mut star: usize = 0;
        assert(p@.subrange(0, n as int) =~= p@);
        while star < n && p[star] != '*'
            invariant
                n == p@.len(),
                star <= n,
                star_pos(p@) == star + star_pos(p@.subrange(star as int, n as int)),
            decreases n - star,
        {
            let ghost s = p@.subrange(star as int, n as int);
            assert(s.drop_first() =~= p@.subrange(star + 1, n as int));
            star = star + 1;
        }
        proof {
            let s = p@.subrange(star as int, n as int);
            if star < n {
                assert(s[0] == p@[star as int]);
            }
        }
        let mut j: usize = star;
        while j > 0 && p[j - 1] != '/'
            invariant
                n == p@.len(),
                j <= star <= n,
                star == star_pos(p@),
                last_slash_before(p@, star as int) == last_slash_before(p@, j as int),
            decreases j,
        {
            j = j - 1;
        }
        let dir = if j == 0 {
            Vec::new()
        } else {
            slice_chars(&p, 0, j - 1)
        };
        assert(dir@ =~= literal_dir(pattern@));
        let d = string_of(&dir);
        if dir.len() > 0 && !is_valid_key(d.as_str()) {
            return None;
        }
        Some(d)
    }

    /// What a walk for `pattern` does with an entry at `path` named
    /// `file_name`: it does not descend into the index directory; a file whose
    /// visible key is a key expression that meets the pattern is yielded;
    /// anything else is passed over, and so is a symbolic link unless links
    /// are followed.
    pub fn visit_entry(
        &self,
        pattern: &str,
        path: &str,
        file_name: &str,
        is_dir: bool,
        is_symlink: bool,
    ) -> (r: WalkStep)
        ensures
            is_dir && file_name@ == db_dir_name() ==> r == WalkStep::SkipDir,
            is_dir && file_name@ != db_dir_name() ==> r == WalkStep::Skip,
            !is_dir && is_symlink && !self.follow_links ==> r == WalkStep::Skip,
            !is_dir && (!is_symlink || self.follow_links) ==> {
                let b = self.base_dir@;
                let inside = b.len() <= path@.len() && path@.subrange(0, b.len() as int) == b;
                let key = trimmed_key(path@.subrange(b.len() as int, path@.len() as int));
                if inside && is_key_expr(pattern@) && is_key_expr(key) && key_exprs_intersect(
                    pattern@,
                    key,
                ) {
                    r matches WalkStep::Yield(z) && z.zpath@ == key && z.fspath@ == path@
                } else {
                    r == WalkStep::Skip
                }
            },
    {
        if is_dir {
            let name = chars_of(file_name);
            let db = chars_of(crate::index::DB_FILENAME);
            proof {
                reveal_strlit(".zenoh_datainfo");
            }
            assert(db@ =~= db_dir_name());
            if chars_equal(&name, &db) {
                return WalkStep::SkipDir;
            } else {
                return WalkStep::Skip;
            }
        }
        if is_symlink && !self.follow_links {
            return WalkStep::Skip;
        }
        let b = chars_of(self.base_dir.as_str());
        let p = chars_of(path);
        if !(b.len() <= p.len() && chars_equal(&slice_chars(&p, 0, b.len()), &b)) {
            return WalkStep::Skip;
        }
        let coarse = string_of(&slice_chars(&p, b.len(), p.len()));
        let key = get_trimmed_keyexpr(coarse.as_str());
        if !key_expr_valid(pattern) || !key_expr_valid(key.as_str()) {
            return WalkStep::Skip;
        }
        if key_expr_intersects(pattern, key.as_str()) {
            WalkStep::Yield(ZFile { zpath: key, fspath: path.to_owned() })
        } else {
            WalkStep::Skip
        }
    }

    /// Whether closing the store removes the whole root directory.
    pub fn deletes_on_close(&self) -> (r: bool)
        ensures
            r == (self.on_closure == OnClosure::DeleteAll),
    {
        self.on_closure == OnClosure::DeleteAll
    }
}

} // verus!
