//! The storage and volume layer: configuration of a storage, the key used for
//! the unnamed entry, read-only rejection, and the last-writer-wins rule that
//! every write and delete passes through.
use vstd::prelude::*;
use crate::files::{FilesMgr, OnClosure, ZFile};
use crate::keys::{is_valid_key, valid_key};
use crate::keys::{dot_segment_at, join, join_path};
use crate::text::chars_of;
use crate::timestamp::{ts_lt, Timestamp};

verus! {

/// The environment variable that sets the root of all storages of a backend.
pub const SCOPE_ENV_VAR: &'static str = "ZENOH_BACKEND_FS_ROOT";

/// The root, within the home directory, when the environment variable is unset.
pub const DEFAULT_ROOT_DIR: &'static str = "zenoh_backend_fs";

pub const PROP_STORAGE_READ_ONLY: &'static str = "read_only";

pub const PROP_STORAGE_DIR: &'static str = "dir";

pub const PROP_STORAGE_ON_CLOSURE: &'static str = "on_closure";

pub const PROP_STORAGE_FOLLOW_LINK: &'static str = "follow_links";

pub const PROP_STORAGE_KEEP_MIME: &'static str = "keep_mime_types";

/// The key under which the entry without a key is kept; `@` keeps it apart
/// from the keys a search can yield.
pub const ROOT_KEY: &'static str = "@root";

/// A configuration value, as far as the storage reads it.
#[derive(Clone, Debug, PartialEq, Eq)]
pub enum PropValue {
    Bool(bool),
    Str(String),
    Other,
}

/// Why a storage configuration is refused.
#[derive(Clone, Copy, Debug, PartialEq, Eq, Structural)]
pub enum ConfigError {
    /// A property that must be a boolean is something else.
    NotABoolean,
    /// `on_closure` is neither `delete_all` nor `do_nothing`.
    UnsupportedOnClosure,
    /// The `dir` property is missing or not a string.
    MissingDir,
    /// The `dir` property is an absolute path.
    AbsoluteDir,
    /// The `dir` property has a `..` segment.
    ParentDirInDir,
}

/// Why a request is refused.
#[derive(Clone, Copy, Debug, PartialEq, Eq, Structural)]
pub enum StorageError {
    /// The storage is read-only and the request would change it.
    ReadOnly,
    /// The key cannot be placed under the root.
    InvalidKey,
}

/// What became of a write or delete that was not refused.
#[derive(Clone, Copy, Debug, PartialEq, Eq, Structural)]
pub enum Admission {
    /// It is newer than what is stored: carry it out.
    Apply,
    /// It is not newer than what is stored: drop it.
    Outdated,
}

/// The storage key of an entry: its key, or the reserved root key.
pub fn storage_key(key: Option<&str>) -> (r: String)
    ensures
        key matches Some(k) ==> r@ == k@,
        key is None ==> r@ == ROOT_KEY@,
{
    match key {
        Some(k) => k.to_owned(),
        None => ROOT_KEY.to_owned(),
    }
}

/// The last-writer-wins rule: an update is carried out only where nothing
/// is stored or it comes strictly after what is stored; a read-only storage
/// refuses every update. A delete leaves no timestamp behind, so after a
/// delete nothing is stored and a late write older than the delete is applied.
pub fn admit_update(read_only: bool, stored: Option<Timestamp>, incoming: &Timestamp) -> (r: Result<
    Admission,
    StorageError,
>)
    ensures
        read_only ==> r == Err::<Admission, StorageError>(StorageError::ReadOnly),
        !read_only ==> r == Ok::<Admission, StorageError>(
            if stored matches Some(t) && !ts_lt(t, *incoming) {
                Admission::Outdated
            } else {
                Admission::Apply
            },
        ),
{
    if read_only {
        return Err(StorageError::ReadOnly);
    }
    match stored {
        Some(t) => if t.is_before(incoming) {
            Ok(Admission::Apply)
        } else {
            Ok(Admission::Outdated)
        },
        None => Ok(Admission::Apply),
    }
}

/// A boolean property: its value, `default` where it is absent, refused where
/// it is not a boolean.
pub fn extract_bool(value: Option<&PropValue>, default: bool) -> (r: Result<bool, ConfigError>)
    ensures
        match value {
            None => r == Ok::<bool, ConfigError>(default),
            Some(PropValue::Bool(b)) => r == Ok::<bool, ConfigError>(*b),
            Some(_) => r == Err::<bool, ConfigError>(ConfigError::NotABoolean),
        },
{
    match value {
        None => Ok(default),
        Some(PropValue::Bool(b)) => Ok(*b),
        Some(_) => Err(ConfigError::NotABoolean),
    }
}

/// The closure policy: `delete_all` or `do_nothing`, the latter where the
/// property is absent.
pub fn parse_on_closure(value: Option<&PropValue>) -> (r: Result<OnClosure, ConfigError>)
    ensures
        match value {
            None => r == Ok::<OnClosure, ConfigError>(OnClosure::DoNothing),
            Some(PropValue::Str(s)) => if s@ == "delete_all"@ {
                r == Ok::<OnClosure, ConfigError>(OnClosure::DeleteAll)
            } else if s@ == "do_nothing"@ {
                r == Ok::<OnClosure, ConfigError>(OnClosure::DoNothing)
            } else {
                r == Err::<OnClosure, ConfigError>(ConfigError::UnsupportedOnClosure)
            },
            Some(_) => r == Err::<OnClosure, ConfigError>(ConfigError::UnsupportedOnClosure),
        },
{
    match value {
        None => Ok(OnClosure::DoNothing),
        Some(PropValue::Str(s)) => {
            let delete_all = String::from_str("delete_all");
            let do_nothing = String::from_str("do_nothing");
            if *s == delete_all {
                Ok(OnClosure::DeleteAll)
            } else if *s == do_nothing {
                Ok(OnClosure::DoNothing)
            } else {
                Err(ConfigError::UnsupportedOnClosure)
            }
        },
        Some(_) => Err(ConfigError::UnsupportedOnClosure),
    }
}

/// Whether a relative directory has a `..` segment.
pub open spec fn has_parent_segment(d: Seq<char>) -> bool {
    exists|i: int| 0 <= i < d.len() && dot_segment_at(d, i, 2)
}

/// A file-system volume: every storage it creates lives below `root`.
#[derive(Clone, Debug)]
pub struct FileSystemVolume {
    pub root: String,
}

impl FileSystemVolume {
    /// A volume over `root`.
    pub fn new(root: String) -> (r: FileSystemVolume)
        ensures
            r.root@ == root@,
    {
        FileSystemVolume { root }
    }

    /// The root directory of a storage configured with `dir`: `dir` must be a
    /// string naming a relative path without `..` segments, joined to the
    /// volume's root.
    pub fn storage_base_dir(&self, dir: Option<&PropValue>) -> (r: Result<String, ConfigError>)
        ensures
            match dir {
                Some(PropValue::Str(d)) => if d@.len() > 0 && d@[0] == '/' {
                    r == Err::<String, ConfigError>(ConfigError::AbsoluteDir)
                } else if has_parent_segment(d@) {
                    r == Err::<String, ConfigError>(ConfigError::ParentDirInDir)
                } else {
                    r matches Ok(p) && p@ == join_path(self.root@, d@)
                },
                _ => r == Err::<String, ConfigError>(ConfigError::MissingDir),
            },
    {
        let d = match dir {
            Some(PropValue::Str(d)) => d,
            _ => {
                return Err(ConfigError::MissingDir);
            },
        };
        let v = chars_of(d.as_str());
        let n: usize = v.len();
        if n > 0 && v[0] == '/' {
            return Err(ConfigError::AbsoluteDir);
        }
        let mut i: usize = 0;
        while i < n
            invariant
                n == v@.len(),
                v@ == d@,
                !(n > 0 && v@[0] == '/'),
                dir matches Some(PropValue::Str(x)) && x@ == v@,
                i <= n,
                forall|j: int| 0 <= j < i ==> !dot_segment_at(v@, j, 2),
            decreases n - i,
        {
            let here = v[i] == '.' && i + 1 < n && v[i + 1] == '.' && (i == 0 || v[i - 1] == '/')
                && (i + 2 == n || v[i + 2] == '/');
            assert(here == dot_segment_at(v@, i as int, 2)) by {
                if !here && v@[i as int] == '.' && i + 1 < n && v@[i + 1] == '.' {
                    assert(forall|j: int| i <= j < i + 2 ==> v@[j] == '.');
                }
            }
            if here {
                assert(0 <= i < d@.len() && dot_segment_at(d@, i as int, 2));
                return Err(ConfigError::ParentDirInDir);
            }
            i = i + 1;
        }
        Ok(join(self.root.as_str(), d.as_str()))
    }
}

/// A storage: a file store, and whether it refuses updates.
#[derive(Clone, Debug)]
pub struct FileSystemStorage {
    pub files_mgr: FilesMgr,
    pub read_only: bool,
}

/// The storage key of an optional key.
pub open spec fn storage_key_of(key: Option<&str>) -> Seq<char> {
    match key {
        Some(k) => k@,
        None => ROOT_KEY@,
    }
}

/// The keys a listing reports for the keys a search found, in order: the
/// reserved root key, keys that cannot be placed under the root, and keys
/// already reported (a file and its suffixed name give the same key) are left out.
pub open spec fn listing(zs: Seq<Seq<char>>) -> Seq<Seq<char>>
    decreases zs.len(),
{
    if zs.len() == 0 {
        Seq::<Seq<char>>::empty()
    } else {
        let prev = listing(zs.drop_last());
        let z = zs.last();
        if z != ROOT_KEY@ && valid_key(z) && !prev.contains(z) {
            prev.push(z)
        } else {
            prev
        }
    }
}

/// The keys a listing reports for the keys a search found (see `listing`).
pub fn listed_keys(found: &Vec<String>) -> (r: Vec<String>)
    ensures
        ({
            let l = listing(Seq::new(found@.len(), |j: int| found@[j]@));
            &&& r@.len() == l.len()
            &&& forall|j: int| 0 <= j < r@.len() ==> r@[j]@ == l[j]
        }),
{
    let ghost zs = Seq::new(found@.len(), |j: int| found@[j]@);
    let root = String::from_str(ROOT_KEY);
    let mut r: Vec<String> = Vec::new();
    let mut i: usize = 0;
    while i < found.len()
        invariant
            zs == Seq::new(found@.len(), |j: int| found@[j]@),
            root@ == ROOT_KEY@,
            i <= found@.len(),
            r@.len() == listing(zs.subrange(0, i as int)).len(),
            forall|j: int| 0 <= j < r@.len() ==> r@[j]@ == listing(zs.subrange(0, i as int))[j],
        decreases found@.len() - i,
    {
        let ghost prev = listing(zs.subrange(0, i as int));
        let z = &found[i];
        assert(zs.subrange(0, i + 1).drop_last() =~= zs.subrange(0, i as int));
        assert(zs.subrange(0, i + 1).last() == z@);
        let mut seen = false;
        let mut j: usize = 0;
        while j < r.len()
            invariant
                j <= r@.len(),
                r@.len() == prev.len(),
                forall|m: int| 0 <= m < r@.len() ==> r@[m]@ == prev[m],
                seen == exists|m: int| 0 <= m < j && prev[m] == z@,
            decreases r@.len() - j,
        {
            let same = r[j] == *z;
            proof {
                if same {
                    assert(prev[j as int] == z@);
                } else {
                    assert(prev[j as int] != z@);
                    assert((exists|m: int| 0 <= m < j + 1 && prev[m] == z@) == (exists|m: int|
                        0 <= m < j && prev[m] == z@));
                }
            }
            if same {
                seen = true;
            }
            j = j + 1;
        }
        proof {
            if seen {
                let m = choose|m: int| 0 <= m < r@.len() && prev[m] == z@;
                assert(prev.contains(z@));
            } else {
                assert(!prev.contains(z@)) by {
                    if prev.contains(z@) {
                        let m = choose|m: int| 0 <= m < prev.len() && prev[m] == z@;
                        assert(0 <= m < r@.len());
                    }
                }
            }
        }
        let keep = !(*z == root) && is_valid_key(z.as_str()) && !seen;
        if keep {
            let ghost old_r = r@;
            r.push(z.clone());
            proof {
                assert forall|m: int| 0 <= m < r@.len() implies r@[m]@ == prev.push(z@)[m] by {
                    if m < old_r.len() {
                        assert(r@[m] == old_r[m]);
                    }
                }
            }
        }
        i = i + 1;
    }
    assert(zs.subrange(0, found@.len() as int) =~= zs);
    r
}

impl FileSystemStorage {
    /// A storage over `files_mgr`.
    pub fn new(files_mgr: FilesMgr, read_only: bool) -> (r: FileSystemStorage)
        ensures
            r.files_mgr.base_dir@ == files_mgr.base_dir@,
            r.files_mgr.follow_links == files_mgr.follow_links,
            r.files_mgr.keep_mime == files_mgr.keep_mime,
            r.files_mgr.on_closure == files_mgr.on_closure,
            r.read_only == read_only,
    {
        FileSystemStorage { files_mgr, read_only }
    }

    /// The file that a read of an entry looks at.
    pub fn read_target(&self, key: Option<&str>) -> (r: Result<ZFile, StorageError>)
        ensures
            match r {
                Ok(z) => valid_key(storage_key_of(key)) && z.zpath@ == storage_key_of(key)
                    && z.fspath@ == join_path(self.files_mgr.base_dir@, storage_key_of(key)),
                Err(e) => !valid_key(storage_key_of(key)) && e == StorageError::InvalidKey,
            },
    {
        let k = storage_key(key);
        match self.files_mgr.to_zfile(k.as_str()) {
            Ok(z) => Ok(z),
            Err(_) => Err(StorageError::InvalidKey),
        }
    }

    /// The entry that a listing reports for a key found by a search: none
    /// for the reserved root key, which is listed apart, or for a key that
    /// cannot be placed under the root.
    pub fn listed_entry(&self, zpath: &str) -> (r: Option<ZFile>)
        ensures
            match r {
                Some(z) => zpath@ != ROOT_KEY@ && valid_key(zpath@) && z.zpath@ == zpath@
                    && z.fspath@ == join_path(self.files_mgr.base_dir@, zpath@),
                None => zpath@ == ROOT_KEY@ || !valid_key(zpath@),
            },
    {
        let root = String::from_str(ROOT_KEY);
        let k = zpath.to_owned();
        if k == root {
            return None;
        }
        match self.files_mgr.to_zfile(zpath) {
            Ok(z) => Some(z),
            Err(_) => None,
        }
    }

    /// The file that a write or delete of an entry changes: refused on a
    /// read-only storage, and for a key that cannot be placed under the root.
    pub fn update_target(&self, key: Option<&str>) -> (r: Result<ZFile, StorageError>)
        ensures
            self.read_only ==> r == Err::<ZFile, StorageError>(StorageError::ReadOnly),
            !self.read_only ==> match r {
                Ok(z) => valid_key(storage_key_of(key)) && z.zpath@ == storage_key_of(key)
                    && z.fspath@ == join_path(self.files_mgr.base_dir@, storage_key_of(key)),
                Err(e) => !valid_key(storage_key_of(key)) && e == StorageError::InvalidKey,
            },
    {
        if self.read_only {
            return Err(StorageError::ReadOnly);
        }
        self.read_target(key)
    }
}

} // verus!
