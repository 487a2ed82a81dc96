//! The mapping between logical keys and file-system paths, and the reserved
//! suffix that renames a file whose name a directory needs.
use vstd::prelude::*;
use crate::text::{chars_of, ends_with_chars, extend_chars, slice_chars, string_of};

verus! {

/// Appended to the on-disk name of a file that had to make room for a
/// directory of the same name. No valid key contains `#`, so no key maps to it.
pub const CONFLICT_SUFFIX: &'static str = ".##z";

/// The conflict suffix as characters.
pub open spec fn conflict_suffix() -> Seq<char> {
    seq!['.', '#', '#', 'z']
}

pub(crate) fn conflict_suffix_chars() -> (r: Vec<char>)
    ensures
        r@ == conflict_suffix(),
{
    let r = chars_of(CONFLICT_SUFFIX);
    proof {
        reveal_strlit(".##z");
    }
    r
}

/// `k` without a trailing conflict suffix, if it has one.
pub open spec fn strip_conflict_suffix(k: Seq<char>) -> Seq<char> {
    if k.len() >= 4 && k.subrange(k.len() - 4, k.len() as int) == conflict_suffix() {
        k.subrange(0, k.len() - 4)
    } else {
        k
    }
}

/// `k` without one leading `/`, if it has one.
pub open spec fn strip_leading_slash(k: Seq<char>) -> Seq<char> {
    if k.len() > 0 && k[0] == '/' {
        k.drop_first()
    } else {
        k
    }
}

/// The externally visible key of an on-disk relative name.
pub open spec fn trimmed_key(k: Seq<char>) -> Seq<char> {
    strip_leading_slash(strip_conflict_suffix(k))
}

/// Whether a `.` segment (`dots` == 1) or a `..` segment (`dots` == 2) starts at `i`.
pub open spec fn dot_segment_at(k: Seq<char>, i: int, dots: int) -> bool {
    &&& 0 <= i
    &&& i + dots <= k.len()
    &&& forall|j: int| i <= j < i + dots ==> k[j] == '.'
    &&& (i == 0 || k[i - 1] == '/')
    &&& (i + dots == k.len() || k[i + dots] == '/')
}

/// Whether position `i` of `k` makes it an unacceptable key: a `#`, a `/`
/// at either end or next to another one, or the start of a `.` or `..` segment.
pub open spec fn bad_at(k: Seq<char>, i: int) -> bool {
    ||| k[i] == '#'
    ||| (k[i] == '/' && (i == 0 || i + 1 == k.len() || k[i + 1] == '/'))
    ||| dot_segment_at(k, i, 1)
    ||| dot_segment_at(k, i, 2)
}

/// A key that can be placed under the root: not empty, relative, made of
/// non-empty segments none of which is `.` or `..`, and free of `#`.
pub open spec fn valid_key(k: Seq<char>) -> bool {
    &&& k.len() > 0
    &&& forall|i: int| 0 <= i < k.len() ==> !bad_at(k, i)
}

/// `base` joined with the relative path `rel`, with one separator between them.
pub open spec fn join_path(base: Seq<char>, rel: Seq<char>) -> Seq<char> {
    if base.len() > 0 && base.last() == '/' {
        base + rel
    } else {
        base + seq!['/'] + rel
    }
}

/// Converts a key into the matching relative file-system path (on this
/// platform both use `/` as separator).
pub fn zpath_to_fspath(zpath: &str) -> (r: String)
    ensures
        r@ == zpath@,
{
    zpath.to_owned()
}

/// Converts a relative file-system path back into a key.
pub fn fspath_to_zpath(fspath: &str) -> (r: String)
    ensures
        r@ == fspath@,
{
    fspath.to_owned()
}

/// The on-disk name under which a key is kept once a directory took its name.
pub fn get_conflict_resolved_keyexpr(keyexpr: &str) -> (r: String)
    ensures
        r@ == keyexpr@ + conflict_suffix(),
{
    let mut v = chars_of(keyexpr);
    let s = conflict_suffix_chars();
    extend_chars(&mut v, &s);
    string_of(&v)
}

/// The key under which an on-disk relative name is visible: the conflict
/// suffix and a leading `/` are taken away.
pub fn get_trimmed_keyexpr(keyexpr: &str) -> (r: String)
    ensures
        r@ == trimmed_key(keyexpr@),
{
    let v = chars_of(keyexpr);
    let s = conflict_suffix_chars();
    let w = if ends_with_chars(&v, &s) {
        slice_chars(&v, 0, v.len() - 4)
    } else {
        v
    };
    let r = if w.len() > 0 && w[0] == '/' {
        slice_chars(&w, 1, w.len())
    } else {
        w
    };
    string_of(&r)
}

/// Whether `key` is acceptable as a key (see `valid_key`).
pub fn is_valid_key(key: &str) -> (r: bool)
    ensures
        r == valid_key(key@),
{
    let k = chars_of(key);
    let n: usize = k.len();
    if n == 0 {
        return false;
    }
    let mut i: usize = 0;
    while i < n
        invariant
            n == k@.len(),
            k@ == key@,
            i <= n,
            forall|j: int| 0 <= j < i ==> !bad_at(k@, j),
        decreases n - i,
    {
        let c = k[i];
        let starts_segment = i == 0 || k[i - 1] == '/';
        let bad = if c == '#' {
            true
        } else if c == '/' {
            i == 0 || i + 1 == n || k[i + 1] == '/'
        } else if c == '.' && starts_segment {
            if i + 1 == n || k[i + 1] == '/' {
                true
            } else {
                k[i + 1] == '.' && (i + 2 == n || k[i + 2] == '/')
            }
        } else {
            false
        };
        assert(bad == bad_at(k@, i as int)) by {
            if c == '.' && starts_segment && !(i + 1 == n || k@[i + 1] == '/') && k@[i + 1] != '.' {
                assert(!(forall|j: int| i <= j < i + 2 ==> k@[j] == '.'));
            }
        }
        if bad {
            return false;
        }
        i = i + 1;
    }
    true
}

/// Joins `base` and the relative path `rel`.
pub fn join(base: &str, rel: &str) -> (r: String)
    ensures
        r@ == join_path(base@, rel@),
{
    let mut v = chars_of(base);
    let w = chars_of(rel);
    if !(v.len() > 0 && v[v.len() - 1] == '/') {
        v.push('/');
    }
    extend_chars(&mut v, &w);
    string_of(&v)
}

} // verus!
