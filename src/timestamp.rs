//! Logical timestamps: a time value and the 16-byte identity of the writer,
//! ordered by time first and identity second.
use vstd::prelude::*;

verus! {

/// A hybrid logical clock value: `time` is a 64-bit NTP time (seconds in the
/// high 32 bits, fraction in the low 32 bits), `id` the writer's identity as
/// little-endian bytes.
#[derive(Clone, Copy, Debug, PartialEq, Eq)]
pub struct Timestamp {
    pub time: u64,
    pub id: [u8; 16],
}

/// Lexicographic order on byte sequences of one length.
pub open spec fn bytes_lt(a: Seq<u8>, b: Seq<u8>) -> bool {
    exists|i: int|
        0 <= i < a.len() && i < b.len() && a[i] < b[i] && forall|j: int| 0 <= j < i ==> a[j] == b[j]
}

/// The total order on timestamps given by parts: time first, then identity.
pub open spec fn ts_before(ta: u64, ia: Seq<u8>, tb: u64, ib: Seq<u8>) -> bool {
    ta < tb || (ta == tb && bytes_lt(ia, ib))
}

/// The total order on timestamps.
pub open spec fn ts_lt(a: Timestamp, b: Timestamp) -> bool {
    ts_before(a.time, a.id@, b.time, b.id@)
}

/// The order is asymmetric: of two timestamps at most one comes first.
pub proof fn lemma_ts_before_asymmetric(ta: u64, ia: Seq<u8>, tb: u64, ib: Seq<u8>)
    requires
        ts_before(ta, ia, tb, ib),
    ensures
        !ts_before(tb, ib, ta, ia),
{
    if ta == tb && bytes_lt(ia, ib) && bytes_lt(ib, ia) {
        let i = choose|i: int|
            0 <= i < ia.len() && i < ib.len() && ia[i] < ib[i] && forall|j: int|
                0 <= j < i ==> ia[j] == ib[j];
        let k = choose|k: int|
            0 <= k < ib.len() && k < ia.len() && ib[k] < ia[k] && forall|j: int|
                0 <= j < k ==> ib[j] == ia[j];
        if i < k {
            assert(ib[i] == ia[i]);
        } else if k < i {
            assert(ia[k] == ib[k]);
        }
    }
}

/// Whether an identity is usable: at least one of its bytes is not zero.
pub open spec fn id_nonzero(id: Seq<u8>) -> bool {
    exists|i: int| 0 <= i < id.len() && id[i] != 0
}

/// The identity given to timestamps derived from file-system times: the
/// value 1, written little-endian. It is a fixed identity that the clock of a
/// writer is not expected to draw; it does not sort below every other identity
/// (`[0, 1, 0, ...]` comes first in the byte order).
pub open spec fn fallback_id() -> Seq<u8> {
    seq![1u8, 0, 0, 0, 0, 0, 0, 0, 0, 0, 0, 0, 0, 0, 0, 0]
}

/// The NTP time of a duration since the epoch of `secs` seconds and `nanos`
/// nanoseconds.
pub open spec fn ntp64_of(secs: u64, nanos: u32) -> int {
    secs * 0x1_0000_0000 + (nanos * 0x1_0000_0000) / 1_000_000_000
}

/// Relies on `NTP64: From<Duration>`: seconds shifted into the high 32 bits,
/// nanoseconds scaled into the fraction. It asserts that `secs` fits in 32 bits.
#[verifier::external_body]
fn ntp64_from_duration(secs: u64, nanos: u32) -> (r: u64)
    requires
        secs <= 0xFFFF_FFFF,
        nanos < 1_000_000_000,
    ensures
        r == ntp64_of(secs, nanos),
{
    zenoh::time::NTP64::from(std::time::Duration::new(secs, nanos)).as_u64()
}

/// Relies on `TimestampId: TryFrom<[u8; 16]>`: refused exactly when the
/// little-endian value is zero.
#[verifier::external_body]
fn timestamp_id_accepts(id: [u8; 16]) -> (r: bool)
    ensures
        r == id_nonzero(id@),
{
    zenoh::time::TimestampId::try_from(id).is_ok()
}

impl Timestamp {
    /// Whether `self` comes strictly before `other` in the total order.
    pub fn is_before(&self, other: &Timestamp) -> (r: bool)
        ensures
            r == ts_lt(*self, *other),
    {
        if self.time != other.time {
            return self.time < other.time;
        }
        let mut i: usize = 0;
        while i < 16
            invariant
                i <= 16,
                self.time == other.time,
                self.id@.len() == 16,
                other.id@.len() == 16,
                forall|j: int| 0 <= j < i ==> self.id@[j] == other.id@[j],
            decreases 16 - i,
        {
            if self.id[i] != other.id[i] {
                let r = self.id[i] < other.id[i];
                proof {
                    if r {
                        assert(0 <= i < 16 && self.id@[i as int] < other.id@[i as int] && forall|j: int|
                            0 <= j < i ==> self.id@[j] == other.id@[j]);
                        assert(bytes_lt(self.id@, other.id@));
                    } else {
                        assert forall|k: int|
                            0 <= k < 16 && self.id@[k] < other.id@[k] implies !(forall|j: int|
                            0 <= j < k ==> self.id@[j] == other.id@[j]) by {
                            if k > i {
                                assert(self.id@[i as int] != other.id@[i as int]);
                            }
                        }
                        assert(!bytes_lt(self.id@, other.id@));
                    }
                }
                return r;
            }
            i = i + 1;
        }
        false
    }

    /// Whether the identity of `self` is accepted by the clock library.
    pub fn has_valid_id(&self) -> (r: bool)
        ensures
            r == id_nonzero(self.id@),
    {
        timestamp_id_accepts(self.id)
    }
}

/// The timestamp given to a file that has no metadata record: its file-system
/// time, with the fallback identity.
pub fn timestamp_from_file_time(secs: u64, nanos: u32) -> (r: Timestamp)
    requires
        secs <= 0xFFFF_FFFF,
        nanos < 1_000_000_000,
    ensures
        r.time == ntp64_of(secs, nanos),
        r.id@ == fallback_id(),
{
    let time = ntp64_from_duration(secs, nanos);
    let id: [u8; 16] = [1u8, 0, 0, 0, 0, 0, 0, 0, 0, 0, 0, 0, 0, 0, 0, 0];
    assert(id@ =~= fallback_id());
    Timestamp { time, id }
}

} // verus!
