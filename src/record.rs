//! The metadata record kept for each key, and its binary form: the time as
//! 8 little-endian bytes, the identity as a length-prefixed array of 16 bytes,
//! the encoding id as 2 little-endian bytes, then the schema as a
//! length-prefixed byte string. Lengths are unsigned LEB128 varints of at
//! most ten bytes; padded forms (trailing zero groups) are read as well.
use vstd::prelude::*;
use crate::timestamp::{id_nonzero, Timestamp};

verus! {

/// A content-type descriptor: a registered id, and free-form schema bytes
/// (empty when there is none).
#[derive(Clone, Debug, PartialEq, Eq)]
pub struct Encoding {
    pub id: u16,
    pub schema: Vec<u8>,
}

/// The metadata kept for one key.
#[derive(Clone, Debug, PartialEq, Eq)]
pub struct DataInfo {
    pub timestamp: Timestamp,
    pub encoding: Encoding,
}

/// Why stored metadata bytes could not be turned back into a record.
#[derive(Clone, Copy, Debug, PartialEq, Eq, Structural)]
pub enum RecordError {
    /// The bytes are not the binary form of a record.
    Malformed,
    /// The record names the zero identity, which no clock accepts.
    InvalidTimestampId,
}

/// The flat form of a record: time, identity, encoding id, schema.
pub type DataInfoTuple = (u64, [u8; 16], u16, Vec<u8>);

pub open spec fn u64_le(x: u64) -> Seq<u8> {
    seq![
        x as u8,
        (x >> 8u64) as u8,
        (x >> 16u64) as u8,
        (x >> 24u64) as u8,
        (x >> 32u64) as u8,
        (x >> 40u64) as u8,
        (x >> 48u64) as u8,
        (x >> 56u64) as u8,
    ]
}

pub open spec fn u64_of_le(b: Seq<u8>) -> u64 {
    (b[0] as u64) | ((b[1] as u64) << 8u64) | ((b[2] as u64) << 16u64) | ((b[3] as u64) << 24u64)
        | ((b[4] as u64) << 32u64) | ((b[5] as u64) << 40u64) | ((b[6] as u64) << 48u64) | ((
    b[7] as u64) << 56u64)
}

pub open spec fn u16_le(x: u16) -> Seq<u8> {
    seq![x as u8, (x >> 8u16) as u8]
}

pub open spec fn u16_of_le(b: Seq<u8>) -> u16 {
    (b[0] as u16) | ((b[1] as u16) << 8u16)
}

/// The unsigned LEB128 form of `n`: seven bits per byte, low bits first, the
/// high bit set on every byte but the last.
pub open spec fn leb128(n: nat) -> Seq<u8>
    decreases n,
{
    if n < 128 {
        seq![n as u8]
    } else {
        seq![(n % 128 + 128) as u8] + leb128(n / 128)
    }
}

/// Reads a LEB128 varint of at most `n` bytes at the start of `b`: its value
/// and the number of bytes it takes.
pub open spec fn parse_varint_upto(b: Seq<u8>, n: nat) -> Option<(nat, nat)>
    decreases n,
{
    if n == 0 || b.len() == 0 {
        None
    } else if b[0] < 128 {
        Some((b[0] as nat, 1))
    } else {
        match parse_varint_upto(b.drop_first(), (n - 1) as nat) {
            Some((v, c)) => Some((((b[0] - 128) + 128 * v) as nat, c + 1)),
            None => None,
        }
    }
}

/// Reads a LEB128 varint of at most ten bytes at the start of `b`.
pub open spec fn parse_varint(b: Seq<u8>) -> Option<(nat, nat)> {
    parse_varint_upto(b, 10)
}

/// 128 to the power `k`.
pub open spec fn pow128(k: nat) -> nat
    decreases k,
{
    if k == 0 {
        1
    } else {
        128 * pow128((k - 1) as nat)
    }
}

/// The binary form of a record.
pub open spec fn record_bytes(time: u64, id: Seq<u8>, enc: u16, schema: Seq<u8>) -> Seq<u8> {
    u64_le(time) + seq![16u8] + id + u16_le(enc) + leb128(schema.len()) + schema
}

/// Reads a record from `b`, which must hold it and nothing else.
pub open spec fn parse_record(b: Seq<u8>) -> Option<(u64, Seq<u8>, u16, Seq<u8>)> {
    match id_offset(b) {
        Some(o) => if b.len() < o + 18 {
            None
        } else {
            match parse_varint(b.subrange(o + 18 as int, b.len() as int)) {
                Some((n, c)) => if o + 18 + c + n == b.len() {
                    Some(
                        (
                            u64_of_le(b.subrange(0, 8)),
                            b.subrange(o as int, o + 16 as int),
                            u16_of_le(b.subrange(o + 16 as int, o + 18 as int)),
                            b.subrange(o + 18 + c as int, b.len() as int),
                        ),
                    )
                } else {
                    None
                },
                None => None,
            }
        },
        None => None,
    }
}

/// Where the identity bytes start: after the time and a length that reads as 16.
pub open spec fn id_offset(b: Seq<u8>) -> Option<nat> {
    if b.len() < 8 {
        None
    } else {
        match parse_varint(b.subrange(8, b.len() as int)) {
            Some((m, c)) => if m == 16 {
                Some(8 + c)
            } else {
                None
            },
            None => None,
        }
    }
}

/// What `b` decodes to: a record, or why it does not.
pub open spec fn decoded(b: Seq<u8>) -> Result<(u64, Seq<u8>, u16, Seq<u8>), RecordError> {
    match parse_record(b) {
        Some(r) => if id_nonzero(r.1) {
            Ok(r)
        } else {
            Err(RecordError::InvalidTimestampId)
        },
        None => Err(RecordError::Malformed),
    }
}

/// The binary form of a record held as a `DataInfo`.
pub open spec fn info_bytes(info: DataInfo) -> Seq<u8> {
    record_bytes(info.timestamp.time, info.timestamp.id@, info.encoding.id, info.encoding.schema@)
}

proof fn lemma_u64_le_round_trip(x: u64)
    ensures
        u64_of_le(u64_le(x)) == x,
{
    assert(((x as u8) as u64) | ((((x >> 8u64) as u8) as u64) << 8u64) | ((((x >> 16u64) as u8)
        as u64) << 16u64) | ((((x >> 24u64) as u8) as u64) << 24u64) | ((((x >> 32u64) as u8)
        as u64) << 32u64) | ((((x >> 40u64) as u8) as u64) << 40u64) | ((((x >> 48u64) as u8)
        as u64) << 48u64) | ((((x >> 56u64) as u8) as u64) << 56u64) == x) by (bit_vector);
}

proof fn lemma_u16_le_round_trip(x: u16)
    ensures
        u16_of_le(u16_le(x)) == x,
{
    assert(((x as u8) as u16) | ((((x >> 8u16) as u8) as u16) << 8u16) == x) by (bit_vector);
}

/// A value below `128^k` takes at most `k` bytes.
proof fn lemma_leb128_len(n: nat, k: nat)
    requires
        k >= 1,
        n < pow128(k),
    ensures
        leb128(n).len() <= k,
    decreases n,
{
    if n >= 128 {
        let p = pow128((k - 1) as nat);
        if k == 1 {
            assert(pow128(0) == 1);
        }
        assert(n / 128 < p) by (nonlinear_arith)
            requires
                n < 128 * p,
        ;
        lemma_leb128_len(n / 128, (k - 1) as nat);
    }
}

/// A 64-bit value takes at most ten bytes.
proof fn lemma_leb128_len_u64(n: nat)
    requires
        n <= u64::MAX,
    ensures
        leb128(n).len() <= 10,
{
    reveal_with_fuel(pow128, 11);
    lemma_leb128_len(n, 10);
}

/// A varint followed by anything reads back as its value and its length.
pub proof fn lemma_varint_round_trip(n: nat, rest: Seq<u8>, k: nat)
    requires
        leb128(n).len() <= k,
    ensures
        parse_varint_upto(leb128(n) + rest, k) == Some((n, leb128(n).len())),
    decreases n,
{
    let b = leb128(n) + rest;
    if n < 128 {
        assert(b[0] == n as u8);
    } else {
        lemma_varint_round_trip(n / 128, rest, (k - 1) as nat);
        assert(b.drop_first() =~= leb128(n / 128) + rest);
        assert(b[0] == (n % 128 + 128) as u8);
    }
}

/// Decoding the binary form of a record gives the record back.
pub proof fn lemma_record_round_trip(time: u64, id: Seq<u8>, enc: u16, schema: Seq<u8>)
    requires
        id.len() == 16,
        schema.len() <= u64::MAX,
    ensures
        parse_record(record_bytes(time, id, enc, schema)) == Some((time, id, enc, schema)),
{
    let b = record_bytes(time, id, enc, schema);
    let l = leb128(schema.len());
    assert(leb128(16) == seq![16u8]);
    lemma_varint_round_trip(16, b.subrange(9, b.len() as int), 10);
    assert(b.subrange(8, b.len() as int) =~= leb128(16) + b.subrange(9, b.len() as int));
    assert(id_offset(b) == Some(9nat));
    lemma_leb128_len_u64(schema.len());
    lemma_varint_round_trip(schema.len(), schema, 10);
    lemma_u64_le_round_trip(time);
    lemma_u16_le_round_trip(enc);
    assert(b.subrange(0, 8) =~= u64_le(time));
    assert(b.subrange(9, 25) =~= id);
    assert(b.subrange(25, 27) =~= u16_le(enc));
    assert(b.subrange(27, b.len() as int) =~= l + schema);
    assert(b.subrange(27 + l.len() as int, b.len() as int) =~= schema);
}

fn push_u64_le(v: &mut Vec<u8>, x: u64)
    ensures
        final(v)@ == old(v)@ + u64_le(x),
{
    v.push(x as u8);
    v.push((x >> 8u64) as u8);
    v.push((x >> 16u64) as u8);
    v.push((x >> 24u64) as u8);
    v.push((x >> 32u64) as u8);
    v.push((x >> 40u64) as u8);
    v.push((x >> 48u64) as u8);
    v.push((x >> 56u64) as u8);
    assert(v@ =~= old(v)@ + u64_le(x));
}

fn push_varint(v: &mut Vec<u8>, n: usize)
    ensures
        final(v)@ == old(v)@ + leb128(n as nat),
{
    let mut m: usize = n;
    while m >= 128
        invariant
            v@ + leb128(m as nat) == old(v)@ + leb128(n as nat),
        decreases m,
    {
        let ghost before = v@;
        v.push((m % 128 + 128) as u8);
        assert(leb128(m as nat) == seq![(m % 128 + 128) as u8] + leb128((m / 128) as nat));
        assert(v@ + leb128((m / 128) as nat) =~= before + leb128(m as nat));
        m = m / 128;
    }
    let ghost before = v@;
    v.push(m as u8);
    assert(v@ =~= before + leb128(m as nat));
}

/// The binary form of `info`.
pub fn encode_record(info: &DataInfo) -> (r: Vec<u8>)
    ensures
        r@ == info_bytes(*info),
{
    let mut v: Vec<u8> = Vec::new();
    push_u64_le(&mut v, info.timestamp.time);
    v.push(16u8);
    let mut i: usize = 0;
    while i < 16
        invariant
            i <= 16,
            info.timestamp.id@.len() == 16,
            v@ == u64_le(info.timestamp.time) + seq![16u8] + info.timestamp.id@.subrange(0, i as int),
        decreases 16 - i,
    {
        v.push(info.timestamp.id[i]);
        assert(info.timestamp.id@.subrange(0, i + 1) =~= info.timestamp.id@.subrange(0, i as int).push(
            info.timestamp.id@[i as int],
        ));
        i = i + 1;
    }
    assert(info.timestamp.id@.subrange(0, 16) =~= info.timestamp.id@);
    v.push(info.encoding.id as u8);
    v.push((info.encoding.id >> 8u16) as u8);
    push_varint(&mut v, info.encoding.schema.len());
    let mut j: usize = 0;
    let ghost head = v@;
    while j < info.encoding.schema.len()
        invariant
            j <= info.encoding.schema@.len(),
            v@ == head + info.encoding.schema@.subrange(0, j as int),
        decreases info.encoding.schema@.len() - j,
    {
        v.push(info.encoding.schema[j]);
        assert(info.encoding.schema@.subrange(0, j + 1) =~= info.encoding.schema@.subrange(
            0,
            j as int,
        ).push(info.encoding.schema@[j as int]));
        j = j + 1;
    }
    assert(info.encoding.schema@.subrange(0, info.encoding.schema@.len() as int)
        =~= info.encoding.schema@);
    assert(v@ =~= info_bytes(*info));
    v
}


/// Reads the varint of at most `fuel` bytes that starts at `pos`: its value
/// and the position after it. Gives `None` where there is none, or where its
/// value does not fit in 64 bits.
fn read_varint(b: &[u8], pos: usize, fuel: usize) -> (r: Option<(u64, usize)>)
    requires
        pos <= b@.len(),
    ensures
        match r {
            Some((v, end)) => pos < end <= b@.len() && parse_varint_upto(
                b@.subrange(pos as int, b@.len() as int),
                fuel as nat,
            ) == Some((v as nat, (end - pos) as nat)),
            None => match parse_varint_upto(b@.subrange(pos as int, b@.len() as int), fuel as nat) {
                Some((v, _)) => v > u64::MAX,
                None => true,
            },
        },
    decreases fuel,
{
    if fuel == 0 || pos >= b.len() {
        return None;
    }
    let x = b[pos];
    let ghost s = b@.subrange(pos as int, b@.len() as int);
    assert(s[0] == x);
    if x < 128 {
        return Some((x as u64, pos + 1));
    }
    assert(s.drop_first() =~= b@.subrange(pos + 1, b@.len() as int));
    match read_varint(b, pos + 1, fuel - 1) {
        Some((v, end)) => {
            if v > u64::MAX / 128 {
                assert(128 * v > u64::MAX) by (nonlinear_arith)
                    requires
                        v > u64::MAX / 128,
                ;
                None
            } else {
                assert(128 * v <= u64::MAX - 127) by (nonlinear_arith)
                    requires
                        v <= u64::MAX / 128,
                ;
                Some(((x - 128) as u64 + 128 * v, end))
            }
        },
        None => {
            proof {
                match parse_varint_upto(s.drop_first(), (fuel - 1) as nat) {
                    Some((v, _)) => {
                        assert(128 * v > u64::MAX) by (nonlinear_arith)
                            requires
                                v > u64::MAX,
                        ;
                    },
                    None => {},
                }
            }
            None
        },
    }
}

/// Where the identity bytes of `b` start (see `id_offset`).
fn read_id_offset(b: &[u8]) -> (r: Option<usize>)
    ensures
        match r {
            Some(o) => id_offset(b@) == Some(o as nat) && o <= b@.len(),
            None => id_offset(b@) is None,
        },
{
    if b.len() < 8 {
        return None;
    }
    match read_varint(b, 8, 10) {
        Some((m, end)) => if m == 16 {
            Some(end)
        } else {
            None
        },
        None => None,
    }
}

/// Decodes a record that fills `b`; `None` where `b` is not the binary form of one.
pub fn decode_record(b: &[u8]) -> (r: Option<DataInfoTuple>)
    ensures
        match r {
            Some(t) => parse_record(b@) == Some((t.0, t.1@, t.2, t.3@)),
            None => parse_record(b@) is None,
        },
{
    let n: usize = b.len();
    let o = match read_id_offset(b) {
        Some(o) => o,
        None => {
            return None;
        },
    };
    if n - o < 18 {
        return None;
    }
    let (len, end) = match read_varint(b, o + 18, 10) {
        Some(p) => p,
        None => {
            return None;
        },
    };
    let rest: usize = n - end;
    if len != rest as u64 {
        return None;
    }
    let time: u64 = (b[0] as u64) | ((b[1] as u64) << 8u64) | ((b[2] as u64) << 16u64) | ((
    b[3] as u64) << 24u64) | ((b[4] as u64) << 32u64) | ((b[5] as u64) << 40u64) | ((
    b[6] as u64) << 48u64) | ((b[7] as u64) << 56u64);
    let enc: u16 = (b[o + 16] as u16) | ((b[o + 17] as u16) << 8u16);
    let mut id: [u8; 16] = [0u8; 16];
    let mut i: usize = 0;
    while i < 16
        invariant
            n == b@.len(),
            o + 18 <= n,
            i <= 16,
            id@.len() == 16,
            forall|j: int| 0 <= j < i ==> id@[j] == b@[o + j],
        decreases 16 - i,
    {
        id[i] = b[o + i];
        i = i + 1;
    }
    let mut schema: Vec<u8> = Vec::new();
    let mut k: usize = end;
    while k < n
        invariant
            n == b@.len(),
            end <= k <= n,
            schema@ == b@.subrange(end as int, k as int),
        decreases n - k,
    {
        schema.push(b[k]);
        assert(b@.subrange(end as int, k + 1) =~= b@.subrange(end as int, k as int).push(b@[k as int]));
        k = k + 1;
    }
    assert(id@ =~= b@.subrange(o as int, o + 16));
    assert(b@.subrange(0, 8)[0] == b@[0]);
    assert(time == u64_of_le(b@.subrange(0, 8)));
    assert(enc == u16_of_le(b@.subrange(o + 16, o + 18)));
    Some((time, id, enc, schema))
}

impl DataInfo {
    /// The flat form of this record.
    pub fn as_tuple(&self) -> (r: DataInfoTuple)
        ensures
            r.0 == self.timestamp.time,
            r.1 == self.timestamp.id,
            r.2 == self.encoding.id,
            r.3@ == self.encoding.schema@,
    {
        (self.timestamp.time, self.timestamp.id, self.encoding.id, self.encoding.schema.clone())
    }

    /// The record of a flat form, which is refused where its identity is zero.
    pub fn from_tuple(t: DataInfoTuple) -> (r: Result<DataInfo, RecordError>)
        ensures
            match r {
                Ok(info) => id_nonzero(t.1@) && info.timestamp.time == t.0 && info.timestamp.id
                    == t.1 && info.encoding.id == t.2 && info.encoding.schema@ == t.3@,
                Err(e) => !id_nonzero(t.1@) && e == RecordError::InvalidTimestampId,
            },
    {
        let (time, id, enc, schema) = t;
        let timestamp = Timestamp { time, id };
        if !timestamp.has_valid_id() {
            return Err(RecordError::InvalidTimestampId);
        }
        Ok(DataInfo { timestamp, encoding: Encoding { id: enc, schema } })
    }
}

/// The encoding and timestamp held in stored metadata bytes.
pub fn decode_encoding_timestamp_from_value(val: &[u8]) -> (r: Result<
    (Encoding, Timestamp),
    RecordError,
>)
    ensures
        match (r, decoded(val@)) {
            (Ok((e, t)), Ok(d)) => t.time == d.0 && t.id@ == d.1 && e.id == d.2 && e.schema@ == d.3,
            (Err(x), Err(y)) => x == y,
            _ => false,
        },
{
    let tuple = match decode_record(val) {
        Some(t) => t,
        None => {
            return Err(RecordError::Malformed);
        },
    };
    match DataInfo::from_tuple(tuple) {
        Ok(info) => Ok((info.encoding, info.timestamp)),
        Err(e) => Err(e),
    }
}

/// The timestamp at the head of a record, read without the rest of it.
pub open spec fn parse_timestamp(b: Seq<u8>) -> Option<(u64, Seq<u8>)> {
    match id_offset(b) {
        Some(o) => if b.len() < o + 16 {
            None
        } else {
            Some((u64_of_le(b.subrange(0, 8)), b.subrange(o as int, o + 16 as int)))
        },
        None => None,
    }
}

/// Reading the head of a record gives the timestamp the whole record holds.
pub proof fn lemma_timestamp_prefix(b: Seq<u8>)
    requires
        parse_record(b) is Some,
    ensures
        ({
            let r = parse_record(b)->Some_0;
            parse_timestamp(b) == Some((r.0, r.1))
        }),
{
}

/// The timestamp at the head of stored metadata bytes, without decoding the
/// encoding that follows it.
pub fn decode_timestamp(val: &[u8]) -> (r: Result<Timestamp, RecordError>)
    ensures
        match (r, parse_timestamp(val@)) {
            (Ok(t), Some(p)) => id_nonzero(p.1) && t.time == p.0 && t.id@ == p.1,
            (Err(e), Some(p)) => !id_nonzero(p.1) && e == RecordError::InvalidTimestampId,
            (Err(e), None) => e == RecordError::Malformed,
            _ => false,
        },
{
    let o = match read_id_offset(val) {
        Some(o) => o,
        None => {
            return Err(RecordError::Malformed);
        },
    };
    let vn: usize = val.len();
    if vn - o < 16 {
        return Err(RecordError::Malformed);
    }
    let time: u64 = (val[0] as u64) | ((val[1] as u64) << 8u64) | ((val[2] as u64) << 16u64) | ((
    val[3] as u64) << 24u64) | ((val[4] as u64) << 32u64) | ((val[5] as u64) << 40u64) | ((
    val[6] as u64) << 48u64) | ((val[7] as u64) << 56u64);
    let mut id: [u8; 16] = [0u8; 16];
    let mut i: usize = 0;
    while i < 16
        invariant
            vn == val@.len(),
            o + 16 <= val@.len(),
            i <= 16,
            id@.len() == 16,
            forall|j: int| 0 <= j < i ==> id@[j] == val@[o + j],
        decreases 16 - i,
    {
        id[i] = val[o + i];
        i = i + 1;
    }
    assert(id@ =~= val@.subrange(o as int, o + 16));
    assert(time == u64_of_le(val@.subrange(0, 8)));
    let t = Timestamp { time, id };
    if !t.has_valid_id() {
        return Err(RecordError::InvalidTimestampId);
    }
    Ok(t)
}

} // verus!
