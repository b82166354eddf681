//! The record codec: each leaf payload is a header of serial-type
//! varints followed by the concatenated column bodies. Decoding yields
//! one typed value per column, in order.

use vstd::prelude::*;
use vstd::arithmetic::power2::pow2;
use vstd::utf8::{valid_utf8, decode_utf8};
use crate::error::Error;
use crate::sql::{Value, ValModel};
use crate::varint::{spec_read_varint, read_varint, to_signed};

verus! {

/// The per-column type-and-width descriptor found in a record header.
#[derive(Debug, Clone, Copy, PartialEq, Eq, Structural)]
pub enum SerialType {
    Null,
    Int8,
    Int16,
    Int24,
    Int32,
    Int48,
    Int64,
    Float,
    Zero,
    One,
    Internal,
    Blob { size: u64 },
    Text { size: u64 },
}

/// The unsigned 64-bit pattern a signed value stands for.
pub open spec fn spec_to_unsigned(v: int) -> nat {
    if v >= 0 {
        v as nat
    } else {
        (v + 0x1_0000_0000_0000_0000) as nat
    }
}

/// Reads a signed 64-bit value as its unsigned bit pattern.
pub fn unsigned_of(v: i64) -> (r: u64)
    ensures
        r as nat == spec_to_unsigned(v as int),
{
    if v >= 0 {
        v as u64
    } else {
        ((v - i64::MIN) as u64) + 0x8000_0000_0000_0000
    }
}

/// The serial type a code denotes.
pub open spec fn spec_serial_type(code: nat) -> SerialType {
    if code == 0 { SerialType::Null
    } else if code == 1 { SerialType::Int8
    } else if code == 2 { SerialType::Int16
    } else if code == 3 { SerialType::Int24
    } else if code == 4 { SerialType::Int32
    } else if code == 5 { SerialType::Int48
    } else if code == 6 { SerialType::Int64
    } else if code == 7 { SerialType::Float
    } else if code == 8 { SerialType::Zero
    } else if code == 9 { SerialType::One
    } else if code == 10 || code == 11 { SerialType::Internal
    } else if code % 2 == 0 { SerialType::Blob { size: ((code - 12) / 2) as u64 }
    } else { SerialType::Text { size: ((code - 13) / 2) as u64 } }
}

/// The code that denotes a serial type.
pub open spec fn spec_serial_code(st: SerialType) -> nat {
    match st {
        SerialType::Null => 0,
        SerialType::Int8 => 1,
        SerialType::Int16 => 2,
        SerialType::Int24 => 3,
        SerialType::Int32 => 4,
        SerialType::Int48 => 5,
        SerialType::Int64 => 6,
        SerialType::Float => 7,
        SerialType::Zero => 8,
        SerialType::One => 9,
        SerialType::Internal => 10,
        SerialType::Blob { size } => (size * 2 + 12) as nat,
        SerialType::Text { size } => (size * 2 + 13) as nat,
    }
}

/// Sizes produced by decoding a 64-bit code always re-encode within
/// 64 bits.
pub open spec fn serial_wf(st: SerialType) -> bool {
    match st {
        SerialType::Blob { size } => size <= (u64::MAX - 12) / 2,
        SerialType::Text { size } => size <= (u64::MAX - 13) / 2,
        _ => true,
    }
}

impl SerialType {
    /// Decodes a serial-type code.
    pub fn from_code(code: u64) -> (r: SerialType)
        ensures
            r == spec_serial_type(code as nat),
            serial_wf(r),
    {
        match code {
            0 => SerialType::Null,
            1 => SerialType::Int8,
            2 => SerialType::Int16,
            3 => SerialType::Int24,
            4 => SerialType::Int32,
            5 => SerialType::Int48,
            6 => SerialType::Int64,
            7 => SerialType::Float,
            8 => SerialType::Zero,
            9 => SerialType::One,
            10 | 11 => SerialType::Internal,
            n => {
                if n % 2 == 0 {
                    SerialType::Blob { size: (n - 12) / 2 }
                } else {
                    SerialType::Text { size: (n - 13) / 2 }
                }
            },
        }
    }

    /// Re-encodes a serial type as its code.
    pub fn code(&self) -> (r: u64)
        requires
            serial_wf(*self),
        ensures
            r as nat == spec_serial_code(*self),
    {
        match self {
            SerialType::Null => 0,
            SerialType::Int8 => 1,
            SerialType::Int16 => 2,
            SerialType::Int24 => 3,
            SerialType::Int32 => 4,
            SerialType::Int48 => 5,
            SerialType::Int64 => 6,
            SerialType::Float => 7,
            SerialType::Zero => 8,
            SerialType::One => 9,
            SerialType::Internal => 10,
            SerialType::Blob { size } => *size * 2 + 12,
            SerialType::Text { size } => *size * 2 + 13,
        }
    }
}

/// Every non-reserved serial-type code survives the round trip through
/// `SerialType` and back unchanged.
pub proof fn lemma_serial_type_round_trip(code: u64)
    requires
        code != 10,
        code != 11,
    ensures
        spec_serial_code(spec_serial_type(code as nat)) == code as nat,
{
}

/// Every non-reserved serial type survives the round trip through its
/// code and back unchanged.
pub proof fn lemma_serial_code_round_trip(st: SerialType)
    requires
        serial_wf(st),
        st != SerialType::Internal,
    ensures
        spec_serial_type(spec_serial_code(st)) == st,
{
}

/// How many body bytes a serial type occupies.
pub open spec fn spec_width(st: SerialType) -> nat {
    match st {
        SerialType::Null => 0,
        SerialType::Int8 => 1,
        SerialType::Int16 => 2,
        SerialType::Int24 => 3,
        SerialType::Int32 => 4,
        SerialType::Int48 => 6,
        SerialType::Int64 => 8,
        SerialType::Float => 8,
        SerialType::Zero => 0,
        SerialType::One => 0,
        SerialType::Internal => 0,
        SerialType::Blob { size } => size as nat,
        SerialType::Text { size } => size as nat,
    }
}

/// The big-endian unsigned value of `w` bytes at `pos`.
pub open spec fn spec_be_uint(s: Seq<u8>, pos: int, w: nat) -> nat
    decreases w,
{
    if w == 0 {
        0
    } else {
        (spec_be_uint(s, pos, (w - 1) as nat) * 256 + s[pos + w - 1]) as nat
    }
}

/// A big-endian value of `w` bytes stays below `2^(8 w)`.
pub proof fn lemma_be_uint_bound(s: Seq<u8>, pos: int, w: nat)
    ensures
        spec_be_uint(s, pos, w) < pow2(8 * w),
    decreases w,
{
    vstd::arithmetic::power2::lemma2_to64();
    if w > 0 {
        lemma_be_uint_bound(s, pos, (w - 1) as nat);
        let prev = spec_be_uint(s, pos, (w - 1) as nat);
        assert(prev * 256 + s[pos + w - 1] < pow2((8 * (w - 1)) as nat) * 256) by (nonlinear_arith)
            requires prev < pow2((8 * (w - 1)) as nat), (s[pos + w - 1] as nat) < 256;
        vstd::arithmetic::power2::lemma_pow2_adds((8 * (w - 1)) as nat, 8);
    }
}

/// Reads `w` bytes at `pos` as a big-endian unsigned integer.
#[verifier::loop_isolation(false)]
pub fn read_be_uint(buf: &[u8], pos: usize, w: usize) -> (r: u64)
    requires
        1 <= w <= 8,
        pos + w <= buf@.len(),
    ensures
        r as nat == spec_be_uint(buf@, pos as int, w as nat),
{
    proof {
        vstd::arithmetic::power2::lemma2_to64();
        vstd::arithmetic::power2::lemma2_to64_rest();
    }
    let blen = buf.len();
    let mut acc: u64 = 0;
    let mut i: usize = 0;
    while i < w
        invariant
            0 <= i <= w,
            w <= 8,
            pos + w <= blen,
            blen == buf@.len(),
            acc as nat == spec_be_uint(buf@, pos as int, i as nat),
            (acc as nat) < pow2((8 * i) as nat),
        decreases w - i,
    {
        proof {
            vstd::arithmetic::power2::lemma2_to64();
            vstd::arithmetic::power2::lemma2_to64_rest();
            let prev = acc as nat;
            assert(prev * 256 + buf@[pos + i] < pow2((8 * i) as nat) * 256) by (nonlinear_arith)
                requires prev < pow2((8 * i) as nat), (buf@[pos + i] as nat) < 256;
            vstd::arithmetic::power2::lemma_pow2_adds((8 * i) as nat, 8);
            vstd::arithmetic::power2::lemma_pow2_strictly_increases((8 * (i + 1)) as nat, 65);
            if 8 * (i + 1) <= 64 {
                vstd::arithmetic::power2::lemma_pow2_strictly_increases((8 * (i + 1)) as nat, 65);
            }
        }
        acc = acc * 256 + (buf[pos + i] as u64);
        i = i + 1;
    }
    acc
}

/// The signed reading of an unsigned `w`-byte value: two's complement
/// at width `8 w`.
pub open spec fn spec_sign_val(m: nat, w: nat) -> int {
    if m < pow2((8 * w - 1) as nat) {
        m as int
    } else {
        m - pow2((8 * w) as nat)
    }
}

/// Sign-extends an unsigned `w`-byte value to 64 bits.
pub fn sign_extend(m: u64, w: usize) -> (r: i64)
    requires
        1 <= w <= 8,
        w < 8 ==> (m as nat) < pow2((8 * w) as nat),
    ensures
        r as int == spec_sign_val(m as nat, w as nat),
{
    proof {
        vstd::arithmetic::power2::lemma2_to64();
        vstd::arithmetic::power2::lemma2_to64_rest();
    }
    if w == 8 {
        crate::varint::signed_of(m)
    } else {
        let (half, full): (u64, u64) = if w == 1 { (0x80, 0x100)
        } else if w == 2 { (0x8000, 0x1_0000)
        } else if w == 3 { (0x80_0000, 0x100_0000)
        } else if w == 4 { (0x8000_0000, 0x1_0000_0000)
        } else if w == 5 { (0x80_0000_0000, 0x100_0000_0000)
        } else if w == 6 { (0x8000_0000_0000, 0x1_0000_0000_0000)
        } else { (0x80_0000_0000_0000, 0x100_0000_0000_0000) };
        proof {
            assert(half as nat == pow2((8 * w - 1) as nat));
            assert(full as nat == pow2((8 * w) as nat));
        }
        if m < half {
            m as i64
        } else {
            crate::varint::signed_of(m + (0xFFFF_FFFF_FFFF_FFFF - full + 1))
        }
    }
}

/// One serial type read from the header: either an error, or the type
/// with the position after it.
pub open spec fn spec_header_types(s: Seq<u8>, pos: int, end: int) -> Option<Seq<SerialType>>
    decreases end - pos,
{
    if pos == end {
        Some(Seq::empty())
    } else if pos > end || pos < 0 {
        None
    } else {
        match spec_read_varint(s, pos) {
            None => None,
            Some((v, l)) => {
                if l < 1 || pos + l > end {
                    None
                } else {
                    let st = spec_serial_type(spec_to_unsigned(v));
                    match spec_header_types(s, pos + l, end) {
                        None => None,
                        Some(rest) => Some(seq![st] + rest),
                    }
                }
            },
        }
    }
}

/// What decoding a record header yields: the serial types, one per
/// column, and the offset where the column bodies begin.
pub open spec fn spec_decode_header(s: Seq<u8>) -> Option<(Seq<SerialType>, int)> {
    match spec_read_varint(s, 0) {
        None => None,
        Some((hv, hl)) => {
            if hv < hl || hv > s.len() {
                None
            } else {
                match spec_header_types(s, hl as int, hv) {
                    None => None,
                    Some(sts) => Some((sts, hv)),
                }
            }
        },
    }
}

/// Prepending already-decoded serial types to a pending decode.
pub open spec fn opt_concat_sts(a: Seq<SerialType>, o: Option<Seq<SerialType>>) -> Option<
    Seq<SerialType>,
> {
    match o {
        None => None,
        Some(r) => Some(a + r),
    }
}

/// Decodes the header of a record payload.
///
/// Returns one serial type per column and the offset of the first body
/// byte. Fails when a varint is truncated, or when the declared header
/// size does not fit the payload.
#[verifier::loop_isolation(false)]
pub fn decode_header(payload: &[u8]) -> (r: Result<(Vec<SerialType>, usize), Error>)
    ensures
        match r {
            Ok((sts, off)) => {
                &&& spec_decode_header(payload@) == Some((sts@, off as int))
                &&& off <= payload@.len()
                &&& forall|i: int| 0 <= i < sts@.len() ==> serial_wf(#[trigger] sts@[i])
            },
            Err(e) => {
                &&& spec_decode_header(payload@) is None
                &&& (e == Error::VarintTruncated || e == Error::RecordInvalid)
            },
        },
{
    let (hv, hl) = match read_varint(payload, 0) {
        Ok(x) => x,
        Err(e) => { return Err(e); },
    };
    if hv < 0 {
        return Err(Error::RecordInvalid);
    }
    if (hv as u64) < (hl as u64) || (hv as u64) > (payload.len() as u64) {
        return Err(Error::RecordInvalid);
    }
    let end: usize = hv as usize;
    proof {
        assert(end as int == hv as int);
        assert(hl as int <= hv as int <= payload@.len());
    }
    let mut sts: Vec<SerialType> = Vec::new();
    let mut pos: usize = hl;
    while pos != end
        invariant
            0 <= pos <= end,
            end <= payload@.len(),
            spec_header_types(payload@, hl as int, end as int) == opt_concat_sts(
                sts@,
                spec_header_types(payload@, pos as int, end as int),
            ),
            forall|i: int| 0 <= i < sts@.len() ==> serial_wf(#[trigger] sts@[i]),
        decreases end - pos,
    {
        let (v, l) = match read_varint(payload, pos) {
            Ok(x) => x,
            Err(_) => {
                proof {
                    assert(spec_header_types(payload@, pos as int, end as int) is None);
                    assert(spec_header_types(payload@, hl as int, end as int) is None);
                }
                return Err(Error::VarintTruncated);
            },
        };
        if l > end - pos {
            proof {
                assert(pos + l > end);
                assert(spec_header_types(payload@, pos as int, end as int) is None);
                assert(spec_header_types(payload@, hl as int, end as int) is None);
            }
            return Err(Error::RecordInvalid);
        }
        let st = SerialType::from_code(unsigned_of(v));
        proof {
            let ghost rest = spec_header_types(payload@, pos + l, end as int);
            if rest is Some {
                assert(sts@ + (seq![st] + rest.unwrap()) =~= sts@.push(st) + rest.unwrap());
            }
        }
        sts.push(st);
        pos = pos + l;
    }
    proof {
        assert(spec_header_types(payload@, end as int, end as int) == Some(Seq::<SerialType>::empty()));
        assert(sts@ + Seq::<SerialType>::empty() =~= sts@);
    }
    Ok((sts, end))
}

/// Prepending an already-decoded value, or nothing for a skipped
/// column, to a pending decode.
pub open spec fn opt_prepend_val(e: Option<ValModel>, r: Seq<ValModel>) -> Seq<ValModel> {
    match e {
        None => r,
        Some(v) => seq![v] + r,
    }
}

/// What one column body at `pos` denotes: an error, a skipped column,
/// or a value.
pub open spec fn spec_column_value(st: SerialType, s: Seq<u8>, pos: int) -> Option<
    Option<ValModel>,
> {
    match st {
        SerialType::Null => Some(Some(ValModel::Null)),
        SerialType::Int8 => Some(Some(ValModel::Int(spec_sign_val(spec_be_uint(s, pos, 1), 1)))),
        SerialType::Int16 => Some(Some(ValModel::Int(spec_sign_val(spec_be_uint(s, pos, 2), 2)))),
        SerialType::Int24 => Some(Some(ValModel::Int(spec_sign_val(spec_be_uint(s, pos, 3), 3)))),
        SerialType::Int32 => Some(Some(ValModel::Int(spec_sign_val(spec_be_uint(s, pos, 4), 4)))),
        SerialType::Int48 => Some(Some(ValModel::Int(spec_sign_val(spec_be_uint(s, pos, 6), 6)))),
        SerialType::Int64 => Some(Some(ValModel::Int(spec_sign_val(spec_be_uint(s, pos, 8), 8)))),
        SerialType::Float => Some(
            Some(ValModel::Real(spec_be_uint(s, pos, 8) as u64)),
        ),
        SerialType::Zero => Some(Some(ValModel::Int(0))),
        SerialType::One => Some(Some(ValModel::Int(1))),
        SerialType::Internal => Some(None),
        SerialType::Blob { size } => Some(None),
        SerialType::Text { size } => {
            let bytes = s.subrange(pos, pos + size);
            if valid_utf8(bytes) {
                Some(Some(ValModel::Text(decode_utf8(bytes))))
            } else {
                None
            }
        },
    }
}

/// What decoding the column bodies yields: one value per serial type
/// in order, each consuming exactly its declared width; reserved and
/// blob columns are skipped.
pub open spec fn spec_decode_values(sts: Seq<SerialType>, s: Seq<u8>, pos: int) -> Option<
    Seq<ValModel>,
>
    decreases sts.len(),
{
    if sts.len() == 0 {
        Some(Seq::empty())
    } else {
        let st = sts[0];
        let w = spec_width(st);
        if pos < 0 || pos + w > s.len() {
            None
        } else {
            match spec_column_value(st, s, pos) {
                None => None,
                Some(e) => match spec_decode_values(sts.drop_first(), s, pos + w) {
                    None => None,
                    Some(rest) => Some(opt_prepend_val(e, rest)),
                },
            }
        }
    }
}

/// Decodes the column bodies of a record payload, starting at `start`,
/// one value per serial type.
///
/// Fails when a column body runs past the end of the payload or
/// declared text is not UTF-8.
#[verifier::loop_isolation(false)]
pub fn decode_values(sts: &Vec<SerialType>, payload: &[u8], start: usize) -> (r: Result<
    Vec<Value>,
    Error,
>)
    requires
        start <= payload@.len(),
        forall|i: int| 0 <= i < sts@.len() ==> serial_wf(#[trigger] sts@[i]),
    ensures
        match r {
            Ok(vals) => spec_decode_values(sts@, payload@, start as int) == Some(
                vals@.map_values(|v: Value| v@),
            ),
            Err(e) => {
                &&& spec_decode_values(sts@, payload@, start as int) is None
                &&& e == Error::RecordInvalid
            },
        },
{
    let mut out: Vec<Value> = Vec::new();
    let mut pos: usize = start;
    let mut i: usize = 0;
    proof {
        assert(sts@.skip(0) =~= sts@);
        assert(out@.map_values(|v: Value| v@) =~= Seq::<ValModel>::empty());
    }
    while i < sts.len()
        invariant
            0 <= i <= sts@.len(),
            start <= pos <= payload@.len(),
            forall|j: int| 0 <= j < sts@.len() ==> serial_wf(#[trigger] sts@[j]),
            match spec_decode_values(sts@.skip(i as int), payload@, pos as int) {
                Some(rest) => spec_decode_values(sts@, payload@, start as int) == Some(
                    out@.map_values(|v: Value| v@) + rest,
                ),
                None => spec_decode_values(sts@, payload@, start as int) is None,
            },
        decreases sts@.len() - i,
    {
        let ghost pre = sts@.skip(i as int);
        proof {
            assert(pre.len() > 0);
            assert(pre[0] == sts@[i as int]);
            assert(pre.drop_first() =~= sts@.skip(i as int + 1));
        }
        let st = sts[i];
        let remaining: u64 = (payload.len() - pos) as u64;
        // check that the declared width fits the remaining payload
        let w: u64 = match st {
            SerialType::Null => 0,
            SerialType::Int8 => 1,
            SerialType::Int16 => 2,
            SerialType::Int24 => 3,
            SerialType::Int32 => 4,
            SerialType::Int48 => 6,
            SerialType::Int64 => 8,
            SerialType::Float => 8,
            SerialType::Zero => 0,
            SerialType::One => 0,
            SerialType::Internal => 0,
            SerialType::Blob { size } => size,
            SerialType::Text { size } => size,
        };
        if w > remaining {
            return Err(Error::RecordInvalid);
        }
        let wu: usize = w as usize;
        let ghost before = out@;
        match st {
            SerialType::Null => { out.push(Value::Null); },
            SerialType::Int8 | SerialType::Int16 | SerialType::Int24 | SerialType::Int32
                | SerialType::Int48 | SerialType::Int64 => {
                proof {
                    lemma_be_uint_bound(payload@, pos as int, wu as nat);
                }
                let m = read_be_uint(payload, pos, wu);
                let v = sign_extend(m, wu);
                out.push(Value::Int(v));
            },
            SerialType::Float => {
                let m = read_be_uint(payload, pos, 8);
                out.push(Value::Real(m));
            },
            SerialType::Zero => { out.push(Value::Int(0)); },
            SerialType::One => { out.push(Value::Int(1)); },
            SerialType::Internal => {},
            SerialType::Blob { size: _ } => {},
            SerialType::Text { size: _ } => {
                let bytes = vstd::slice::slice_subrange(payload, pos, pos + wu);
                match crate::text::bytes_to_string(bytes) {
                    Some(t) => { out.push(Value::Text(t)); },
                    None => { return Err(Error::RecordInvalid); },
                }
            },
        }
        proof {
            let ghost rest2 = spec_decode_values(sts@.skip(i as int + 1), payload@, pos + w);
            let ghost e = spec_column_value(sts@[i as int], payload@, pos as int);
            assert(e is Some);
            if rest2 is Some {
                let ghost emitted = e.unwrap();
                let ghost oldmap = before;
                match emitted {
                    Some(v) => {
                        assert(out@.map_values(|x: Value| x@) =~= oldmap.map_values(|x: Value| x@)
                            .push(out@.last()@));
                        assert(oldmap.map_values(|x: Value| x@) + (seq![v] + rest2.unwrap())
                            =~= out@.map_values(|x: Value| x@) + rest2.unwrap());
                    },
                    None => {},
                }
            }
        }
        pos = pos + wu;
        i = i + 1;
    }
    proof {
        assert(sts@.skip(sts@.len() as int) =~= Seq::<SerialType>::empty());
        assert(out@.map_values(|v: Value| v@) + Seq::<ValModel>::empty() =~= out@.map_values(
            |v: Value| v@,
        ));
    }
    Ok(out)
}

/// What decoding a whole record payload yields: its serial types and
/// its values.
pub open spec fn spec_decode_record(p: Seq<u8>) -> Option<(Seq<SerialType>, Seq<ValModel>)> {
    match spec_decode_header(p) {
        None => None,
        Some((sts, body)) => match spec_decode_values(sts, p, body) {
            None => None,
            Some(vals) => Some((sts, vals)),
        },
    }
}

/// Splits `size` bytes off the front of `v` as UTF-8 text.
///
/// Returns the decoded text and the remainder; fails when fewer than
/// `size` bytes remain or they are not UTF-8.
pub fn next_utf8(v: &[u8], size: usize) -> (r: Result<(&str, &[u8]), Error>)
    ensures
        match r {
            Ok((t, rest)) => {
                &&& size <= v@.len()
                &&& valid_utf8(v@.subrange(0, size as int))
                &&& t@ == decode_utf8(v@.subrange(0, size as int))
                &&& rest@ == v@.skip(size as int)
            },
            Err(e) => {
                &&& (size > v@.len() || !valid_utf8(v@.subrange(0, size as int)))
                &&& e == Error::RecordInvalid
            },
        },
{
    if size > v.len() {
        return Err(Error::RecordInvalid);
    }
    let head = vstd::slice::slice_subrange(v, 0, size);
    let rest = vstd::slice::slice_subrange(v, size, v.len());
    match crate::text::bytes_to_str(head) {
        Some(t) => Ok((t, rest)),
        None => Err(Error::RecordInvalid),
    }
}

/// The mathematical reading of a schema row: the five columns of the
/// schema table.
pub ghost struct SchemaModel {
    pub ty: Seq<char>,
    pub name: Seq<char>,
    pub tbl_name: Seq<char>,
    pub rootpage: int,
    pub sql: Seq<char>,
}

/// What a schema-table payload denotes: five columns — three texts, an
/// integer rootpage that fits a page number, and the stored SQL text.
pub open spec fn spec_schema(p: Seq<u8>) -> Option<SchemaModel> {
    match spec_decode_record(p) {
        None => None,
        Some((sts, vals)) => {
            if vals.len() == 5 {
                match (vals[0], vals[1], vals[2], vals[3], vals[4]) {
                    (
                        ValModel::Text(ty),
                        ValModel::Text(name),
                        ValModel::Text(tbl_name),
                        ValModel::Int(rootpage),
                        ValModel::Text(sql),
                    ) => {
                        if 0 <= rootpage <= u32::MAX {
                            Some(SchemaModel { ty, name, tbl_name, rootpage, sql })
                        } else {
                            None
                        }
                    },
                    _ => None,
                }
            } else {
                None
            }
        },
    }
}

/// One row of the schema table: what kind of object it is, its name,
/// the table it belongs to, the root page of its B-tree, and the SQL
/// text that created it.
#[derive(Debug, Clone, PartialEq, Eq)]
pub struct Schema {
    pub ty: String,
    pub name: String,
    pub tbl_name: String,
    pub rootpage: u32,
    pub sql: String,
}

impl Schema {
    /// Decodes a schema row from a leaf payload.
    ///
    /// Succeeds exactly when the payload is a well-formed record of
    /// three texts, an integer in page-number range, and a final text.
    pub fn new(payload: Vec<u8>) -> (r: Result<Schema, Error>)
        ensures
            match r {
                Ok(s) => spec_schema(payload@) == Some(
                    SchemaModel {
                        ty: s.ty@,
                        name: s.name@,
                        tbl_name: s.tbl_name@,
                        rootpage: s.rootpage as int,
                        sql: s.sql@,
                    },
                ),
                Err(_) => spec_schema(payload@) is None,
            },
    {
        let (sts, body) = match decode_header(payload.as_slice()) {
            Ok(x) => x,
            Err(e) => { return Err(e); },
        };
        let mut vals = match decode_values(&sts, payload.as_slice(), body) {
            Ok(x) => x,
            Err(e) => { return Err(e); },
        };
        if vals.len() != 5 {
            return Err(Error::RecordInvalid);
        }
        let sql = vals.pop().unwrap();
        let rootpage = vals.pop().unwrap();
        let tbl_name = vals.pop().unwrap();
        let name = vals.pop().unwrap();
        let ty = vals.pop().unwrap();
        match (ty, name, tbl_name, rootpage, sql) {
            (
                Value::Text(ty),
                Value::Text(name),
                Value::Text(tbl_name),
                Value::Int(rootpage),
                Value::Text(sql),
            ) => {
                if rootpage < 0 || rootpage > u32::MAX as i64 {
                    return Err(Error::RecordInvalid);
                }
                Ok(Schema { ty, name, tbl_name, rootpage: rootpage as u32, sql })
            },
            _ => Err(Error::RecordInvalid),
        }
    }
}

} // verus!
