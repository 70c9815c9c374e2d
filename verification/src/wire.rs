//! Little-endian primitives of the wire format: how each value is written, how it is read back
//! at an offset, and the read cursor.
use vstd::prelude::*;
use crate::match_types::{EliminationCause, MatchPhase};

verus! {

/// Why a payload could not be read.
#[derive(Clone, Copy, Debug, PartialEq, Eq, Structural)]
pub enum DecodeFailure {
    OffsetOverflow,
    Truncated,
    BadMagic,
    UnsupportedVersion,
    InvalidPhase,
    InvalidBool,
    InvalidOptionU64,
    InvalidOptionU32,
    InvalidCause,
    TooManyPlayers,
    TrailingBytes,
}

/// A value read at an offset, with the offset just past it.
pub type Parsed<T> = Result<(T, int), DecodeFailure>;

// ---------------------------------------------------------------------------------------------
// Encodings

pub open spec fn le16(v: u16) -> Seq<u8> {
    seq![v as u8, (v >> 8u16) as u8]
}

pub open spec fn le32(v: u32) -> Seq<u8> {
    seq![v as u8, (v >> 8u32) as u8, (v >> 16u32) as u8, (v >> 24u32) as u8]
}

pub open spec fn le64(v: u64) -> Seq<u8> {
    seq![
        v as u8,
        (v >> 8u64) as u8,
        (v >> 16u64) as u8,
        (v >> 24u64) as u8,
        (v >> 32u64) as u8,
        (v >> 40u64) as u8,
        (v >> 48u64) as u8,
        (v >> 56u64) as u8,
    ]
}

/// A signed 32-bit value is written as its two's-complement bits.
pub open spec fn le_i32(v: i32) -> Seq<u8> {
    le32(v as u32)
}

pub open spec fn bool_byte(v: bool) -> u8 {
    if v {
        1
    } else {
        0
    }
}

/// `0` for none, else `1` followed by the value.
pub open spec fn opt_u64_bytes(v: Option<u64>) -> Seq<u8> {
    match v {
        Some(x) => seq![1u8] + le64(x),
        None => seq![0u8],
    }
}

pub open spec fn opt_u32_bytes(v: Option<u32>) -> Seq<u8> {
    match v {
        Some(x) => seq![1u8] + le32(x),
        None => seq![0u8],
    }
}

pub open spec fn vec3_bytes(v: [i32; 3]) -> Seq<u8> {
    le_i32(v[0]) + le_i32(v[1]) + le_i32(v[2])
}

pub open spec fn phase_byte(phase: MatchPhase) -> u8 {
    match phase {
        MatchPhase::Waiting => 0,
        MatchPhase::Drop => 1,
        MatchPhase::Combat => 2,
        MatchPhase::Finished => 3,
    }
}

pub open spec fn cause_byte(cause: Option<EliminationCause>) -> u8 {
    match cause {
        None => 0,
        Some(EliminationCause::Storm) => 1,
        Some(EliminationCause::SessionExpired) => 2,
    }
}

// ---------------------------------------------------------------------------------------------
// Decodings

pub open spec fn u16_from(b0: u8, b1: u8) -> u16 {
    (b0 as u16) | ((b1 as u16) << 8u16)
}

pub open spec fn u32_from(b0: u8, b1: u8, b2: u8, b3: u8) -> u32 {
    (b0 as u32) | ((b1 as u32) << 8u32) | ((b2 as u32) << 16u32) | ((b3 as u32) << 24u32)
}

pub open spec fn u64_from(b: Seq<u8>, o: int) -> u64 {
    (b[o] as u64) | ((b[o + 1] as u64) << 8u64) | ((b[o + 2] as u64) << 16u64) | ((b[o + 3] as u64)
        << 24u64) | ((b[o + 4] as u64) << 32u64) | ((b[o + 5] as u64) << 40u64) | ((b[o + 6] as u64)
        << 48u64) | ((b[o + 7] as u64) << 56u64)
}

/// Reserve `n` bytes at `o`.
pub open spec fn take(b: Seq<u8>, o: int, n: int) -> Result<int, DecodeFailure> {
    if o + n > usize::MAX {
        Err(DecodeFailure::OffsetOverflow)
    } else if o + n > b.len() {
        Err(DecodeFailure::Truncated)
    } else {
        Ok(o + n)
    }
}

pub open spec fn p_u8(b: Seq<u8>, o: int) -> Parsed<u8> {
    match take(b, o, 1) {
        Ok(e) => Ok((b[o], e)),
        Err(f) => Err(f),
    }
}

pub open spec fn p_u16(b: Seq<u8>, o: int) -> Parsed<u16> {
    match take(b, o, 2) {
        Ok(e) => Ok((u16_from(b[o], b[o + 1]), e)),
        Err(f) => Err(f),
    }
}

pub open spec fn p_u32(b: Seq<u8>, o: int) -> Parsed<u32> {
    match take(b, o, 4) {
        Ok(e) => Ok((u32_from(b[o], b[o + 1], b[o + 2], b[o + 3]), e)),
        Err(f) => Err(f),
    }
}

pub open spec fn p_u64(b: Seq<u8>, o: int) -> Parsed<u64> {
    match take(b, o, 8) {
        Ok(e) => Ok((u64_from(b, o), e)),
        Err(f) => Err(f),
    }
}

pub open spec fn p_i32(b: Seq<u8>, o: int) -> Parsed<i32> {
    match p_u32(b, o) {
        Ok((v, e)) => Ok((v as i32, e)),
        Err(f) => Err(f),
    }
}

pub open spec fn p_i8(b: Seq<u8>, o: int) -> Parsed<i8> {
    match p_u8(b, o) {
        Ok((v, e)) => Ok((v as i8, e)),
        Err(f) => Err(f),
    }
}

pub open spec fn p_bool(b: Seq<u8>, o: int) -> Parsed<bool> {
    match p_u8(b, o) {
        Ok((v, e)) => if v == 0 {
            Ok((false, e))
        } else if v == 1 {
            Ok((true, e))
        } else {
            Err(DecodeFailure::InvalidBool)
        },
        Err(f) => Err(f),
    }
}

pub open spec fn p_opt_u64(b: Seq<u8>, o: int) -> Parsed<Option<u64>> {
    match p_u8(b, o) {
        Ok((tag, e)) => if tag == 0 {
            Ok((None, e))
        } else if tag == 1 {
            match p_u64(b, e) {
                Ok((v, e2)) => Ok((Some(v), e2)),
                Err(f) => Err(f),
            }
        } else {
            Err(DecodeFailure::InvalidOptionU64)
        },
        Err(f) => Err(f),
    }
}

pub open spec fn p_opt_u32(b: Seq<u8>, o: int) -> Parsed<Option<u32>> {
    match p_u8(b, o) {
        Ok((tag, e)) => if tag == 0 {
            Ok((None, e))
        } else if tag == 1 {
            match p_u32(b, e) {
                Ok((v, e2)) => Ok((Some(v), e2)),
                Err(f) => Err(f),
            }
        } else {
            Err(DecodeFailure::InvalidOptionU32)
        },
        Err(f) => Err(f),
    }
}

pub open spec fn p_vec3(b: Seq<u8>, o: int) -> Parsed<[i32; 3]> {
    match p_i32(b, o) {
        Ok((x, e1)) => match p_i32(b, e1) {
            Ok((y, e2)) => match p_i32(b, e2) {
                Ok((z, e3)) => Ok(([x, y, z], e3)),
                Err(f) => Err(f),
            },
            Err(f) => Err(f),
        },
        Err(f) => Err(f),
    }
}

pub open spec fn phase_from(v: u8) -> Option<MatchPhase> {
    if v == 0 {
        Some(MatchPhase::Waiting)
    } else if v == 1 {
        Some(MatchPhase::Drop)
    } else if v == 2 {
        Some(MatchPhase::Combat)
    } else if v == 3 {
        Some(MatchPhase::Finished)
    } else {
        None
    }
}

pub open spec fn cause_from(v: u8) -> Option<Option<EliminationCause>> {
    if v == 0 {
        Some(None)
    } else if v == 1 {
        Some(Some(EliminationCause::Storm))
    } else if v == 2 {
        Some(Some(EliminationCause::SessionExpired))
    } else {
        None
    }
}

pub open spec fn p_phase(b: Seq<u8>, o: int) -> Parsed<MatchPhase> {
    match p_u8(b, o) {
        Ok((v, e)) => match phase_from(v) {
            Some(p) => Ok((p, e)),
            None => Err(DecodeFailure::InvalidPhase),
        },
        Err(f) => Err(f),
    }
}

pub open spec fn p_cause(b: Seq<u8>, o: int) -> Parsed<Option<EliminationCause>> {
    match p_u8(b, o) {
        Ok((v, e)) => match cause_from(v) {
            Some(c) => Ok((c, e)),
            None => Err(DecodeFailure::InvalidCause),
        },
        Err(f) => Err(f),
    }
}

/// `r` and the cursor's new offset agree with the specified reading `p`.
pub open spec fn read_as<T>(r: Result<T, DecodeFailure>, p: Parsed<T>, offset: usize) -> bool {
    match p {
        Ok((v, e)) => r == Ok::<T, DecodeFailure>(v) && offset == e,
        Err(f) => r == Err::<T, DecodeFailure>(f),
    }
}

// ---------------------------------------------------------------------------------------------
// Round trips of the primitives

/// Splitting a region that holds `x + y` into the region of `x` and the one of `y`.
pub proof fn lemma_split(b: Seq<u8>, o: int, x: Seq<u8>, y: Seq<u8>)
    requires
        0 <= o,
        o + x.len() + y.len() <= b.len(),
        b.subrange(o, o + x.len() + y.len()) == x + y,
    ensures
        b.subrange(o, o + x.len()) == x,
        b.subrange(o + x.len(), o + x.len() + y.len()) == y,
{
    assert(b.subrange(o, o + x.len()) =~= (x + y).subrange(0, x.len() as int));
    assert((x + y).subrange(0, x.len() as int) =~= x);
    assert(b.subrange(o + x.len(), o + x.len() + y.len()) =~= (x + y).subrange(
        x.len() as int,
        (x.len() + y.len()) as int,
    ));
    assert((x + y).subrange(x.len() as int, (x.len() + y.len()) as int) =~= y);
}

/// Joining the regions of `x` and `y` into the region of `x + y`.
pub proof fn lemma_join(b: Seq<u8>, o: int, x: Seq<u8>, y: Seq<u8>)
    requires
        0 <= o,
        o + x.len() + y.len() <= b.len(),
        b.subrange(o, o + x.len()) == x,
        b.subrange(o + x.len(), o + x.len() + y.len()) == y,
    ensures
        b.subrange(o, o + x.len() + y.len()) == x + y,
{
    assert forall|i: int| 0 <= i < x.len() + y.len() implies b.subrange(o, o + x.len() + y.len())[i]
        == (x + y)[i] by {
        if i < x.len() {
            assert(b.subrange(o, o + x.len())[i] == x[i]);
        } else {
            assert(b.subrange(o + x.len(), o + x.len() + y.len())[i - x.len()] == y[i - x.len()]);
        }
    }
    assert(b.subrange(o, o + x.len() + y.len()) =~= x + y);
}

pub proof fn lemma_u16_roundtrip(v: u16)
    ensures
        u16_from(le16(v)[0], le16(v)[1]) == v,
{
    let b0 = v as u8;
    let b1 = (v >> 8u16) as u8;
    assert(((b0 as u16) | ((b1 as u16) << 8u16)) == v) by (bit_vector)
        requires
            b0 == v as u8,
            b1 == (v >> 8u16) as u8,
    ;
}

pub proof fn lemma_u16_bytes(b0: u8, b1: u8)
    ensures
        le16(u16_from(b0, b1)) == seq![b0, b1],
{
    let v = u16_from(b0, b1);
    assert(v as u8 == b0 && (v >> 8u16) as u8 == b1) by (bit_vector)
        requires
            v == (b0 as u16) | ((b1 as u16) << 8u16),
    ;
    assert(le16(v) =~= seq![b0, b1]);
}

pub proof fn lemma_u32_roundtrip(v: u32)
    ensures
        u32_from(le32(v)[0], le32(v)[1], le32(v)[2], le32(v)[3]) == v,
{
    let b0 = v as u8;
    let b1 = (v >> 8u32) as u8;
    let b2 = (v >> 16u32) as u8;
    let b3 = (v >> 24u32) as u8;
    assert(((b0 as u32) | ((b1 as u32) << 8u32) | ((b2 as u32) << 16u32) | ((b3 as u32) << 24u32))
        == v) by (bit_vector)
        requires
            b0 == v as u8,
            b1 == (v >> 8u32) as u8,
            b2 == (v >> 16u32) as u8,
            b3 == (v >> 24u32) as u8,
    ;
}

pub proof fn lemma_u32_bytes(b0: u8, b1: u8, b2: u8, b3: u8)
    ensures
        le32(u32_from(b0, b1, b2, b3)) == seq![b0, b1, b2, b3],
{
    let v = u32_from(b0, b1, b2, b3);
    assert(v as u8 == b0 && (v >> 8u32) as u8 == b1 && (v >> 16u32) as u8 == b2 && (v >> 24u32) as u8
        == b3) by (bit_vector)
        requires
            v == (b0 as u32) | ((b1 as u32) << 8u32) | ((b2 as u32) << 16u32) | ((b3 as u32)
                << 24u32),
    ;
    assert(le32(v) =~= seq![b0, b1, b2, b3]);
}

pub proof fn lemma_u64_roundtrip(v: u64)
    ensures
        u64_from(le64(v), 0) == v,
{
    let b0 = v as u8;
    let b1 = (v >> 8u64) as u8;
    let b2 = (v >> 16u64) as u8;
    let b3 = (v >> 24u64) as u8;
    let b4 = (v >> 32u64) as u8;
    let b5 = (v >> 40u64) as u8;
    let b6 = (v >> 48u64) as u8;
    let b7 = (v >> 56u64) as u8;
    assert(((b0 as u64) | ((b1 as u64) << 8u64) | ((b2 as u64) << 16u64) | ((b3 as u64) << 24u64)
        | ((b4 as u64) << 32u64) | ((b5 as u64) << 40u64) | ((b6 as u64) << 48u64) | ((b7 as u64)
        << 56u64)) == v) by (bit_vector)
        requires
            b0 == v as u8,
            b1 == (v >> 8u64) as u8,
            b2 == (v >> 16u64) as u8,
            b3 == (v >> 24u64) as u8,
            b4 == (v >> 32u64) as u8,
            b5 == (v >> 40u64) as u8,
            b6 == (v >> 48u64) as u8,
            b7 == (v >> 56u64) as u8,
    ;
}

pub proof fn lemma_u64_bytes(b: Seq<u8>, o: int)
    requires
        0 <= o,
        o + 8 <= b.len(),
    ensures
        le64(u64_from(b, o)) == b.subrange(o, o + 8),
{
    let v = u64_from(b, o);
    let b0 = b[o];
    let b1 = b[o + 1];
    let b2 = b[o + 2];
    let b3 = b[o + 3];
    let b4 = b[o + 4];
    let b5 = b[o + 5];
    let b6 = b[o + 6];
    let b7 = b[o + 7];
    assert(v as u8 == b0 && (v >> 8u64) as u8 == b1 && (v >> 16u64) as u8 == b2 && (v >> 24u64) as u8
        == b3 && (v >> 32u64) as u8 == b4 && (v >> 40u64) as u8 == b5 && (v >> 48u64) as u8 == b6
        && (v >> 56u64) as u8 == b7) by (bit_vector)
        requires
            v == (b0 as u64) | ((b1 as u64) << 8u64) | ((b2 as u64) << 16u64) | ((b3 as u64)
                << 24u64) | ((b4 as u64) << 32u64) | ((b5 as u64) << 40u64) | ((b6 as u64)
                << 48u64) | ((b7 as u64) << 56u64),
    ;
    assert(le64(v) =~= b.subrange(o, o + 8));
}

pub proof fn lemma_i32_roundtrip(v: i32)
    ensures
        (v as u32) as i32 == v,
{
    assert((v as u32) as i32 == v) by (bit_vector);
}

pub proof fn lemma_u32_as_i32(v: u32)
    ensures
        ((v as i32) as u32) == v,
{
    assert(((v as i32) as u32) == v) by (bit_vector);
}

pub proof fn lemma_i8_roundtrip(v: i8)
    ensures
        (v as u8) as i8 == v,
{
    assert((v as u8) as i8 == v) by (bit_vector);
}

pub proof fn lemma_u8_as_i8(v: u8)
    ensures
        (v as i8) as u8 == v,
{
    assert((v as i8) as u8 == v) by (bit_vector);
}

// ---------------------------------------------------------------------------------------------
// Reading back what was written, and nothing else

/// `b` holds `x` starting at `o`.
pub open spec fn region(b: Seq<u8>, o: int, x: Seq<u8>) -> bool {
    0 <= o && o + x.len() <= b.len() && b.subrange(o, o + x.len()) == x
}

pub proof fn lemma_region_split(b: Seq<u8>, o: int, x: Seq<u8>, y: Seq<u8>)
    requires
        region(b, o, x + y),
    ensures
        region(b, o, x),
        region(b, o + x.len(), y),
{
    lemma_split(b, o, x, y);
}

pub proof fn lemma_region_join(b: Seq<u8>, o: int, x: Seq<u8>, y: Seq<u8>)
    requires
        region(b, o, x),
        region(b, o + x.len(), y),
    ensures
        region(b, o, x + y),
{
    lemma_join(b, o, x, y);
}

pub proof fn lemma_read_u8(b: Seq<u8>, o: int, v: u8)
    requires
        region(b, o, seq![v]),
        b.len() <= usize::MAX,
    ensures
        p_u8(b, o) == Ok::<(u8, int), DecodeFailure>((v, o + 1)),
{
    assert(b.subrange(o, o + 1)[0] == b[o]);
}

pub proof fn lemma_u8_exact(b: Seq<u8>, o: int)
    requires
        0 <= o,
    ensures
        p_u8(b, o) matches Ok((v, e)) ==> e == o + 1 && region(b, o, seq![v]),
{
    if p_u8(b, o) is Ok {
        assert(b.subrange(o, o + 1) =~= seq![b[o]]);
    }
}

pub proof fn lemma_read_u16(b: Seq<u8>, o: int, v: u16)
    requires
        region(b, o, le16(v)),
        b.len() <= usize::MAX,
    ensures
        p_u16(b, o) == Ok::<(u16, int), DecodeFailure>((v, o + 2)),
{
    assert(b.subrange(o, o + 2)[0] == b[o]);
    assert(b.subrange(o, o + 2)[1] == b[o + 1]);
    lemma_u16_roundtrip(v);
}

pub proof fn lemma_u16_exact(b: Seq<u8>, o: int)
    requires
        0 <= o,
    ensures
        p_u16(b, o) matches Ok((v, e)) ==> e == o + 2 && region(b, o, le16(v)),
{
    if p_u16(b, o) is Ok {
        lemma_u16_bytes(b[o], b[o + 1]);
        assert(b.subrange(o, o + 2) =~= seq![b[o], b[o + 1]]);
    }
}

pub proof fn lemma_read_u32(b: Seq<u8>, o: int, v: u32)
    requires
        region(b, o, le32(v)),
        b.len() <= usize::MAX,
    ensures
        p_u32(b, o) == Ok::<(u32, int), DecodeFailure>((v, o + 4)),
{
    let r = b.subrange(o, o + 4);
    assert(r[0] == b[o] && r[1] == b[o + 1] && r[2] == b[o + 2] && r[3] == b[o + 3]);
    lemma_u32_roundtrip(v);
}

pub proof fn lemma_u32_exact(b: Seq<u8>, o: int)
    requires
        0 <= o,
    ensures
        p_u32(b, o) matches Ok((v, e)) ==> e == o + 4 && region(b, o, le32(v)),
{
    if p_u32(b, o) is Ok {
        lemma_u32_bytes(b[o], b[o + 1], b[o + 2], b[o + 3]);
        assert(b.subrange(o, o + 4) =~= seq![b[o], b[o + 1], b[o + 2], b[o + 3]]);
    }
}

pub proof fn lemma_read_u64(b: Seq<u8>, o: int, v: u64)
    requires
        region(b, o, le64(v)),
        b.len() <= usize::MAX,
    ensures
        p_u64(b, o) == Ok::<(u64, int), DecodeFailure>((v, o + 8)),
{
    let r = b.subrange(o, o + 8);
    assert(forall|i: int| 0 <= i < 8 ==> r[i] == b[o + i]);
    assert(u64_from(b, o) == u64_from(le64(v), 0)) by {
        assert(le64(v)[0] == b[o]);
        assert(le64(v)[1] == b[o + 1]);
        assert(le64(v)[2] == b[o + 2]);
        assert(le64(v)[3] == b[o + 3]);
        assert(le64(v)[4] == b[o + 4]);
        assert(le64(v)[5] == b[o + 5]);
        assert(le64(v)[6] == b[o + 6]);
        assert(le64(v)[7] == b[o + 7]);
    }
    lemma_u64_roundtrip(v);
}

pub proof fn lemma_u64_exact(b: Seq<u8>, o: int)
    requires
        0 <= o,
    ensures
        p_u64(b, o) matches Ok((v, e)) ==> e == o + 8 && region(b, o, le64(v)),
{
    if p_u64(b, o) is Ok {
        lemma_u64_bytes(b, o);
    }
}

pub proof fn lemma_read_i32(b: Seq<u8>, o: int, v: i32)
    requires
        region(b, o, le_i32(v)),
        b.len() <= usize::MAX,
    ensures
        p_i32(b, o) == Ok::<(i32, int), DecodeFailure>((v, o + 4)),
{
    lemma_read_u32(b, o, v as u32);
    lemma_i32_roundtrip(v);
}

pub proof fn lemma_i32_exact(b: Seq<u8>, o: int)
    requires
        0 <= o,
    ensures
        p_i32(b, o) matches Ok((v, e)) ==> e == o + 4 && region(b, o, le_i32(v)),
{
    lemma_u32_exact(b, o);
    if let Ok((u, e)) = p_u32(b, o) {
        lemma_u32_as_i32(u);
    }
}

pub proof fn lemma_read_i8(b: Seq<u8>, o: int, v: i8)
    requires
        region(b, o, seq![v as u8]),
        b.len() <= usize::MAX,
    ensures
        p_i8(b, o) == Ok::<(i8, int), DecodeFailure>((v, o + 1)),
{
    lemma_read_u8(b, o, v as u8);
    lemma_i8_roundtrip(v);
}

pub proof fn lemma_i8_exact(b: Seq<u8>, o: int)
    requires
        0 <= o,
    ensures
        p_i8(b, o) matches Ok((v, e)) ==> e == o + 1 && region(b, o, seq![v as u8]),
{
    lemma_u8_exact(b, o);
    if let Ok((u, e)) = p_u8(b, o) {
        lemma_u8_as_i8(u);
    }
}

pub proof fn lemma_read_bool(b: Seq<u8>, o: int, v: bool)
    requires
        region(b, o, seq![bool_byte(v)]),
        b.len() <= usize::MAX,
    ensures
        p_bool(b, o) == Ok::<(bool, int), DecodeFailure>((v, o + 1)),
{
    lemma_read_u8(b, o, bool_byte(v));
}

pub proof fn lemma_bool_exact(b: Seq<u8>, o: int)
    requires
        0 <= o,
    ensures
        p_bool(b, o) matches Ok((v, e)) ==> e == o + 1 && region(b, o, seq![bool_byte(v)]),
{
    lemma_u8_exact(b, o);
}

pub proof fn lemma_read_opt_u64(b: Seq<u8>, o: int, v: Option<u64>)
    requires
        region(b, o, opt_u64_bytes(v)),
        b.len() <= usize::MAX,
    ensures
        p_opt_u64(b, o) == Ok::<(Option<u64>, int), DecodeFailure>((v, o + opt_u64_bytes(v).len())),
{
    match v {
        Some(x) => {
            lemma_region_split(b, o, seq![1u8], le64(x));
            lemma_read_u8(b, o, 1u8);
            lemma_read_u64(b, o + 1, x);
        },
        None => {
            lemma_read_u8(b, o, 0u8);
        },
    }
}

pub proof fn lemma_opt_u64_exact(b: Seq<u8>, o: int)
    requires
        0 <= o,
    ensures
        p_opt_u64(b, o) matches Ok((v, e)) ==> e == o + opt_u64_bytes(v).len() && region(
            b,
            o,
            opt_u64_bytes(v),
        ),
{
    lemma_u8_exact(b, o);
    lemma_u64_exact(b, o + 1);
    if let Ok((v, e)) = p_opt_u64(b, o) {
        if let Some(x) = v {
            lemma_region_join(b, o, seq![1u8], le64(x));
        }
    }
}

pub proof fn lemma_read_opt_u32(b: Seq<u8>, o: int, v: Option<u32>)
    requires
        region(b, o, opt_u32_bytes(v)),
        b.len() <= usize::MAX,
    ensures
        p_opt_u32(b, o) == Ok::<(Option<u32>, int), DecodeFailure>((v, o + opt_u32_bytes(v).len())),
{
    match v {
        Some(x) => {
            lemma_region_split(b, o, seq![1u8], le32(x));
            lemma_read_u8(b, o, 1u8);
            lemma_read_u32(b, o + 1, x);
        },
        None => {
            lemma_read_u8(b, o, 0u8);
        },
    }
}

pub proof fn lemma_opt_u32_exact(b: Seq<u8>, o: int)
    requires
        0 <= o,
    ensures
        p_opt_u32(b, o) matches Ok((v, e)) ==> e == o + opt_u32_bytes(v).len() && region(
            b,
            o,
            opt_u32_bytes(v),
        ),
{
    lemma_u8_exact(b, o);
    lemma_u32_exact(b, o + 1);
    if let Ok((v, e)) = p_opt_u32(b, o) {
        if let Some(x) = v {
            lemma_region_join(b, o, seq![1u8], le32(x));
        }
    }
}

pub proof fn lemma_read_phase(b: Seq<u8>, o: int, v: MatchPhase)
    requires
        region(b, o, seq![phase_byte(v)]),
        b.len() <= usize::MAX,
    ensures
        p_phase(b, o) == Ok::<(MatchPhase, int), DecodeFailure>((v, o + 1)),
{
    lemma_read_u8(b, o, phase_byte(v));
}

pub proof fn lemma_phase_exact(b: Seq<u8>, o: int)
    requires
        0 <= o,
    ensures
        p_phase(b, o) matches Ok((v, e)) ==> e == o + 1 && region(b, o, seq![phase_byte(v)]),
{
    lemma_u8_exact(b, o);
}

pub proof fn lemma_read_cause(b: Seq<u8>, o: int, v: Option<EliminationCause>)
    requires
        region(b, o, seq![cause_byte(v)]),
        b.len() <= usize::MAX,
    ensures
        p_cause(b, o) == Ok::<(Option<EliminationCause>, int), DecodeFailure>((v, o + 1)),
{
    lemma_read_u8(b, o, cause_byte(v));
}

pub proof fn lemma_cause_exact(b: Seq<u8>, o: int)
    requires
        0 <= o,
    ensures
        p_cause(b, o) matches Ok((v, e)) ==> e == o + 1 && region(b, o, seq![cause_byte(v)]),
{
    lemma_u8_exact(b, o);
}

pub proof fn lemma_read_vec3(b: Seq<u8>, o: int, v: [i32; 3])
    requires
        region(b, o, vec3_bytes(v)),
        b.len() <= usize::MAX,
    ensures
        p_vec3(b, o) == Ok::<([i32; 3], int), DecodeFailure>((v, o + 12)),
{
    lemma_region_split(b, o, le_i32(v[0]) + le_i32(v[1]), le_i32(v[2]));
    lemma_region_split(b, o, le_i32(v[0]), le_i32(v[1]));
    lemma_read_i32(b, o, v[0]);
    lemma_read_i32(b, o + 4, v[1]);
    lemma_read_i32(b, o + 8, v[2]);
    assert([v[0], v[1], v[2]] =~= v);
}

pub proof fn lemma_vec3_exact(b: Seq<u8>, o: int)
    requires
        0 <= o,
    ensures
        p_vec3(b, o) matches Ok((v, e)) ==> e == o + 12 && region(b, o, vec3_bytes(v)),
{
    lemma_i32_exact(b, o);
    lemma_i32_exact(b, o + 4);
    lemma_i32_exact(b, o + 8);
    if let Ok((v, e)) = p_vec3(b, o) {
        lemma_region_join(b, o, le_i32(v[0]), le_i32(v[1]));
        lemma_region_join(b, o, le_i32(v[0]) + le_i32(v[1]), le_i32(v[2]));
    }
}

// ---------------------------------------------------------------------------------------------
// Writing

pub fn write_u16(bytes: &mut Vec<u8>, value: u16)
    ensures
        final(bytes)@ == old(bytes)@ + le16(value),
{
    bytes.push(value as u8);
    bytes.push((value >> 8u16) as u8);
    assert(final(bytes)@ =~= old(bytes)@ + le16(value));
}

pub fn write_u32(bytes: &mut Vec<u8>, value: u32)
    ensures
        final(bytes)@ == old(bytes)@ + le32(value),
{
    bytes.push(value as u8);
    bytes.push((value >> 8u32) as u8);
    bytes.push((value >> 16u32) as u8);
    bytes.push((value >> 24u32) as u8);
    assert(final(bytes)@ =~= old(bytes)@ + le32(value));
}

pub fn write_u64(bytes: &mut Vec<u8>, value: u64)
    ensures
        final(bytes)@ == old(bytes)@ + le64(value),
{
    bytes.push(value as u8);
    bytes.push((value >> 8u64) as u8);
    bytes.push((value >> 16u64) as u8);
    bytes.push((value >> 24u64) as u8);
    bytes.push((value >> 32u64) as u8);
    bytes.push((value >> 40u64) as u8);
    bytes.push((value >> 48u64) as u8);
    bytes.push((value >> 56u64) as u8);
    assert(final(bytes)@ =~= old(bytes)@ + le64(value));
}

pub fn write_i32(bytes: &mut Vec<u8>, value: i32)
    ensures
        final(bytes)@ == old(bytes)@ + le_i32(value),
{
    write_u32(bytes, value as u32);
}

pub fn write_vec3(bytes: &mut Vec<u8>, value: [i32; 3])
    ensures
        final(bytes)@ == old(bytes)@ + vec3_bytes(value),
{
    write_i32(bytes, value[0]);
    write_i32(bytes, value[1]);
    write_i32(bytes, value[2]);
    assert(final(bytes)@ =~= old(bytes)@ + vec3_bytes(value));
}

pub fn write_option_u64(bytes: &mut Vec<u8>, value: Option<u64>)
    ensures
        final(bytes)@ == old(bytes)@ + opt_u64_bytes(value),
{
    match value {
        Some(v) => {
            bytes.push(1);
            write_u64(bytes, v);
            assert(final(bytes)@ =~= old(bytes)@ + opt_u64_bytes(value));
        },
        None => {
            bytes.push(0);
            assert(final(bytes)@ =~= old(bytes)@ + opt_u64_bytes(value));
        },
    }
}

pub fn write_option_u32(bytes: &mut Vec<u8>, value: Option<u32>)
    ensures
        final(bytes)@ == old(bytes)@ + opt_u32_bytes(value),
{
    match value {
        Some(v) => {
            bytes.push(1);
            write_u32(bytes, v);
            assert(final(bytes)@ =~= old(bytes)@ + opt_u32_bytes(value));
        },
        None => {
            bytes.push(0);
            assert(final(bytes)@ =~= old(bytes)@ + opt_u32_bytes(value));
        },
    }
}

pub fn encode_phase(phase: MatchPhase) -> (b: u8)
    ensures
        b == phase_byte(phase),
{
    match phase {
        MatchPhase::Waiting => 0,
        MatchPhase::Drop => 1,
        MatchPhase::Combat => 2,
        MatchPhase::Finished => 3,
    }
}

pub fn decode_phase(value: u8) -> (r: Option<MatchPhase>)
    ensures
        r == phase_from(value),
{
    match value {
        0 => Some(MatchPhase::Waiting),
        1 => Some(MatchPhase::Drop),
        2 => Some(MatchPhase::Combat),
        3 => Some(MatchPhase::Finished),
        _ => None,
    }
}

pub fn encode_cause(cause: Option<EliminationCause>) -> (b: u8)
    ensures
        b == cause_byte(cause),
{
    match cause {
        None => 0,
        Some(EliminationCause::Storm) => 1,
        Some(EliminationCause::SessionExpired) => 2,
    }
}

pub fn decode_cause(value: u8) -> (r: Option<Option<EliminationCause>>)
    ensures
        r == cause_from(value),
{
    match value {
        0 => Some(None),
        1 => Some(Some(EliminationCause::Storm)),
        2 => Some(Some(EliminationCause::SessionExpired)),
        _ => None,
    }
}

// ---------------------------------------------------------------------------------------------
// Reading

/// A read position in a payload.
pub struct Cursor<'a> {
    pub bytes: &'a [u8],
    pub offset: usize,
}

impl<'a> Cursor<'a> {
    pub fn new(bytes: &'a [u8]) -> (c: Self)
        ensures
            c.bytes == bytes,
            c.offset == 0,
    {
        Cursor { bytes, offset: 0 }
    }

    /// Reserve `length` bytes; returns where they start.
    pub fn take(&mut self, length: usize) -> (r: Result<usize, DecodeFailure>)
        ensures
            final(self).bytes == old(self).bytes,
            read_as(
                r,
                match take(old(self).bytes@, old(self).offset as int, length as int) {
                    Ok(e) => Ok((old(self).offset, e)),
                    Err(f) => Err(f),
                },
                final(self).offset,
            ),
    {
        let end = match self.offset.checked_add(length) {
            Some(end) => end,
            None => {
                return Err(DecodeFailure::OffsetOverflow);
            },
        };
        if end > self.bytes.len() {
            return Err(DecodeFailure::Truncated);
        }
        let start = self.offset;
        self.offset = end;
        Ok(start)
    }

    pub fn read_u8(&mut self) -> (r: Result<u8, DecodeFailure>)
        ensures
            final(self).bytes == old(self).bytes,
            read_as(r, p_u8(old(self).bytes@, old(self).offset as int), final(self).offset),
    {
        let start = self.take(1)?;
        Ok(self.bytes[start])
    }

    pub fn read_bool(&mut self) -> (r: Result<bool, DecodeFailure>)
        ensures
            final(self).bytes == old(self).bytes,
            read_as(r, p_bool(old(self).bytes@, old(self).offset as int), final(self).offset),
    {
        let v = self.read_u8()?;
        if v == 0 {
            Ok(false)
        } else if v == 1 {
            Ok(true)
        } else {
            Err(DecodeFailure::InvalidBool)
        }
    }

    pub fn read_u16(&mut self) -> (r: Result<u16, DecodeFailure>)
        ensures
            final(self).bytes == old(self).bytes,
            read_as(r, p_u16(old(self).bytes@, old(self).offset as int), final(self).offset),
    {
        let s = self.take(2)?;
        let b = self.bytes;
        Ok((b[s] as u16) | ((b[s + 1] as u16) << 8u16))
    }

    pub fn read_u32(&mut self) -> (r: Result<u32, DecodeFailure>)
        ensures
            final(self).bytes == old(self).bytes,
            read_as(r, p_u32(old(self).bytes@, old(self).offset as int), final(self).offset),
    {
        let s = self.take(4)?;
        let b = self.bytes;
        Ok(
            (b[s] as u32) | ((b[s + 1] as u32) << 8u32) | ((b[s + 2] as u32) << 16u32) | ((b[s
                + 3] as u32) << 24u32),
        )
    }

    pub fn read_u64(&mut self) -> (r: Result<u64, DecodeFailure>)
        ensures
            final(self).bytes == old(self).bytes,
            read_as(r, p_u64(old(self).bytes@, old(self).offset as int), final(self).offset),
    {
        let s = self.take(8)?;
        let b = self.bytes;
        Ok(
            (b[s] as u64) | ((b[s + 1] as u64) << 8u64) | ((b[s + 2] as u64) << 16u64) | ((b[s
                + 3] as u64) << 24u64) | ((b[s + 4] as u64) << 32u64) | ((b[s + 5] as u64)
                << 40u64) | ((b[s + 6] as u64) << 48u64) | ((b[s + 7] as u64) << 56u64),
        )
    }

    pub fn read_i32(&mut self) -> (r: Result<i32, DecodeFailure>)
        ensures
            final(self).bytes == old(self).bytes,
            read_as(r, p_i32(old(self).bytes@, old(self).offset as int), final(self).offset),
    {
        let v = self.read_u32()?;
        Ok(v as i32)
    }

    pub fn read_i8(&mut self) -> (r: Result<i8, DecodeFailure>)
        ensures
            final(self).bytes == old(self).bytes,
            read_as(r, p_i8(old(self).bytes@, old(self).offset as int), final(self).offset),
    {
        let v = self.read_u8()?;
        Ok(v as i8)
    }

    pub fn read_vec3(&mut self) -> (r: Result<[i32; 3], DecodeFailure>)
        ensures
            final(self).bytes == old(self).bytes,
            read_as(r, p_vec3(old(self).bytes@, old(self).offset as int), final(self).offset),
    {
        let x = self.read_i32()?;
        let y = self.read_i32()?;
        let z = self.read_i32()?;
        Ok([x, y, z])
    }

    pub fn read_option_u64(&mut self) -> (r: Result<Option<u64>, DecodeFailure>)
        ensures
            final(self).bytes == old(self).bytes,
            read_as(r, p_opt_u64(old(self).bytes@, old(self).offset as int), final(self).offset),
    {
        let tag = self.read_u8()?;
        if tag == 0 {
            Ok(None)
        } else if tag == 1 {
            let v = self.read_u64()?;
            Ok(Some(v))
        } else {
            Err(DecodeFailure::InvalidOptionU64)
        }
    }

    pub fn read_option_u32(&mut self) -> (r: Result<Option<u32>, DecodeFailure>)
        ensures
            final(self).bytes == old(self).bytes,
            read_as(r, p_opt_u32(old(self).bytes@, old(self).offset as int), final(self).offset),
    {
        let tag = self.read_u8()?;
        if tag == 0 {
            Ok(None)
        } else if tag == 1 {
            let v = self.read_u32()?;
            Ok(Some(v))
        } else {
            Err(DecodeFailure::InvalidOptionU32)
        }
    }

    pub fn read_phase(&mut self) -> (r: Result<MatchPhase, DecodeFailure>)
        ensures
            final(self).bytes == old(self).bytes,
            read_as(r, p_phase(old(self).bytes@, old(self).offset as int), final(self).offset),
    {
        let v = self.read_u8()?;
        match decode_phase(v) {
            Some(p) => Ok(p),
            None => Err(DecodeFailure::InvalidPhase),
        }
    }

    pub fn read_cause(&mut self) -> (r: Result<Option<EliminationCause>, DecodeFailure>)
        ensures
            final(self).bytes == old(self).bytes,
            read_as(r, p_cause(old(self).bytes@, old(self).offset as int), final(self).offset),
    {
        let v = self.read_u8()?;
        match decode_cause(v) {
            Some(c) => Ok(c),
            None => Err(DecodeFailure::InvalidCause),
        }
    }

    /// The payload must end where reading stopped.
    pub fn finish(self) -> (r: Result<(), DecodeFailure>)
        ensures
            r == (if self.offset == self.bytes@.len() {
                Ok::<(), DecodeFailure>(())
            } else {
                Err(DecodeFailure::TrailingBytes)
            }),
    {
        if self.offset != self.bytes.len() {
            return Err(DecodeFailure::TrailingBytes);
        }
        Ok(())
    }
}

// ---------------------------------------------------------------------------------------------
// Reading a cut payload

/// Read on the payload cut at `k`, a read that succeeded on the whole payload gives the same
/// value and offset when it ends by `k`, and fails as truncated when it does not.
pub open spec fn cut_reads<T>(full: Parsed<T>, cut: Parsed<T>, k: int) -> bool {
    match full {
        Ok((_, e)) => if e <= k {
            cut == full
        } else {
            cut == Err::<(T, int), DecodeFailure>(DecodeFailure::Truncated)
        },
        Err(_) => true,
    }
}

pub proof fn lemma_cut_u8(b: Seq<u8>, o: int, k: int)
    requires
        0 <= o,
        0 <= k <= b.len(),
    ensures
        cut_reads(p_u8(b, o), p_u8(b.take(k), o), k),
        p_u8(b, o) matches Ok((_, e)) ==> e == o + 1,
{
}

pub proof fn lemma_cut_u16(b: Seq<u8>, o: int, k: int)
    requires
        0 <= o,
        0 <= k <= b.len(),
    ensures
        cut_reads(p_u16(b, o), p_u16(b.take(k), o), k),
        p_u16(b, o) matches Ok((_, e)) ==> e == o + 2,
{
}

pub proof fn lemma_cut_u32(b: Seq<u8>, o: int, k: int)
    requires
        0 <= o,
        0 <= k <= b.len(),
    ensures
        cut_reads(p_u32(b, o), p_u32(b.take(k), o), k),
        p_u32(b, o) matches Ok((_, e)) ==> e == o + 4,
{
}

pub proof fn lemma_cut_u64(b: Seq<u8>, o: int, k: int)
    requires
        0 <= o,
        0 <= k <= b.len(),
    ensures
        cut_reads(p_u64(b, o), p_u64(b.take(k), o), k),
        p_u64(b, o) matches Ok((_, e)) ==> e == o + 8,
{
    if p_u64(b, o) is Ok && o + 8 <= k {
        let c = b.take(k);
        assert(u64_from(c, o) == u64_from(b, o)) by {
            assert(c[o] == b[o] && c[o + 1] == b[o + 1] && c[o + 2] == b[o + 2] && c[o + 3] == b[o
                + 3] && c[o + 4] == b[o + 4] && c[o + 5] == b[o + 5] && c[o + 6] == b[o + 6] && c[o
                + 7] == b[o + 7]);
        }
    }
}

pub proof fn lemma_cut_i32(b: Seq<u8>, o: int, k: int)
    requires
        0 <= o,
        0 <= k <= b.len(),
    ensures
        cut_reads(p_i32(b, o), p_i32(b.take(k), o), k),
        p_i32(b, o) matches Ok((_, e)) ==> e == o + 4,
{
    lemma_cut_u32(b, o, k);
}

pub proof fn lemma_cut_i8(b: Seq<u8>, o: int, k: int)
    requires
        0 <= o,
        0 <= k <= b.len(),
    ensures
        cut_reads(p_i8(b, o), p_i8(b.take(k), o), k),
        p_i8(b, o) matches Ok((_, e)) ==> e == o + 1,
{
    lemma_cut_u8(b, o, k);
}

pub proof fn lemma_cut_bool(b: Seq<u8>, o: int, k: int)
    requires
        0 <= o,
        0 <= k <= b.len(),
    ensures
        cut_reads(p_bool(b, o), p_bool(b.take(k), o), k),
        p_bool(b, o) matches Ok((_, e)) ==> e == o + 1,
{
    lemma_cut_u8(b, o, k);
}

pub proof fn lemma_cut_phase(b: Seq<u8>, o: int, k: int)
    requires
        0 <= o,
        0 <= k <= b.len(),
    ensures
        cut_reads(p_phase(b, o), p_phase(b.take(k), o), k),
        p_phase(b, o) matches Ok((_, e)) ==> e == o + 1,
{
    lemma_cut_u8(b, o, k);
}

pub proof fn lemma_cut_cause(b: Seq<u8>, o: int, k: int)
    requires
        0 <= o,
        0 <= k <= b.len(),
    ensures
        cut_reads(p_cause(b, o), p_cause(b.take(k), o), k),
        p_cause(b, o) matches Ok((_, e)) ==> e == o + 1,
{
    lemma_cut_u8(b, o, k);
}

pub proof fn lemma_cut_opt_u64(b: Seq<u8>, o: int, k: int)
    requires
        0 <= o,
        0 <= k <= b.len(),
    ensures
        cut_reads(p_opt_u64(b, o), p_opt_u64(b.take(k), o), k),
        p_opt_u64(b, o) matches Ok((_, e)) ==> o < e,
{
    lemma_cut_u8(b, o, k);
    if let Ok((tag, e)) = p_u8(b, o) {
        if tag == 1 && e <= k {
            lemma_cut_u64(b, e, k);
        }
    }
}

pub proof fn lemma_cut_opt_u32(b: Seq<u8>, o: int, k: int)
    requires
        0 <= o,
        0 <= k <= b.len(),
    ensures
        cut_reads(p_opt_u32(b, o), p_opt_u32(b.take(k), o), k),
        p_opt_u32(b, o) matches Ok((_, e)) ==> o < e,
{
    lemma_cut_u8(b, o, k);
    if let Ok((tag, e)) = p_u8(b, o) {
        if tag == 1 && e <= k {
            lemma_cut_u32(b, e, k);
        }
    }
}

pub proof fn lemma_cut_vec3(b: Seq<u8>, o: int, k: int)
    requires
        0 <= o,
        0 <= k <= b.len(),
    ensures
        cut_reads(p_vec3(b, o), p_vec3(b.take(k), o), k),
        p_vec3(b, o) matches Ok((_, e)) ==> e == o + 12,
{
    lemma_cut_i32(b, o, k);
    if o + 4 <= k {
        lemma_cut_i32(b, o + 4, k);
        if o + 8 <= k {
            lemma_cut_i32(b, o + 8, k);
        }
    }
}

} // verus!
