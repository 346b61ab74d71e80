//! The typed value model: a closed set of value variants decoded from raw
//! bytes according to a type code, an element width and a byte order.

use vstd::prelude::*;

use crate::endian::{
    spec_i8, spec_i16, spec_i32, to_i8, to_i16, to_i32, read_u16, read_u32, read_u64, u16_at,
    u32_at, u64_at, ByteOrder,
};
use crate::error::DecodeError;

verus! {

pub const TYPE_UBYTE: u16 = 1;

pub const TYPE_ASCII: u16 = 2;

pub const TYPE_USHORT: u16 = 3;

pub const TYPE_ULONG: u16 = 4;

pub const TYPE_URATIONAL: u16 = 5;

pub const TYPE_BYTE: u16 = 6;

pub const TYPE_UNDEFINED: u16 = 7;

pub const TYPE_SHORT: u16 = 8;

pub const TYPE_LONG: u16 = 9;

pub const TYPE_RATIONAL: u16 = 10;

pub const TYPE_FLOAT: u16 = 11;

pub const TYPE_DOUBLE: u16 = 12;

/// A decoded value: the variant and the element count are fixed at
/// construction. Floating-point elements are carried as their raw IEEE-754
/// bit patterns.
#[derive(Clone, PartialEq, Eq, Debug)]
pub enum TypedValue {
    Byte(Vec<u8>),
    SByte(Vec<i8>),
    Ascii(Vec<Vec<u8>>),
    Short(Vec<u16>),
    SShort(Vec<i16>),
    Long(Vec<u32>),
    SLong(Vec<i32>),
    Rational(Vec<(u32, u32)>),
    SRational(Vec<(i32, i32)>),
    FloatBits(Vec<u32>),
    DoubleBits(Vec<u64>),
    Undefined(Vec<u8>),
}

/// The mathematical shape of a `TypedValue`.
pub enum ValueModel {
    Byte(Seq<u8>),
    SByte(Seq<i8>),
    Ascii(Seq<Seq<u8>>),
    Short(Seq<u16>),
    SShort(Seq<i16>),
    Long(Seq<u32>),
    SLong(Seq<i32>),
    Rational(Seq<(u32, u32)>),
    SRational(Seq<(i32, i32)>),
    FloatBits(Seq<u32>),
    DoubleBits(Seq<u64>),
    Undefined(Seq<u8>),
}

impl View for TypedValue {
    type V = ValueModel;

    open spec fn view(&self) -> ValueModel {
        match self {
            TypedValue::Byte(v) => ValueModel::Byte(v@),
            TypedValue::SByte(v) => ValueModel::SByte(v@),
            TypedValue::Ascii(v) => ValueModel::Ascii(v.deep_view()),
            TypedValue::Short(v) => ValueModel::Short(v@),
            TypedValue::SShort(v) => ValueModel::SShort(v@),
            TypedValue::Long(v) => ValueModel::Long(v@),
            TypedValue::SLong(v) => ValueModel::SLong(v@),
            TypedValue::Rational(v) => ValueModel::Rational(v@),
            TypedValue::SRational(v) => ValueModel::SRational(v@),
            TypedValue::FloatBits(v) => ValueModel::FloatBits(v@),
            TypedValue::DoubleBits(v) => ValueModel::DoubleBits(v@),
            TypedValue::Undefined(v) => ValueModel::Undefined(v@),
        }
    }
}

/// Element width in bytes for a type code; 0 marks an unsupported code.
pub open spec fn width_of(t: u16) -> nat {
    if t == TYPE_UBYTE || t == TYPE_ASCII || t == TYPE_BYTE || t == TYPE_UNDEFINED {
        1
    } else if t == TYPE_USHORT || t == TYPE_SHORT {
        2
    } else if t == TYPE_ULONG || t == TYPE_LONG || t == TYPE_FLOAT {
        4
    } else if t == TYPE_URATIONAL || t == TYPE_RATIONAL || t == TYPE_DOUBLE {
        8
    } else {
        0
    }
}

/// Per-element byte width, from the fixed lookup table keyed on type code.
pub fn type_width(data_type: u16) -> (r: Result<usize, DecodeError>)
    ensures
        width_of(data_type) != 0 ==> r == Ok::<usize, DecodeError>(width_of(data_type) as usize),
        width_of(data_type) == 0 ==> r == Err::<usize, DecodeError>(
            DecodeError::UnsupportedType(data_type),
        ),
{
    match data_type {
        TYPE_BYTE | TYPE_UBYTE | TYPE_ASCII | TYPE_UNDEFINED => Ok(1),
        TYPE_SHORT | TYPE_USHORT => Ok(2),
        TYPE_LONG | TYPE_ULONG | TYPE_FLOAT => Ok(4),
        TYPE_RATIONAL | TYPE_URATIONAL | TYPE_DOUBLE => Ok(8),
        _ => Err(DecodeError::UnsupportedType(data_type)),
    }
}

/// The unsigned 16-bit elements held by a buffer.
pub open spec fn shorts_of(data: Seq<u8>, order: ByteOrder) -> Seq<u16> {
    Seq::new((data.len() / 2) as nat, |i: int| u16_at(data, 2 * i, order))
}

/// The unsigned 32-bit elements held by a buffer.
pub open spec fn longs_of(data: Seq<u8>, order: ByteOrder) -> Seq<u32> {
    Seq::new((data.len() / 4) as nat, |i: int| u32_at(data, 4 * i, order))
}

/// The 64-bit elements held by a buffer.
pub open spec fn doubles_of(data: Seq<u8>, order: ByteOrder) -> Seq<u64> {
    Seq::new((data.len() / 8) as nat, |i: int| u64_at(data, 8 * i, order))
}

/// The (numerator, denominator) pairs held by a buffer: consecutive 32-bit
/// elements are paired in order.
pub open spec fn rationals_of(data: Seq<u8>, order: ByteOrder) -> Seq<(u32, u32)> {
    Seq::new(
        (data.len() / 8) as nat,
        |i: int| (u32_at(data, 8 * i, order), u32_at(data, 8 * i + 4, order)),
    )
}

/// The raw bytes split on NUL into independent byte strings. A trailing NUL
/// yields a trailing empty entry; no trimming occurs.
pub open spec fn split_on_nul(data: Seq<u8>) -> Seq<Seq<u8>>
    decreases data.len(),
{
    if data.len() == 0 {
        seq![Seq::<u8>::empty()]
    } else if data[0] == 0 {
        seq![Seq::<u8>::empty()] + split_on_nul(data.skip(1))
    } else {
        let rest = split_on_nul(data.skip(1));
        seq![seq![data[0]] + rest[0]] + rest.skip(1)
    }
}

pub proof fn lemma_split_on_nul_len(data: Seq<u8>)
    ensures
        split_on_nul(data).len() >= 1,
    decreases data.len(),
{
    if data.len() == 0 {
    } else if data[0] == 0 {
        lemma_split_on_nul_len(data.skip(1));
    } else {
        lemma_split_on_nul_len(data.skip(1));
    }
}

/// Appending one byte extends the last segment, or starts a new empty one.
pub proof fn lemma_split_on_nul_push(data: Seq<u8>, b: u8)
    ensures
        b == 0 ==> split_on_nul(data.push(b)) == split_on_nul(data).push(Seq::<u8>::empty()),
        b != 0 ==> split_on_nul(data.push(b)) == split_on_nul(data).drop_last().push(
            split_on_nul(data).last().push(b),
        ),
    decreases data.len(),
{
    lemma_split_on_nul_len(data);
    if data.len() == 0 {
        assert(data.push(b).skip(1) =~= Seq::<u8>::empty());
        assert(split_on_nul(Seq::<u8>::empty()) == seq![Seq::<u8>::empty()]);
        if b == 0 {
            assert(split_on_nul(data.push(b)) =~~= split_on_nul(data).push(Seq::<u8>::empty()));
        } else {
            assert(split_on_nul(data.push(b)) =~~= split_on_nul(data).drop_last().push(
                split_on_nul(data).last().push(b),
            ));
        }
    } else {
        lemma_split_on_nul_push(data.skip(1), b);
        lemma_split_on_nul_len(data.skip(1));
        assert(data.push(b).skip(1) =~= data.skip(1).push(b));
        assert(data.push(b)[0] == data[0]);
        if b == 0 {
            assert(split_on_nul(data.push(b)) =~~= split_on_nul(data).push(Seq::<u8>::empty()));
        } else {
            assert(split_on_nul(data.push(b)) =~~= split_on_nul(data).drop_last().push(
                split_on_nul(data).last().push(b),
            ));
        }
    }
}

/// The value a buffer decodes to under a supported type code. For an
/// unsupported code the result is arbitrary opaque bytes; decoders reject
/// such codes before consulting this function.
pub open spec fn spec_parse_value(t: u16, data: Seq<u8>, order: ByteOrder) -> ValueModel {
    if t == TYPE_UBYTE {
        ValueModel::Byte(data)
    } else if t == TYPE_BYTE {
        ValueModel::SByte(Seq::new(data.len(), |i: int| spec_i8(data[i])))
    } else if t == TYPE_ASCII {
        ValueModel::Ascii(split_on_nul(data))
    } else if t == TYPE_USHORT {
        ValueModel::Short(shorts_of(data, order))
    } else if t == TYPE_SHORT {
        ValueModel::SShort(Seq::new((data.len() / 2) as nat, |i: int| spec_i16(u16_at(data, 2 * i, order))))
    } else if t == TYPE_ULONG {
        ValueModel::Long(longs_of(data, order))
    } else if t == TYPE_LONG {
        ValueModel::SLong(Seq::new((data.len() / 4) as nat, |i: int| spec_i32(u32_at(data, 4 * i, order))))
    } else if t == TYPE_FLOAT {
        ValueModel::FloatBits(longs_of(data, order))
    } else if t == TYPE_DOUBLE {
        ValueModel::DoubleBits(doubles_of(data, order))
    } else if t == TYPE_URATIONAL {
        ValueModel::Rational(rationals_of(data, order))
    } else if t == TYPE_RATIONAL {
        ValueModel::SRational(
            Seq::new(
                (data.len() / 8) as nat,
                |i: int|
                    (spec_i32(u32_at(data, 8 * i, order)), spec_i32(u32_at(data, 8 * i + 4, order))),
            ),
        )
    } else {
        ValueModel::Undefined(data)
    }
}

fn parse_bytes(data: &[u8]) -> (r: Vec<u8>)
    ensures
        r@ == data@,
{
    let mut v: Vec<u8> = Vec::new();
    for i in 0..data.len()
        invariant
            v@ =~= data@.take(i as int),
    {
        v.push(data[i]);
    }
    proof {
        assert(v@ =~= data@);
    }
    v
}

fn parse_sbytes(data: &[u8]) -> (r: Vec<i8>)
    ensures
        r@ == Seq::new(data@.len(), |i: int| spec_i8(data@[i])),
{
    let mut v: Vec<i8> = Vec::new();
    for i in 0..data.len()
        invariant
            v@.len() == i,
            forall|k: int| 0 <= k < i ==> v@[k] == spec_i8(data@[k]),
    {
        v.push(to_i8(data[i]));
    }
    proof {
        assert(v@ =~= Seq::new(data@.len(), |i: int| spec_i8(data@[i])));
    }
    v
}

fn parse_ascii(data: &[u8]) -> (r: Vec<Vec<u8>>)
    ensures
        r.deep_view() == split_on_nul(data@),
{
    let mut segs: Vec<Vec<u8>> = Vec::new();
    let mut cur: Vec<u8> = Vec::new();
    proof {
        assert(data@.take(0) =~= Seq::<u8>::empty());
        assert(segs.deep_view().push(cur@) =~~= split_on_nul(data@.take(0)));
    }
    for i in 0..data.len()
        invariant
            segs.deep_view().push(cur@) == split_on_nul(data@.take(i as int)),
    {
        proof {
            lemma_split_on_nul_push(data@.take(i as int), data@[i as int]);
            assert(data@.take(i + 1) =~= data@.take(i as int).push(data@[i as int]));
            lemma_split_on_nul_len(data@.take(i as int));
        }
        if data[i] == 0 {
            segs.push(cur);
            cur = Vec::new();
        } else {
            cur.push(data[i]);
        }
        proof {
            assert(segs.deep_view().push(cur@) =~~= split_on_nul(data@.take(i + 1)));
        }
    }
    proof {
        assert(data@.take(data@.len() as int) =~= data@);
    }
    segs.push(cur);
    proof {
        assert(segs.deep_view() =~~= split_on_nul(data@));
    }
    segs
}

fn parse_shorts(data: &[u8], order: ByteOrder) -> (r: Vec<u16>)
    ensures
        r@ == shorts_of(data@, order),
{
    let n: usize = data.len() / 2;
    let mut v: Vec<u16> = Vec::new();
    for i in 0..n
        invariant
            data@.len() <= usize::MAX,
            n == data@.len() / 2,
            v@.len() == i,
            forall|k: int| 0 <= k < i ==> v@[k] == u16_at(data@, 2 * k, order),
    {
        v.push(read_u16(data, 2 * i, order));
    }
    proof {
        assert(v@ =~= shorts_of(data@, order));
    }
    v
}

fn parse_sshorts(data: &[u8], order: ByteOrder) -> (r: Vec<i16>)
    ensures
        r@ == Seq::new((data@.len() / 2) as nat, |i: int| spec_i16(u16_at(data@, 2 * i, order))),
{
    let n: usize = data.len() / 2;
    let mut v: Vec<i16> = Vec::new();
    for i in 0..n
        invariant
            data@.len() <= usize::MAX,
            n == data@.len() / 2,
            v@.len() == i,
            forall|k: int| 0 <= k < i ==> v@[k] == spec_i16(u16_at(data@, 2 * k, order)),
    {
        v.push(to_i16(read_u16(data, 2 * i, order)));
    }
    proof {
        assert(v@ =~= Seq::new((data@.len() / 2) as nat, |i: int| spec_i16(u16_at(data@, 2 * i, order))));
    }
    v
}

fn parse_longs(data: &[u8], order: ByteOrder) -> (r: Vec<u32>)
    ensures
        r@ == longs_of(data@, order),
{
    let n: usize = data.len() / 4;
    let mut v: Vec<u32> = Vec::new();
    for i in 0..n
        invariant
            data@.len() <= usize::MAX,
            n == data@.len() / 4,
            v@.len() == i,
            forall|k: int| 0 <= k < i ==> v@[k] == u32_at(data@, 4 * k, order),
    {
        v.push(read_u32(data, 4 * i, order));
    }
    proof {
        assert(v@ =~= longs_of(data@, order));
    }
    v
}

fn parse_slongs(data: &[u8], order: ByteOrder) -> (r: Vec<i32>)
    ensures
        r@ == Seq::new((data@.len() / 4) as nat, |i: int| spec_i32(u32_at(data@, 4 * i, order))),
{
    let n: usize = data.len() / 4;
    let mut v: Vec<i32> = Vec::new();
    for i in 0..n
        invariant
            data@.len() <= usize::MAX,
            n == data@.len() / 4,
            v@.len() == i,
            forall|k: int| 0 <= k < i ==> v@[k] == spec_i32(u32_at(data@, 4 * k, order)),
    {
        v.push(to_i32(read_u32(data, 4 * i, order)));
    }
    proof {
        assert(v@ =~= Seq::new((data@.len() / 4) as nat, |i: int| spec_i32(u32_at(data@, 4 * i, order))));
    }
    v
}

fn parse_doubles(data: &[u8], order: ByteOrder) -> (r: Vec<u64>)
    ensures
        r@ == doubles_of(data@, order),
{
    let n: usize = data.len() / 8;
    let mut v: Vec<u64> = Vec::new();
    for i in 0..n
        invariant
            data@.len() <= usize::MAX,
            n == data@.len() / 8,
            v@.len() == i,
            forall|k: int| 0 <= k < i ==> v@[k] == u64_at(data@, 8 * k, order),
    {
        v.push(read_u64(data, 8 * i, order));
    }
    proof {
        assert(v@ =~= doubles_of(data@, order));
    }
    v
}

fn parse_rationals(data: &[u8], order: ByteOrder) -> (r: Vec<(u32, u32)>)
    ensures
        r@ == rationals_of(data@, order),
{
    let n: usize = data.len() / 8;
    let mut v: Vec<(u32, u32)> = Vec::new();
    for i in 0..n
        invariant
            data@.len() <= usize::MAX,
            n == data@.len() / 8,
            v@.len() == i,
            forall|k: int|
                0 <= k < i ==> v@[k] == (u32_at(data@, 8 * k, order), u32_at(data@, 8 * k + 4, order)),
    {
        let num = read_u32(data, 8 * i, order);
        let den = read_u32(data, 8 * i + 4, order);
        v.push((num, den));
    }
    proof {
        assert(v@ =~= rationals_of(data@, order));
    }
    v
}

fn parse_srationals(data: &[u8], order: ByteOrder) -> (r: Vec<(i32, i32)>)
    ensures
        r@ == Seq::new(
            (data@.len() / 8) as nat,
            |i: int|
                (spec_i32(u32_at(data@, 8 * i, order)), spec_i32(u32_at(data@, 8 * i + 4, order))),
        ),
{
    let n: usize = data.len() / 8;
    let mut v: Vec<(i32, i32)> = Vec::new();
    for i in 0..n
        invariant
            data@.len() <= usize::MAX,
            n == data@.len() / 8,
            v@.len() == i,
            forall|k: int|
                0 <= k < i ==> v@[k] == (
                    spec_i32(u32_at(data@, 8 * k, order)),
                    spec_i32(u32_at(data@, 8 * k + 4, order)),
                ),
    {
        let num = to_i32(read_u32(data, 8 * i, order));
        let den = to_i32(read_u32(data, 8 * i + 4, order));
        v.push((num, den));
    }
    proof {
        assert(v@ =~= Seq::new(
            (data@.len() / 8) as nat,
            |i: int|
                (spec_i32(u32_at(data@, 8 * i, order)), spec_i32(u32_at(data@, 8 * i + 4, order))),
        ));
    }
    v
}

/// Decode a byte slice into the variant selected by the type code, reading
/// multi-byte scalars in the given order, uniformly for the whole record.
pub fn parse_value(data_type: u16, data: &[u8], order: ByteOrder) -> (r: Result<
    TypedValue,
    DecodeError,
>)
    ensures
        width_of(data_type) == 0 ==> r == Err::<TypedValue, DecodeError>(
            DecodeError::UnsupportedType(data_type),
        ),
        width_of(data_type) != 0 ==> r.is_ok() && r->Ok_0@ == spec_parse_value(
            data_type,
            data@,
            order,
        ),
{
    match data_type {
        TYPE_UBYTE => Ok(TypedValue::Byte(parse_bytes(data))),
        TYPE_BYTE => Ok(TypedValue::SByte(parse_sbytes(data))),
        TYPE_ASCII => Ok(TypedValue::Ascii(parse_ascii(data))),
        TYPE_UNDEFINED => Ok(TypedValue::Undefined(parse_bytes(data))),
        TYPE_USHORT => Ok(TypedValue::Short(parse_shorts(data, order))),
        TYPE_SHORT => Ok(TypedValue::SShort(parse_sshorts(data, order))),
        TYPE_ULONG => Ok(TypedValue::Long(parse_longs(data, order))),
        TYPE_LONG => Ok(TypedValue::SLong(parse_slongs(data, order))),
        TYPE_FLOAT => Ok(TypedValue::FloatBits(parse_longs(data, order))),
        TYPE_DOUBLE => Ok(TypedValue::DoubleBits(parse_doubles(data, order))),
        TYPE_URATIONAL => Ok(TypedValue::Rational(parse_rationals(data, order))),
        TYPE_RATIONAL => Ok(TypedValue::SRational(parse_srationals(data, order))),
        _ => Err(DecodeError::UnsupportedType(data_type)),
    }
}

} // verus!
