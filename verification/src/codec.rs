//! A specification-level encoder for directories, and the round-trip laws:
//! a synthetic directory encoded per the format decodes back to the same
//! (tag, value) pairs, in either byte order, so the decoded entries do not
//! depend on the byte order chosen.
//!
//! The encoder covers directories whose values are stored inline (the
//! encoded value fits the four value bytes of the entry record) and whose
//! type is not the ASCII one, whose encoding is not unique.

use vstd::prelude::*;

use crate::endian::{
    spec_i8, spec_i16, spec_i32, spec_u16, u16_at, u32_at, u64_at, ByteOrder,
};
use crate::error::DecodeError;
use crate::ifd::{
    spec_entries, spec_entry, spec_parse_canon_makernote, EntryModel, FOOTER_MAGIC,
    IFD_BIG_ENDIAN, IFD_LITTLE_ENDIAN,
};
use crate::value::{
    doubles_of, longs_of, rationals_of, shorts_of, spec_parse_value, width_of, ValueModel,
    TYPE_BYTE, TYPE_DOUBLE, TYPE_FLOAT, TYPE_LONG, TYPE_RATIONAL, TYPE_SHORT, TYPE_UBYTE,
    TYPE_ULONG, TYPE_UNDEFINED, TYPE_URATIONAL, TYPE_USHORT,
};

verus! {

/// The unsigned byte holding a signed one (two's complement).
pub open spec fn u8_of_i8(x: i8) -> u8 {
    if x >= 0 {
        x as u8
    } else {
        (x + 0x100) as u8
    }
}

pub open spec fn u16_of_i16(x: i16) -> u16 {
    if x >= 0 {
        x as u16
    } else {
        (x + 0x10000) as u16
    }
}

pub open spec fn u32_of_i32(x: i32) -> u32 {
    if x >= 0 {
        x as u32
    } else {
        (x + 0x100000000) as u32
    }
}

/// The two bytes encoding a 16-bit value in the given order.
pub open spec fn enc_u16(x: u16, order: ByteOrder) -> Seq<u8> {
    let lo = (x % 0x100) as u8;
    let hi = ((x / 0x100) % 0x100) as u8;
    match order {
        ByteOrder::Little => seq![lo, hi],
        ByteOrder::Big => seq![hi, lo],
    }
}

/// The four bytes encoding a 32-bit value in the given order.
pub open spec fn enc_u32(x: u32, order: ByteOrder) -> Seq<u8> {
    let b0 = (x % 0x100) as u8;
    let b1 = ((x / 0x100) % 0x100) as u8;
    let b2 = ((x / 0x10000) % 0x100) as u8;
    let b3 = ((x / 0x1000000) % 0x100) as u8;
    match order {
        ByteOrder::Little => seq![b0, b1, b2, b3],
        ByteOrder::Big => seq![b3, b2, b1, b0],
    }
}

/// The eight bytes encoding a 64-bit value: two 32-bit halves.
pub open spec fn enc_u64(x: u64, order: ByteOrder) -> Seq<u8> {
    let lo = (x % 0x100000000) as u32;
    let hi = ((x / 0x100000000) % 0x100000000) as u32;
    match order {
        ByteOrder::Little => enc_u32(lo, order) + enc_u32(hi, order),
        ByteOrder::Big => enc_u32(hi, order) + enc_u32(lo, order),
    }
}

pub proof fn lemma_enc_u16(x: u16, order: ByteOrder)
    ensures
        enc_u16(x, order).len() == 2,
        spec_u16(enc_u16(x, order)[0], enc_u16(x, order)[1], order) == x,
{
}

pub proof fn lemma_enc_u32(x: u32, order: ByteOrder)
    ensures
        enc_u32(x, order).len() == 4,
        u32_at(enc_u32(x, order), 0, order) == x,
{
}

pub proof fn lemma_enc_u64(x: u64, order: ByteOrder)
    ensures
        enc_u64(x, order).len() == 8,
        u64_at(enc_u64(x, order), 0, order) == x,
{
    let lo = (x % 0x100000000) as u32;
    let hi = ((x / 0x100000000) % 0x100000000) as u32;
    lemma_enc_u32(lo, order);
    lemma_enc_u32(hi, order);
    match order {
        ByteOrder::Little => {
            assert(enc_u64(x, order).subrange(0, 4) =~= enc_u32(lo, order));
            assert(enc_u64(x, order).subrange(4, 8) =~= enc_u32(hi, order));
            assert(u32_at(enc_u64(x, order), 0, order) == lo);
            assert(u32_at(enc_u64(x, order), 4, order) == hi);
        },
        ByteOrder::Big => {
            assert(enc_u64(x, order).subrange(0, 4) =~= enc_u32(hi, order));
            assert(enc_u64(x, order).subrange(4, 8) =~= enc_u32(lo, order));
            assert(u32_at(enc_u64(x, order), 0, order) == hi);
            assert(u32_at(enc_u64(x, order), 4, order) == lo);
        },
    }
}

/// The bytes encoding a sequence of 16-bit elements.
pub open spec fn enc_shorts(s: Seq<u16>, order: ByteOrder) -> Seq<u8> {
    Seq::new((2 * s.len()) as nat, |j: int| enc_u16(s[j / 2], order)[j % 2])
}

/// The bytes encoding a sequence of 32-bit elements.
pub open spec fn enc_longs(s: Seq<u32>, order: ByteOrder) -> Seq<u8> {
    Seq::new((4 * s.len()) as nat, |j: int| enc_u32(s[j / 4], order)[j % 4])
}

/// The bytes encoding a sequence of 64-bit elements.
pub open spec fn enc_doubles(s: Seq<u64>, order: ByteOrder) -> Seq<u8> {
    Seq::new((8 * s.len()) as nat, |j: int| enc_u64(s[j / 8], order)[j % 8])
}

/// The bytes encoding a sequence of (numerator, denominator) pairs:
/// consecutive 32-bit elements.
pub open spec fn enc_rationals(s: Seq<(u32, u32)>, order: ByteOrder) -> Seq<u8> {
    Seq::new(
        (8 * s.len()) as nat,
        |j: int|
            if j % 8 < 4 {
                enc_u32(s[j / 8].0, order)[j % 8]
            } else {
                enc_u32(s[j / 8].1, order)[j % 8 - 4]
            },
    )
}

/// The bytes encoding a sequence of signed 16-bit elements.
pub open spec fn enc_sshorts(s: Seq<i16>, order: ByteOrder) -> Seq<u8> {
    Seq::new((2 * s.len()) as nat, |j: int| enc_u16(u16_of_i16(s[j / 2]), order)[j % 2])
}

/// The bytes encoding a sequence of signed 32-bit elements.
pub open spec fn enc_slongs(s: Seq<i32>, order: ByteOrder) -> Seq<u8> {
    Seq::new((4 * s.len()) as nat, |j: int| enc_u32(u32_of_i32(s[j / 4]), order)[j % 4])
}

/// The bytes encoding a sequence of signed (numerator, denominator) pairs.
pub open spec fn enc_srationals(s: Seq<(i32, i32)>, order: ByteOrder) -> Seq<u8> {
    Seq::new(
        (8 * s.len()) as nat,
        |j: int|
            if j % 8 < 4 {
                enc_u32(u32_of_i32(s[j / 8].0), order)[j % 8]
            } else {
                enc_u32(u32_of_i32(s[j / 8].1), order)[j % 8 - 4]
            },
    )
}

pub proof fn lemma_dec_shorts(s: Seq<u16>, order: ByteOrder)
    ensures
        shorts_of(enc_shorts(s, order), order) == s,
{
    let enc = enc_shorts(s, order);
    assert forall|i: int| 0 <= i < s.len() implies u16_at(enc, 2 * i, order) == s[i] by {
        lemma_enc_u16(s[i], order);
        assert(enc[2 * i] == enc_u16(s[i], order)[0]);
        assert(enc[2 * i + 1] == enc_u16(s[i], order)[1]);
    }
    assert(shorts_of(enc, order) =~= s);
}

pub proof fn lemma_dec_longs(s: Seq<u32>, order: ByteOrder)
    ensures
        longs_of(enc_longs(s, order), order) == s,
{
    let enc = enc_longs(s, order);
    assert forall|i: int| 0 <= i < s.len() implies u32_at(enc, 4 * i, order) == s[i] by {
        lemma_enc_u32(s[i], order);
        assert(enc[4 * i] == enc_u32(s[i], order)[0]);
        assert(enc[4 * i + 1] == enc_u32(s[i], order)[1]);
        assert(enc[4 * i + 2] == enc_u32(s[i], order)[2]);
        assert(enc[4 * i + 3] == enc_u32(s[i], order)[3]);
    }
    assert(longs_of(enc, order) =~= s);
}

#[verifier::rlimit(100)]
pub proof fn lemma_dec_doubles(s: Seq<u64>, order: ByteOrder)
    ensures
        doubles_of(enc_doubles(s, order), order) == s,
{
    let enc = enc_doubles(s, order);
    assert forall|i: int| 0 <= i < s.len() implies u64_at(enc, 8 * i, order) == s[i] by {
        lemma_enc_u64(s[i], order);
        assert forall|k: int| 0 <= k < 8 implies enc[8 * i + k] == enc_u64(s[i], order)[k] by {
            assert((8 * i + k) / 8 == i);
            assert((8 * i + k) % 8 == k);
        }
        assert(u32_at(enc, 8 * i, order) == u32_at(enc_u64(s[i], order), 0, order));
        assert(u32_at(enc, 8 * i + 4, order) == u32_at(enc_u64(s[i], order), 4, order));
    }
    assert(doubles_of(enc, order) =~= s);
}

pub proof fn lemma_dec_rationals(s: Seq<(u32, u32)>, order: ByteOrder)
    ensures
        rationals_of(enc_rationals(s, order), order) == s,
{
    let enc = enc_rationals(s, order);
    assert forall|i: int| 0 <= i < s.len() implies (u32_at(enc, 8 * i, order) == s[i].0 && u32_at(
        enc,
        8 * i + 4,
        order,
    ) == s[i].1) by {
        lemma_enc_u32(s[i].0, order);
        lemma_enc_u32(s[i].1, order);
        assert forall|k: int| 0 <= k < 4 implies enc[8 * i + k] == enc_u32(s[i].0, order)[k] by {
            assert((8 * i + k) / 8 == i);
            assert((8 * i + k) % 8 == k);
        }
        assert forall|k: int| 0 <= k < 4 implies enc[8 * i + 4 + k] == enc_u32(s[i].1, order)[k] by {
            assert((8 * i + 4 + k) / 8 == i);
            assert((8 * i + 4 + k) % 8 == 4 + k);
        }
    }
    assert(rationals_of(enc, order) =~= s);
}

/// Whether a value carries the variant its type code calls for. The ASCII
/// code is excluded: splitting on NUL is not injective, so ASCII values have
/// no canonical encoding.
pub open spec fn value_matches(t: u16, v: ValueModel) -> bool {
    match v {
        ValueModel::Byte(_) => t == TYPE_UBYTE,
        ValueModel::SByte(_) => t == TYPE_BYTE,
        ValueModel::Ascii(_) => false,
        ValueModel::Short(_) => t == TYPE_USHORT,
        ValueModel::SShort(_) => t == TYPE_SHORT,
        ValueModel::Long(_) => t == TYPE_ULONG,
        ValueModel::SLong(_) => t == TYPE_LONG,
        ValueModel::Rational(_) => t == TYPE_URATIONAL,
        ValueModel::SRational(_) => t == TYPE_RATIONAL,
        ValueModel::FloatBits(_) => t == TYPE_FLOAT,
        ValueModel::DoubleBits(_) => t == TYPE_DOUBLE,
        ValueModel::Undefined(_) => t == TYPE_UNDEFINED,
    }
}

/// The element count a value is encoded with.
pub open spec fn value_count(v: ValueModel) -> nat {
    match v {
        ValueModel::Byte(s) => s.len(),
        ValueModel::SByte(s) => s.len(),
        ValueModel::Ascii(s) => 0,
        ValueModel::Short(s) => s.len(),
        ValueModel::SShort(s) => s.len(),
        ValueModel::Long(s) => s.len(),
        ValueModel::SLong(s) => s.len(),
        ValueModel::Rational(s) => s.len(),
        ValueModel::SRational(s) => s.len(),
        ValueModel::FloatBits(s) => s.len(),
        ValueModel::DoubleBits(s) => s.len(),
        ValueModel::Undefined(s) => s.len(),
    }
}

/// The bytes encoding a value, per its variant.
pub open spec fn enc_value(v: ValueModel, order: ByteOrder) -> Seq<u8> {
    match v {
        ValueModel::Byte(s) => s,
        ValueModel::SByte(s) => Seq::new(s.len(), |i: int| u8_of_i8(s[i])),
        ValueModel::Ascii(_) => Seq::empty(),
        ValueModel::Short(s) => enc_shorts(s, order),
        ValueModel::SShort(s) => enc_sshorts(s, order),
        ValueModel::Long(s) => enc_longs(s, order),
        ValueModel::SLong(s) => enc_slongs(s, order),
        ValueModel::Rational(s) => enc_rationals(s, order),
        ValueModel::SRational(s) => enc_srationals(s, order),
        ValueModel::FloatBits(s) => enc_longs(s, order),
        ValueModel::DoubleBits(s) => enc_doubles(s, order),
        ValueModel::Undefined(s) => s,
    }
}

/// An encoded value occupies exactly `width * count` bytes.
pub proof fn lemma_enc_value_len(t: u16, v: ValueModel, order: ByteOrder)
    requires
        value_matches(t, v),
    ensures
        enc_value(v, order).len() == width_of(t) * value_count(v),
{
}

/// Decoding an encoded value gives the value back.
proof fn round_trip_sbyte(s: Seq<i8>, order: ByteOrder)
    ensures
        spec_parse_value(TYPE_BYTE, enc_value(ValueModel::SByte(s), order), order)
            == ValueModel::SByte(s),
{
    let enc = enc_value(ValueModel::SByte(s), order);
    assert(Seq::new(enc.len(), |i: int| spec_i8(enc[i])) =~= s);
}

proof fn round_trip_short(s: Seq<u16>, order: ByteOrder)
    ensures
        spec_parse_value(TYPE_USHORT, enc_value(ValueModel::Short(s), order), order)
            == ValueModel::Short(s),
{
    lemma_dec_shorts(s, order);
}

proof fn round_trip_sshort(s: Seq<i16>, order: ByteOrder)
    ensures
        spec_parse_value(TYPE_SHORT, enc_value(ValueModel::SShort(s), order), order)
            == ValueModel::SShort(s),
{
    let enc = enc_sshorts(s, order);
    assert forall|i: int| 0 <= i < s.len() implies spec_i16(u16_at(enc, 2 * i, order)) == s[i] by {
        lemma_enc_u16(u16_of_i16(s[i]), order);
        assert(enc[2 * i] == enc_u16(u16_of_i16(s[i]), order)[0]);
        assert(enc[2 * i + 1] == enc_u16(u16_of_i16(s[i]), order)[1]);
    }
    assert(Seq::new((enc.len() / 2) as nat, |i: int| spec_i16(u16_at(enc, 2 * i, order))) =~= s);
}

proof fn round_trip_long(s: Seq<u32>, order: ByteOrder)
    ensures
        spec_parse_value(TYPE_ULONG, enc_value(ValueModel::Long(s), order), order)
            == ValueModel::Long(s),
{
    lemma_dec_longs(s, order);
}

proof fn round_trip_slong(s: Seq<i32>, order: ByteOrder)
    ensures
        spec_parse_value(TYPE_LONG, enc_value(ValueModel::SLong(s), order), order)
            == ValueModel::SLong(s),
{
    let enc = enc_slongs(s, order);
    assert forall|i: int| 0 <= i < s.len() implies spec_i32(u32_at(enc, 4 * i, order)) == s[i] by {
        lemma_enc_u32(u32_of_i32(s[i]), order);
        assert(enc[4 * i] == enc_u32(u32_of_i32(s[i]), order)[0]);
        assert(enc[4 * i + 1] == enc_u32(u32_of_i32(s[i]), order)[1]);
        assert(enc[4 * i + 2] == enc_u32(u32_of_i32(s[i]), order)[2]);
        assert(enc[4 * i + 3] == enc_u32(u32_of_i32(s[i]), order)[3]);
    }
    assert(Seq::new((enc.len() / 4) as nat, |i: int| spec_i32(u32_at(enc, 4 * i, order))) =~= s);
}

proof fn round_trip_rational(s: Seq<(u32, u32)>, order: ByteOrder)
    ensures
        spec_parse_value(TYPE_URATIONAL, enc_value(ValueModel::Rational(s), order), order)
            == ValueModel::Rational(s),
{
    lemma_dec_rationals(s, order);
}

proof fn round_trip_srational(s: Seq<(i32, i32)>, order: ByteOrder)
    ensures
        spec_parse_value(TYPE_RATIONAL, enc_value(ValueModel::SRational(s), order), order)
            == ValueModel::SRational(s),
{
    let enc = enc_srationals(s, order);
    assert forall|i: int| 0 <= i < s.len() implies (spec_i32(u32_at(enc, 8 * i, order)) == s[i].0
        && spec_i32(u32_at(enc, 8 * i + 4, order)) == s[i].1) by {
        lemma_enc_u32(u32_of_i32(s[i].0), order);
        lemma_enc_u32(u32_of_i32(s[i].1), order);
        assert forall|k: int| 0 <= k < 4 implies enc[8 * i + k] == enc_u32(
            u32_of_i32(s[i].0),
            order,
        )[k] by {
            assert((8 * i + k) / 8 == i);
            assert((8 * i + k) % 8 == k);
        }
        assert forall|k: int| 0 <= k < 4 implies enc[8 * i + 4 + k] == enc_u32(
            u32_of_i32(s[i].1),
            order,
        )[k] by {
            assert((8 * i + 4 + k) / 8 == i);
            assert((8 * i + 4 + k) % 8 == 4 + k);
        }
    }
    assert(Seq::new(
        (enc.len() / 8) as nat,
        |i: int| (spec_i32(u32_at(enc, 8 * i, order)), spec_i32(u32_at(enc, 8 * i + 4, order))),
    ) =~= s);
}

proof fn round_trip_float(s: Seq<u32>, order: ByteOrder)
    ensures
        spec_parse_value(TYPE_FLOAT, enc_value(ValueModel::FloatBits(s), order), order)
            == ValueModel::FloatBits(s),
{
    lemma_dec_longs(s, order);
}

proof fn round_trip_double(s: Seq<u64>, order: ByteOrder)
    ensures
        spec_parse_value(TYPE_DOUBLE, enc_value(ValueModel::DoubleBits(s), order), order)
            == ValueModel::DoubleBits(s),
{
    lemma_dec_doubles(s, order);
}

/// Decoding an encoded value gives the value back.
pub proof fn lemma_value_round_trip(t: u16, v: ValueModel, order: ByteOrder)
    requires
        value_matches(t, v),
    ensures
        spec_parse_value(t, enc_value(v, order), order) == v,
{
    match v {
        ValueModel::Byte(s) => {},
        ValueModel::SByte(s) => {
            round_trip_sbyte(s, order);
        },
        ValueModel::Ascii(_) => {},
        ValueModel::Short(s) => {
            round_trip_short(s, order);
        },
        ValueModel::SShort(s) => {
            round_trip_sshort(s, order);
        },
        ValueModel::Long(s) => {
            round_trip_long(s, order);
        },
        ValueModel::SLong(s) => {
            round_trip_slong(s, order);
        },
        ValueModel::Rational(s) => {
            round_trip_rational(s, order);
        },
        ValueModel::SRational(s) => {
            round_trip_srational(s, order);
        },
        ValueModel::FloatBits(s) => {
            round_trip_float(s, order);
        },
        ValueModel::DoubleBits(s) => {
            round_trip_double(s, order);
        },
        ValueModel::Undefined(s) => {},
    }
}

/// Byte-order symmetry: a value encoded and decoded little-endian equals
/// the same value encoded and decoded big-endian.
pub proof fn lemma_value_byte_order_symmetry(t: u16, v: ValueModel)
    requires
        value_matches(t, v),
    ensures
        spec_parse_value(t, enc_value(v, ByteOrder::Little), ByteOrder::Little) == spec_parse_value(
            t,
            enc_value(v, ByteOrder::Big),
            ByteOrder::Big,
        ),
{
    lemma_value_round_trip(t, v, ByteOrder::Little);
    lemma_value_round_trip(t, v, ByteOrder::Big);
}

/// One entry of a synthetic directory to be encoded: its tag, its type
/// code, and its value.
pub struct WireEntry {
    pub tag: u16,
    pub t: u16,
    pub value: ValueModel,
}

/// An entry the inline encoder covers: the value carries the variant its
/// type code calls for and its encoding fits the four value bytes of the
/// entry record.
pub open spec fn wf_wire_entry(e: WireEntry) -> bool {
    value_matches(e.t, e.value) && width_of(e.t) * value_count(e.value) <= 4
}

pub open spec fn wf_directory(d: Seq<WireEntry>) -> bool {
    d.len() <= 0xffff && forall|i: int| 0 <= i < d.len() ==> wf_wire_entry(#[trigger] d[i])
}

pub open spec fn zeros(n: nat) -> Seq<u8> {
    Seq::new(n, |i: int| 0u8)
}

/// The 12-byte record of one entry: tag, type code, element count, then the
/// value bytes padded to four with zeros.
pub open spec fn entry_record(e: WireEntry, order: ByteOrder) -> Seq<u8>
    recommends
        wf_wire_entry(e),
{
    enc_u16(e.tag, order) + enc_u16(e.t, order) + enc_u32(value_count(e.value) as u32, order)
        + enc_value(e.value, order) + zeros((4 - enc_value(e.value, order).len()) as nat)
}

/// The entry records of a directory, one after the other.
pub open spec fn enc_records(d: Seq<WireEntry>, order: ByteOrder) -> Seq<u8> {
    Seq::new((12 * d.len()) as nat, |j: int| entry_record(d[j / 12], order)[j % 12])
}

/// A whole encoded directory: the entry count, then the records.
pub open spec fn enc_ifd(d: Seq<WireEntry>, order: ByteOrder) -> Seq<u8> {
    enc_u16(d.len() as u16, order) + enc_records(d, order)
}

/// The footer: the byte-order marker, the magic constant, and an original
/// offset of zero, so decoding applies no pointer fixup.
pub open spec fn enc_footer(order: ByteOrder) -> Seq<u8> {
    let marker = match order {
        ByteOrder::Little => seq![0x49u8, 0x49u8],
        ByteOrder::Big => seq![0x4du8, 0x4du8],
    };
    marker + enc_u16(FOOTER_MAGIC, order) + enc_u32(0, order)
}

/// A whole encoded maker-note blob.
pub open spec fn enc_makernote(d: Seq<WireEntry>, order: ByteOrder) -> Seq<u8> {
    enc_ifd(d, order) + enc_footer(order)
}

/// The logical entries a directory stands for.
pub open spec fn wire_models(d: Seq<WireEntry>) -> Seq<EntryModel> {
    Seq::new(d.len(), |i: int| EntryModel { tag: d[i].tag, value: d[i].value })
}

proof fn lemma_record_len(e: WireEntry, order: ByteOrder)
    requires
        wf_wire_entry(e),
    ensures
        entry_record(e, order).len() == 12,
        enc_value(e.value, order).len() <= 4,
{
    lemma_enc_value_len(e.t, e.value, order);
}

/// Byte `k` of entry record `i` sits at offset `2 + 12 * i + k` of the blob.
proof fn lemma_blob_record_bytes(d: Seq<WireEntry>, order: ByteOrder, i: int)
    requires
        wf_directory(d),
        0 <= i < d.len(),
    ensures
        forall|k: int|
            0 <= k < 12 ==> enc_makernote(d, order)[2 + 12 * i + k] == entry_record(d[i], order)[k],
{
    let blob = enc_makernote(d, order);
    let rec = entry_record(d[i], order);
    assert forall|k: int| 0 <= k < 12 implies blob[2 + 12 * i + k] == rec[k] by {
        assert((12 * i + k) / 12 == i);
        assert((12 * i + k) % 12 == k);
        assert(enc_records(d, order)[12 * i + k] == rec[k]);
        assert(enc_ifd(d, order)[2 + 12 * i + k] == enc_records(d, order)[12 * i + k]);
        assert(blob[2 + 12 * i + k] == enc_ifd(d, order)[2 + 12 * i + k]);
    }
}

/// What the fields of one entry record hold.
proof fn lemma_record_fields(e: WireEntry, order: ByteOrder)
    requires
        wf_wire_entry(e),
    ensures
        entry_record(e, order).len() == 12,
        spec_u16(entry_record(e, order)[0], entry_record(e, order)[1], order) == e.tag,
        spec_u16(entry_record(e, order)[2], entry_record(e, order)[3], order) == e.t,
        crate::endian::spec_u32(
            entry_record(e, order)[4],
            entry_record(e, order)[5],
            entry_record(e, order)[6],
            entry_record(e, order)[7],
            order,
        ) == value_count(e.value) as u32,
        forall|k: int|
            0 <= k < enc_value(e.value, order).len() ==> entry_record(e, order)[8 + k] == enc_value(
                e.value,
                order,
            )[k],
{
    let rec = entry_record(e, order);
    let v_enc = enc_value(e.value, order);
    lemma_record_len(e, order);
    lemma_enc_u16(e.tag, order);
    lemma_enc_u16(e.t, order);
    lemma_enc_u32(value_count(e.value) as u32, order);
    assert(rec[0] == enc_u16(e.tag, order)[0]);
    assert(rec[1] == enc_u16(e.tag, order)[1]);
    assert(rec[2] == enc_u16(e.t, order)[0]);
    assert(rec[3] == enc_u16(e.t, order)[1]);
    let cnt_enc = enc_u32(value_count(e.value) as u32, order);
    assert(rec[4] == cnt_enc[0]);
    assert(rec[5] == cnt_enc[1]);
    assert(rec[6] == cnt_enc[2]);
    assert(rec[7] == cnt_enc[3]);
    assert forall|k: int| 0 <= k < v_enc.len() implies rec[8 + k] == v_enc[k] by {
        assert(rec[8 + k] == (enc_value(e.value, order) + zeros(
            (4 - enc_value(e.value, order).len()) as nat,
        ))[k]);
    }
}

/// Any buffer that carries an entry record at offset `2 + 12 * i` decodes
/// that entry back to its tag and value.
#[verifier::rlimit(100)]
#[verifier::spinoff_prover]
proof fn lemma_entry_from_bytes(blob: Seq<u8>, order: ByteOrder, i: int, e: WireEntry)
    requires
        wf_wire_entry(e),
        0 <= i,
        2 + 12 * i + 12 <= blob.len(),
        forall|k: int|
            0 <= k < 12 ==> blob[2 + 12 * i + k] == entry_record(e, order)[k],
    ensures
        spec_entry(blob, 0, order, i) == Ok::<EntryModel, DecodeError>(
            EntryModel { tag: e.tag, value: e.value },
        ),
{
    let rec = entry_record(e, order);
    let base = 2 + 12 * i;
    lemma_record_fields(e, order);
    lemma_enc_value_len(e.t, e.value, order);
    let v_enc = enc_value(e.value, order);
    let total = width_of(e.t) * value_count(e.value);
    assert(u16_at(blob, base, order) == e.tag);
    assert(u16_at(blob, base + 2, order) == e.t);
    assert(u32_at(blob, base + 4, order) == value_count(e.value) as u32);
    assert(width_of(e.t) != 0);
    assert(total <= 4);
    let sub = blob.subrange(base + 8, base + 8 + total);
    assert(sub.len() == total);
    assert(v_enc.len() == total);
    if total > 0 {
        assert(blob[base + 8] == rec[8]);
        assert(sub[0] == v_enc[0]);
    }
    if total > 1 {
        assert(blob[base + 9] == rec[9]);
        assert(sub[1] == v_enc[1]);
    }
    if total > 2 {
        assert(blob[base + 10] == rec[10]);
        assert(sub[2] == v_enc[2]);
    }
    if total > 3 {
        assert(blob[base + 11] == rec[11]);
        assert(sub[3] == v_enc[3]);
    }
    assert(sub =~= v_enc);
    lemma_value_round_trip(e.t, e.value, order);
    assert(spec_parse_value(e.t, sub, order) == e.value);
}

/// Entry `i` of an encoded blob decodes back to entry `i` of the directory.
#[verifier::rlimit(100)]
#[verifier::spinoff_prover]
proof fn lemma_entry_round_trip(d: Seq<WireEntry>, order: ByteOrder, i: int)
    requires
        wf_directory(d),
        0 <= i < d.len(),
    ensures
        spec_entry(enc_makernote(d, order), 0, order, i) == Ok::<EntryModel, DecodeError>(
            wire_models(d)[i],
        ),
{
    let blob = enc_makernote(d, order);
    lemma_enc_u16(d.len() as u16, order);
    lemma_enc_u16(FOOTER_MAGIC, order);
    lemma_enc_u32(0, order);
    assert(enc_footer(order).len() == 8);
    assert(blob.len() == 2 + 12 * d.len() + 8);
    lemma_blob_record_bytes(d, order, i);
    lemma_entry_from_bytes(blob, order, i, d[i]);
}

/// The first `k` entries of an encoded blob decode to the first `k` logical
/// entries.
proof fn lemma_entries_round_trip(d: Seq<WireEntry>, order: ByteOrder, k: nat)
    requires
        wf_directory(d),
        k <= d.len(),
    ensures
        spec_entries(enc_makernote(d, order), 0, order, k) == Ok::<Seq<EntryModel>, DecodeError>(
            wire_models(d).take(k as int),
        ),
    decreases k,
{
    if k == 0 {
        assert(wire_models(d).take(0) =~= Seq::<EntryModel>::empty());
    } else {
        lemma_entries_round_trip(d, order, (k - 1) as nat);
        lemma_entry_round_trip(d, order, k - 1);
        assert(wire_models(d).take(k as int) =~= wire_models(d).take(k - 1).push(
            wire_models(d)[k - 1],
        ));
    }
}

/// What the head and the footer of an encoded blob hold.
proof fn lemma_frame_fields(d: Seq<WireEntry>, order: ByteOrder)
    requires
        wf_directory(d),
    ensures
        enc_makernote(d, order).len() == 2 + 12 * d.len() + 8,
        u16_at(enc_makernote(d, order), 0, order) == d.len() as u16,
        u16_at(enc_makernote(d, order), 2 + 12 * d.len() as int, ByteOrder::Big) == (
        match order {
            ByteOrder::Little => IFD_LITTLE_ENDIAN,
            ByteOrder::Big => IFD_BIG_ENDIAN,
        }),
        u16_at(enc_makernote(d, order), 2 + 12 * d.len() as int + 2, order) == FOOTER_MAGIC,
        u32_at(enc_makernote(d, order), 2 + 12 * d.len() as int + 4, order) == 0,
{
    let blob = enc_makernote(d, order);
    let n = d.len() as int;
    lemma_enc_u16(d.len() as u16, order);
    lemma_enc_u16(FOOTER_MAGIC, order);
    lemma_enc_u32(0, order);
    let foot = enc_footer(order);
    assert(enc_ifd(d, order).len() == 2 + 12 * n);
    assert(foot.len() == 8);
    let fbase = 2 + 12 * n;
    assert(blob[fbase] == foot[0]);
    assert(blob[fbase + 1] == foot[1]);
    assert(blob[fbase + 2] == foot[2]);
    assert(blob[fbase + 3] == foot[3]);
    assert(blob[fbase + 4] == foot[4]);
    assert(blob[fbase + 5] == foot[5]);
    assert(blob[fbase + 6] == foot[6]);
    assert(blob[fbase + 7] == foot[7]);
    assert(foot[2] == enc_u16(FOOTER_MAGIC, order)[0]);
    assert(foot[3] == enc_u16(FOOTER_MAGIC, order)[1]);
    assert(foot[4] == enc_u32(0, order)[0]);
    assert(foot[5] == enc_u32(0, order)[1]);
    assert(foot[6] == enc_u32(0, order)[2]);
    assert(foot[7] == enc_u32(0, order)[3]);
    assert(blob[0] == enc_u16(d.len() as u16, order)[0]);
    assert(blob[1] == enc_u16(d.len() as u16, order)[1]);
}

/// Round trip: a synthetic directory encoded per the format decodes back to
/// the same (tag, value) pairs exactly, in either byte order.
#[verifier::rlimit(100)]
#[verifier::spinoff_prover]
pub proof fn lemma_makernote_round_trip(d: Seq<WireEntry>, order: ByteOrder)
    requires
        wf_directory(d),
    ensures
        spec_parse_canon_makernote(enc_makernote(d, order)) == Ok::<Seq<EntryModel>, DecodeError>(
            wire_models(d),
        ),
{
    let blob = enc_makernote(d, order);
    let n = d.len() as int;
    lemma_frame_fields(d, order);
    assert(blob.len() - 8 == 2 + 12 * n);
    assert(u16_at(blob, 0, order) as int == n);
    lemma_entries_round_trip(d, order, d.len());
    assert(wire_models(d).take(n) =~= wire_models(d));
}

/// Byte-order symmetry: the same directory encoded little-endian and
/// big-endian decodes to the same logical entries.
pub proof fn lemma_byte_order_symmetry(d: Seq<WireEntry>)
    requires
        wf_directory(d),
    ensures
        spec_parse_canon_makernote(enc_makernote(d, ByteOrder::Little))
            == spec_parse_canon_makernote(enc_makernote(d, ByteOrder::Big)),
{
    lemma_makernote_round_trip(d, ByteOrder::Little);
    lemma_makernote_round_trip(d, ByteOrder::Big);
}

} // verus!
