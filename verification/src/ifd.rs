//! The directory decoder and the maker-note entry point.
//!
//! A directory is a 16-bit entry count followed by 12-byte entries: tag,
//! type code, element count, then four bytes holding either the value itself
//! (when it fits) or a pointer into the buffer. Pointers are self-relative:
//! an additive fixup translates them from the coordinates they were written
//! in into offsets of this buffer. Every offset and length is checked against
//! the buffer before any read; malformed input yields a typed error, never a
//! panic.

use vstd::prelude::*;
use vstd::slice::slice_subrange;

use crate::endian::{read_u16, read_u32, u16_at, u32_at, ByteOrder};
use crate::error::DecodeError;
use crate::value::{
    parse_value, spec_parse_value, type_width, width_of, TypedValue, ValueModel,
};

verus! {

/// Byte-order markers of the footer, read as big-endian 16-bit values:
/// the ASCII codes of "II" and of "MM".
pub const IFD_LITTLE_ENDIAN: u16 = 0x4949;

pub const IFD_BIG_ENDIAN: u16 = 0x4d4d;

/// The fixed magic constant the footer must carry.
pub const FOOTER_MAGIC: u16 = 42;

/// One decoded directory entry.
#[derive(Clone, PartialEq, Eq, Debug)]
pub struct IfdEntry {
    pub tag: u16,
    pub value: TypedValue,
}

/// The mathematical shape of an `IfdEntry`.
pub struct EntryModel {
    pub tag: u16,
    pub value: ValueModel,
}

impl View for IfdEntry {
    type V = EntryModel;

    open spec fn view(&self) -> EntryModel {
        EntryModel { tag: self.tag, value: self.value@ }
    }
}

impl DeepView for IfdEntry {
    type V = EntryModel;

    open spec fn deep_view(&self) -> EntryModel {
        self@
    }
}

/// A decode result with the entries abstracted to their models.
pub open spec fn entries_view(r: Result<Vec<IfdEntry>, DecodeError>) -> Result<
    Seq<EntryModel>,
    DecodeError,
> {
    match r {
        Ok(v) => Ok(v.deep_view()),
        Err(e) => Err(e),
    }
}

/// What entry `i` of a directory decodes to: the entry record starts at
/// offset `2 + 12 * i`.
pub open spec fn spec_entry(data: Seq<u8>, fixup: int, order: ByteOrder, i: int) -> Result<
    EntryModel,
    DecodeError,
>
    recommends
        0 <= i,
        2 + 12 * i + 12 <= data.len(),
{
    let base = 2 + 12 * i;
    let tag = u16_at(data, base, order);
    let t = u16_at(data, base + 2, order);
    let count = u32_at(data, base + 4, order);
    if width_of(t) == 0 {
        Err(DecodeError::UnsupportedType(t))
    } else {
        let total = width_of(t) * count;
        if total > u32::MAX {
            Err(DecodeError::Overflow(tag))
        } else if total <= 4 {
            Ok(
                EntryModel {
                    tag,
                    value: spec_parse_value(t, data.subrange(base + 8, base + 8 + total), order),
                },
            )
        } else {
            let abs = u32_at(data, base + 8, order) + fixup;
            if abs < 0 || abs + total > data.len() {
                Err(DecodeError::OutOfBounds(tag))
            } else {
                Ok(
                    EntryModel {
                        tag,
                        value: spec_parse_value(t, data.subrange(abs, abs + total), order),
                    },
                )
            }
        }
    }
}

/// The first `n` entries of a directory, or the first error among them.
pub open spec fn spec_entries(data: Seq<u8>, fixup: int, order: ByteOrder, n: nat) -> Result<
    Seq<EntryModel>,
    DecodeError,
>
    decreases n,
{
    if n == 0 {
        Ok(Seq::empty())
    } else {
        match spec_entries(data, fixup, order, (n - 1) as nat) {
            Err(e) => Err(e),
            Ok(s) => match spec_entry(data, fixup, order, n - 1) {
                Err(e) => Err(e),
                Ok(en) => Ok(s.push(en)),
            },
        }
    }
}

/// What a whole directory decodes to: the entry count, then every entry,
/// failing fast on the first malformed one.
pub open spec fn spec_parse_ifd(data: Seq<u8>, fixup: int, order: ByteOrder) -> Result<
    Seq<EntryModel>,
    DecodeError,
> {
    if data.len() < 2 {
        Err(DecodeError::TooShort)
    } else {
        let count = u16_at(data, 0, order);
        if data.len() < 2 + 12 * count {
            Err(DecodeError::TooShort)
        } else {
            spec_entries(data, fixup, order, count as nat)
        }
    }
}

/// An error among the first `i` entries is the error of every longer prefix.
pub proof fn lemma_entries_err(data: Seq<u8>, fixup: int, order: ByteOrder, i: nat, n: nat)
    requires
        spec_entries(data, fixup, order, i).is_err(),
        i <= n,
    ensures
        spec_entries(data, fixup, order, n) == spec_entries(data, fixup, order, i),
    decreases n - i,
{
    if i < n {
        lemma_entries_err(data, fixup, order, i, (n - 1) as nat);
    }
}

/// Parse the 12-byte entry record starting at offset `2 + 12 * i`.
fn parse_entry(data: &[u8], pointer_fixup: i64, order: ByteOrder, i: usize) -> (r: Result<
    IfdEntry,
    DecodeError,
>)
    requires
        -0xffff_ffff <= pointer_fixup <= 0xffff_ffff,
        2 + 12 * (i as int) + 12 <= data@.len(),
        data@.len() <= usize::MAX,
    ensures
        match r {
            Ok(en) => spec_entry(data@, pointer_fixup as int, order, i as int) == Ok::<
                EntryModel,
                DecodeError,
            >(en@),
            Err(e) => spec_entry(data@, pointer_fixup as int, order, i as int) == Err::<
                EntryModel,
                DecodeError,
            >(e),
        },
{
    let n: usize = data.len();
    let base: usize = 2 + 12 * i;
    let tag = read_u16(data, base, order);
    let t = read_u16(data, base + 2, order);
    let count_elems = read_u32(data, base + 4, order);
    let width = match type_width(t) {
        Ok(w) => w,
        Err(e) => {
            return Err(e);
        },
    };
    let w64: u64 = width as u64;
    let c64: u64 = count_elems as u64;
    proof {
        assert(w64 * c64 <= 8 * 0xffff_ffffu64) by (nonlinear_arith)
            requires
                w64 <= 8,
                c64 <= 0xffff_ffff,
        ;
    }
    let total64: u64 = w64 * c64;
    if total64 > 0xffff_ffff {
        return Err(DecodeError::Overflow(tag));
    }
    let total: usize = total64 as usize;
    let raw = if total <= 4 {
        slice_subrange(data, base + 8, base + 8 + total)
    } else {
        let ptr = read_u32(data, base + 8, order);
        let abs: i64 = (ptr as i64) + pointer_fixup;
        if abs < 0 || (abs as u64) + (total as u64) > (n as u64) {
            return Err(DecodeError::OutOfBounds(tag));
        }
        let off: usize = abs as usize;
        slice_subrange(data, off, off + total)
    };
    match parse_value(t, raw, order) {
        Ok(v) => Ok(IfdEntry { tag, value: v }),
        Err(e) => {
            proof {
                assert(false);
            }
            Err(e)
        },
    }
}

/// Parse a directory out of `data`, translating every out-of-line pointer by
/// `pointer_fixup` before the mandatory bounds check.
pub fn parse_ifd(data: &[u8], pointer_fixup: i64, order: ByteOrder) -> (r: Result<
    Vec<IfdEntry>,
    DecodeError,
>)
    requires
        -0xffff_ffff <= pointer_fixup <= 0xffff_ffff,
    ensures
        entries_view(r) == spec_parse_ifd(data@, pointer_fixup as int, order),
{
    let n: usize = data.len();
    if n < 2 {
        return Err(DecodeError::TooShort);
    }
    let count = read_u16(data, 0, order);
    if n < 2 + 12 * (count as usize) {
        return Err(DecodeError::TooShort);
    }
    let mut entries: Vec<IfdEntry> = Vec::new();
    proof {
        assert(entries.deep_view() =~= Seq::<EntryModel>::empty());
    }
    for i in 0..count as usize
        invariant
            n == data@.len(),
            n <= usize::MAX,
            count == u16_at(data@, 0, order),
            2 + 12 * (count as int) <= n,
            -0xffff_ffff <= pointer_fixup <= 0xffff_ffff,
            spec_entries(data@, pointer_fixup as int, order, i as nat) == Ok::<
                Seq<EntryModel>,
                DecodeError,
            >(entries.deep_view()),
    {
        match parse_entry(data, pointer_fixup, order, i) {
            Ok(en) => {
                let ghost prev = entries.deep_view();
                let ghost enm = en@;
                entries.push(en);
                proof {
                    assert(entries.deep_view() =~= prev.push(enm));
                }
            },
            Err(e) => {
                proof {
                    lemma_entries_err(
                        data@,
                        pointer_fixup as int,
                        order,
                        (i + 1) as nat,
                        count as nat,
                    );
                }
                return Err(e);
            },
        }
    }
    Ok(entries)
}

/// What a maker-note blob decodes to. The last 8 bytes are the footer: a
/// byte-order marker read as big-endian, the magic constant 42, and the
/// absolute position the blob originally occupied, whose negation becomes
/// the pointer fixup.
pub open spec fn spec_parse_canon_makernote(blob: Seq<u8>) -> Result<
    Seq<EntryModel>,
    DecodeError,
> {
    if blob.len() < 8 {
        Err(DecodeError::TooShort)
    } else {
        let marker = u16_at(blob, blob.len() - 8, ByteOrder::Big);
        if marker == IFD_LITTLE_ENDIAN {
            spec_parse_canon_footer(blob, ByteOrder::Little)
        } else if marker == IFD_BIG_ENDIAN {
            spec_parse_canon_footer(blob, ByteOrder::Big)
        } else {
            Err(DecodeError::InvalidByteOrderMarker(marker))
        }
    }
}

/// The footer re-read in its resolved byte order, then the directory decode.
pub open spec fn spec_parse_canon_footer(blob: Seq<u8>, order: ByteOrder) -> Result<
    Seq<EntryModel>,
    DecodeError,
>
    recommends
        blob.len() >= 8,
{
    let magic = u16_at(blob, blob.len() - 6, order);
    if magic != FOOTER_MAGIC {
        Err(DecodeError::BadMagic(magic))
    } else {
        let original_offset = u32_at(blob, blob.len() - 4, order);
        spec_parse_ifd(blob, -(original_offset as int), order)
    }
}

/// Decode the blob once the byte order is resolved.
pub fn parse_canon_helper(data: &[u8], order: ByteOrder) -> (r: Result<Vec<IfdEntry>, DecodeError>)
    requires
        data@.len() >= 8,
    ensures
        entries_view(r) == spec_parse_canon_footer(data@, order),
{
    let n: usize = data.len();
    let magic = read_u16(data, n - 6, order);
    if magic != FOOTER_MAGIC {
        return Err(DecodeError::BadMagic(magic));
    }
    let original_offset = read_u32(data, n - 4, order);
    parse_ifd(data, -(original_offset as i64), order)
}

/// Decode a whole maker-note blob: detect the byte order from the footer,
/// validate the magic, compute the pointer fixup, and decode the directory.
pub fn parse_canon_makernote(data: &[u8]) -> (r: Result<Vec<IfdEntry>, DecodeError>)
    ensures
        entries_view(r) == spec_parse_canon_makernote(data@),
{
    let n: usize = data.len();
    if n < 8 {
        return Err(DecodeError::TooShort);
    }
    let marker = read_u16(data, n - 8, ByteOrder::Big);
    if marker == IFD_LITTLE_ENDIAN {
        parse_canon_helper(data, ByteOrder::Little)
    } else if marker == IFD_BIG_ENDIAN {
        parse_canon_helper(data, ByteOrder::Big)
    } else {
        Err(DecodeError::InvalidByteOrderMarker(marker))
    }
}

/// A footer whose byte-order marker is neither of the two defined markers
/// makes the whole decode fail with `InvalidByteOrderMarker`.
pub proof fn lemma_bad_marker_fails(blob: Seq<u8>)
    requires
        blob.len() >= 8,
        u16_at(blob, blob.len() - 8, ByteOrder::Big) != IFD_LITTLE_ENDIAN,
        u16_at(blob, blob.len() - 8, ByteOrder::Big) != IFD_BIG_ENDIAN,
    ensures
        spec_parse_canon_makernote(blob) == Err::<Seq<EntryModel>, DecodeError>(
            DecodeError::InvalidByteOrderMarker(u16_at(blob, blob.len() - 8, ByteOrder::Big)),
        ),
{
}

/// An entry whose `width * count` exceeds the 32-bit address space makes the
/// decode fail with `Overflow` when every earlier entry decodes, never
/// wrapping silently.
pub proof fn lemma_overflow_fails(data: Seq<u8>, fixup: int, order: ByteOrder, i: int)
    requires
        2 + 12 * (u16_at(data, 0, order) as int) <= data.len(),
        0 <= i < u16_at(data, 0, order),
        spec_entries(data, fixup, order, i as nat).is_ok(),
        width_of(u16_at(data, 2 + 12 * i + 2, order)) != 0,
        width_of(u16_at(data, 2 + 12 * i + 2, order)) * u32_at(data, 2 + 12 * i + 4, order)
            > u32::MAX,
    ensures
        spec_parse_ifd(data, fixup, order) == Err::<Seq<EntryModel>, DecodeError>(
            DecodeError::Overflow(u16_at(data, 2 + 12 * i, order)),
        ),
{
    assert(spec_entry(data, fixup, order, i) == Err::<EntryModel, DecodeError>(
        DecodeError::Overflow(u16_at(data, 2 + 12 * i, order)),
    ));
    assert(spec_entries(data, fixup, order, (i + 1) as nat) == Err::<Seq<EntryModel>, DecodeError>(
        DecodeError::Overflow(u16_at(data, 2 + 12 * i, order)),
    ));
    lemma_entries_err(data, fixup, order, (i + 1) as nat, u16_at(data, 0, order) as nat);
}

/// An entry whose computed absolute pointer does not lie inside
/// `[0, buffer.len() - total_bytes]` makes the decode fail with
/// `OutOfBounds` when every earlier entry decodes.
pub proof fn lemma_out_of_bounds_fails(data: Seq<u8>, fixup: int, order: ByteOrder, i: int)
    requires
        2 + 12 * (u16_at(data, 0, order) as int) <= data.len(),
        0 <= i < u16_at(data, 0, order),
        spec_entries(data, fixup, order, i as nat).is_ok(),
        width_of(u16_at(data, 2 + 12 * i + 2, order)) != 0,
        4 < width_of(u16_at(data, 2 + 12 * i + 2, order)) * u32_at(data, 2 + 12 * i + 4, order)
            <= u32::MAX,
        u32_at(data, 2 + 12 * i + 8, order) + fixup < 0 || u32_at(data, 2 + 12 * i + 8, order)
            + fixup + width_of(u16_at(data, 2 + 12 * i + 2, order)) * u32_at(
            data,
            2 + 12 * i + 4,
            order,
        ) > data.len(),
    ensures
        spec_parse_ifd(data, fixup, order) == Err::<Seq<EntryModel>, DecodeError>(
            DecodeError::OutOfBounds(u16_at(data, 2 + 12 * i, order)),
        ),
{
    assert(spec_entry(data, fixup, order, i) == Err::<EntryModel, DecodeError>(
        DecodeError::OutOfBounds(u16_at(data, 2 + 12 * i, order)),
    ));
    assert(spec_entries(data, fixup, order, (i + 1) as nat) == Err::<Seq<EntryModel>, DecodeError>(
        DecodeError::OutOfBounds(u16_at(data, 2 + 12 * i, order)),
    ));
    lemma_entries_err(data, fixup, order, (i + 1) as nat, u16_at(data, 0, order) as nat);
}

} // verus!
