//! Reading multi-byte integers out of a byte buffer in either byte order.

use vstd::prelude::*;

verus! {

/// Byte order used for every multi-byte scalar of one record.
#[derive(Clone, Copy, PartialEq, Eq, Structural, Debug)]
pub enum ByteOrder {
    Little,
    Big,
}

/// The 16-bit value held by two bytes, in the given order.
pub open spec fn spec_u16(b0: u8, b1: u8, order: ByteOrder) -> u16 {
    match order {
        ByteOrder::Little => ((b1 as u16) * 256 + (b0 as u16)) as u16,
        ByteOrder::Big => ((b0 as u16) * 256 + (b1 as u16)) as u16,
    }
}

/// The 32-bit value held by four bytes, in the given order.
pub open spec fn spec_u32(b0: u8, b1: u8, b2: u8, b3: u8, order: ByteOrder) -> u32 {
    match order {
        ByteOrder::Little => ((b3 as u32) * 0x1000000 + (b2 as u32) * 0x10000 + (b1 as u32) * 0x100
            + (b0 as u32)) as u32,
        ByteOrder::Big => ((b0 as u32) * 0x1000000 + (b1 as u32) * 0x10000 + (b2 as u32) * 0x100 + (
        b3 as u32)) as u32,
    }
}

/// The 16-bit value at offset `i` of a buffer.
pub open spec fn u16_at(data: Seq<u8>, i: int, order: ByteOrder) -> u16
    recommends
        0 <= i,
        i + 2 <= data.len(),
{
    spec_u16(data[i], data[i + 1], order)
}

/// The 32-bit value at offset `i` of a buffer.
pub open spec fn u32_at(data: Seq<u8>, i: int, order: ByteOrder) -> u32
    recommends
        0 <= i,
        i + 4 <= data.len(),
{
    spec_u32(data[i], data[i + 1], data[i + 2], data[i + 3], order)
}

/// The 64-bit value at offset `i` of a buffer: two 32-bit halves.
pub open spec fn u64_at(data: Seq<u8>, i: int, order: ByteOrder) -> u64
    recommends
        0 <= i,
        i + 8 <= data.len(),
{
    match order {
        ByteOrder::Little => ((u32_at(data, i + 4, order) as u64) * 0x100000000 + (u32_at(
            data,
            i,
            order,
        ) as u64)) as u64,
        ByteOrder::Big => ((u32_at(data, i, order) as u64) * 0x100000000 + (u32_at(
            data,
            i + 4,
            order,
        ) as u64)) as u64,
    }
}

pub fn read_u16(data: &[u8], i: usize, order: ByteOrder) -> (r: u16)
    requires
        i + 2 <= data@.len(),
    ensures
        r == u16_at(data@, i as int, order),
{
    let b0 = data[i];
    let b1 = data[i + 1];
    match order {
        ByteOrder::Little => (b1 as u16) * 256 + (b0 as u16),
        ByteOrder::Big => (b0 as u16) * 256 + (b1 as u16),
    }
}

pub fn read_u32(data: &[u8], i: usize, order: ByteOrder) -> (r: u32)
    requires
        i + 4 <= data@.len(),
    ensures
        r == u32_at(data@, i as int, order),
{
    let b0 = data[i];
    let b1 = data[i + 1];
    let b2 = data[i + 2];
    let b3 = data[i + 3];
    match order {
        ByteOrder::Little => (b3 as u32) * 0x1000000 + (b2 as u32) * 0x10000 + (b1 as u32) * 0x100
            + (b0 as u32),
        ByteOrder::Big => (b0 as u32) * 0x1000000 + (b1 as u32) * 0x10000 + (b2 as u32) * 0x100 + (
        b3 as u32),
    }
}

pub fn read_u64(data: &[u8], i: usize, order: ByteOrder) -> (r: u64)
    requires
        i + 8 <= data@.len(),
    ensures
        r == u64_at(data@, i as int, order),
{
    let n: usize = data.len();
    assert(i + 8 <= n);
    let lo = read_u32(data, i, order);
    let hi = read_u32(data, i + 4, order);
    match order {
        ByteOrder::Little => (hi as u64) * 0x100000000 + (lo as u64),
        ByteOrder::Big => (lo as u64) * 0x100000000 + (hi as u64),
    }
}

/// Signed reinterpretation of an unsigned byte (two's complement).
pub open spec fn spec_i8(b: u8) -> i8 {
    if b < 0x80 {
        b as i8
    } else {
        (b - 0x100) as i8
    }
}

pub fn to_i8(b: u8) -> (r: i8)
    ensures
        r == spec_i8(b),
{
    if b < 0x80 {
        b as i8
    } else {
        ((b as i16) - 0x100) as i8
    }
}

/// Signed reinterpretation of an unsigned 16-bit value (two's complement).
pub open spec fn spec_i16(v: u16) -> i16 {
    if v < 0x8000 {
        v as i16
    } else {
        (v - 0x10000) as i16
    }
}

pub fn to_i16(v: u16) -> (r: i16)
    ensures
        r == spec_i16(v),
{
    if v < 0x8000 {
        v as i16
    } else {
        ((v as i32) - 0x10000) as i16
    }
}

/// Signed reinterpretation of an unsigned 32-bit value (two's complement).
pub open spec fn spec_i32(v: u32) -> i32 {
    if v < 0x80000000 {
        v as i32
    } else {
        (v - 0x100000000) as i32
    }
}

pub fn to_i32(v: u32) -> (r: i32)
    ensures
        r == spec_i32(v),
{
    if v < 0x80000000 {
        v as i32
    } else {
        ((v as i64) - 0x100000000) as i32
    }
}

} // verus!
