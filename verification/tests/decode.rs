use darkmagic::endian::ByteOrder;
use darkmagic::error::DecodeError;
use darkmagic::ifd::{parse_canon_makernote, parse_ifd, IfdEntry};
use darkmagic::value::{parse_value, type_width, TypedValue};

fn entry_le(tag: u16, typ: u16, count: u32, last4: [u8; 4]) -> Vec<u8> {
    let mut v = Vec::new();
    v.extend_from_slice(&tag.to_le_bytes());
    v.extend_from_slice(&typ.to_le_bytes());
    v.extend_from_slice(&count.to_le_bytes());
    v.extend_from_slice(&last4);
    v
}

fn entry_be(tag: u16, typ: u16, count: u32, last4: [u8; 4]) -> Vec<u8> {
    let mut v = Vec::new();
    v.extend_from_slice(&tag.to_be_bytes());
    v.extend_from_slice(&typ.to_be_bytes());
    v.extend_from_slice(&count.to_be_bytes());
    v.extend_from_slice(&last4);
    v
}

fn footer_le(original_offset: u32) -> Vec<u8> {
    let mut v = vec![0x49, 0x49, 42, 0];
    v.extend_from_slice(&original_offset.to_le_bytes());
    v
}

fn footer_be(original_offset: u32) -> Vec<u8> {
    let mut v = vec![0x4d, 0x4d, 0, 42];
    v.extend_from_slice(&original_offset.to_be_bytes());
    v
}

#[test]
fn type_width_table() {
    assert_eq!(type_width(1), Ok(1));
    assert_eq!(type_width(2), Ok(1));
    assert_eq!(type_width(3), Ok(2));
    assert_eq!(type_width(4), Ok(4));
    assert_eq!(type_width(5), Ok(8));
    assert_eq!(type_width(6), Ok(1));
    assert_eq!(type_width(7), Ok(1));
    assert_eq!(type_width(8), Ok(2));
    assert_eq!(type_width(9), Ok(4));
    assert_eq!(type_width(10), Ok(8));
    assert_eq!(type_width(11), Ok(4));
    assert_eq!(type_width(12), Ok(8));
    assert_eq!(type_width(13), Err(DecodeError::UnsupportedType(13)));
    assert_eq!(type_width(0), Err(DecodeError::UnsupportedType(0)));
}

#[test]
fn inline_short_little_endian() {
    let mut blob = vec![1u8, 0];
    blob.extend(entry_le(4, 3, 2, [244, 1, 148, 0]));
    blob.extend(footer_le(0));
    let entries = parse_canon_makernote(&blob).unwrap();
    assert_eq!(entries.len(), 1);
    assert_eq!(entries[0].tag, 4);
    assert_eq!(entries[0].value, TypedValue::Short(vec![500, 148]));
}

#[test]
fn inline_short_big_endian_same_entries() {
    let mut le = vec![1u8, 0];
    le.extend(entry_le(4, 3, 2, [244, 1, 148, 0]));
    le.extend(footer_le(0));
    let mut be = vec![0u8, 1];
    be.extend(entry_be(4, 3, 2, [1, 244, 0, 148]));
    be.extend(footer_be(0));
    let from_le = parse_canon_makernote(&le).unwrap();
    let from_be = parse_canon_makernote(&be).unwrap();
    assert_eq!(from_le, from_be);
}

#[test]
fn bad_byte_order_marker() {
    let mut blob = vec![0u8, 0];
    blob.extend(vec![0x41, 0x41, 42, 0, 0, 0, 0, 0]);
    assert_eq!(
        parse_canon_makernote(&blob),
        Err(DecodeError::InvalidByteOrderMarker(0x4141))
    );
}

#[test]
fn truncated_blob_too_short() {
    let blob = vec![0x49u8, 0x49, 42, 0, 0];
    assert_eq!(parse_canon_makernote(&blob), Err(DecodeError::TooShort));
}

#[test]
fn bad_footer_magic() {
    let mut blob = vec![0u8, 0];
    blob.extend(vec![0x49, 0x49, 43, 0, 0, 0, 0, 0]);
    assert_eq!(parse_canon_makernote(&blob), Err(DecodeError::BadMagic(43)));
}

#[test]
fn oversized_count_overflows() {
    // 8-byte elements with count 0x2000_0001: width * count exceeds the
    // 32-bit address space.
    let mut blob = vec![1u8, 0];
    blob.extend(entry_le(9, 5, 0x2000_0001, [0, 0, 0, 0]));
    blob.extend(footer_le(0));
    assert_eq!(parse_canon_makernote(&blob), Err(DecodeError::Overflow(9)));
}

#[test]
fn pointer_out_of_bounds() {
    let mut blob = vec![1u8, 0];
    blob.extend(entry_le(7, 3, 4, [200, 0, 0, 0]));
    blob.extend(footer_le(0));
    assert_eq!(
        parse_canon_makernote(&blob),
        Err(DecodeError::OutOfBounds(7))
    );
}

#[test]
fn negative_pointer_out_of_bounds() {
    // original offset 100 makes the fixup -100; a stored pointer of 10 lands
    // before the start of the blob.
    let mut blob = vec![1u8, 0];
    blob.extend(entry_le(7, 3, 4, [10, 0, 0, 0]));
    blob.extend(footer_le(100));
    assert_eq!(
        parse_canon_makernote(&blob),
        Err(DecodeError::OutOfBounds(7))
    );
}

#[test]
fn out_of_line_with_fixup_round_trip() {
    // Data area at local offset 14; the blob originally sat at file offset
    // 100, so stored pointers are 100 larger.
    let mut blob = vec![1u8, 0];
    blob.extend(entry_le(4, 3, 3, [114, 0, 0, 0]));
    for v in [500u16, 0, 148] {
        blob.extend_from_slice(&v.to_le_bytes());
    }
    blob.extend(footer_le(100));
    let entries = parse_canon_makernote(&blob).unwrap();
    assert_eq!(entries.len(), 1);
    assert_eq!(entries[0].value, TypedValue::Short(vec![500, 0, 148]));
}

#[test]
fn out_of_line_big_endian_matches_little() {
    let mut le = vec![1u8, 0];
    le.extend(entry_le(4, 3, 3, [14, 0, 0, 0]));
    for v in [500u16, 7, 148] {
        le.extend_from_slice(&v.to_le_bytes());
    }
    le.extend(footer_le(0));

    let mut be = vec![0u8, 1];
    be.extend(entry_be(4, 3, 3, [0, 0, 0, 14]));
    for v in [500u16, 7, 148] {
        be.extend_from_slice(&v.to_be_bytes());
    }
    be.extend(footer_be(0));

    assert_eq!(
        parse_canon_makernote(&le).unwrap(),
        parse_canon_makernote(&be).unwrap()
    );
}

#[test]
fn multiple_entries_and_types() {
    // Two entries: an inline unsigned long and an out-of-line unsigned
    // rational, little-endian, no fixup.
    let mut blob = vec![2u8, 0];
    blob.extend(entry_le(10, 4, 1, [44, 1, 0, 0]));
    // data area starts at 2 + 24 = 26
    blob.extend(entry_le(11, 5, 1, [26, 0, 0, 0]));
    blob.extend_from_slice(&1u32.to_le_bytes());
    blob.extend_from_slice(&250u32.to_le_bytes());
    blob.extend(footer_le(0));
    let entries = parse_canon_makernote(&blob).unwrap();
    assert_eq!(entries.len(), 2);
    assert_eq!(entries[0].value, TypedValue::Long(vec![300]));
    assert_eq!(entries[1].value, TypedValue::Rational(vec![(1, 250)]));
}

#[test]
fn empty_directory_decodes() {
    let mut blob = vec![0u8, 0];
    blob.extend(footer_le(0));
    let entries = parse_canon_makernote(&blob).unwrap();
    assert_eq!(entries.len(), 0);
}

#[test]
fn unsupported_type_rejected() {
    let mut blob = vec![1u8, 0];
    blob.extend(entry_le(3, 13, 1, [0, 0, 0, 0]));
    blob.extend(footer_le(0));
    assert_eq!(
        parse_canon_makernote(&blob),
        Err(DecodeError::UnsupportedType(13))
    );
}

#[test]
fn ascii_splits_on_nul_with_trailing_empty() {
    let data = [b'a', b'b', 0, b'c', 0];
    let v = parse_value(2, &data, ByteOrder::Little).unwrap();
    assert_eq!(
        v,
        TypedValue::Ascii(vec![vec![b'a', b'b'], vec![b'c'], vec![]])
    );
}

#[test]
fn signed_and_float_values_decode() {
    let bytes = [0xffu8, 0x01];
    assert_eq!(
        parse_value(6, &bytes, ByteOrder::Little).unwrap(),
        TypedValue::SByte(vec![-1, 1])
    );
    let short_bytes = 0xfffeu16.to_be_bytes();
    assert_eq!(
        parse_value(8, &short_bytes, ByteOrder::Big).unwrap(),
        TypedValue::SShort(vec![-2])
    );
    let long_bytes = 0xffff_fffbu32.to_le_bytes();
    assert_eq!(
        parse_value(9, &long_bytes, ByteOrder::Little).unwrap(),
        TypedValue::SLong(vec![-5])
    );
    let float_bytes = 1.5f32.to_bits().to_le_bytes();
    assert_eq!(
        parse_value(11, &float_bytes, ByteOrder::Little).unwrap(),
        TypedValue::FloatBits(vec![1.5f32.to_bits()])
    );
    let double_bytes = 2.25f64.to_bits().to_be_bytes();
    assert_eq!(
        parse_value(12, &double_bytes, ByteOrder::Big).unwrap(),
        TypedValue::DoubleBits(vec![2.25f64.to_bits()])
    );
}

#[test]
fn srational_pairs_consecutive_elements() {
    let mut data = Vec::new();
    data.extend_from_slice(&(-3i32 as u32).to_le_bytes());
    data.extend_from_slice(&4u32.to_le_bytes());
    assert_eq!(
        parse_value(10, &data, ByteOrder::Little).unwrap(),
        TypedValue::SRational(vec![(-3, 4)])
    );
}

#[test]
fn directory_round_trip_both_orders() {
    // Encode a synthetic two-entry directory per the format in each byte
    // order; decoding must reproduce the same (tag, value) pairs.
    let tags = [21u16, 22u16];
    let shorts = [500u16, 148];
    let long = 70000u32;

    let mut le = vec![2u8, 0];
    le.extend(entry_le(
        tags[0],
        3,
        2,
        [shorts[0] as u8, (shorts[0] >> 8) as u8, shorts[1] as u8, 0],
    ));
    let lb = long.to_le_bytes();
    le.extend(entry_le(tags[1], 4, 1, lb));
    le.extend(footer_le(0));

    let mut be = vec![0u8, 2];
    be.extend(entry_be(
        tags[0],
        3,
        2,
        [(shorts[0] >> 8) as u8, shorts[0] as u8, 0, shorts[1] as u8],
    ));
    let bb = long.to_be_bytes();
    be.extend(entry_be(tags[1], 4, 1, bb));
    be.extend(footer_be(0));

    let want = vec![
        IfdEntry {
            tag: tags[0],
            value: TypedValue::Short(vec![500, 148]),
        },
        IfdEntry {
            tag: tags[1],
            value: TypedValue::Long(vec![70000]),
        },
    ];
    assert_eq!(parse_canon_makernote(&le).unwrap(), want);
    assert_eq!(parse_canon_makernote(&be).unwrap(), want);
}

#[test]
fn parse_ifd_rejects_truncated_entries() {
    // Entry count says two entries but only one fits.
    let mut blob = vec![2u8, 0];
    blob.extend(entry_le(1, 3, 1, [9, 0, 0, 0]));
    assert_eq!(
        parse_ifd(&blob, 0, ByteOrder::Little),
        Err(DecodeError::TooShort)
    );
}
