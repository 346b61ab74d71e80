use darkmagic::error::MetaError;
use darkmagic::ifd::IfdEntry;
use darkmagic::metadata::{
    atoi, compose_model, get_sensitivity, get_temperature, shotinfo_temperature, ImageMetadata,
    MetadataParser, TagStore, SENSITIVITY_TYPE_ISO, TAG_BODY_SERIAL_NUMBER, TAG_EXIF_VERSION,
    TAG_EXPOSURE_TIME, TAG_ISO_SPEED, TAG_MAKE, TAG_MAKER_NOTE, TAG_MODEL, TAG_SENSITIVITY_TYPE,
    TAG_STANDARD_OUTPUT_SENSITIVITY,
};
use darkmagic::value::TypedValue;

fn ascii(s: &str) -> TypedValue {
    TypedValue::Ascii(vec![s.as_bytes().to_vec()])
}

/// A little-endian maker-note blob holding one ShotInfo array of 13 shorts
/// whose temperature element is `temp_raw`.
fn makernote_with_temp(temp_raw: u16) -> Vec<u8> {
    let mut blob = vec![1u8, 0];
    blob.extend_from_slice(&4u16.to_le_bytes());
    blob.extend_from_slice(&3u16.to_le_bytes());
    blob.extend_from_slice(&13u32.to_le_bytes());
    blob.extend_from_slice(&14u32.to_le_bytes());
    for i in 0..13u16 {
        let v = if i == 12 { temp_raw } else { i };
        blob.extend_from_slice(&v.to_le_bytes());
    }
    blob.extend(vec![0x49, 0x49, 42, 0, 0, 0, 0, 0]);
    blob
}

fn canon_store() -> TagStore {
    let mut store = TagStore::new();
    store.add(TAG_EXIF_VERSION, TypedValue::Undefined(b"0230".to_vec()));
    store.add(TAG_MAKE, ascii("Canon"));
    store.add(TAG_MODEL, ascii("Canon EOS 5D"));
    store.add(TAG_BODY_SERIAL_NUMBER, ascii("123456789"));
    store.add(TAG_SENSITIVITY_TYPE, TypedValue::Short(vec![3]));
    store.add(TAG_ISO_SPEED, TypedValue::Long(vec![400]));
    store.add(TAG_EXPOSURE_TIME, TypedValue::Rational(vec![(1, 250)]));
    store.add(TAG_MAKER_NOTE, TypedValue::Undefined(makernote_with_temp(148)));
    store
}

#[test]
fn atoi_reads_digits() {
    assert_eq!(atoi(b"02"), Ok(2));
    assert_eq!(atoi(b"30"), Ok(30));
    assert_eq!(atoi(b"7"), Ok(7));
    assert_eq!(atoi(b"123"), Err(MetaError::BadVersionDigits));
    assert_eq!(atoi(b"3x"), Err(MetaError::BadVersionDigits));
    assert_eq!(atoi(b""), Err(MetaError::BadVersionDigits));
}

#[test]
fn model_name_no_duplication() {
    let got = compose_model(&b"Canon".to_vec(), &b"Canon EOS 5D".to_vec());
    assert_eq!(got, b"Canon EOS 5D".to_vec());
}

#[test]
fn model_name_joined_with_one_space() {
    let got = compose_model(&b"Nikon".to_vec(), &b"D850".to_vec());
    assert_eq!(got, b"Nikon D850".to_vec());
}

#[test]
fn model_name_make_already_ends_with_space() {
    let got = compose_model(&b"Nikon ".to_vec(), &b"D850".to_vec());
    assert_eq!(got, b"Nikon D850".to_vec());
}

#[test]
fn sensitivity_iso_selected() {
    let store = canon_store();
    assert_eq!(get_sensitivity(&store), Ok((400, SENSITIVITY_TYPE_ISO)));
}

#[test]
fn sensitivity_unknown_type_unsupported() {
    let mut store = TagStore::new();
    store.add(TAG_EXIF_VERSION, TypedValue::Undefined(b"0230".to_vec()));
    store.add(TAG_SENSITIVITY_TYPE, TypedValue::Short(vec![8]));
    let got = get_sensitivity(&store);
    assert_eq!(got, Err(MetaError::UnsupportedSensitivityType(8)));
    assert!(got.unwrap_err().is_unsupported());
}

#[test]
fn sensitivity_sos_selected() {
    let mut store = TagStore::new();
    store.add(TAG_EXIF_VERSION, TypedValue::Undefined(b"0230".to_vec()));
    store.add(TAG_SENSITIVITY_TYPE, TypedValue::Short(vec![1]));
    store.add(
        TAG_STANDARD_OUTPUT_SENSITIVITY,
        TypedValue::Long(vec![200]),
    );
    assert_eq!(get_sensitivity(&store), Ok((200, 1)));
}

#[test]
fn old_version_unsupported() {
    let mut store = canon_store();
    store.fields[0] = (TAG_EXIF_VERSION, TypedValue::Undefined(b"0229".to_vec()));
    assert_eq!(get_sensitivity(&store), Err(MetaError::UnsupportedVersion));
}

#[test]
fn missing_version_field() {
    let store = TagStore::new();
    assert_eq!(
        get_sensitivity(&store),
        Err(MetaError::MissingField(TAG_EXIF_VERSION))
    );
}

#[test]
fn temperature_from_shotinfo_offset() {
    let entries = vec![IfdEntry {
        tag: 4,
        value: TypedValue::Short((0..12).chain([148]).collect()),
    }];
    assert_eq!(shotinfo_temperature(&entries), Ok(20));
}

#[test]
fn temperature_short_array_invalid() {
    let entries = vec![IfdEntry {
        tag: 4,
        value: TypedValue::Short(vec![0; 12]),
    }];
    assert_eq!(shotinfo_temperature(&entries), Err(MetaError::ShotInfoTooShort));
}

#[test]
fn temperature_missing_shotinfo() {
    let entries = vec![IfdEntry {
        tag: 9,
        value: TypedValue::Short(vec![0; 13]),
    }];
    assert_eq!(shotinfo_temperature(&entries), Err(MetaError::MissingShotInfo));
}

#[test]
fn temperature_wrong_variant() {
    let entries = vec![IfdEntry {
        tag: 4,
        value: TypedValue::Long(vec![0; 13]),
    }];
    assert_eq!(shotinfo_temperature(&entries), Err(MetaError::ShotInfoNotShort));
}

#[test]
fn temperature_below_offset_is_negative() {
    let entries = vec![IfdEntry {
        tag: 4,
        value: TypedValue::Short((0..12).chain([100]).collect()),
    }];
    assert_eq!(shotinfo_temperature(&entries), Ok(-28));
}

#[test]
fn end_to_end_canon() {
    let parser = MetadataParser::new();
    let got = parser.extract(&canon_store()).unwrap();
    let want = ImageMetadata {
        camera_model: b"Canon EOS 5D".to_vec(),
        camera_serial_number: b"123456789".to_vec(),
        sensor_sensitivity: 400,
        sensitivity_type: 3,
        exposure_num: 1,
        exposure_den: 250,
        temperature: 20,
    };
    assert_eq!(got, want);
}

#[test]
fn end_to_end_nikon_unsupported_at_temperature() {
    let mut store = canon_store();
    store.fields[1] = (TAG_MAKE, ascii("Nikon"));
    let parser = MetadataParser::new();
    assert_eq!(parser.extract(&store), Err(MetaError::UnsupportedMake));
    // every field but the temperature is still computable in isolation
    assert!(get_sensitivity(&store).is_ok());
    assert_eq!(get_temperature(&store), Err(MetaError::UnsupportedMake));
}

#[test]
fn end_to_end_bad_makernote() {
    let mut store = canon_store();
    store.fields[7] = (TAG_MAKER_NOTE, TypedValue::Undefined(vec![1, 2, 3]));
    let parser = MetadataParser::new();
    assert_eq!(
        parser.extract(&store),
        Err(MetaError::MakerNote(
            darkmagic::error::DecodeError::TooShort
        ))
    );
}

#[test]
fn wrong_cardinality_rejected() {
    let mut store = canon_store();
    store.fields[4] = (TAG_SENSITIVITY_TYPE, TypedValue::Short(vec![3, 3]));
    assert_eq!(
        get_sensitivity(&store),
        Err(MetaError::WrongCardinality(TAG_SENSITIVITY_TYPE))
    );
}

#[test]
fn wrong_type_rejected() {
    let mut store = canon_store();
    store.fields[4] = (TAG_SENSITIVITY_TYPE, TypedValue::Long(vec![3]));
    assert_eq!(
        get_sensitivity(&store),
        Err(MetaError::WrongType(TAG_SENSITIVITY_TYPE))
    );
}
