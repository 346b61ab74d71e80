//! The metadata extraction protocol: queries a tag-keyed store of typed
//! values for the standard fields, applies the domain rules (version gating,
//! sensitivity-type selection, manufacturer gating), and decodes the
//! maker note for the sensor temperature.
//!
//! The store is a narrow capability interface: whoever parsed the metadata
//! container hands the decoded fields over as plain typed values, keyed by
//! tag. Text fields are carried as raw byte strings; callers that need
//! character strings validate the encoding themselves.

use vstd::prelude::*;
use vstd::slice::slice_subrange;

use crate::error::MetaError;
use crate::ifd::{parse_canon_makernote, spec_parse_canon_makernote, EntryModel, IfdEntry};
use crate::value::{TypedValue, ValueModel};

verus! {

pub const TAG_EXIF_VERSION: u16 = 0x9000;

pub const TAG_MAKER_NOTE: u16 = 0x927c;

pub const TAG_MAKE: u16 = 0x010f;

pub const TAG_MODEL: u16 = 0x0110;

pub const TAG_BODY_SERIAL_NUMBER: u16 = 0xa431;

pub const TAG_SENSITIVITY_TYPE: u16 = 0x8830;

pub const TAG_STANDARD_OUTPUT_SENSITIVITY: u16 = 0x8831;

pub const TAG_RECOMMENDED_EXPOSURE_INDEX: u16 = 0x8832;

pub const TAG_ISO_SPEED: u16 = 0x8833;

pub const TAG_EXPOSURE_TIME: u16 = 0x829a;

pub const SENSITIVITY_TYPE_SOS: u16 = 1;

pub const SENSITIVITY_TYPE_REI: u16 = 2;

pub const SENSITIVITY_TYPE_ISO: u16 = 3;

pub const SENSITIVITY_TYPE_SOS_AND_REI: u16 = 4;

pub const SENSITIVITY_TYPE_SOS_AND_ISO: u16 = 5;

pub const SENSITIVITY_TYPE_REI_AND_ISO: u16 = 6;

pub const SENSITIVITY_TYPE_SOS_AND_REI_AND_ISO: u16 = 7;

pub const TAG_CANON_SHOTINFO: u16 = 4;

pub const SHOTINFO_CAMERA_TEMPERATURE: usize = 12;

/// The sensor stores the temperature with this count offset.
pub const SHOTINFO_TEMPERATURE_OFFSET: i32 = 128;

/// A tag-keyed store of decoded metadata fields, as handed over by whoever
/// parsed the metadata container.
pub struct TagStore {
    pub fields: Vec<(u16, TypedValue)>,
}

/// First value stored under `tag`, if any.
pub open spec fn lookup(fields: Seq<(u16, ValueModel)>, tag: u16) -> Option<ValueModel>
    decreases fields.len(),
{
    if fields.len() == 0 {
        None
    } else if fields[0].0 == tag {
        Some(fields[0].1)
    } else {
        lookup(fields.skip(1), tag)
    }
}

impl View for TagStore {
    type V = Seq<(u16, ValueModel)>;

    open spec fn view(&self) -> Seq<(u16, ValueModel)> {
        Seq::new(self.fields@.len(), |i: int| (self.fields@[i].0, self.fields@[i].1@))
    }
}

impl TagStore {
    pub fn new() -> (r: TagStore)
        ensures
            r@ == Seq::<(u16, ValueModel)>::empty(),
    {
        let r = TagStore { fields: Vec::new() };
        proof {
            assert(r@ =~= Seq::<(u16, ValueModel)>::empty());
        }
        r
    }

    /// Append a field; an earlier field under the same tag keeps priority.
    pub fn add(&mut self, tag: u16, value: TypedValue)
        ensures
            final(self)@ == old(self)@.push((tag, value@)),
    {
        let ghost prev = self@;
        let ghost v = value@;
        self.fields.push((tag, value));
        proof {
            assert(self@ =~= prev.push((tag, v)));
        }
    }

    /// The first field stored under `tag`.
    pub fn get_field(&self, tag: u16) -> (r: Option<&TypedValue>)
        ensures
            match r {
                Some(v) => lookup(self@, tag) == Some(v@),
                None => lookup(self@, tag).is_none(),
            },
    {
        let n = self.fields.len();
        proof {
            assert(self@.skip(0) =~= self@);
        }
        for i in 0..n
            invariant
                n == self.fields@.len(),
                lookup(self@, tag) == lookup(self@.skip(i as int), tag),
        {
            proof {
                assert(self@.skip(i as int)[0] == self@[i as int]);
                assert(self@.skip(i as int).skip(1) =~= self@.skip(i + 1));
            }
            if self.fields[i].0 == tag {
                return Some(&self.fields[i].1);
            }
        }
        proof {
            assert(self@.skip(n as int) =~= Seq::<(u16, ValueModel)>::empty());
        }
        None
    }
}

/// The numeric value of one or two ASCII digits.
pub open spec fn spec_atoi(data: Seq<u8>) -> Result<u8, MetaError> {
    if data.len() == 1 && is_ascii_digit(data[0]) {
        Ok((data[0] - 0x30) as u8)
    } else if data.len() == 2 && is_ascii_digit(data[0]) && is_ascii_digit(data[1]) {
        Ok(((data[0] - 0x30) * 10 + (data[1] - 0x30)) as u8)
    } else {
        Err(MetaError::BadVersionDigits)
    }
}

pub open spec fn is_ascii_digit(b: u8) -> bool {
    0x30 <= b <= 0x39
}

/// Convert the given ASCII digit data to an integer.
pub fn atoi(data: &[u8]) -> (r: Result<u8, MetaError>)
    ensures
        match r {
            Ok(v) => spec_atoi(data@) == Ok::<u8, MetaError>(v),
            Err(e) => spec_atoi(data@) == Err::<u8, MetaError>(e),
        },
{
    if data.len() == 1 && 0x30 <= data[0] && data[0] <= 0x39 {
        Ok(data[0] - 0x30)
    } else if data.len() == 2 && 0x30 <= data[0] && data[0] <= 0x39 && 0x30 <= data[1] && data[1]
        <= 0x39 {
        Ok((data[0] - 0x30) * 10 + (data[1] - 0x30))
    } else {
        Err(MetaError::BadVersionDigits)
    }
}

/// The (major, minor) version held by the version field: four ASCII digits,
/// two for each part.
pub open spec fn spec_get_exif_version(fields: Seq<(u16, ValueModel)>) -> Result<
    (u8, u8),
    MetaError,
> {
    match lookup(fields, TAG_EXIF_VERSION) {
        None => Err(MetaError::MissingField(TAG_EXIF_VERSION)),
        Some(v) => match v {
            ValueModel::Undefined(data) => if data.len() != 4 {
                Err(MetaError::WrongCardinality(TAG_EXIF_VERSION))
            } else {
                match spec_atoi(data.subrange(0, 2)) {
                    Err(e) => Err(e),
                    Ok(major) => match spec_atoi(data.subrange(2, 4)) {
                        Err(e) => Err(e),
                        Ok(minor) => Ok((major, minor)),
                    },
                }
            },
            _ => Err(MetaError::WrongType(TAG_EXIF_VERSION)),
        },
    }
}

pub fn get_exif_version(store: &TagStore) -> (r: Result<(u8, u8), MetaError>)
    ensures
        match r {
            Ok(v) => spec_get_exif_version(store@) == Ok::<(u8, u8), MetaError>(v),
            Err(e) => spec_get_exif_version(store@) == Err::<(u8, u8), MetaError>(e),
        },
{
    match store.get_field(TAG_EXIF_VERSION) {
        None => Err(MetaError::MissingField(TAG_EXIF_VERSION)),
        Some(v) => match v {
            TypedValue::Undefined(data) => {
                if data.len() != 4 {
                    return Err(MetaError::WrongCardinality(TAG_EXIF_VERSION));
                }
                let major = match atoi(slice_subrange(data.as_slice(), 0, 2)) {
                    Ok(m) => m,
                    Err(e) => {
                        return Err(e);
                    },
                };
                let minor = match atoi(slice_subrange(data.as_slice(), 2, 4)) {
                    Ok(m) => m,
                    Err(e) => {
                        return Err(e);
                    },
                };
                Ok((major, minor))
            },
            _ => Err(MetaError::WrongType(TAG_EXIF_VERSION)),
        },
    }
}

/// Whether a (major, minor) version is at least 2.30.
pub open spec fn spec_version_supported(major: u8, minor: u8) -> bool {
    major > 2 || (major == 2 && minor >= 30)
}

/// The raw bytes of the maker-note field.
pub open spec fn spec_get_makernote(fields: Seq<(u16, ValueModel)>) -> Result<Seq<u8>, MetaError> {
    match lookup(fields, TAG_MAKER_NOTE) {
        None => Err(MetaError::MissingField(TAG_MAKER_NOTE)),
        Some(v) => match v {
            ValueModel::Undefined(data) => Ok(data),
            _ => Err(MetaError::WrongType(TAG_MAKER_NOTE)),
        },
    }
}

pub fn get_makernote(store: &TagStore) -> (r: Result<Vec<u8>, MetaError>)
    ensures
        match r {
            Ok(v) => spec_get_makernote(store@) == Ok::<Seq<u8>, MetaError>(v@),
            Err(e) => spec_get_makernote(store@) == Err::<Seq<u8>, MetaError>(e),
        },
{
    match store.get_field(TAG_MAKER_NOTE) {
        None => Err(MetaError::MissingField(TAG_MAKER_NOTE)),
        Some(v) => match v {
            TypedValue::Undefined(data) => Ok(copy_bytes(data)),
            _ => Err(MetaError::WrongType(TAG_MAKER_NOTE)),
        },
    }
}

fn copy_bytes(data: &Vec<u8>) -> (r: Vec<u8>)
    ensures
        r@ == data@,
{
    let mut out: Vec<u8> = Vec::new();
    let n = data.len();
    for i in 0..n
        invariant
            n == data@.len(),
            out@ =~= data@.take(i as int),
    {
        out.push(data[i]);
    }
    proof {
        assert(out@ =~= data@);
    }
    out
}

/// The single byte string held by an ASCII field.
pub open spec fn spec_get_str_field(fields: Seq<(u16, ValueModel)>, tag: u16) -> Result<
    Seq<u8>,
    MetaError,
> {
    match lookup(fields, tag) {
        None => Err(MetaError::MissingField(tag)),
        Some(v) => match v {
            ValueModel::Ascii(data) => if data.len() != 1 {
                Err(MetaError::WrongCardinality(tag))
            } else {
                Ok(data[0])
            },
            _ => Err(MetaError::WrongType(tag)),
        },
    }
}

pub fn get_str_field(store: &TagStore, tag: u16) -> (r: Result<Vec<u8>, MetaError>)
    ensures
        match r {
            Ok(v) => spec_get_str_field(store@, tag) == Ok::<Seq<u8>, MetaError>(v@),
            Err(e) => spec_get_str_field(store@, tag) == Err::<Seq<u8>, MetaError>(e),
        },
{
    match store.get_field(tag) {
        None => Err(MetaError::MissingField(tag)),
        Some(v) => match v {
            TypedValue::Ascii(data) => {
                if data.len() != 1 {
                    return Err(MetaError::WrongCardinality(tag));
                }
                let s = copy_bytes(&data[0]);
                proof {
                    assert(data.deep_view()[0] =~= s@);
                }
                Ok(s)
            },
            _ => Err(MetaError::WrongType(tag)),
        },
    }
}

/// The single element held by an unsigned 16-bit field.
pub open spec fn spec_get_u16_field(fields: Seq<(u16, ValueModel)>, tag: u16) -> Result<
    u16,
    MetaError,
> {
    match lookup(fields, tag) {
        None => Err(MetaError::MissingField(tag)),
        Some(v) => match v {
            ValueModel::Short(data) => if data.len() != 1 {
                Err(MetaError::WrongCardinality(tag))
            } else {
                Ok(data[0])
            },
            _ => Err(MetaError::WrongType(tag)),
        },
    }
}

pub fn get_u16_field(store: &TagStore, tag: u16) -> (r: Result<u16, MetaError>)
    ensures
        match r {
            Ok(v) => spec_get_u16_field(store@, tag) == Ok::<u16, MetaError>(v),
            Err(e) => spec_get_u16_field(store@, tag) == Err::<u16, MetaError>(e),
        },
{
    match store.get_field(tag) {
        None => Err(MetaError::MissingField(tag)),
        Some(v) => match v {
            TypedValue::Short(data) => {
                if data.len() != 1 {
                    return Err(MetaError::WrongCardinality(tag));
                }
                Ok(data[0])
            },
            _ => Err(MetaError::WrongType(tag)),
        },
    }
}

/// The single element held by an unsigned 32-bit field.
pub open spec fn spec_get_u32_field(fields: Seq<(u16, ValueModel)>, tag: u16) -> Result<
    u32,
    MetaError,
> {
    match lookup(fields, tag) {
        None => Err(MetaError::MissingField(tag)),
        Some(v) => match v {
            ValueModel::Long(data) => if data.len() != 1 {
                Err(MetaError::WrongCardinality(tag))
            } else {
                Ok(data[0])
            },
            _ => Err(MetaError::WrongType(tag)),
        },
    }
}

pub fn get_u32_field(store: &TagStore, tag: u16) -> (r: Result<u32, MetaError>)
    ensures
        match r {
            Ok(v) => spec_get_u32_field(store@, tag) == Ok::<u32, MetaError>(v),
            Err(e) => spec_get_u32_field(store@, tag) == Err::<u32, MetaError>(e),
        },
{
    match store.get_field(tag) {
        None => Err(MetaError::MissingField(tag)),
        Some(v) => match v {
            TypedValue::Long(data) => {
                if data.len() != 1 {
                    return Err(MetaError::WrongCardinality(tag));
                }
                Ok(data[0])
            },
            _ => Err(MetaError::WrongType(tag)),
        },
    }
}

/// The single (numerator, denominator) pair held by an unsigned rational
/// field.
pub open spec fn spec_get_rational_field(fields: Seq<(u16, ValueModel)>, tag: u16) -> Result<
    (u32, u32),
    MetaError,
> {
    match lookup(fields, tag) {
        None => Err(MetaError::MissingField(tag)),
        Some(v) => match v {
            ValueModel::Rational(data) => if data.len() != 1 {
                Err(MetaError::WrongCardinality(tag))
            } else {
                Ok(data[0])
            },
            _ => Err(MetaError::WrongType(tag)),
        },
    }
}

/// The composed camera name: the model verbatim when it already starts with
/// the make, else the make and the model joined by exactly one space.
pub open spec fn spec_compose_model(make: Seq<u8>, model: Seq<u8>) -> Seq<u8> {
    if model.len() >= make.len() && model.subrange(0, make.len() as int) == make {
        model
    } else if make.len() > 0 && make.last() == 0x20 {
        make + model
    } else {
        make + seq![0x20u8] + model
    }
}

fn starts_with(text: &Vec<u8>, prefix: &Vec<u8>) -> (r: bool)
    ensures
        r == (text@.len() >= prefix@.len() && text@.subrange(0, prefix@.len() as int) == prefix@),
{
    let np = prefix.len();
    if text.len() < np {
        return false;
    }
    for i in 0..np
        invariant
            np == prefix@.len(),
            np <= text@.len(),
            forall|k: int| 0 <= k < i ==> text@[k] == prefix@[k],
    {
        if text[i] != prefix[i] {
            proof {
                assert(text@.subrange(0, np as int)[i as int] != prefix@[i as int]);
            }
            return false;
        }
    }
    proof {
        assert(text@.subrange(0, np as int) =~= prefix@);
    }
    true
}

/// Compose make and model into the camera name.
pub fn compose_model(make: &Vec<u8>, model: &Vec<u8>) -> (r: Vec<u8>)
    ensures
        r@ == spec_compose_model(make@, model@),
{
    if starts_with(model, make) {
        let r = copy_bytes(model);
        r
    } else {
        let mut r = copy_bytes(make);
        if make.len() == 0 || make[make.len() - 1] != 0x20 {
            r.push(0x20);
            proof {
                assert(r@ =~= make@ + seq![0x20u8]);
            }
        }
        let n = model.len();
        let ghost base = r@;
        for i in 0..n
            invariant
                n == model@.len(),
                r@ == base + model@.take(i as int),
        {
            proof {
                assert(base + model@.take(i as int) + seq![model@[i as int]] =~= base + model@.take(
                    i + 1,
                ));
            }
            r.push(model[i]);
        }
        proof {
            assert(base + model@.take(n as int) =~= base + model@);
            if !(make@.len() > 0 && make@.last() == 0x20) {
                assert(make@ + seq![0x20u8] + model@ =~= base + model@);
            }
        }
        r
    }
}

/// The camera name composed from the make and model fields.
pub open spec fn spec_get_model(fields: Seq<(u16, ValueModel)>) -> Result<Seq<u8>, MetaError> {
    match spec_get_str_field(fields, TAG_MAKE) {
        Err(e) => Err(e),
        Ok(make) => match spec_get_str_field(fields, TAG_MODEL) {
            Err(e) => Err(e),
            Ok(model) => Ok(spec_compose_model(make, model)),
        },
    }
}

pub fn get_model(store: &TagStore) -> (r: Result<Vec<u8>, MetaError>)
    ensures
        match r {
            Ok(v) => spec_get_model(store@) == Ok::<Seq<u8>, MetaError>(v@),
            Err(e) => spec_get_model(store@) == Err::<Seq<u8>, MetaError>(e),
        },
{
    let make = match get_str_field(store, TAG_MAKE) {
        Ok(m) => m,
        Err(e) => {
            return Err(e);
        },
    };
    let model = match get_str_field(store, TAG_MODEL) {
        Ok(m) => m,
        Err(e) => {
            return Err(e);
        },
    };
    Ok(compose_model(&make, &model))
}

pub open spec fn spec_get_make(fields: Seq<(u16, ValueModel)>) -> Result<Seq<u8>, MetaError> {
    spec_get_str_field(fields, TAG_MAKE)
}

pub fn get_make(store: &TagStore) -> (r: Result<Vec<u8>, MetaError>)
    ensures
        match r {
            Ok(v) => spec_get_make(store@) == Ok::<Seq<u8>, MetaError>(v@),
            Err(e) => spec_get_make(store@) == Err::<Seq<u8>, MetaError>(e),
        },
{
    get_str_field(store, TAG_MAKE)
}

pub open spec fn spec_get_serial_number(fields: Seq<(u16, ValueModel)>) -> Result<
    Seq<u8>,
    MetaError,
> {
    spec_get_str_field(fields, TAG_BODY_SERIAL_NUMBER)
}

pub fn get_serial_number(store: &TagStore) -> (r: Result<Vec<u8>, MetaError>)
    ensures
        match r {
            Ok(v) => spec_get_serial_number(store@) == Ok::<Seq<u8>, MetaError>(v@),
            Err(e) => spec_get_serial_number(store@) == Err::<Seq<u8>, MetaError>(e),
        },
{
    get_str_field(store, TAG_BODY_SERIAL_NUMBER)
}

/// Which field a sensitivity type code selects, per the fixed dispatch
/// table; `None` for a code outside the seven defined ones.
pub open spec fn spec_sensitivity_source(sensitivity_type: u16) -> Option<u16> {
    if sensitivity_type == SENSITIVITY_TYPE_SOS {
        Some(TAG_STANDARD_OUTPUT_SENSITIVITY)
    } else if sensitivity_type == SENSITIVITY_TYPE_REI {
        Some(TAG_RECOMMENDED_EXPOSURE_INDEX)
    } else if sensitivity_type == SENSITIVITY_TYPE_ISO {
        Some(TAG_ISO_SPEED)
    } else if sensitivity_type == SENSITIVITY_TYPE_SOS_AND_REI {
        Some(TAG_ISO_SPEED)
    } else if sensitivity_type == SENSITIVITY_TYPE_SOS_AND_ISO {
        Some(TAG_STANDARD_OUTPUT_SENSITIVITY)
    } else if sensitivity_type == SENSITIVITY_TYPE_REI_AND_ISO {
        Some(TAG_ISO_SPEED)
    } else if sensitivity_type == SENSITIVITY_TYPE_SOS_AND_REI_AND_ISO {
        Some(TAG_ISO_SPEED)
    } else {
        None
    }
}

pub fn sensitivity_source(sensitivity_type: u16) -> (r: Option<u16>)
    ensures
        r == spec_sensitivity_source(sensitivity_type),
{
    match sensitivity_type {
        SENSITIVITY_TYPE_SOS => Some(TAG_STANDARD_OUTPUT_SENSITIVITY),
        SENSITIVITY_TYPE_REI => Some(TAG_RECOMMENDED_EXPOSURE_INDEX),
        SENSITIVITY_TYPE_ISO => Some(TAG_ISO_SPEED),
        SENSITIVITY_TYPE_SOS_AND_REI => Some(TAG_ISO_SPEED),
        SENSITIVITY_TYPE_SOS_AND_ISO => Some(TAG_STANDARD_OUTPUT_SENSITIVITY),
        SENSITIVITY_TYPE_REI_AND_ISO => Some(TAG_ISO_SPEED),
        SENSITIVITY_TYPE_SOS_AND_REI_AND_ISO => Some(TAG_ISO_SPEED),
        _ => None,
    }
}

/// The (sensitivity value, sensitivity type) pair: gated on version 2.30,
/// then read from the field the type code selects.
pub open spec fn spec_get_sensitivity(fields: Seq<(u16, ValueModel)>) -> Result<
    (u32, u16),
    MetaError,
> {
    match spec_get_exif_version(fields) {
        Err(e) => Err(e),
        Ok(version) => if !spec_version_supported(version.0, version.1) {
            Err(MetaError::UnsupportedVersion)
        } else {
            match spec_get_u16_field(fields, TAG_SENSITIVITY_TYPE) {
                Err(e) => Err(e),
                Ok(sensitivity_type) => match spec_sensitivity_source(sensitivity_type) {
                    None => Err(MetaError::UnsupportedSensitivityType(sensitivity_type)),
                    Some(tag) => match spec_get_u32_field(fields, tag) {
                        Err(e) => Err(e),
                        Ok(v) => Ok((v, sensitivity_type)),
                    },
                },
            }
        },
    }
}

pub fn get_sensitivity(store: &TagStore) -> (r: Result<(u32, u16), MetaError>)
    ensures
        match r {
            Ok(v) => spec_get_sensitivity(store@) == Ok::<(u32, u16), MetaError>(v),
            Err(e) => spec_get_sensitivity(store@) == Err::<(u32, u16), MetaError>(e),
        },
{
    let version = match get_exif_version(store) {
        Ok(v) => v,
        Err(e) => {
            return Err(e);
        },
    };
    if !(version.0 > 2 || (version.0 == 2 && version.1 >= 30)) {
        return Err(MetaError::UnsupportedVersion);
    }
    let sensitivity_type = match get_u16_field(store, TAG_SENSITIVITY_TYPE) {
        Ok(v) => v,
        Err(e) => {
            return Err(e);
        },
    };
    let tag = match sensitivity_source(sensitivity_type) {
        Some(t) => t,
        None => {
            return Err(MetaError::UnsupportedSensitivityType(sensitivity_type));
        },
    };
    match get_u32_field(store, tag) {
        Ok(v) => Ok((v, sensitivity_type)),
        Err(e) => Err(e),
    }
}

/// Exposure time in seconds, as the raw (numerator, denominator) pair.
pub open spec fn spec_get_exposure_time(fields: Seq<(u16, ValueModel)>) -> Result<
    (u32, u32),
    MetaError,
> {
    spec_get_rational_field(fields, TAG_EXPOSURE_TIME)
}

pub fn get_exposure_time(store: &TagStore) -> (r: Result<(u32, u32), MetaError>)
    ensures
        match r {
            Ok(v) => spec_get_exposure_time(store@) == Ok::<(u32, u32), MetaError>(v),
            Err(e) => spec_get_exposure_time(store@) == Err::<(u32, u32), MetaError>(e),
        },
{
    get_rational_field(store, TAG_EXPOSURE_TIME)
}

/// The byte string of the only supported manufacturer.
pub open spec fn canon_make() -> Seq<u8> {
    seq![0x43u8, 0x61u8, 0x6eu8, 0x6fu8, 0x6eu8]
}

fn is_canon(make: &Vec<u8>) -> (r: bool)
    ensures
        r == (make@ == canon_make()),
{
    let r = make.len() == 5 && make[0] == 0x43 && make[1] == 0x61 && make[2] == 0x6e && make[3]
        == 0x6f && make[4] == 0x6e;
    proof {
        if r {
            assert(make@ =~= canon_make());
        } else {
            assert(make@ != canon_make());
        }
    }
    r
}

/// The temperature in °C held by a decoded shot-information array: element
/// 12, less the 128-count storage offset.
pub open spec fn spec_shotinfo_temperature(entries: Seq<EntryModel>) -> Result<i32, MetaError>
    decreases entries.len(),
{
    if entries.len() == 0 {
        Err(MetaError::MissingShotInfo)
    } else if entries[0].tag == TAG_CANON_SHOTINFO {
        match entries[0].value {
            ValueModel::Short(data) => if data.len() >= SHOTINFO_CAMERA_TEMPERATURE + 1 {
                Ok((data[SHOTINFO_CAMERA_TEMPERATURE as int] - SHOTINFO_TEMPERATURE_OFFSET) as i32)
            } else {
                Err(MetaError::ShotInfoTooShort)
            },
            _ => Err(MetaError::ShotInfoNotShort),
        }
    } else {
        spec_shotinfo_temperature(entries.skip(1))
    }
}

/// Scan decoded maker-note entries for the shot-information array and read
/// the temperature out of it.
pub fn shotinfo_temperature(entries: &Vec<IfdEntry>) -> (r: Result<i32, MetaError>)
    ensures
        match r {
            Ok(v) => spec_shotinfo_temperature(entries.deep_view()) == Ok::<i32, MetaError>(v),
            Err(e) => spec_shotinfo_temperature(entries.deep_view()) == Err::<i32, MetaError>(e),
        },
{
    let n = entries.len();
    proof {
        assert(entries.deep_view().skip(0) =~= entries.deep_view());
    }
    for i in 0..n
        invariant
            n == entries@.len(),
            spec_shotinfo_temperature(entries.deep_view()) == spec_shotinfo_temperature(
                entries.deep_view().skip(i as int),
            ),
    {
        proof {
            assert(entries.deep_view().skip(i as int)[0] == entries.deep_view()[i as int]);
            assert(entries.deep_view().skip(i as int).skip(1) =~= entries.deep_view().skip(i + 1));
        }
        if entries[i].tag == TAG_CANON_SHOTINFO {
            match &entries[i].value {
                TypedValue::Short(data) => {
                    if data.len() >= SHOTINFO_CAMERA_TEMPERATURE + 1 {
                        return Ok(
                            (data[SHOTINFO_CAMERA_TEMPERATURE] as i32) - SHOTINFO_TEMPERATURE_OFFSET,
                        );
                    } else {
                        return Err(MetaError::ShotInfoTooShort);
                    }
                },
                _ => {
                    return Err(MetaError::ShotInfoNotShort);
                },
            }
        }
    }
    proof {
        assert(entries.deep_view().skip(n as int) =~= Seq::<EntryModel>::empty());
    }
    Err(MetaError::MissingShotInfo)
}

/// The sensor temperature: gated on the one supported manufacturer, then
/// decoded out of the maker-note blob.
pub open spec fn spec_get_temperature(fields: Seq<(u16, ValueModel)>) -> Result<i32, MetaError> {
    match spec_get_make(fields) {
        Err(e) => Err(e),
        Ok(make) => if make != canon_make() {
            Err(MetaError::UnsupportedMake)
        } else {
            match spec_get_makernote(fields) {
                Err(e) => Err(e),
                Ok(blob) => match spec_parse_canon_makernote(blob) {
                    Err(de) => Err(MetaError::MakerNote(de)),
                    Ok(entries) => spec_shotinfo_temperature(entries),
                },
            }
        },
    }
}

pub fn get_temperature(store: &TagStore) -> (r: Result<i32, MetaError>)
    ensures
        match r {
            Ok(v) => spec_get_temperature(store@) == Ok::<i32, MetaError>(v),
            Err(e) => spec_get_temperature(store@) == Err::<i32, MetaError>(e),
        },
{
    let make = match get_make(store) {
        Ok(m) => m,
        Err(e) => {
            return Err(e);
        },
    };
    if !is_canon(&make) {
        return Err(MetaError::UnsupportedMake);
    }
    let blob = match get_makernote(store) {
        Ok(b) => b,
        Err(e) => {
            return Err(e);
        },
    };
    let entries = match parse_canon_makernote(blob.as_slice()) {
        Ok(en) => en,
        Err(de) => {
            return Err(MetaError::MakerNote(de));
        },
    };
    shotinfo_temperature(&entries)
}

pub fn get_rational_field(store: &TagStore, tag: u16) -> (r: Result<(u32, u32), MetaError>)
    ensures
        match r {
            Ok(v) => spec_get_rational_field(store@, tag) == Ok::<(u32, u32), MetaError>(v),
            Err(e) => spec_get_rational_field(store@, tag) == Err::<(u32, u32), MetaError>(e),
        },
{
    match store.get_field(tag) {
        None => Err(MetaError::MissingField(tag)),
        Some(v) => match v {
            TypedValue::Rational(data) => {
                if data.len() != 1 {
                    return Err(MetaError::WrongCardinality(tag));
                }
                Ok(data[0])
            },
            _ => Err(MetaError::WrongType(tag)),
        },
    }
}

/// The final extraction result. Text fields are raw byte strings; the
/// exposure time is the raw numerator/denominator pair in seconds; the
/// temperature is whole degrees Celsius.
#[derive(Clone, PartialEq, Eq, Debug)]
pub struct ImageMetadata {
    pub camera_model: Vec<u8>,
    pub camera_serial_number: Vec<u8>,
    pub sensor_sensitivity: u32,
    pub sensitivity_type: u16,
    pub exposure_num: u32,
    pub exposure_den: u32,
    pub temperature: i32,
}

/// The mathematical shape of an `ImageMetadata`.
pub struct MetadataModel {
    pub camera_model: Seq<u8>,
    pub camera_serial_number: Seq<u8>,
    pub sensor_sensitivity: u32,
    pub sensitivity_type: u16,
    pub exposure_num: u32,
    pub exposure_den: u32,
    pub temperature: i32,
}

impl View for ImageMetadata {
    type V = MetadataModel;

    open spec fn view(&self) -> MetadataModel {
        MetadataModel {
            camera_model: self.camera_model@,
            camera_serial_number: self.camera_serial_number@,
            sensor_sensitivity: self.sensor_sensitivity,
            sensitivity_type: self.sensitivity_type,
            exposure_num: self.exposure_num,
            exposure_den: self.exposure_den,
            temperature: self.temperature,
        }
    }
}

/// What the whole protocol extracts from a tag store: each step fails fast,
/// and the first error aborts the extraction.
pub open spec fn spec_extract(fields: Seq<(u16, ValueModel)>) -> Result<MetadataModel, MetaError> {
    match spec_get_sensitivity(fields) {
        Err(e) => Err(e),
        Ok(sens) => match spec_get_model(fields) {
            Err(e) => Err(e),
            Ok(camera_model) => match spec_get_serial_number(fields) {
                Err(e) => Err(e),
                Ok(camera_serial_number) => match spec_get_exposure_time(fields) {
                    Err(e) => Err(e),
                    Ok(exposure_time) => match spec_get_temperature(fields) {
                        Err(e) => Err(e),
                        Ok(temperature) => Ok(
                            MetadataModel {
                                camera_model,
                                camera_serial_number,
                                sensor_sensitivity: sens.0,
                                sensitivity_type: sens.1,
                                exposure_num: exposure_time.0,
                                exposure_den: exposure_time.1,
                                temperature,
                            },
                        ),
                    },
                },
            },
        },
    }
}

pub struct MetadataParser {}

impl MetadataParser {
    pub fn new() -> MetadataParser {
        MetadataParser {  }
    }

    /// Run the whole extraction protocol over a tag store.
    pub fn extract(&self, store: &TagStore) -> (r: Result<ImageMetadata, MetaError>)
        ensures
            match r {
                Ok(m) => spec_extract(store@) == Ok::<MetadataModel, MetaError>(m@),
                Err(e) => spec_extract(store@) == Err::<MetadataModel, MetaError>(e),
            },
    {
        let sens = match get_sensitivity(store) {
            Ok(v) => v,
            Err(e) => {
                return Err(e);
            },
        };
        let camera_model = match get_model(store) {
            Ok(v) => v,
            Err(e) => {
                return Err(e);
            },
        };
        let camera_serial_number = match get_serial_number(store) {
            Ok(v) => v,
            Err(e) => {
                return Err(e);
            },
        };
        let exposure_time = match get_exposure_time(store) {
            Ok(v) => v,
            Err(e) => {
                return Err(e);
            },
        };
        let temperature = match get_temperature(store) {
            Ok(v) => v,
            Err(e) => {
                return Err(e);
            },
        };
        Ok(
            ImageMetadata {
                camera_model,
                camera_serial_number,
                sensor_sensitivity: sens.0,
                sensitivity_type: sens.1,
                exposure_num: exposure_time.0,
                exposure_den: exposure_time.1,
                temperature,
            },
        )
    }
}

/// When every other step succeeds but the make is not the supported
/// manufacturer, the whole extraction aborts with `UnsupportedMake` at the
/// temperature step: the other fields stay computable in isolation.
pub proof fn lemma_non_canon_aborts(fields: Seq<(u16, ValueModel)>)
    requires
        spec_get_sensitivity(fields).is_ok(),
        spec_get_model(fields).is_ok(),
        spec_get_serial_number(fields).is_ok(),
        spec_get_exposure_time(fields).is_ok(),
        spec_get_make(fields).is_ok(),
        spec_get_make(fields)->Ok_0 != canon_make(),
    ensures
        spec_extract(fields) == Err::<MetadataModel, MetaError>(MetaError::UnsupportedMake),
{
}

} // verus!
