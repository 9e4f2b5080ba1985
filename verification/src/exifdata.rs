//! The EXIF directory reader: trusted access to the primary image-file
//! directory, handing the verified code plain tag/value strings.

use vstd::prelude::*;

verus! {

/// One field of the image's EXIF directories, as plain values: the tag
/// name, the displayed value (with its unit), and what kind of raw value it
/// held.
pub struct ExifField {
    pub tag: String,
    pub display: String,
    /// The raw value was the undefined (binary) type.
    pub is_undefined: bool,
    /// The raw value was a byte array.
    pub is_byte: bool,
    /// For a byte-array value: its text, when it is valid UTF-8.
    pub byte_text: Option<String>,
}

/// The plain shape of one field: tag, display, undefined?, byte?, byte text.
pub open spec fn field_view(f: ExifField) -> (Seq<char>, Seq<char>, bool, bool, Option<Seq<char>>) {
    (f.tag@, f.display@, f.is_undefined, f.is_byte, f.byte_text.deep_view())
}

/// What reading the EXIF block of a buffer yields: the fields of all its
/// directories, in parse order, with their tag names, displayed values and
/// raw-value kinds, or nothing when the buffer holds no readable EXIF
/// block. A function of the bytes alone.
pub uninterp spec fn exif_fields_of(b: Seq<u8>) -> Option<
    Seq<(Seq<char>, Seq<char>, bool, bool, Option<Seq<char>>)>,
>;

/// What the Orientation field of the primary EXIF directory holds, when the
/// buffer has a readable EXIF block with that field set to an unsigned
/// value. A function of the bytes alone.
pub uninterp spec fn orientation_of(b: Seq<u8>) -> Option<u32>;

/// Relies on `exif::Reader::read_from_container`, `Exif::fields` and
/// `Field::display_value` with `with_unit`: lists the fields of every EXIF
/// directory in parse order, each with its tag name, displayed value and
/// raw-value kind.
#[verifier::external_body]
pub fn exif_fields(bytes: &[u8]) -> (r: Option<Vec<ExifField>>)
    ensures
        r matches Some(v) ==> exif_fields_of(bytes@) == Some(
            Seq::new(v@.len(), |i: int| field_view(v@[i])),
        ),
        r is None ==> exif_fields_of(bytes@) is None,
{
    let exif = exif::Reader::new().read_from_container(&mut std::io::Cursor::new(bytes)).ok()?;
    let fields = exif.fields().map(|f| ExifField {
        tag: f.tag.to_string(),
        display: f.display_value().with_unit(&exif).to_string(),
        is_undefined: matches!(f.value, exif::Value::Undefined(_, _)),
        is_byte: matches!(f.value, exif::Value::Byte(_)),
        byte_text: match &f.value {
            exif::Value::Byte(b) => String::from_utf8(b.clone()).ok(),
            _ => None,
        },
    }).collect();
    Some(fields)
}

/// Relies on `exif::Reader::read_from_container`, `Exif::get_field` with
/// `Tag::Orientation` in the primary directory, and `Value::get_uint`.
#[verifier::external_body]
pub fn exif_orientation(bytes: &[u8]) -> (r: Option<u32>)
    ensures
        r == orientation_of(bytes@),
{
    let exif = exif::Reader::new().read_from_container(&mut std::io::Cursor::new(bytes)).ok()?;
    let field = exif.get_field(exif::Tag::Orientation, exif::In::PRIMARY)?;
    field.value.get_uint(0)
}

} // verus!
