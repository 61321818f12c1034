//! Data model of a DBF table: field descriptors, typed field values, and the
//! error taxonomy of a conversion.

use vstd::prelude::*;

verus! {

/// The type tag of a DBF column, as stored in byte 11 of its field
/// descriptor: `C`haracter, `D`ate, `F`loat, `L`ogical, `N`umeric, `M`emo,
/// `I`nteger.  Any other tag byte is carried as `Other` and its values
/// normalize to the empty string.
#[derive(Clone, Copy, Debug, PartialEq, Eq, Structural)]
pub enum FieldType {
    Character,
    Date,
    Float,
    Logical,
    Numeric,
    Memo,
    Integer,
    Other,
}

/// The field type a descriptor's tag byte declares: `C`, `D`, `F`, `L`,
/// `N`, `M`, `I`, and `Other` for every remaining byte.
pub open spec fn spec_type_of_tag(b: u8) -> FieldType {
    if b == 67 {
        FieldType::Character
    } else if b == 68 {
        FieldType::Date
    } else if b == 70 {
        FieldType::Float
    } else if b == 76 {
        FieldType::Logical
    } else if b == 78 {
        FieldType::Numeric
    } else if b == 77 {
        FieldType::Memo
    } else if b == 73 {
        FieldType::Integer
    } else {
        FieldType::Other
    }
}

/// Exec mapping of a descriptor's tag byte to its [`FieldType`].
pub fn type_of_tag(b: u8) -> (r: FieldType)
    ensures
        r == spec_type_of_tag(b),
{
    if b == 67 {
        FieldType::Character
    } else if b == 68 {
        FieldType::Date
    } else if b == 70 {
        FieldType::Float
    } else if b == 76 {
        FieldType::Logical
    } else if b == 78 {
        FieldType::Numeric
    } else if b == 77 {
        FieldType::Memo
    } else if b == 73 {
        FieldType::Integer
    } else {
        FieldType::Other
    }
}

/// A calendar date as stored in a DBF date field: four decimal digits of
/// year, two of month, two of day.  Decoding guarantees `1 <= month <= 12`
/// and `1 <= day <= 31`; the year is any value with at most four digits.
#[derive(Clone, Copy, Debug, PartialEq, Eq, Structural)]
pub struct Date {
    pub year: u16,
    pub month: u8,
    pub day: u8,
}

/// One decoded field value.  Each variant with an on-disk blank marker
/// (an all-blank slot) models that absent state as `None`: an absent value
/// is distinct from an empty string, though both normalize to the empty
/// string.  `Float` and `Numeric` values are held as their decimal text,
/// trimmed of padding, exactly as the file stores them.
#[derive(Clone, Debug, PartialEq, Eq)]
pub enum FieldValue {
    Character(Option<Vec<u8>>),
    Date(Option<Date>),
    Float(Option<Vec<u8>>),
    Logical(Option<bool>),
    Numeric(Option<Vec<u8>>),
    Memo(Vec<u8>),
    Integer(i32),
    Unsupported,
}

/// The mathematical shadow of [`FieldValue`]: byte strings become `Seq<u8>`.
pub ghost enum SpecValue {
    Character(Option<Seq<u8>>),
    Date(Option<Date>),
    Float(Option<Seq<u8>>),
    Logical(Option<bool>),
    Numeric(Option<Seq<u8>>),
    Memo(Seq<u8>),
    Integer(i32),
    Unsupported,
}

impl View for FieldValue {
    type V = SpecValue;

    open spec fn view(&self) -> SpecValue {
        match self {
            FieldValue::Character(Some(s)) => SpecValue::Character(Some(s@)),
            FieldValue::Character(None) => SpecValue::Character(None),
            FieldValue::Date(d) => SpecValue::Date(*d),
            FieldValue::Float(Some(s)) => SpecValue::Float(Some(s@)),
            FieldValue::Float(None) => SpecValue::Float(None),
            FieldValue::Logical(b) => SpecValue::Logical(*b),
            FieldValue::Numeric(Some(s)) => SpecValue::Numeric(Some(s@)),
            FieldValue::Numeric(None) => SpecValue::Numeric(None),
            FieldValue::Memo(s) => SpecValue::Memo(s@),
            FieldValue::Integer(i) => SpecValue::Integer(*i),
            FieldValue::Unsupported => SpecValue::Unsupported,
        }
    }
}

/// Metadata of one column, read from its 32-byte descriptor: name (the bytes
/// before the first NUL of the 11-byte name area), type tag, storage length
/// in bytes, and decimal count (meaningful for `Float`/`Numeric` only).
#[derive(Clone, Debug)]
pub struct FieldDescriptor {
    pub name: Vec<u8>,
    pub field_type: FieldType,
    pub length: u8,
    pub decimal_count: u8,
}

/// The mathematical shadow of [`FieldDescriptor`].
pub ghost struct SpecField {
    pub name: Seq<u8>,
    pub field_type: FieldType,
    pub length: u8,
    pub decimal_count: u8,
}

impl View for FieldDescriptor {
    type V = SpecField;

    open spec fn view(&self) -> SpecField {
        SpecField {
            name: self.name@,
            field_type: self.field_type,
            length: self.length,
            decimal_count: self.decimal_count,
        }
    }
}

/// The parsed table header.  `record_count` is the count the header declares;
/// it serves progress estimation only — iteration over the physical record
/// area is authoritative and may yield fewer or more records.  `header_size`
/// is the offset of the first record slot, `record_size` the width of one
/// slot including its leading deletion-flag byte.
#[derive(Clone, Debug)]
pub struct TableHeader {
    pub record_count: u32,
    pub header_size: u16,
    pub record_size: u16,
    pub fields: Vec<FieldDescriptor>,
}

impl TableHeader {
    /// The descriptors as a sequence of their mathematical shadows.
    pub open spec fn spec_fields(&self) -> Seq<SpecField> {
        self.fields@.map_values(|f: FieldDescriptor| f@)
    }
}

/// Everything that can end a conversion.  `Io` and `SinkError` arise only at
/// the I/O boundary around the library; decoding itself reports
/// `MalformedHeader` for a structurally invalid header and `MalformedRecord`
/// — with the record's index and byte offset — for a slot that cannot be
/// decoded against the declared field layout.
#[derive(Clone, Copy, Debug, PartialEq, Eq, Structural)]
pub enum DbfError {
    Io,
    MalformedHeader,
    MalformedRecord { index: usize, offset: usize },
    SinkError,
}

} // verus!
