//! The DBF header: a 32-byte fixed prologue — version byte, last-update
//! stamp, declared record count, header size, record size — followed by one
//! 32-byte descriptor per field and a `0x0D` terminator.

use vstd::prelude::*;
use crate::text::{copy_range, le16, le32, read_le16, read_le32, take_until_nul, until_nul};
use crate::types::{DbfError, FieldDescriptor, SpecField, TableHeader, spec_type_of_tag, type_of_tag};

verus! {

/// The version bytes this decoder accepts as a valid magic marker: the
/// dBASE II through V, FoxBase, FoxPro and Visual FoxPro family, with and
/// without memo files.
pub open spec fn is_known_version(b: u8) -> bool {
    b == 0x02 || b == 0x03 || b == 0x04 || b == 0x05 || b == 0x30 || b == 0x31 || b == 0x83
        || b == 0x8B || b == 0xF5 || b == 0xFB
}

/// Exec test for [`is_known_version`].
pub fn known_version(b: u8) -> (r: bool)
    ensures
        r == is_known_version(b),
{
    b == 0x02 || b == 0x03 || b == 0x04 || b == 0x05 || b == 0x30 || b == 0x31 || b == 0x83
        || b == 0x8B || b == 0xF5 || b == 0xFB
}

/// The header size the file declares: the offset of the first record slot.
pub open spec fn spec_header_size(file: Seq<u8>) -> int {
    le16(file, 8)
}

/// The record-slot width the file declares, deletion-flag byte included.
pub open spec fn spec_record_size(file: Seq<u8>) -> int {
    le16(file, 10)
}

/// The record count the header declares (progress estimation only).
pub open spec fn spec_record_count(file: Seq<u8>) -> int {
    le32(file, 4)
}

/// How many 32-byte field descriptors fit between the fixed prologue and
/// the terminator byte.
pub open spec fn spec_num_fields(file: Seq<u8>) -> int {
    (spec_header_size(file) - 33) / 32
}

/// The descriptor of field `i`, read from its 32-byte block: the name is
/// the 11-byte name area up to its first NUL, the type tag sits at byte 11,
/// the length at byte 16, the decimal count at byte 17.
pub open spec fn spec_field_at(file: Seq<u8>, i: int) -> SpecField {
    SpecField {
        name: until_nul(file.subrange(32 + 32 * i, 32 + 32 * i + 11)),
        field_type: spec_type_of_tag(file[32 + 32 * i + 11]),
        length: file[32 + 32 * i + 16],
        decimal_count: file[32 + 32 * i + 17],
    }
}

/// All field descriptors of the file, in on-disk order.
pub open spec fn spec_fields_of(file: Seq<u8>) -> Seq<SpecField> {
    Seq::new(spec_num_fields(file) as nat, |i: int| spec_field_at(file, i))
}

/// The total storage width of a record: one deletion-flag byte plus the sum
/// of the field lengths.
pub open spec fn sum_lengths(fields: Seq<SpecField>) -> int
    decreases fields.len(),
{
    if fields.len() == 0 {
        0
    } else {
        sum_lengths(fields.drop_last()) + fields.last().length
    }
}

/// Structural validity of the header: the file holds the fixed prologue,
/// its version byte is a known marker, the declared header size covers the
/// prologue and a whole number of 32-byte descriptors, the descriptor table
/// is terminated by `0x0D`, and the declared record size is consistent with
/// the field layout (one flag byte plus the field lengths).
pub open spec fn spec_header_ok(file: Seq<u8>) -> bool {
    &&& file.len() >= 32
    &&& is_known_version(file[0])
    &&& spec_header_size(file) >= 33
    &&& (spec_header_size(file) - 33) % 32 == 0
    &&& file.len() >= spec_header_size(file)
    &&& file[spec_header_size(file) - 1] == 13
    &&& spec_record_size(file) == 1 + sum_lengths(spec_fields_of(file))
}

/// Parses the header and field-descriptor table of a DBF file.  Returns the
/// table header exactly when the header is structurally valid, and
/// `MalformedHeader` otherwise.
pub fn parse_header(input: &Vec<u8>) -> (r: Result<TableHeader, DbfError>)
    ensures
        r.is_ok() == spec_header_ok(input@),
        r matches Ok(h) ==> {
            &&& h.record_count as int == spec_record_count(input@)
            &&& h.header_size as int == spec_header_size(input@)
            &&& h.record_size as int == spec_record_size(input@)
            &&& h.spec_fields() == spec_fields_of(input@)
        },
        r matches Err(e) ==> e == DbfError::MalformedHeader,
{
    let n_input: usize = input.len();
    if n_input < 32 {
        return Err(DbfError::MalformedHeader);
    }
    if !known_version(input[0]) {
        return Err(DbfError::MalformedHeader);
    }
    let hsize: u16 = read_le16(input, 8);
    let rsize: u16 = read_le16(input, 10);
    let rcount: u32 = read_le32(input, 4);
    if hsize < 33 {
        return Err(DbfError::MalformedHeader);
    }
    if (hsize - 33) % 32 != 0 {
        return Err(DbfError::MalformedHeader);
    }
    if n_input < hsize as usize {
        return Err(DbfError::MalformedHeader);
    }
    if input[hsize as usize - 1] != 13 {
        return Err(DbfError::MalformedHeader);
    }
    let nf: usize = ((hsize - 33) / 32) as usize;
    assert(nf == spec_num_fields(input@));
    let ghost all_fields = spec_fields_of(input@);
    let mut fields: Vec<FieldDescriptor> = Vec::new();
    let mut total: u32 = 0;
    let mut k: usize = 0;
    while k < nf
        invariant
            k <= nf,
            nf == spec_num_fields(input@),
            nf <= 2046,
            32 * nf + 33 == spec_header_size(input@) <= input@.len(),
            all_fields == spec_fields_of(input@),
            fields@.map_values(|f: FieldDescriptor| f@) == all_fields.take(k as int),
            total == sum_lengths(all_fields.take(k as int)),
            total <= 255 * k,
        decreases nf - k,
    {
        let base: usize = 32 + 32 * k;
        assert(base + 31 < input@.len());
        let name_area: Vec<u8> = copy_range(input, base, base + 11);
        let name: Vec<u8> = take_until_nul(&name_area);
        let descriptor = FieldDescriptor {
            name,
            field_type: type_of_tag(input[base + 11]),
            length: input[base + 16],
            decimal_count: input[base + 17],
        };
        proof {
            assert(descriptor@ == spec_field_at(input@, k as int));
            assert(all_fields.take(k + 1).drop_last() =~= all_fields.take(k as int));
            assert(all_fields.take(k + 1).last() == all_fields[k as int]);
        }
        total = total + descriptor.length as u32;
        fields.push(descriptor);
        k = k + 1;
        assert(fields@.map_values(|f: FieldDescriptor| f@) =~= all_fields.take(k as int));
    }
    proof {
        assert(all_fields.take(nf as int) =~= all_fields);
    }
    if rsize as u32 != 1 + total {
        return Err(DbfError::MalformedHeader);
    }
    Ok(TableHeader { record_count: rcount, header_size: hsize, record_size: rsize, fields })
}

/// The field names, in descriptor order: the output header row.
pub fn field_names(header: &TableHeader) -> (r: Vec<Vec<u8>>)
    ensures
        r@.map_values(|v: Vec<u8>| v@) == header.spec_fields().map_values(|f: SpecField| f.name),
{
    let ghost names = header.spec_fields().map_values(|f: SpecField| f.name);
    let mut out: Vec<Vec<u8>> = Vec::new();
    let mut k: usize = 0;
    while k < header.fields.len()
        invariant
            k <= header.fields@.len(),
            names == header.spec_fields().map_values(|f: SpecField| f.name),
            names.len() == header.fields@.len(),
            out@.map_values(|v: Vec<u8>| v@) == names.take(k as int),
        decreases header.fields@.len() - k,
    {
        proof {
            assert(header.spec_fields()[k as int] == header.fields@[k as int]@);
            assert(names[k as int] == header.spec_fields()[k as int].name);
            assert(names.take(k + 1).drop_last() =~= names.take(k as int));
            assert(names.take(k + 1).last() == names[k as int]);
        }
        let name: Vec<u8> = copy_range(&header.fields[k].name, 0, header.fields[k].name.len());
        proof {
            assert(name@ =~= header.fields@[k as int]@.name);
        }
        out.push(name);
        k = k + 1;
        assert(out@.map_values(|v: Vec<u8>| v@) =~~= names.take(k as int));
    }
    proof {
        assert(names.take(names.len() as int) =~= names);
    }
    out
}

} // verus!
