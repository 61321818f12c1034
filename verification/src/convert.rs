//! The whole conversion, one pass: parse the header, emit the header row,
//! decode, normalize and emit every physical record in order.  The result is
//! a pure function of the input bytes; any failure aborts the conversion
//! with no partial result.

use vstd::prelude::*;
use crate::emit::{csv_line, push_csv_line};
use crate::header::{
    field_names, parse_header, spec_fields_of, spec_header_ok, spec_header_size,
    spec_record_size,
};
use crate::normalize::spec_normalize;
use crate::records::{
    count_slots_from, decode_record, lemma_slot_index, normalize_record, record_slot,
    slot_count, spec_decode_record, spec_record_values, spec_slot,
};
use crate::types::{DbfError, SpecField, SpecValue};

verus! {

/// The header-row values: the field names, in descriptor order.
pub open spec fn spec_names(file: Seq<u8>) -> Seq<Seq<u8>> {
    spec_fields_of(file).map_values(|f: SpecField| f.name)
}

/// How many record slots the file physically holds.
pub open spec fn spec_slot_count(file: Seq<u8>) -> nat {
    count_slots_from(file, spec_header_size(file), spec_record_size(file))
}

/// The bytes of record slot `i` of the file.
pub open spec fn spec_slot_of(file: Seq<u8>, i: int) -> Seq<u8> {
    spec_slot(file, spec_header_size(file), spec_record_size(file), i)
}

/// Whether record slot `i` decodes against the file's field layout.
pub open spec fn spec_slot_ok(file: Seq<u8>, i: int) -> bool {
    spec_decode_record(spec_fields_of(file), spec_slot_of(file, i)).is_some()
}

/// The output line of record `i`: its decoded values, normalized, as CSV.
pub open spec fn spec_row_line(file: Seq<u8>, i: int) -> Seq<u8> {
    csv_line(
        spec_record_values(spec_fields_of(file), spec_slot_of(file, i)).map_values(
            |v: SpecValue| spec_normalize(v),
        ),
    )
}

/// All output data rows, one line per physical record slot.
pub open spec fn spec_rows(file: Seq<u8>) -> Seq<Seq<u8>> {
    Seq::new(spec_slot_count(file), |i: int| spec_row_line(file, i))
}

/// The concatenation of a sequence of lines.
pub open spec fn concat_rows(rows: Seq<Seq<u8>>) -> Seq<u8>
    decreases rows.len(),
{
    if rows.len() == 0 {
        Seq::empty()
    } else {
        concat_rows(rows.drop_last()) + rows.last()
    }
}

/// The first slot index at or after `k` that fails to decode, or the slot
/// count when every slot from `k` on decodes.
pub open spec fn first_bad_from(file: Seq<u8>, k: int) -> int
    decreases spec_slot_count(file) - k,
{
    if k >= spec_slot_count(file) {
        spec_slot_count(file) as int
    } else if !spec_slot_ok(file, k) {
        k
    } else {
        first_bad_from(file, k + 1)
    }
}

/// The first slot index that fails to decode (the slot count if none does).
pub open spec fn spec_first_bad(file: Seq<u8>) -> int {
    first_bad_from(file, 0)
}

/// What converting a DBF file yields: `MalformedHeader` for a structurally
/// invalid header; `MalformedRecord` — with the index and byte offset of
/// the first undecodable slot — when any physical record fails; otherwise
/// the full output, the header row followed by one row per physical record.
pub open spec fn spec_convert(file: Seq<u8>) -> Result<Seq<u8>, DbfError> {
    if !spec_header_ok(file) {
        Err(DbfError::MalformedHeader)
    } else if spec_first_bad(file) < spec_slot_count(file) {
        Err(
            DbfError::MalformedRecord {
                index: spec_first_bad(file) as usize,
                offset: (spec_header_size(file) + spec_first_bad(file) * spec_record_size(
                    file,
                )) as usize,
            },
        )
    } else {
        Ok(csv_line(spec_names(file)) + concat_rows(spec_rows(file)))
    }
}

/// A scan that saw only good slots before `i`, and a bad one at `i` unless
/// `i` is the count, pins down the first bad index.
proof fn lemma_first_bad_pinned(file: Seq<u8>, k: int, i: int)
    requires
        0 <= k <= i <= spec_slot_count(file),
        forall|j: int| k <= j < i ==> spec_slot_ok(file, j),
        i < spec_slot_count(file) ==> !spec_slot_ok(file, i),
    ensures
        first_bad_from(file, k) == i,
    decreases i - k,
{
    if k < i {
        assert(spec_slot_ok(file, k));
        lemma_first_bad_pinned(file, k + 1, i);
    }
}

/// Converts the bytes of a DBF file into the bytes of its CSV rendering.
/// The result — success or failure, and every output byte — is pinned to
/// [`spec_convert`] of the input.
pub fn convert(input: &Vec<u8>) -> (r: Result<Vec<u8>, DbfError>)
    ensures
        r.is_ok() == spec_convert(input@).is_ok(),
        r matches Ok(out) ==> out@ == spec_convert(input@).unwrap(),
        r matches Err(e) ==> spec_convert(input@) == Err::<Seq<u8>, DbfError>(e),
{
    let header = match parse_header(input) {
        Err(e) => {
            return Err(e);
        },
        Ok(h) => h,
    };
    let names = field_names(&header);
    proof {
        assert(names@.map_values(|v: Vec<u8>| v@) == spec_names(input@));
    }
    let mut out: Vec<u8> = Vec::new();
    push_csv_line(&mut out, &names);
    let n: usize = slot_count(input, &header);
    let mut i: usize = 0;
    while i < n
        invariant
            i <= n,
            spec_header_ok(input@),
            header.header_size as int == spec_header_size(input@),
            header.record_size as int == spec_record_size(input@),
            header.spec_fields() == spec_fields_of(input@),
            n == spec_slot_count(input@),
            forall|j: int| 0 <= j < i ==> spec_slot_ok(input@, j),
            out@ == csv_line(spec_names(input@)) + concat_rows(spec_rows(input@).take(i as int)),
        decreases n - i,
    {
        let slot = record_slot(input, &header, i);
        proof {
            assert(slot@ == spec_slot_of(input@, i as int));
        }
        match decode_record(&slot, &header.fields) {
            None => {
                proof {
                    assert(!spec_slot_ok(input@, i as int));
                    lemma_first_bad_pinned(input@, 0, i as int);
                    lemma_slot_index(
                        input@,
                        header.header_size as int,
                        header.record_size as int,
                        i as int,
                    );
                    assert((i + 1) * (header.record_size as int) == i * (
                    header.record_size as int) + header.record_size) by (nonlinear_arith);
                    assert(i * (header.record_size as int) >= 0) by (nonlinear_arith)
                        requires
                            i >= 0,
                            header.record_size >= 1,
                    ;
                }
                let len: usize = input.len();
                proof {
                    assert(header.header_size + (i + 1) * (header.record_size as int) <= len);
                }
                let off: usize = header.header_size as usize + i * header.record_size as usize;
                return Err(DbfError::MalformedRecord { index: i, offset: off });
            },
            Some(vals) => {
                let row = normalize_record(&vals);
                proof {
                    assert(spec_slot_ok(input@, i as int));
                    assert(vals@.map_values(|v: crate::types::FieldValue| v@)
                        == spec_record_values(spec_fields_of(input@), spec_slot_of(input@, i as int)));
                    assert(row@.map_values(|v: Vec<u8>| v@) == spec_record_values(
                        spec_fields_of(input@),
                        spec_slot_of(input@, i as int),
                    ).map_values(|v: SpecValue| spec_normalize(v)));
                    assert(spec_rows(input@)[i as int] == spec_row_line(input@, i as int));
                    assert(spec_rows(input@).take(i + 1).drop_last() =~= spec_rows(input@).take(
                        i as int,
                    ));
                    assert(spec_rows(input@).take(i + 1).last() == spec_rows(input@)[i as int]);
                }
                push_csv_line(&mut out, &row);
                i = i + 1;
                assert(out@ == csv_line(spec_names(input@)) + concat_rows(
                    spec_rows(input@).take(i as int),
                ));
            },
        }
    }
    proof {
        lemma_first_bad_pinned(input@, 0, n as int);
        assert(spec_rows(input@).take(n as int) =~= spec_rows(input@));
    }
    Ok(out)
}

/// One data row per physical record slot: the emitted rows are exactly as
/// many as the record area physically holds, whatever record count the
/// header declares, and on success the output is the header line followed
/// by those rows in order.
pub proof fn lemma_rows_match_physical_slots(file: Seq<u8>)
    ensures
        spec_rows(file).len() == spec_slot_count(file),
        spec_convert(file).is_ok() ==> spec_convert(file).unwrap() == csv_line(spec_names(file))
            + concat_rows(spec_rows(file)),
{
}

/// The output header row holds exactly the field names, in the order of the
/// field-descriptor table: the output begins with their CSV line.
pub proof fn lemma_header_row_names(file: Seq<u8>)
    requires
        spec_convert(file).is_ok(),
    ensures
        spec_names(file) == spec_fields_of(file).map_values(|f: SpecField| f.name),
        spec_convert(file).unwrap().take(csv_line(spec_names(file)).len() as int) == csv_line(
            spec_names(file),
        ),
{
    assert((csv_line(spec_names(file)) + concat_rows(spec_rows(file))).take(
        csv_line(spec_names(file)).len() as int,
    ) =~= csv_line(spec_names(file)));
}

/// Conversion is deterministic: two conversions of the same bytes yield the
/// same outcome, byte for byte — the result is a function of the input
/// alone.
pub proof fn lemma_convert_deterministic(
    file: Seq<u8>,
    r1: Result<Seq<u8>, DbfError>,
    r2: Result<Seq<u8>, DbfError>,
)
    requires
        r1 == spec_convert(file),
        r2 == spec_convert(file),
    ensures
        r1 == r2,
{
}

/// A structurally invalid header yields `MalformedHeader` and no output
/// rows at all.
pub proof fn lemma_bad_header_no_rows(file: Seq<u8>)
    requires
        !spec_header_ok(file),
    ensures
        spec_convert(file) == Err::<Seq<u8>, DbfError>(DbfError::MalformedHeader),
{
}

} // verus!
