//! The record area: fixed-width slots, one per physical record, each a
//! deletion-flag byte followed by the fields' raw bytes in descriptor order.
//! Iteration is bounded by the physical file — a trailing partial slot is
//! not a record, and a `0x1A` end-of-file marker stops it — never by the
//! header's declared record count.  Soft-deleted slots (flag byte `*`) are
//! decoded like live ones: this decoder deliberately does not filter them.

use vstd::prelude::*;
use crate::header::sum_lengths;
use crate::text::{
    copy_range, i32_from_le, is_blank, is_decimal_bytes, is_decimal_text, is_digit,
    read_i32_le, trim, trim_bytes, trim_end, trim_end_bytes,
};
use crate::types::{Date, FieldDescriptor, FieldType, FieldValue, SpecField, SpecValue, TableHeader};

verus! {

/// How many whole record slots of width `rsize` lie in `file` from `off`
/// on, stopping at a `0x1A` end-of-file marker or at the physical end.
pub open spec fn count_slots_from(file: Seq<u8>, off: int, rsize: int) -> nat
    decreases file.len() - off,
{
    if 1 <= rsize && 0 <= off && off + rsize <= file.len() && file[off] != 26 {
        (1 + count_slots_from(file, off + rsize, rsize)) as nat
    } else {
        0
    }
}

/// The bytes of record slot `i`.
pub open spec fn spec_slot(file: Seq<u8>, off: int, rsize: int, i: int) -> Seq<u8> {
    file.subrange(off + i * rsize, off + (i + 1) * rsize)
}

/// Slot `i` of a counted run of slots lies inside the file, is not an
/// end-of-file marker, and the count from its start is the count from
/// `off` less `i`.
pub proof fn lemma_slot_index(file: Seq<u8>, off: int, rsize: int, i: int)
    requires
        1 <= rsize,
        0 <= off,
        0 <= i < count_slots_from(file, off, rsize),
    ensures
        off + (i + 1) * rsize <= file.len(),
        file[off + i * rsize] != 26,
        count_slots_from(file, off + i * rsize, rsize) == count_slots_from(file, off, rsize) - i,
    decreases i,
{
    if i == 0 {
        assert(count_slots_from(file, off, rsize) > 0);
        assert((0 + 1) * rsize == rsize) by (nonlinear_arith);
        assert(0 * rsize == 0) by (nonlinear_arith);
    } else {
        assert(count_slots_from(file, off, rsize) > 0);
        lemma_slot_index(file, off + rsize, rsize, i - 1);
        assert(off + rsize + (i - 1) * rsize == off + i * rsize) by (nonlinear_arith);
        assert(off + rsize + ((i - 1) + 1) * rsize == off + (i + 1) * rsize) by (nonlinear_arith);
    }
}

/// The numeric value of a run of ASCII digits, most significant first.
pub open spec fn digits_val(s: Seq<u8>) -> int
    decreases s.len(),
{
    if s.len() == 0 {
        0
    } else {
        digits_val(s.drop_last()) * 10 + (s.last() - 48)
    }
}

/// Decoding one field's raw bytes per its declared type.  `None` is a
/// malformed field.  Absent markers: an all-blank Character, Date, Float,
/// Numeric or Logical slot is the absent value of its type; an
/// unrecognized Logical byte also reads as absent.  A Date must be eight
/// digits `YYYYMMDD` with a plausible month and day; a Float or Numeric
/// must be decimal-number text; an Integer field must hold at least four
/// bytes (little-endian two's complement).  Memo content is taken as the
/// slot's trimmed text; an unsupported type decodes as `Unsupported`.
pub open spec fn spec_decode_value(ft: FieldType, raw: Seq<u8>) -> Option<SpecValue> {
    match ft {
        FieldType::Character => {
            let t = trim_end(raw);
            if t.len() == 0 {
                Some(SpecValue::Character(None))
            } else {
                Some(SpecValue::Character(Some(t)))
            }
        },
        FieldType::Date => {
            if trim(raw).len() == 0 {
                Some(SpecValue::Date(None))
            } else if raw.len() == 8 && (forall|i: int| 0 <= i < 8 ==> is_digit(raw[i]))
                && 1 <= digits_val(raw.subrange(4, 6)) <= 12 && 1 <= digits_val(
                raw.subrange(6, 8),
            ) <= 31 {
                Some(
                    SpecValue::Date(
                        Some(
                            Date {
                                year: digits_val(raw.subrange(0, 4)) as u16,
                                month: digits_val(raw.subrange(4, 6)) as u8,
                                day: digits_val(raw.subrange(6, 8)) as u8,
                            },
                        ),
                    ),
                )
            } else {
                None
            }
        },
        FieldType::Float => {
            let t = trim(raw);
            if t.len() == 0 {
                Some(SpecValue::Float(None))
            } else if is_decimal_text(t) {
                Some(SpecValue::Float(Some(t)))
            } else {
                None
            }
        },
        FieldType::Logical => {
            if raw.len() == 0 {
                Some(SpecValue::Logical(None))
            } else if raw[0] == 84 || raw[0] == 116 || raw[0] == 89 || raw[0] == 121 {
                Some(SpecValue::Logical(Some(true)))
            } else if raw[0] == 70 || raw[0] == 102 || raw[0] == 78 || raw[0] == 110 {
                Some(SpecValue::Logical(Some(false)))
            } else {
                Some(SpecValue::Logical(None))
            }
        },
        FieldType::Numeric => {
            let t = trim(raw);
            if t.len() == 0 {
                Some(SpecValue::Numeric(None))
            } else if is_decimal_text(t) {
                Some(SpecValue::Numeric(Some(t)))
            } else {
                None
            }
        },
        FieldType::Memo => Some(SpecValue::Memo(trim(raw))),
        FieldType::Integer => {
            if raw.len() >= 4 {
                Some(SpecValue::Integer(i32_from_le(raw.take(4))))
            } else {
                None
            }
        },
        FieldType::Other => Some(SpecValue::Unsupported),
    }
}

/// The offset of field `i`'s bytes inside a slot: the flag byte plus the
/// widths of the fields before it.
pub open spec fn field_offset(fields: Seq<SpecField>, i: int) -> int {
    1 + sum_lengths(fields.take(i))
}

/// The raw bytes of field `i` inside a slot.
pub open spec fn spec_field_raw(fields: Seq<SpecField>, slot: Seq<u8>, i: int) -> Seq<u8> {
    slot.subrange(field_offset(fields, i), field_offset(fields, i) + fields[i].length)
}

/// Whether field `i` of the slot decodes.
pub open spec fn spec_field_ok(fields: Seq<SpecField>, slot: Seq<u8>, i: int) -> bool {
    spec_decode_value(fields[i].field_type, spec_field_raw(fields, slot, i)).is_some()
}

/// The decoded values of a slot, one per field, in descriptor order.
pub open spec fn spec_record_values(fields: Seq<SpecField>, slot: Seq<u8>) -> Seq<SpecValue> {
    Seq::new(
        fields.len(),
        |i: int| spec_decode_value(fields[i].field_type, spec_field_raw(fields, slot, i)).unwrap(),
    )
}

/// Decoding one whole slot: the slot must have exactly the declared layout
/// width and every field must decode; otherwise the record is malformed.
pub open spec fn spec_decode_record(fields: Seq<SpecField>, slot: Seq<u8>) -> Option<
    Seq<SpecValue>,
> {
    if slot.len() == 1 + sum_lengths(fields) && (forall|i: int|
        0 <= i < fields.len() ==> spec_field_ok(fields, slot, i)) {
        Some(spec_record_values(fields, slot))
    } else {
        None
    }
}

/// One step of [`sum_lengths`] over a prefix.
pub proof fn lemma_sum_take_step(fields: Seq<SpecField>, i: int)
    requires
        0 <= i < fields.len(),
    ensures
        sum_lengths(fields.take(i + 1)) == sum_lengths(fields.take(i)) + fields[i].length,
{
    assert(fields.take(i + 1).drop_last() =~= fields.take(i));
    assert(fields.take(i + 1).last() == fields[i]);
}

/// Prefix sums of field lengths are monotone and bounded by the total.
pub proof fn lemma_sum_take_le(fields: Seq<SpecField>, i: int)
    requires
        0 <= i <= fields.len(),
    ensures
        0 <= sum_lengths(fields.take(i)) <= sum_lengths(fields),
    decreases fields.len() - i,
{
    if i == fields.len() {
        assert(fields.take(i) =~= fields);
        lemma_sum_nonneg(fields);
    } else {
        lemma_sum_take_step(fields, i);
        lemma_sum_take_le(fields, i + 1);
        lemma_sum_nonneg(fields.take(i));
    }
}

/// A sum of byte widths is never negative.
pub proof fn lemma_sum_nonneg(fields: Seq<SpecField>)
    ensures
        sum_lengths(fields) >= 0,
    decreases fields.len(),
{
    if fields.len() > 0 {
        lemma_sum_nonneg(fields.drop_last());
    }
}

/// Exec check that `v[a..b]` is all ASCII digits.
fn all_digits(v: &Vec<u8>, a: usize, b: usize) -> (r: bool)
    requires
        a <= b <= v@.len(),
    ensures
        r == (forall|i: int| a <= i < b ==> is_digit(v@[i])),
{
    let mut k: usize = a;
    while k < b
        invariant
            a <= k <= b <= v@.len(),
            forall|i: int| a <= i < k ==> is_digit(v@[i]),
        decreases b - k,
    {
        let c: u8 = v[k];
        if !(48 <= c && c <= 57) {
            return false;
        }
        k = k + 1;
    }
    true
}

/// The numeric value of the digit run `v[a..b]`.
fn digits_value(v: &Vec<u8>, a: usize, b: usize) -> (r: u32)
    requires
        a <= b <= v@.len(),
        b - a <= 8,
        forall|i: int| a <= i < b ==> is_digit(v@[i]),
    ensures
        r == digits_val(v@.subrange(a as int, b as int)),
{
    let ghost s = v@.subrange(a as int, b as int);
    let mut val: u32 = 0;
    let mut k: usize = a;
    while k < b
        invariant
            a <= k <= b <= v@.len(),
            s == v@.subrange(a as int, b as int),
            b - a <= 8,
            forall|i: int| a <= i < b ==> is_digit(v@[i]),
            val == digits_val(s.take(k - a)),
        decreases b - k,
    {
        proof {
            assert(s.take(k + 1 - a).drop_last() =~= s.take(k - a));
            assert(s.take(k + 1 - a).last() == v@[k as int]);
            lemma_digits_val_bound(s.take(k - a));
            assert(s.take(k - a).len() <= 7);
        }
        val = val * 10 + (v[k] - 48) as u32;
        k = k + 1;
    }
    proof {
        assert(s.take(b - a) =~= s);
    }
    val
}

/// A run of `k <= 8` digits has a value below `10^k`.
proof fn lemma_digits_val_bound(s: Seq<u8>)
    requires
        s.len() <= 8,
        forall|i: int| 0 <= i < s.len() ==> is_digit(s[i]),
    ensures
        digits_val(s) >= 0,
        s.len() <= 1 ==> digits_val(s) < 10,
        s.len() <= 2 ==> digits_val(s) < 100,
        s.len() <= 3 ==> digits_val(s) < 1000,
        s.len() <= 4 ==> digits_val(s) < 10000,
        s.len() <= 5 ==> digits_val(s) < 100000,
        s.len() <= 6 ==> digits_val(s) < 1000000,
        s.len() <= 7 ==> digits_val(s) < 10000000,
        digits_val(s) < 100000000,
    decreases s.len(),
{
    if s.len() > 0 {
        lemma_digits_val_bound(s.drop_last());
        assert(is_digit(s.last()));
    }
}

/// Decodes one field's raw bytes per its declared type.
pub fn decode_value(ft: FieldType, raw: &Vec<u8>) -> (r: Option<FieldValue>)
    ensures
        r matches Some(v) ==> spec_decode_value(ft, raw@) == Some(v@),
        r.is_none() == spec_decode_value(ft, raw@).is_none(),
{
    match ft {
        FieldType::Character => {
            let t = trim_end_bytes(raw);
            if t.len() == 0 {
                Some(FieldValue::Character(None))
            } else {
                Some(FieldValue::Character(Some(t)))
            }
        },
        FieldType::Date => {
            let t = trim_bytes(raw);
            if t.len() == 0 {
                return Some(FieldValue::Date(None));
            }
            if raw.len() != 8 {
                return None;
            }
            if !all_digits(raw, 0, 8) {
                return None;
            }
            proof {
                assert(raw@.subrange(0, 4) =~= raw@.take(4));
                lemma_digits_val_bound(raw@.subrange(0, 4));
                lemma_digits_val_bound(raw@.subrange(4, 6));
                lemma_digits_val_bound(raw@.subrange(6, 8));
            }
            let month: u32 = digits_value(raw, 4, 6);
            let day: u32 = digits_value(raw, 6, 8);
            if !(1 <= month && month <= 12 && 1 <= day && day <= 31) {
                return None;
            }
            let year: u32 = digits_value(raw, 0, 4);
            Some(
                FieldValue::Date(
                    Some(Date { year: year as u16, month: month as u8, day: day as u8 }),
                ),
            )
        },
        FieldType::Float => {
            let t = trim_bytes(raw);
            if t.len() == 0 {
                Some(FieldValue::Float(None))
            } else if is_decimal_bytes(&t) {
                Some(FieldValue::Float(Some(t)))
            } else {
                None
            }
        },
        FieldType::Logical => {
            if raw.len() == 0 {
                return Some(FieldValue::Logical(None));
            }
            let b: u8 = raw[0];
            if b == 84 || b == 116 || b == 89 || b == 121 {
                Some(FieldValue::Logical(Some(true)))
            } else if b == 70 || b == 102 || b == 78 || b == 110 {
                Some(FieldValue::Logical(Some(false)))
            } else {
                Some(FieldValue::Logical(None))
            }
        },
        FieldType::Numeric => {
            let t = trim_bytes(raw);
            if t.len() == 0 {
                Some(FieldValue::Numeric(None))
            } else if is_decimal_bytes(&t) {
                Some(FieldValue::Numeric(Some(t)))
            } else {
                None
            }
        },
        FieldType::Memo => Some(FieldValue::Memo(trim_bytes(raw))),
        FieldType::Integer => {
            if raw.len() < 4 {
                return None;
            }
            proof {
                assert(raw@.subrange(0, 4) =~= raw@.take(4));
            }
            Some(FieldValue::Integer(read_i32_le(raw, 0)))
        },
        FieldType::Other => Some(FieldValue::Unsupported),
    }
}

/// Decodes one record slot against the declared field layout.  `None` means
/// the slot is malformed: its width does not match the layout or some field
/// does not decode.
pub fn decode_record(slot: &Vec<u8>, fields: &Vec<FieldDescriptor>) -> (r: Option<Vec<FieldValue>>)
    ensures
        r matches Some(vals) ==> spec_decode_record(
            fields@.map_values(|f: FieldDescriptor| f@),
            slot@,
        ) == Some(vals@.map_values(|v: FieldValue| v@)),
        r.is_none() == spec_decode_record(
            fields@.map_values(|f: FieldDescriptor| f@),
            slot@,
        ).is_none(),
{
    let ghost sf = fields@.map_values(|f: FieldDescriptor| f@);
    let nf: usize = fields.len();
    let slot_len: usize = slot.len();
    if slot_len == 0 {
        proof {
            lemma_sum_nonneg(sf);
        }
        return None;
    }
    let mut total: usize = 0;
    let mut k: usize = 0;
    while k < nf
        invariant
            k <= nf,
            nf == fields@.len(),
            slot_len == slot@.len(),
            sf == fields@.map_values(|f: FieldDescriptor| f@),
            total == sum_lengths(sf.take(k as int)),
            total <= slot_len,
        decreases nf - k,
    {
        proof {
            lemma_sum_take_step(sf, k as int);
            assert(sf[k as int] == fields@[k as int]@);
        }
        let flen: usize = fields[k].length as usize;
        if flen > slot_len || total > slot_len - flen {
            // the layout is already wider than the slot
            proof {
                lemma_sum_take_le(sf, k + 1);
            }
            return None;
        }
        total = total + flen;
        k = k + 1;
    }
    proof {
        assert(sf.take(nf as int) =~= sf);
    }
    if slot_len - 1 != total {
        return None;
    }
    let mut vals: Vec<FieldValue> = Vec::new();
    let mut off: usize = 1;
    let mut i: usize = 0;
    while i < nf
        invariant
            i <= nf,
            nf == fields@.len(),
            sf == fields@.map_values(|f: FieldDescriptor| f@),
            slot_len == slot@.len(),
            slot@.len() == 1 + sum_lengths(sf),
            off == field_offset(sf, i as int),
            forall|j: int| 0 <= j < i ==> spec_field_ok(sf, slot@, j),
            vals@.map_values(|v: FieldValue| v@) == spec_record_values(sf, slot@).take(i as int),
        decreases nf - i,
    {
        proof {
            lemma_sum_take_step(sf, i as int);
            lemma_sum_take_le(sf, i + 1);
            lemma_sum_take_le(sf, i as int);
            assert(sf[i as int] == fields@[i as int]@);
        }
        let flen: usize = fields[i].length as usize;
        let raw: Vec<u8> = copy_range(slot, off, off + flen);
        proof {
            assert(raw@ == spec_field_raw(sf, slot@, i as int));
        }
        match decode_value(fields[i].field_type, &raw) {
            None => {
                proof {
                    assert(!spec_field_ok(sf, slot@, i as int));
                    assert(spec_decode_record(sf, slot@).is_none());
                }
                return None;
            },
            Some(v) => {
                proof {
                    assert(spec_record_values(sf, slot@).take(i + 1).drop_last()
                        =~= spec_record_values(sf, slot@).take(i as int));
                    assert(spec_record_values(sf, slot@)[i as int] == v@);
                }
                vals.push(v);
            },
        }
        off = off + flen;
        i = i + 1;
        assert(vals@.map_values(|v: FieldValue| v@) =~= spec_record_values(sf, slot@).take(
            i as int,
        ));
    }
    proof {
        assert(spec_record_values(sf, slot@).take(nf as int) =~= spec_record_values(sf, slot@));
    }
    Some(vals)
}

/// Normalizes a whole record, value by value, in order.
pub fn normalize_record(values: &Vec<FieldValue>) -> (r: Vec<Vec<u8>>)
    ensures
        r@.map_values(|v: Vec<u8>| v@) == values@.map_values(|v: FieldValue| v@).map_values(
            |v: SpecValue| crate::normalize::spec_normalize(v),
        ),
{
    let ghost goal = values@.map_values(|v: FieldValue| v@).map_values(
        |v: SpecValue| crate::normalize::spec_normalize(v),
    );
    let mut out: Vec<Vec<u8>> = Vec::new();
    let mut i: usize = 0;
    while i < values.len()
        invariant
            i <= values@.len(),
            goal == values@.map_values(|v: FieldValue| v@).map_values(
                |v: SpecValue| crate::normalize::spec_normalize(v),
            ),
            goal.len() == values@.len(),
            out@.map_values(|v: Vec<u8>| v@) == goal.take(i as int),
        decreases values@.len() - i,
    {
        proof {
            assert(goal[i as int] == crate::normalize::spec_normalize(values@[i as int]@));
            assert(goal.take(i + 1).drop_last() =~= goal.take(i as int));
            assert(goal.take(i + 1).last() == goal[i as int]);
        }
        let text: Vec<u8> = crate::normalize::normalize(&values[i]);
        out.push(text);
        i = i + 1;
        assert(out@.map_values(|v: Vec<u8>| v@) =~= goal.take(i as int));
    }
    proof {
        assert(goal.take(values@.len() as int) =~= goal);
    }
    out
}

/// Counts the physical record slots of the file under `header`'s layout.
pub fn slot_count(input: &Vec<u8>, header: &TableHeader) -> (n: usize)
    ensures
        n == count_slots_from(input@, header.header_size as int, header.record_size as int),
{
    let rsize: usize = header.record_size as usize;
    let mut off: usize = header.header_size as usize;
    let mut n: usize = 0;
    if rsize == 0 || off > input.len() {
        return 0;
    }
    while input.len() - off >= rsize && input[off] != 26
        invariant
            1 <= rsize,
            off <= input@.len(),
            rsize == header.record_size,
            count_slots_from(input@, header.header_size as int, header.record_size as int) == n
                + count_slots_from(input@, off as int, rsize as int),
            n <= off,
        decreases input@.len() - off,
    {
        off = off + rsize;
        n = n + 1;
    }
    n
}

/// Copies record slot `i` out of the file.
pub fn record_slot(input: &Vec<u8>, header: &TableHeader, i: usize) -> (r: Vec<u8>)
    requires
        i < count_slots_from(input@, header.header_size as int, header.record_size as int),
    ensures
        r@ == spec_slot(input@, header.header_size as int, header.record_size as int, i as int),
{
    let len: usize = input.len();
    proof {
        if header.record_size < 1 {
            assert(count_slots_from(
                input@,
                header.header_size as int,
                header.record_size as int,
            ) == 0);
        }
        lemma_slot_index(input@, header.header_size as int, header.record_size as int, i as int);
        assert((i + 1) * (header.record_size as int) == i * (header.record_size as int)
            + header.record_size) by (nonlinear_arith);
        assert(i * (header.record_size as int) >= 0) by (nonlinear_arith)
            requires
                i >= 0,
                header.record_size >= 1,
        ;
        assert(header.header_size + i * (header.record_size as int) + header.record_size
            <= len);
    }
    let off: usize = header.header_size as usize + i * header.record_size as usize;
    copy_range(input, off, off + header.record_size as usize)
}

} // verus!
