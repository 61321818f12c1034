//! The value normalizer: the canonical textual form of each typed field
//! value.  Normalization is a total, deterministic function over the whole
//! variant space; every absent value becomes the empty string, never a
//! literal null token.

use vstd::prelude::*;
use crate::text::{dec_digits, int_text, push_decimal, push_i32_text, trim, trim_bytes};
use crate::types::{Date, FieldValue, SpecValue};

verus! {

/// The byte at a decimal digit position: `48 + (n/div) % 10`.
pub open spec fn digit_at(n: int, div: int) -> u8 {
    (48 + (n / div) % 10) as u8
}

/// The ISO 8601 text of a date, `YYYY-MM-DD`, each part zero-padded.
pub open spec fn date_text(d: Date) -> Seq<u8> {
    seq![
        digit_at(d.year as int, 1000),
        digit_at(d.year as int, 100),
        digit_at(d.year as int, 10),
        digit_at(d.year as int, 1),
        45u8,
        digit_at(d.month as int, 10),
        digit_at(d.month as int, 1),
        45u8,
        digit_at(d.day as int, 10),
        digit_at(d.day as int, 1),
    ]
}

/// The token a present `true` normalizes to: `true`.
pub open spec fn true_text() -> Seq<u8> {
    seq![116u8, 114u8, 117u8, 101u8]
}

/// The token a present `false` normalizes to: `false`.
pub open spec fn false_text() -> Seq<u8> {
    seq![102u8, 97u8, 108u8, 115u8, 101u8]
}

/// The normalization table.  Character text is trimmed of leading and
/// trailing padding; dates render as ISO 8601; Float and Numeric keep their
/// decimal text; Logical renders as `true`/`false`; Memo text passes through
/// unchanged; Integer renders in decimal; every absent value and every
/// unsupported variant becomes the empty string.
pub open spec fn spec_normalize(v: SpecValue) -> Seq<u8> {
    match v {
        SpecValue::Character(Some(s)) => trim(s),
        SpecValue::Character(None) => Seq::empty(),
        SpecValue::Date(Some(d)) => date_text(d),
        SpecValue::Date(None) => Seq::empty(),
        SpecValue::Float(Some(s)) => s,
        SpecValue::Float(None) => Seq::empty(),
        SpecValue::Logical(Some(b)) => if b {
            true_text()
        } else {
            false_text()
        },
        SpecValue::Logical(None) => Seq::empty(),
        SpecValue::Numeric(Some(s)) => s,
        SpecValue::Numeric(None) => Seq::empty(),
        SpecValue::Memo(s) => s,
        SpecValue::Integer(i) => int_text(i as int),
        SpecValue::Unsupported => Seq::empty(),
    }
}

/// Renders a date as ISO 8601 text.
fn date_to_text(d: &Date) -> (r: Vec<u8>)
    ensures
        r@ == date_text(*d),
{
    let mut out: Vec<u8> = Vec::new();
    out.push(48 + ((d.year / 1000) % 10) as u8);
    out.push(48 + ((d.year / 100) % 10) as u8);
    out.push(48 + ((d.year / 10) % 10) as u8);
    out.push(48 + (d.year % 10) as u8);
    out.push(45);
    out.push(48 + (d.month / 10) % 10);
    out.push(48 + d.month % 10);
    out.push(45);
    out.push(48 + (d.day / 10) % 10);
    out.push(48 + d.day % 10);
    assert(out@ =~= date_text(*d));
    out
}

/// Normalizes one field value to its canonical text.
pub fn normalize(v: &FieldValue) -> (r: Vec<u8>)
    ensures
        r@ == spec_normalize(v@),
{
    match v {
        FieldValue::Character(Some(s)) => trim_bytes(s),
        FieldValue::Character(None) => Vec::new(),
        FieldValue::Date(Some(d)) => date_to_text(d),
        FieldValue::Date(None) => Vec::new(),
        FieldValue::Float(Some(s)) => s.clone(),
        FieldValue::Float(None) => Vec::new(),
        FieldValue::Logical(Some(b)) => {
            let mut out: Vec<u8> = Vec::new();
            if *b {
                out.push(116);
                out.push(114);
                out.push(117);
                out.push(101);
                assert(out@ =~= true_text());
            } else {
                out.push(102);
                out.push(97);
                out.push(108);
                out.push(115);
                out.push(101);
                assert(out@ =~= false_text());
            }
            out
        },
        FieldValue::Logical(None) => Vec::new(),
        FieldValue::Numeric(Some(s)) => s.clone(),
        FieldValue::Numeric(None) => Vec::new(),
        FieldValue::Memo(s) => s.clone(),
        FieldValue::Integer(i) => {
            let mut out: Vec<u8> = Vec::new();
            push_i32_text(&mut out, *i);
            out
        },
        FieldValue::Unsupported => Vec::new(),
    }
}

/// The normalization table, stated pair by pair: every variant with an
/// absent case normalizes its absent value to the empty string — not to a
/// null token — the unsupported variant normalizes to the empty string, and
/// the present Logical values normalize to the single stable tokens `true`
/// and `false`.
pub proof fn lemma_normalize_table()
    ensures
        spec_normalize(SpecValue::Character(None)) == Seq::<u8>::empty(),
        spec_normalize(SpecValue::Date(None)) == Seq::<u8>::empty(),
        spec_normalize(SpecValue::Float(None)) == Seq::<u8>::empty(),
        spec_normalize(SpecValue::Logical(None)) == Seq::<u8>::empty(),
        spec_normalize(SpecValue::Numeric(None)) == Seq::<u8>::empty(),
        spec_normalize(SpecValue::Unsupported) == Seq::<u8>::empty(),
        spec_normalize(SpecValue::Logical(Some(true))) == true_text(),
        spec_normalize(SpecValue::Logical(Some(false))) == false_text(),
        forall|s: Seq<u8>| spec_normalize(SpecValue::Character(Some(s))) == trim(s),
        forall|s: Seq<u8>| spec_normalize(SpecValue::Float(Some(s))) == s,
        forall|s: Seq<u8>| spec_normalize(SpecValue::Numeric(Some(s))) == s,
        forall|s: Seq<u8>| spec_normalize(SpecValue::Memo(s)) == s,
        forall|d: Date| spec_normalize(SpecValue::Date(Some(d))) == date_text(d),
        forall|i: i32| spec_normalize(SpecValue::Integer(i)) == int_text(i as int),
{
}

} // verus!
