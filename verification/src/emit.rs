//! The row emitter's rendering: one CSV line per record, semicolon
//! delimiter, every value quoted (always-quote policy, empty strings
//! included), quotes doubled inside a value, lines ended with a line feed.

use vstd::prelude::*;

verus! {

/// A value's bytes with every `"` doubled.
pub open spec fn csv_escape(s: Seq<u8>) -> Seq<u8>
    decreases s.len(),
{
    if s.len() == 0 {
        Seq::empty()
    } else {
        csv_escape(s.drop_last()) + (if s.last() == 34 {
            seq![34u8, 34u8]
        } else {
            seq![s.last()]
        })
    }
}

/// A value as a quoted CSV field.
pub open spec fn csv_field(s: Seq<u8>) -> Seq<u8> {
    seq![34u8] + csv_escape(s) + seq![34u8]
}

/// The quoted fields of one row, joined with `;`.
pub open spec fn csv_fields(vals: Seq<Seq<u8>>) -> Seq<u8>
    decreases vals.len(),
{
    if vals.len() == 0 {
        Seq::empty()
    } else if vals.len() == 1 {
        csv_field(vals[0])
    } else {
        csv_fields(vals.drop_last()) + seq![59u8] + csv_field(vals.last())
    }
}

/// One full CSV line: the joined fields and a terminating line feed.
pub open spec fn csv_line(vals: Seq<Seq<u8>>) -> Seq<u8> {
    csv_fields(vals) + seq![10u8]
}

/// Appends one value as a quoted CSV field.
fn push_csv_field(out: &mut Vec<u8>, val: &Vec<u8>)
    ensures
        final(out)@ == old(out)@ + csv_field(val@),
{
    out.push(34);
    let mut k: usize = 0;
    while k < val.len()
        invariant
            k <= val@.len(),
            out@ == old(out)@ + seq![34u8] + csv_escape(val@.take(k as int)),
        decreases val@.len() - k,
    {
        let b: u8 = val[k];
        proof {
            assert(val@.take(k + 1).drop_last() =~= val@.take(k as int));
            assert(val@.take(k + 1).last() == b);
        }
        if b == 34 {
            out.push(34);
            out.push(34);
        } else {
            out.push(b);
        }
        k = k + 1;
        assert(out@ =~= old(out)@ + seq![34u8] + csv_escape(val@.take(k as int)));
    }
    proof {
        assert(val@.take(val@.len() as int) =~= val@);
    }
    out.push(34);
    assert(out@ =~= old(out)@ + csv_field(val@));
}

/// Appends one CSV line holding `values` in order.
pub fn push_csv_line(out: &mut Vec<u8>, values: &Vec<Vec<u8>>)
    ensures
        final(out)@ == old(out)@ + csv_line(values@.map_values(|v: Vec<u8>| v@)),
{
    let ghost view = values@.map_values(|v: Vec<u8>| v@);
    let mut j: usize = 0;
    while j < values.len()
        invariant
            j <= values@.len(),
            view == values@.map_values(|v: Vec<u8>| v@),
            out@ == old(out)@ + csv_fields(view.take(j as int)),
        decreases values@.len() - j,
    {
        proof {
            assert(view.take(j + 1).drop_last() =~= view.take(j as int));
            assert(view.take(j + 1).last() == view[j as int]);
            assert(view[j as int] == values@[j as int]@);
        }
        if j > 0 {
            out.push(59);
        }
        push_csv_field(out, &values[j]);
        j = j + 1;
        assert(out@ =~= old(out)@ + csv_fields(view.take(j as int)));
    }
    proof {
        assert(view.take(values@.len() as int) =~= view);
    }
    out.push(10);
    assert(out@ =~= old(out)@ + csv_line(view));
}

/// Renders one record's normalized values as a CSV line.
pub fn csv_row(values: &Vec<Vec<u8>>) -> (r: Vec<u8>)
    ensures
        r@ == csv_line(values@.map_values(|v: Vec<u8>| v@)),
{
    let mut out: Vec<u8> = Vec::new();
    push_csv_line(&mut out, values);
    out
}

} // verus!
