use dbf2csv::emit::csv_row;
use dbf2csv::normalize::normalize;
use dbf2csv::records::{decode_record, decode_value};
use dbf2csv::types::{Date, FieldDescriptor, FieldType, FieldValue};

#[test]
fn normalization_table_absent_cases() {
    assert_eq!(normalize(&FieldValue::Character(None)), b"".to_vec());
    assert_eq!(normalize(&FieldValue::Date(None)), b"".to_vec());
    assert_eq!(normalize(&FieldValue::Float(None)), b"".to_vec());
    assert_eq!(normalize(&FieldValue::Logical(None)), b"".to_vec());
    assert_eq!(normalize(&FieldValue::Numeric(None)), b"".to_vec());
    assert_eq!(normalize(&FieldValue::Unsupported), b"".to_vec());
}

#[test]
fn normalization_table_present_cases() {
    assert_eq!(
        normalize(&FieldValue::Character(Some(b"Acme".to_vec()))),
        b"Acme".to_vec()
    );
    assert_eq!(
        normalize(&FieldValue::Date(Some(Date { year: 2024, month: 3, day: 9 }))),
        b"2024-03-09".to_vec()
    );
    assert_eq!(
        normalize(&FieldValue::Float(Some(b"3.14".to_vec()))),
        b"3.14".to_vec()
    );
    assert_eq!(normalize(&FieldValue::Logical(Some(true))), b"true".to_vec());
    assert_eq!(normalize(&FieldValue::Logical(Some(false))), b"false".to_vec());
    assert_eq!(
        normalize(&FieldValue::Numeric(Some(b"-12.50".to_vec()))),
        b"-12.50".to_vec()
    );
    assert_eq!(
        normalize(&FieldValue::Memo(b"memo text".to_vec())),
        b"memo text".to_vec()
    );
    assert_eq!(normalize(&FieldValue::Integer(30)), b"30".to_vec());
    assert_eq!(normalize(&FieldValue::Integer(0)), b"0".to_vec());
    assert_eq!(normalize(&FieldValue::Integer(-45)), b"-45".to_vec());
    assert_eq!(
        normalize(&FieldValue::Integer(i32::MIN)),
        b"-2147483648".to_vec()
    );
    assert_eq!(
        normalize(&FieldValue::Integer(i32::MAX)),
        b"2147483647".to_vec()
    );
}

#[test]
fn character_padding_trims_both_ends() {
    let raw = b"  Acme Corp   ".to_vec();
    let v = decode_value(FieldType::Character, &raw).unwrap();
    assert_eq!(normalize(&v), b"Acme Corp".to_vec());
}

#[test]
fn character_all_blank_is_absent_not_empty() {
    let raw = b"      ".to_vec();
    let v = decode_value(FieldType::Character, &raw).unwrap();
    assert_eq!(v, FieldValue::Character(None));
}

#[test]
fn date_decodes_to_iso_text() {
    let v = decode_value(FieldType::Date, &b"20240309".to_vec()).unwrap();
    assert_eq!(v, FieldValue::Date(Some(Date { year: 2024, month: 3, day: 9 })));
    assert_eq!(normalize(&v), b"2024-03-09".to_vec());
}

#[test]
fn date_rejects_bad_month() {
    assert_eq!(decode_value(FieldType::Date, &b"20241309".to_vec()), None);
    assert_eq!(decode_value(FieldType::Date, &b"2024030".to_vec()), None);
}

#[test]
fn logical_markers() {
    for b in [b'T', b't', b'Y', b'y'] {
        let v = decode_value(FieldType::Logical, &vec![b]).unwrap();
        assert_eq!(v, FieldValue::Logical(Some(true)));
    }
    for b in [b'F', b'f', b'N', b'n'] {
        let v = decode_value(FieldType::Logical, &vec![b]).unwrap();
        assert_eq!(v, FieldValue::Logical(Some(false)));
    }
    for b in [b' ', b'?'] {
        let v = decode_value(FieldType::Logical, &vec![b]).unwrap();
        assert_eq!(v, FieldValue::Logical(None));
    }
}

#[test]
fn numeric_keeps_stored_text() {
    let v = decode_value(FieldType::Numeric, &b"  007.50".to_vec()).unwrap();
    assert_eq!(v, FieldValue::Numeric(Some(b"007.50".to_vec())));
    assert_eq!(decode_value(FieldType::Numeric, &b"1,5".to_vec()), None);
    assert_eq!(decode_value(FieldType::Numeric, &b"..".to_vec()), None);
    let plus = decode_value(FieldType::Numeric, &b"+1.5".to_vec()).unwrap();
    assert_eq!(plus, FieldValue::Numeric(Some(b"+1.5".to_vec())));
}

#[test]
fn integer_reads_little_endian() {
    let v = decode_value(FieldType::Integer, &(-2i32).to_le_bytes().to_vec()).unwrap();
    assert_eq!(v, FieldValue::Integer(-2));
    assert_eq!(decode_value(FieldType::Integer, &vec![1, 2, 3]), None);
}

#[test]
fn decode_record_checks_layout_width() {
    let fields = vec![FieldDescriptor {
        name: b"A".to_vec(),
        field_type: FieldType::Character,
        length: 3,
        decimal_count: 0,
    }];
    // flag byte plus three field bytes
    let vals = decode_record(&b" abc".to_vec(), &fields).unwrap();
    assert_eq!(vals, vec![FieldValue::Character(Some(b"abc".to_vec()))]);
    assert_eq!(decode_record(&b" ab".to_vec(), &fields), None);
    assert_eq!(decode_record(&b" abcd".to_vec(), &fields), None);
}

#[test]
fn csv_row_quotes_every_value() {
    let row = csv_row(&vec![b"a".to_vec(), b"".to_vec(), b"x\"y".to_vec()]);
    assert_eq!(row, b"\"a\";\"\";\"x\"\"y\"\n".to_vec());
}
