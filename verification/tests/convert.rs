use dbf2csv::convert::convert;
use dbf2csv::header::parse_header;
use dbf2csv::types::{DbfError, FieldType};

/// Builds a DBF file: version 0x03 header, one 32-byte descriptor per
/// `(name, tag, length)` field, the 0x0D terminator, then one slot per
/// record (leading flag byte plus the raw field bytes) and a 0x1A marker.
fn make_dbf(declared: u32, fields: &[(&[u8], u8, u8)], records: &[&[u8]]) -> Vec<u8> {
    let hsize: usize = 33 + 32 * fields.len();
    let rsize: usize = 1 + fields.iter().map(|f| f.2 as usize).sum::<usize>();
    let mut v = vec![0u8; 32];
    v[0] = 0x03;
    v[4..8].copy_from_slice(&declared.to_le_bytes());
    v[8] = (hsize & 0xff) as u8;
    v[9] = (hsize >> 8) as u8;
    v[10] = (rsize & 0xff) as u8;
    v[11] = (rsize >> 8) as u8;
    for (name, tag, len) in fields {
        let mut d = [0u8; 32];
        d[..name.len()].copy_from_slice(name);
        d[11] = *tag;
        d[16] = *len;
        v.extend_from_slice(&d);
    }
    v.push(0x0D);
    for r in records {
        v.push(0x20);
        v.extend_from_slice(r);
    }
    v.push(0x1A);
    v
}

#[test]
fn three_fields_two_records() {
    let mut r1 = Vec::new();
    r1.extend_from_slice(b"John Doe  ");
    r1.extend_from_slice(&30i32.to_le_bytes());
    r1.push(b'T');
    let mut r2 = Vec::new();
    r2.extend_from_slice(b"Jane      ");
    r2.extend_from_slice(&25i32.to_le_bytes());
    r2.push(b' ');
    let file = make_dbf(
        2,
        &[(b"NAME", b'C', 10), (b"AGE", b'I', 4), (b"ACTIVE", b'L', 1)],
        &[&r1, &r2],
    );
    let out = convert(&file).unwrap();
    let expected: &[u8] =
        b"\"NAME\";\"AGE\";\"ACTIVE\"\n\"John Doe\";\"30\";\"true\"\n\"Jane\";\"25\";\"\"\n";
    assert_eq!(out, expected.to_vec());
}

#[test]
fn header_row_matches_descriptor_order() {
    let file = make_dbf(
        0,
        &[(b"ZETA", b'C', 2), (b"ALPHA", b'C', 2), (b"MID", b'C', 2)],
        &[],
    );
    let out = convert(&file).unwrap();
    assert_eq!(out, b"\"ZETA\";\"ALPHA\";\"MID\"\n".to_vec());
}

#[test]
fn row_count_ignores_declared_count() {
    // the header claims 99 records; only two physical slots exist
    let file = make_dbf(99, &[(b"A", b'C', 1)], &[b"x", b"y"]);
    let out = convert(&file).unwrap();
    assert_eq!(out, b"\"A\"\n\"x\"\n\"y\"\n".to_vec());
}

#[test]
fn truncated_trailing_slot_is_ignored() {
    let mut file = make_dbf(3, &[(b"A", b'C', 4)], &[b"abcd"]);
    file.pop();  // drop the 0x1A marker
    file.extend_from_slice(b" ab");  // a partial slot: flag byte plus 2 of 4 bytes
    let out = convert(&file).unwrap();
    assert_eq!(out, b"\"A\"\n\"abcd\"\n".to_vec());
}

#[test]
fn eof_marker_stops_iteration() {
    let mut file = make_dbf(1, &[(b"A", b'C', 1)], &[b"x"]);
    // bytes after the 0x1A marker are not records
    file.extend_from_slice(b" y");
    let out = convert(&file).unwrap();
    assert_eq!(out, b"\"A\"\n\"x\"\n".to_vec());
}

#[test]
fn deleted_records_are_emitted() {
    let mut file = make_dbf(2, &[(b"A", b'C', 1)], &[b"x", b"y"]);
    let hsize = 33 + 32;
    file[hsize + 2] = b'*';  // mark the second slot soft-deleted
    let out = convert(&file).unwrap();
    assert_eq!(out, b"\"A\"\n\"x\"\n\"y\"\n".to_vec());
}

#[test]
fn converting_twice_is_byte_identical() {
    let mut r1 = Vec::new();
    r1.extend_from_slice(b"  pad  ");
    r1.extend_from_slice(b" 12.50");
    let file = make_dbf(1, &[(b"C", b'C', 7), (b"N", b'N', 6)], &[&r1]);
    let first = convert(&file);
    let second = convert(&file);
    assert_eq!(first, second);
    assert!(first.is_ok());
}

#[test]
fn bad_magic_marker_is_malformed_header() {
    let mut file = make_dbf(1, &[(b"A", b'C', 1)], &[b"x"]);
    file[0] = 0xFF;
    assert_eq!(convert(&file), Err(DbfError::MalformedHeader));
}

#[test]
fn bad_descriptor_terminator_is_malformed_header() {
    let mut file = make_dbf(1, &[(b"A", b'C', 1)], &[b"x"]);
    file[32 + 32] = 0x00;  // overwrite the 0x0D terminator
    assert_eq!(convert(&file), Err(DbfError::MalformedHeader));
}

#[test]
fn inconsistent_record_size_is_malformed_header() {
    let mut file = make_dbf(1, &[(b"A", b'C', 1)], &[b"x"]);
    file[10] = 7;  // declared record size no longer matches the field layout
    assert_eq!(convert(&file), Err(DbfError::MalformedHeader));
}

#[test]
fn short_file_is_malformed_header() {
    assert_eq!(convert(&vec![0x03u8; 12]), Err(DbfError::MalformedHeader));
    assert_eq!(convert(&Vec::new()), Err(DbfError::MalformedHeader));
}

#[test]
fn bad_record_reports_index_and_offset() {
    let file = make_dbf(
        2,
        &[(b"D", b'D', 8)],
        &[b"19991231", b"1999123X"],
    );
    let hsize = 33 + 32;
    assert_eq!(
        convert(&file),
        Err(DbfError::MalformedRecord { index: 1, offset: hsize + 9 })
    );
}

#[test]
fn bad_numeric_text_is_malformed_record() {
    let file = make_dbf(1, &[(b"N", b'N', 6)], &[b"12.3.4"]);
    let hsize = 33 + 32;
    assert_eq!(
        convert(&file),
        Err(DbfError::MalformedRecord { index: 0, offset: hsize })
    );
}

#[test]
fn quotes_inside_values_are_doubled() {
    let file = make_dbf(1, &[(b"Q", b'C', 8)], &[b"a\"b\"c   "]);
    let out = convert(&file).unwrap();
    assert_eq!(out, b"\"Q\"\n\"a\"\"b\"\"c\"\n".to_vec());
}

#[test]
fn parse_header_reads_layout() {
    let file = make_dbf(7, &[(b"NAME", b'C', 10), (b"AGE", b'I', 4)], &[]);
    let h = parse_header(&file).unwrap();
    assert_eq!(h.record_count, 7);
    assert_eq!(h.header_size as usize, 33 + 64);
    assert_eq!(h.record_size, 15);
    assert_eq!(h.fields.len(), 2);
    assert_eq!(h.fields[0].name, b"NAME".to_vec());
    assert_eq!(h.fields[0].field_type, FieldType::Character);
    assert_eq!(h.fields[0].length, 10);
    assert_eq!(h.fields[1].name, b"AGE".to_vec());
    assert_eq!(h.fields[1].field_type, FieldType::Integer);
}

#[test]
fn eleven_byte_name_without_nul() {
    let file = make_dbf(0, &[(b"ABCDEFGHIJK", b'C', 1)], &[]);
    let h = parse_header(&file).unwrap();
    assert_eq!(h.fields[0].name, b"ABCDEFGHIJK".to_vec());
}

#[test]
fn mixed_types_full_row() {
    let mut r = Vec::new();
    r.extend_from_slice(b"19991231");
    r.extend_from_slice(b" -7.25");
    r.extend_from_slice(&(-45i32).to_le_bytes());
    r.extend_from_slice(b"note  ");
    r.extend_from_slice(b"??");
    let file = make_dbf(
        1,
        &[
            (b"D", b'D', 8),
            (b"F", b'F', 6),
            (b"I", b'I', 4),
            (b"M", b'M', 6),
            (b"X", b'B', 2),
        ],
        &[&r],
    );
    let out = convert(&file).unwrap();
    assert_eq!(
        out,
        b"\"D\";\"F\";\"I\";\"M\";\"X\"\n\"1999-12-31\";\"-7.25\";\"-45\";\"note\";\"\"\n".to_vec()
    );
}

#[test]
fn absent_values_render_empty() {
    let mut r = Vec::new();
    r.extend_from_slice(b"     ");  // Character, all blank
    r.extend_from_slice(b"        ");  // Date, all blank
    r.extend_from_slice(b"      ");  // Numeric, all blank
    r.push(b'?');  // Logical, unknown marker
    let file = make_dbf(
        1,
        &[(b"C", b'C', 5), (b"D", b'D', 8), (b"N", b'N', 6), (b"L", b'L', 1)],
        &[&r],
    );
    let out = convert(&file).unwrap();
    assert_eq!(out, b"\"C\";\"D\";\"N\";\"L\"\n\"\";\"\";\"\";\"\"\n".to_vec());
}

#[test]
fn other_known_versions_are_accepted() {
    for version in [0x02u8, 0x30, 0x83, 0x8B, 0xF5] {
        let mut file = make_dbf(1, &[(b"A", b'C', 1)], &[b"x"]);
        file[0] = version;
        assert_eq!(convert(&file).unwrap(), b"\"A\"\n\"x\"\n".to_vec());
    }
}

#[test]
fn header_size_not_descriptor_aligned_is_malformed() {
    let mut file = make_dbf(1, &[(b"A", b'C', 1)], &[b"x"]);
    file[8] = file[8].wrapping_add(1);  // header size no longer 33 + 32k
    assert_eq!(convert(&file), Err(DbfError::MalformedHeader));
}

#[test]
fn header_size_beyond_file_is_malformed() {
    let mut file = make_dbf(0, &[(b"A", b'C', 1)], &[]);
    file[9] = 0x40;  // header claims to extend far past the file's end
    assert_eq!(convert(&file), Err(DbfError::MalformedHeader));
}

#[test]
fn zero_fields_zero_records() {
    let file = make_dbf(0, &[], &[]);
    let out = convert(&file).unwrap();
    assert_eq!(out, b"\n".to_vec());
}
