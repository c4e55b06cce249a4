use resp_kv::rdb::{DataType, RdbReadError, RdbReader};
use resp_kv::utils::empty_rdb_bytes;

#[test]
fn the_canonical_empty_snapshot_is_88_bytes_and_reads_as_empty() {
    let blob = empty_rdb_bytes();
    assert_eq!(blob.len(), 88);
    let data = RdbReader::read(&blob).expect("the empty snapshot decodes");
    assert_eq!(data.rdb_version, 11);
    assert_eq!(data.entries.len(), 0);
    // Its auxiliary fields survive as metadata.
    assert_eq!(data.metadata.len(), 5);
    assert_eq!(data.metadata[0].0, b"redis-ver".to_vec());
    assert_eq!(data.metadata[0].1, b"7.2.0".to_vec());
    assert_eq!(data.metadata[1].0, b"redis-bits".to_vec());
    assert_eq!(data.metadata[1].1, b"64".to_vec());
}

fn fixture_with_three_keys() -> Vec<u8> {
    let mut file = b"REDIS0006".to_vec();
    // Sizing hint before any database: allowed.
    file.push(0xFB);
    file.push(0x03);
    file.push(0x01);
    file.push(0xFE);
    file.push(0x00);
    // "plain" -> "value", no expiry.
    file.extend_from_slice(&[0x00, 0x05]);
    file.extend_from_slice(b"plain");
    file.push(0x05);
    file.extend_from_slice(b"value");
    // "ms" -> "m", millisecond expiry 123456789.
    file.push(0xFC);
    file.extend_from_slice(&123_456_789u64.to_le_bytes());
    file.extend_from_slice(&[0x00, 0x02]);
    file.extend_from_slice(b"ms");
    file.push(0x01);
    file.extend_from_slice(b"m");
    // "sec" -> "s", second expiry 1700000000.
    file.push(0xFD);
    file.extend_from_slice(&1_700_000_000u32.to_le_bytes());
    file.extend_from_slice(&[0x00, 0x03]);
    file.extend_from_slice(b"sec");
    file.push(0x01);
    file.extend_from_slice(b"s");
    file.push(0xFF);
    file.extend_from_slice(&[0; 8]);
    file
}

#[test]
fn a_fixture_with_each_expiry_form_reads_back_exactly() {
    let data = RdbReader::read(&fixture_with_three_keys()).expect("fixture decodes");
    assert_eq!(data.rdb_version, 6);
    assert_eq!(data.entries.len(), 3);

    assert_eq!(data.entries[0].db, 0);
    assert_eq!(data.entries[0].key, b"plain".to_vec());
    assert!(matches!(&data.entries[0].value, DataType::String(v) if *v == b"value".to_vec()));
    assert_eq!(data.entries[0].expiry, None);

    assert_eq!(data.entries[1].key, b"ms".to_vec());
    assert_eq!(data.entries[1].expiry, Some(123_456_789));

    assert_eq!(data.entries[2].key, b"sec".to_vec());
    assert_eq!(data.entries[2].expiry, Some(1_700_000_000_000));
}

#[test]
fn length_encodings_cover_all_three_forms() {
    // A 14-bit length (tag 01) and a 32-bit length (tag 10) on values.
    let mut file = b"REDIS0003".to_vec();
    file.push(0xFE);
    file.push(0x00);
    file.extend_from_slice(&[0x00, 0x01]);
    file.push(b'k');
    // 14-bit length 300: 0b01000001 0x2C.
    file.push(0b0100_0001);
    file.push(0x2C);
    let long_val = vec![b'a'; 300];
    file.extend_from_slice(&long_val);
    file.push(0xFF);
    let data = RdbReader::read(&file).expect("decodes");
    assert!(matches!(&data.entries[0].value, DataType::String(v) if v.len() == 300));

    let mut file = b"REDIS0003".to_vec();
    file.push(0xFE);
    file.push(0x00);
    file.extend_from_slice(&[0x00, 0x01]);
    file.push(b'k');
    // 32-bit length 5, little-endian after the 0b10 tag byte.
    file.push(0b1000_0000);
    file.extend_from_slice(&5u32.to_le_bytes());
    file.extend_from_slice(b"hello");
    file.push(0xFF);
    let data = RdbReader::read(&file).expect("decodes");
    assert!(matches!(&data.entries[0].value, DataType::String(v) if *v == b"hello".to_vec()));
}

#[test]
fn special_format_integers_become_their_numerals() {
    // Metadata values: int8 -1 (0xC0 0xFF), int16 300 (0xC1), int32
    // -2147483648 (0xC2 with the sign bit set).
    let mut file = b"REDIS0003".to_vec();
    file.push(0xFA);
    file.push(0x01);
    file.push(b'a');
    file.extend_from_slice(&[0xC0, 0xFF]);
    file.push(0xFA);
    file.push(0x01);
    file.push(b'b');
    file.push(0xC1);
    file.extend_from_slice(&300u16.to_le_bytes());
    file.push(0xFA);
    file.push(0x01);
    file.push(b'c');
    file.push(0xC2);
    file.extend_from_slice(&0x8000_0000u32.to_le_bytes());
    file.push(0xFF);
    let data = RdbReader::read(&file).expect("decodes");
    assert_eq!(data.metadata[0].1, b"-1".to_vec());
    assert_eq!(data.metadata[1].1, b"300".to_vec());
    assert_eq!(data.metadata[2].1, b"-2147483648".to_vec());
}

#[test]
fn rejects_files_that_are_not_snapshots() {
    assert!(matches!(
        RdbReader::read(&b"REDIK0006".to_vec()),
        Err(RdbReadError::NotRedisDatabase)
    ));
    assert!(matches!(RdbReader::read(&b"RED".to_vec()), Err(RdbReadError::NotRedisDatabase)));
    assert!(matches!(
        RdbReader::read(&b"REDIS00x6\xff".to_vec()),
        Err(RdbReadError::InvalidVersion)
    ));
}

#[test]
fn rejects_a_key_before_any_database_selection() {
    let mut file = b"REDIS0003".to_vec();
    file.extend_from_slice(&[0x00, 0x01]);
    file.push(b'k');
    assert!(matches!(
        RdbReader::read(&file),
        Err(RdbReadError::AttemptReadKeyWithoutDatabaseSelected)
    ));
    // An expiry latch before selection is refused the same way.
    let mut file = b"REDIS0003".to_vec();
    file.push(0xFC);
    file.extend_from_slice(&0u64.to_le_bytes());
    assert!(matches!(
        RdbReader::read(&file),
        Err(RdbReadError::AttemptReadKeyWithoutDatabaseSelected)
    ));
}

#[test]
fn rejects_truncated_compressed_and_unhandled_content() {
    // Truncated inside a value.
    let mut file = b"REDIS0003".to_vec();
    file.push(0xFE);
    file.push(0x00);
    file.extend_from_slice(&[0x00, 0x05]);
    file.extend_from_slice(b"ab");
    assert!(matches!(RdbReader::read(&file), Err(RdbReadError::UnexpectedEndOfFile)));

    // An LZF-compressed string (special format 3).
    let mut file = b"REDIS0003".to_vec();
    file.push(0xFA);
    file.push(0x01);
    file.push(b'a');
    file.push(0xC3);
    assert!(matches!(
        RdbReader::read(&file),
        Err(RdbReadError::CompressedStringNotImplemented)
    ));

    // A value of a kind this core does not surface (a list).
    let mut file = b"REDIS0003".to_vec();
    file.push(0xFE);
    file.push(0x00);
    file.extend_from_slice(&[0x01, 0x01]);
    file.push(b'k');
    assert!(matches!(RdbReader::read(&file), Err(RdbReadError::UnhandledValueType(1))));
}

#[test]
fn version_five_and_up_requires_the_trailing_checksum() {
    let mut file = b"REDIS0006".to_vec();
    file.push(0xFF);
    assert!(matches!(RdbReader::read(&file), Err(RdbReadError::UnexpectedEndOfFile)));
    file.extend_from_slice(&[0; 8]);
    assert!(RdbReader::read(&file).is_ok());
    // Before version five there is none to read.
    let mut file = b"REDIS0003".to_vec();
    file.push(0xFF);
    assert!(RdbReader::read(&file).is_ok());
}

#[test]
fn is_rdb_file_checks_the_magic() {
    assert!(RdbReader::is_rdb_file(&b"REDIS0006".to_vec()));
    assert!(!RdbReader::is_rdb_file(&b"REDIk0006".to_vec()));
    assert!(!RdbReader::is_rdb_file(&b"RE".to_vec()));
}
