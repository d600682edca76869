use dark_forge::mpk::file_info::FILE_DETAIL_POS;
use dark_forge::mpk::file_info::TOTAL_FILE_BYTE_SIZE;
use dark_forge::mpk::le::read_u32_le;
use dark_forge::mpk::DecodeError;
use dark_forge::mpk::Error;
use dark_forge::mpk::FileInfo;

/// A record with the given name and the given seven numbers, in the order
/// of the fields.
fn record_of(name: &[u8], details: [u32; 7]) -> Vec<u8> {
    let mut record = vec![0u8; 284];
    record[..name.len()].copy_from_slice(name);
    for (index, value) in details.iter().enumerate() {
        let at = 256 + 4 * index;
        record[at..at + 4].copy_from_slice(&value.to_le_bytes());
    }
    record
}

/// The record that a `FileInfo` is spelled as.
fn record_from(info: &FileInfo) -> Vec<u8> {
    record_of(
        info.name.as_bytes(),
        [
            info.timestamp,
            info.unknown,
            info.memory_offset,
            info.decompressed_byte_size,
            info.file_offset,
            info.compressed_byte_size,
            info.compressed_crc32,
        ],
    )
}

#[test]
fn record_size_is_284() {
    assert_eq!(FileInfo::raw_byte_size(), 284);
    assert_eq!(TOTAL_FILE_BYTE_SIZE, 284);
    assert_eq!(FILE_DETAIL_POS, 256);
}

#[test]
fn reads_little_endian_numbers() {
    let bytes = [0x78u8, 0x56, 0x34, 0x12, 0xff, 0xff, 0xff, 0xff];
    assert_eq!(read_u32_le(&bytes, 0), Some(0x1234_5678));
    assert_eq!(read_u32_le(&bytes, 4), Some(u32::MAX));
    assert_eq!(read_u32_le(&bytes, 1), Some(0xff12_3456));
    assert_eq!(read_u32_le(&[1, 0, 0, 0], 0), Some(1));
    assert_eq!(read_u32_le(&[0, 0, 0, 1], 0), Some(0x0100_0000));
}

#[test]
fn reads_no_number_across_the_end() {
    let bytes = [1u8, 2, 3, 4, 5];
    assert_eq!(read_u32_le(&bytes, 1), Some(0x0504_0302));
    assert_eq!(read_u32_le(&bytes, 2), None);
    assert_eq!(read_u32_le(&bytes, 5), None);
    assert_eq!(read_u32_le(&bytes, usize::MAX), None);
    assert_eq!(read_u32_le(&[1, 2, 3], 0), None);
    assert_eq!(read_u32_le(&[], 0), None);
}

#[test]
fn decodes_name_and_numbers_in_order() {
    let record = record_of(b"hello.txt", [1, 2, 3, 4, 5, 6, 7]);
    let info = FileInfo::from_bytes(&record).unwrap();
    assert_eq!(info.name, "hello.txt");
    assert_eq!(info.timestamp, 1);
    assert_eq!(info.unknown, 2);
    assert_eq!(info.memory_offset, 3);
    assert_eq!(info.decompressed_byte_size, 4);
    assert_eq!(info.file_offset, 5);
    assert_eq!(info.compressed_byte_size, 6);
    assert_eq!(info.compressed_crc32, 7);
}

#[test]
fn decodes_numbers_byte_by_byte() {
    let mut record = vec![0u8; 284];
    record[0] = b'a';
    for index in 0..28 {
        record[256 + index] = 0x10 + index as u8;
    }
    let info = FileInfo::from_bytes(&record).unwrap();
    assert_eq!(info.name, "a");
    assert_eq!(info.timestamp, 0x1312_1110);
    assert_eq!(info.unknown, 0x1716_1514);
    assert_eq!(info.memory_offset, 0x1b1a_1918);
    assert_eq!(info.decompressed_byte_size, 0x1f1e_1d1c);
    assert_eq!(info.file_offset, 0x2322_2120);
    assert_eq!(info.compressed_byte_size, 0x2726_2524);
    assert_eq!(info.compressed_crc32, 0x2b2a_2928);
}

#[test]
fn decodes_largest_numbers() {
    let record = record_of(b"max", [u32::MAX; 7]);
    let info = FileInfo::from_bytes(&record).unwrap();
    assert_eq!(info.timestamp, u32::MAX);
    assert_eq!(info.compressed_crc32, u32::MAX);
}

#[test]
fn name_may_be_empty() {
    let record = record_of(b"", [9, 8, 7, 6, 5, 4, 3]);
    let info = FileInfo::from_bytes(&record).unwrap();
    assert_eq!(info.name, "");
    assert_eq!(info.timestamp, 9);
}

#[test]
fn name_stops_at_first_zero_byte() {
    let mut record = record_of(b"first", [0; 7]);
    record[6..12].copy_from_slice(b"second");
    let info = FileInfo::from_bytes(&record).unwrap();
    assert_eq!(info.name, "first");
}

#[test]
fn name_may_hold_longer_characters() {
    let name = "h\u{e9}llo \u{4e16}\u{754c}.txt";
    let record = record_of(name.as_bytes(), [0; 7]);
    let info = FileInfo::from_bytes(&record).unwrap();
    assert_eq!(info.name, name);
}

#[test]
fn name_of_255_bytes_fits_before_the_numbers() {
    let name = vec![b'n'; 255];
    let record = record_of(&name, [11, 12, 13, 14, 15, 16, 17]);
    let info = FileInfo::from_bytes(&record).unwrap();
    assert_eq!(info.name.len(), 255);
    assert_eq!(info.timestamp, 11);
    assert_eq!(info.compressed_crc32, 17);
}

#[test]
fn record_without_zero_byte_fails() {
    let record = vec![b'A'; 284];
    assert_eq!(
        FileInfo::from_bytes(&record),
        Err(Error::Decode(DecodeError::MissingTerminator))
    );
}

#[test]
fn zero_byte_behind_the_record_does_not_count() {
    let mut bytes = vec![b'A'; 300];
    bytes[290] = 0;
    assert_eq!(
        FileInfo::from_bytes(&bytes),
        Err(Error::Decode(DecodeError::MissingTerminator))
    );
}

#[test]
fn name_that_is_not_utf8_fails() {
    let record = record_of(&[b'a', 0xff, b'b'], [0; 7]);
    assert_eq!(
        FileInfo::from_bytes(&record),
        Err(Error::Decode(DecodeError::InvalidUtf8))
    );
    let cut_short = record_of(&[0xe4, 0xb8], [0; 7]);
    assert_eq!(
        FileInfo::from_bytes(&cut_short),
        Err(Error::Decode(DecodeError::InvalidUtf8))
    );
}

#[test]
fn name_that_does_not_end_before_the_numbers_fails() {
    let mut record = vec![b'a'; 256];
    record.extend_from_slice(&[0u8; 28]);
    assert_eq!(
        FileInfo::from_bytes(&record),
        Err(Error::Decode(DecodeError::MissingTerminator))
    );

    let mut record = vec![b'a'; 284];
    record[258] = 0;
    assert_eq!(
        FileInfo::from_bytes(&record),
        Err(Error::Decode(DecodeError::MissingTerminator))
    );

    let mut record = vec![b'a'; 284];
    record[255] = 0;
    assert_eq!(FileInfo::from_bytes(&record).unwrap().name.len(), 255);
}

#[test]
fn bytes_behind_the_record_are_not_looked_at() {
    let mut bytes = record_of(b"data.bin", [1, 2, 3, 4, 5, 6, 7]);
    bytes.extend_from_slice(&[0xff; 40]);
    let info = FileInfo::from_bytes(&bytes).unwrap();
    assert_eq!(info.name, "data.bin");
    assert_eq!(info.compressed_crc32, 7);
}

#[test]
fn decoding_then_spelling_gives_the_bytes_back() {
    let mut record = record_of(b"models/tree.nif", [0; 7]);
    for index in 0..28 {
        record[256 + index] = (index as u8).wrapping_mul(37).wrapping_add(5);
    }
    let info = FileInfo::from_bytes(&record).unwrap();
    let again = record_from(&info);
    assert_eq!(again[256..284], record[256..284]);
    assert_eq!(again[..16], record[..16]);
    assert_eq!(again, record);
}

#[test]
fn spelling_then_decoding_gives_the_record_back() {
    let info = FileInfo {
        name: String::from("zone/terrain.csv"),
        timestamp: 0x5f00_1234,
        unknown: 0xdead_beef,
        memory_offset: 4096,
        decompressed_byte_size: 70_000,
        file_offset: 123_456,
        compressed_byte_size: 9_876,
        compressed_crc32: 0x0bad_f00d,
    };
    assert_eq!(FileInfo::from_bytes(&record_from(&info)), Ok(info));
}
