use dark_forge::mpk::header::HEADER_FIELDS_SIZE;
use dark_forge::mpk::header::HEADER_SIZE;
use dark_forge::mpk::header::PREAMBLE_SIZE;
use dark_forge::mpk::ArchiveHeader;
use dark_forge::mpk::Error;
use dark_forge::mpk::IoError;

/// The first 21 bytes of an archive with the given four numbers, masked as
/// the format has it.
fn header_bytes(preamble: &[u8; 5], fields: [u32; 4]) -> Vec<u8> {
    let mut bytes = preamble.to_vec();
    for value in fields {
        bytes.extend_from_slice(&value.to_le_bytes());
    }
    for index in 0..16 {
        bytes[5 + index] ^= index as u8;
    }
    bytes
}

#[test]
fn header_takes_21_bytes() {
    assert_eq!(PREAMBLE_SIZE, 5);
    assert_eq!(HEADER_FIELDS_SIZE, 16);
    assert_eq!(HEADER_SIZE, 21);
}

#[test]
fn unmasks_each_byte_with_its_own_key() {
    let bytes = vec![0u8; 21];
    let header = ArchiveHeader::from_bytes(&bytes).unwrap();
    assert_eq!(header.dir_crc32, 0x0302_0100);
    assert_eq!(header.dir_compressed_size, 0x0706_0504);
    assert_eq!(header.name_compressed_size, 0x0b0a_0908);
    assert_eq!(header.file_count, 0x0f0e_0d0c);
}

#[test]
fn masked_bytes_that_equal_their_keys_give_zero() {
    let mut bytes = vec![0u8; 21];
    for index in 0..16 {
        bytes[5 + index] = index as u8;
    }
    let header = ArchiveHeader::from_bytes(&bytes).unwrap();
    assert_eq!(
        header,
        ArchiveHeader { dir_crc32: 0, dir_compressed_size: 0, name_compressed_size: 0, file_count: 0 }
    );
}

#[test]
fn decodes_the_four_numbers_in_order() {
    let bytes = header_bytes(b"DFMP\0", [0xcafe_f00d, 300, 17, 2]);
    let header = ArchiveHeader::from_bytes(&bytes).unwrap();
    assert_eq!(header.dir_crc32, 0xcafe_f00d);
    assert_eq!(header.dir_compressed_size, 300);
    assert_eq!(header.name_compressed_size, 17);
    assert_eq!(header.file_count, 2);
}

#[test]
fn decodes_one_masked_header_by_hand() {
    // 0x12345678 little-endian is 78 56 34 12; with the keys 4, 5, 6, 7 that
    // is 7c 53 32 15.
    let mut bytes = vec![0u8; 21];
    bytes[9] = 0x7c;
    bytes[10] = 0x53;
    bytes[11] = 0x32;
    bytes[12] = 0x15;
    let header = ArchiveHeader::from_bytes(&bytes).unwrap();
    assert_eq!(header.dir_compressed_size, 0x1234_5678);
}

#[test]
fn preamble_is_not_looked_at() {
    let fields = [1, 2, 3, 4];
    let one = ArchiveHeader::from_bytes(&header_bytes(b"DFMP\0", fields)).unwrap();
    let other = ArchiveHeader::from_bytes(&header_bytes(b"\xff\xfe\xfd\xfc\xfb", fields)).unwrap();
    assert_eq!(one, other);
}

#[test]
fn bytes_behind_the_header_are_not_looked_at() {
    let mut bytes = header_bytes(b"DFMP\0", [5, 6, 7, 8]);
    bytes.extend_from_slice(&[0xaa; 100]);
    let header = ArchiveHeader::from_bytes(&bytes).unwrap();
    assert_eq!(header.file_count, 8);
}

#[test]
fn header_of_fewer_than_21_bytes_fails() {
    for len in 0..21 {
        let bytes = vec![0u8; len];
        assert_eq!(
            ArchiveHeader::from_bytes(&bytes),
            Err(Error::IO(IoError::UnexpectedEof))
        );
    }
}
