use dark_forge::mpk::DecodeError;
use dark_forge::mpk::Error;
use dark_forge::mpk::FileInfo;
use dark_forge::mpk::InfoCollection;

/// A directory record with the given name, whose seven numbers count up
/// from `first`.
fn entry_bytes(name: &str, first: u32) -> Vec<u8> {
    let mut record = vec![0u8; 284];
    record[..name.len()].copy_from_slice(name.as_bytes());
    for index in 0..7 {
        let at = 256 + 4 * index;
        record[at..at + 4].copy_from_slice(&(first + index as u32).to_le_bytes());
    }
    record
}

fn entry(name: &str, first: u32) -> FileInfo {
    FileInfo::from_bytes(&entry_bytes(name, first)).unwrap()
}

fn sorted_keys(collection: &InfoCollection) -> Vec<String> {
    let mut keys: Vec<String> = collection.keys().into_iter().cloned().collect();
    keys.sort();
    keys
}

#[test]
fn new_collection_is_empty() {
    let collection = InfoCollection::new();
    assert_eq!(collection.len(), 0);
    assert!(collection.keys().is_empty());
    assert_eq!(collection.get("anything"), None);
}

#[test]
fn insert_then_get() {
    let mut collection = InfoCollection::new();
    collection.insert(entry("a.txt", 10));
    collection.insert(entry("b.txt", 20));
    assert_eq!(collection.len(), 2);
    assert_eq!(collection.get("a.txt"), Some(&entry("a.txt", 10)));
    assert_eq!(collection.get("b.txt"), Some(&entry("b.txt", 20)));
    assert_eq!(collection.get("c.txt"), None);
    assert_eq!(collection.get("a.tx"), None);
    assert_eq!(collection.get("a.txt "), None);
    assert_eq!(collection.get(""), None);
}

#[test]
fn insert_under_a_taken_name_replaces() {
    let mut collection = InfoCollection::new();
    collection.insert(entry("a.txt", 10));
    collection.insert(entry("b.txt", 20));
    collection.insert(entry("a.txt", 30));
    assert_eq!(collection.len(), 2);
    assert_eq!(collection.get("a.txt"), Some(&entry("a.txt", 30)));
    assert_eq!(collection.get("b.txt"), Some(&entry("b.txt", 20)));
    assert_eq!(sorted_keys(&collection), vec!["a.txt", "b.txt"]);
}

#[test]
fn names_are_told_apart_by_every_byte() {
    let mut collection = InfoCollection::new();
    collection.insert(entry("File.txt", 1));
    collection.insert(entry("file.txt", 2));
    collection.insert(entry("file.txT", 3));
    collection.insert(entry("", 4));
    assert_eq!(collection.len(), 4);
    assert_eq!(collection.get("file.txt").unwrap().timestamp, 2);
    assert_eq!(collection.get("").unwrap().timestamp, 4);
}

#[test]
fn empty_directory_decodes_to_nothing() {
    let collection = InfoCollection::from_bytes(&[]).unwrap();
    assert_eq!(collection.len(), 0);
}

#[test]
fn directory_decodes_record_by_record() {
    let mut blob = entry_bytes("one.dat", 100);
    blob.extend(entry_bytes("two.dat", 200));
    blob.extend(entry_bytes("three.dat", 300));
    let collection = InfoCollection::from_bytes(&blob).unwrap();
    assert_eq!(collection.len(), 3);
    assert_eq!(sorted_keys(&collection), vec!["one.dat", "three.dat", "two.dat"]);
    assert_eq!(collection.get("two.dat"), Some(&entry("two.dat", 200)));
    assert_eq!(collection.get("three.dat").unwrap().compressed_crc32, 306);
}

#[test]
fn later_record_of_the_same_name_wins() {
    let mut blob = entry_bytes("same", 1);
    blob.extend(entry_bytes("other", 2));
    blob.extend(entry_bytes("same", 3));
    let collection = InfoCollection::from_bytes(&blob).unwrap();
    assert_eq!(collection.len(), 2);
    assert_eq!(sorted_keys(&collection), vec!["other", "same"]);
    assert_eq!(collection.get("same"), Some(&entry("same", 3)));
    assert_eq!(collection.get("other"), Some(&entry("other", 2)));
}

#[test]
fn keys_hold_each_name_once() {
    let mut blob = Vec::new();
    for round in 0..3 {
        for name in ["x", "y", "z", "x"] {
            blob.extend(entry_bytes(name, round));
        }
    }
    let collection = InfoCollection::from_bytes(&blob).unwrap();
    assert_eq!(collection.keys().len(), 3);
    assert_eq!(sorted_keys(&collection), vec!["x", "y", "z"]);
    assert_eq!(collection.len(), 3);
}

#[test]
fn bytes_left_over_behind_the_last_record_fail() {
    let mut blob = entry_bytes("whole", 1);
    blob.extend_from_slice(&[0u8; 10]);
    assert_eq!(
        InfoCollection::from_bytes(&blob).err(),
        Some(Error::Decode(DecodeError::PartialRecord))
    );
    assert_eq!(
        InfoCollection::from_bytes(&[0u8; 283]).err(),
        Some(Error::Decode(DecodeError::PartialRecord))
    );
    assert_eq!(
        InfoCollection::from_bytes(&[7u8]).err(),
        Some(Error::Decode(DecodeError::PartialRecord))
    );
}

#[test]
fn first_record_that_does_not_decode_decides() {
    let mut blob = entry_bytes("good", 1);
    blob.extend(vec![b'A'; 284]);
    let mut bad_name = entry_bytes("x", 1);
    bad_name[0] = 0xff;
    blob.extend(bad_name);
    assert_eq!(
        InfoCollection::from_bytes(&blob).err(),
        Some(Error::Decode(DecodeError::MissingTerminator))
    );
}

#[test]
fn record_that_does_not_decode_comes_before_left_over_bytes() {
    let mut blob = entry_bytes("x", 1);
    blob[0] = 0x80;
    blob.extend_from_slice(&[1, 2, 3]);
    assert_eq!(
        InfoCollection::from_bytes(&blob).err(),
        Some(Error::Decode(DecodeError::InvalidUtf8))
    );
}
