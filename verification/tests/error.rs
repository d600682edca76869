use dark_forge::mpk::text::same_text;
use dark_forge::mpk::DecodeError;
use dark_forge::mpk::Error;
use dark_forge::mpk::IoError;

#[test]
fn errors_are_made_from_their_causes() {
    assert_eq!(Error::from(IoError::UnexpectedEof), Error::IO(IoError::UnexpectedEof));
    assert_eq!(Error::from(DecodeError::Zlib), Error::Decode(DecodeError::Zlib));
    let error: Error = DecodeError::PartialRecord.into();
    assert_eq!(error, Error::Decode(DecodeError::PartialRecord));
}

#[test]
fn each_error_says_what_went_wrong() {
    assert_eq!(
        Error::IO(IoError::UnexpectedEof).message(),
        "the archive ends before the bytes that it announces"
    );
    assert_eq!(
        Error::Decode(DecodeError::MissingTerminator).message(),
        "a directory record has no zero byte to end its name"
    );
    assert_eq!(Error::Decode(DecodeError::InvalidUtf8).message(), "a name is not valid UTF-8");
    assert_eq!(
        Error::Decode(DecodeError::PartialRecord).message(),
        "the directory does not consist of whole records of 284 bytes"
    );
    assert_eq!(
        Error::Decode(DecodeError::Zlib).message(),
        "a zlib stream is cut short or corrupt"
    );
}

#[test]
fn texts_are_the_same_when_their_characters_are() {
    assert!(same_text("", ""));
    assert!(same_text("hello.txt", "hello.txt"));
    assert!(same_text("h\u{e9}llo", "h\u{e9}llo"));
    assert!(!same_text("hello.txt", "hello.tx"));
    assert!(!same_text("hello.txt", "hello.txT"));
    assert!(!same_text("", "a"));
    assert!(!same_text("h\u{e9}llo", "hello"));
}
