//! What can go wrong while an archive is read.
use vstd::prelude::*;
use vstd::std_specs::convert::FromSpecImpl;

verus! {

/// A failure to get at the bytes of the archive.
#[derive(Debug, Clone, Copy, PartialEq, Eq, Structural)]
pub enum IoError {
    /// The archive ends before the bytes that were asked for.
    UnexpectedEof,
}

/// A failure to make sense of the bytes of the archive.
#[derive(Debug, Clone, Copy, PartialEq, Eq, Structural)]
pub enum DecodeError {
    /// A directory record holds no zero byte to end its name before its
    /// numbers start.
    MissingTerminator,
    /// A name is not valid UTF-8.
    InvalidUtf8,
    /// The directory does not consist of whole records.
    PartialRecord,
    /// A zlib stream is cut short or corrupt.
    Zlib,
}

/// Why an archive, or one file of it, could not be read.
#[derive(Debug, Clone, Copy, PartialEq, Eq, Structural)]
pub enum Error {
    IO(IoError),
    Decode(DecodeError),
}

impl IoError {
    /// The words for this failure.
    pub open spec fn text(self) -> Seq<char> {
        match self {
            IoError::UnexpectedEof => "the archive ends before the bytes that it announces"@,
        }
    }
}

impl DecodeError {
    /// The words for this failure.
    pub open spec fn text(self) -> Seq<char> {
        match self {
            DecodeError::MissingTerminator => "a directory record has no zero byte to end its name"@,
            DecodeError::InvalidUtf8 => "a name is not valid UTF-8"@,
            DecodeError::PartialRecord => "the directory does not consist of whole records of 284 bytes"@,
            DecodeError::Zlib => "a zlib stream is cut short or corrupt"@,
        }
    }
}

impl Error {
    /// The words for this error.
    pub open spec fn text(self) -> Seq<char> {
        match self {
            Error::IO(error) => error.text(),
            Error::Decode(error) => error.text(),
        }
    }

    /// Says in words what went wrong.
    pub fn message(&self) -> (message: String)
        ensures
            message@ == self.text(),
    {
        match self {
            Error::IO(IoError::UnexpectedEof) => {
                "the archive ends before the bytes that it announces".to_owned()
            },
            Error::Decode(DecodeError::MissingTerminator) => {
                "a directory record has no zero byte to end its name".to_owned()
            },
            Error::Decode(DecodeError::InvalidUtf8) => "a name is not valid UTF-8".to_owned(),
            Error::Decode(DecodeError::PartialRecord) => {
                "the directory does not consist of whole records of 284 bytes".to_owned()
            },
            Error::Decode(DecodeError::Zlib) => "a zlib stream is cut short or corrupt".to_owned(),
        }
    }
}

impl From<IoError> for Error {
    fn from(error: IoError) -> (result: Error) {
        Error::IO(error)
    }
}

impl FromSpecImpl<IoError> for Error {
    open spec fn obeys_from_spec() -> bool {
        true
    }

    open spec fn from_spec(error: IoError) -> Error {
        Error::IO(error)
    }
}

impl From<DecodeError> for Error {
    fn from(error: DecodeError) -> (result: Error) {
        Error::Decode(error)
    }
}

impl FromSpecImpl<DecodeError> for Error {
    open spec fn obeys_from_spec() -> bool {
        true
    }

    open spec fn from_spec(error: DecodeError) -> Error {
        Error::Decode(error)
    }
}

} // verus!
