//! The Mpak archive format.
pub mod error;
pub mod file_info;
pub mod header;
pub mod info_collection;
pub mod le;
pub mod mpak;
pub mod text;
pub mod zlib;

pub use self::error::DecodeError;
pub use self::error::Error;
pub use self::error::IoError;
pub use self::file_info::FileInfo;
pub use self::info_collection::InfoCollection;
pub use self::header::ArchiveHeader;
pub use self::mpak::Mpak;
