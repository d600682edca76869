//! Reading Mpak archives, the container format of the Dark Age of Camelot
//! game client.
//!
//! An archive is a short obfuscated header, two zlib streams (the archive's
//! display name and a directory of fixed-size records) and the compressed
//! payloads of the files, one after another. Everything in this crate works
//! on bytes that are already in memory; reading them from disk is left to
//! the caller.
pub mod mpk;
