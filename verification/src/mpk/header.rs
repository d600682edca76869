//! The header of an archive.
use crate::mpk::error::Error;
use crate::mpk::error::IoError;
use crate::mpk::le::u32_le;
use vstd::prelude::*;
use vstd::slice::axiom_spec_len;

verus! {

/// The number of bytes at the start of an archive that are its signature.
/// They are not looked at.
pub const PREAMBLE_SIZE: usize = 5;

/// The number of bytes that the four numbers of the header take.
pub const HEADER_FIELDS_SIZE: usize = 16;

/// The number of bytes before the first compressed segment: the preamble
/// and the four numbers.
pub const HEADER_SIZE: usize = PREAMBLE_SIZE + HEADER_FIELDS_SIZE;

/// The four numbers that stand behind the preamble of an archive.
#[derive(Debug, Clone, Copy, PartialEq, Eq, Structural)]
pub struct ArchiveHeader {
    /// The checksum of the compressed directory. It is read and kept, and
    /// not verified.
    pub dir_crc32: u32,
    /// The number of bytes of the compressed directory.
    pub dir_compressed_size: u32,
    /// The number of bytes of the compressed archive name.
    pub name_compressed_size: u32,
    /// The number of files that the archive says it holds. The directory
    /// decides how many there are.
    pub file_count: u32,
}

/// The little-endian number in the four bytes from `at` on, of which the
/// first is masked with `key` and each next one with a key that is one more.
/// A byte comes out of its mask by exclusive or with its key.
pub open spec fn masked_u32_le(data: Seq<u8>, at: int, key: u8) -> u32
    recommends
        0 <= at,
        at + 4 <= data.len(),
        key + 3 <= u8::MAX,
{
    u32_le(
        seq![
            data[at] ^ key,
            data[at + 1] ^ ((key + 1) as u8),
            data[at + 2] ^ ((key + 2) as u8),
            data[at + 3] ^ ((key + 3) as u8),
        ],
        0,
    )
}

/// The header of the archive that starts with `data`. The 16 bytes behind
/// the preamble are masked with the keys 0, 1, 2 and so on up to 15, one key
/// for each byte, and hold four little-endian numbers.
pub open spec fn decode_header(data: Seq<u8>) -> ArchiveHeader
    recommends
        data.len() >= HEADER_SIZE,
{
    ArchiveHeader {
        dir_crc32: masked_u32_le(data, PREAMBLE_SIZE as int, 0),
        dir_compressed_size: masked_u32_le(data, PREAMBLE_SIZE + 4, 4),
        name_compressed_size: masked_u32_le(data, PREAMBLE_SIZE + 8, 8),
        file_count: masked_u32_le(data, PREAMBLE_SIZE + 12, 12),
    }
}

/// Reads the masked number at `pos`, and moves `pos` and the key on by four.
fn read_next_u32(data: &[u8], pos: &mut usize, xor_byte: &mut u8) -> (result: Result<u32, Error>)
    requires
        *old(pos) <= data@.len(),
        *old(xor_byte) + 4 <= u8::MAX,
    ensures
        match result {
            Ok(value) => {
                &&& *old(pos) + 4 <= data@.len()
                &&& value == masked_u32_le(data@, *old(pos) as int, *old(xor_byte))
                &&& *final(pos) == *old(pos) + 4
                &&& *final(xor_byte) == *old(xor_byte) + 4
            },
            Err(error) => {
                &&& *old(pos) + 4 > data@.len()
                &&& error == Error::IO(IoError::UnexpectedEof)
                &&& *final(pos) == *old(pos)
                &&& *final(xor_byte) == *old(xor_byte)
            },
        },
{
    proof {
        axiom_spec_len(data);
    }
    if data.len() - *pos < 4 {
        return Err(Error::IO(IoError::UnexpectedEof));
    }
    let at: usize = *pos;
    let key: u8 = *xor_byte;
    let b0: u32 = (data[at] ^ key) as u32;
    let b1: u32 = (data[at + 1] ^ (key + 1)) as u32;
    let b2: u32 = (data[at + 2] ^ (key + 2)) as u32;
    let b3: u32 = (data[at + 3] ^ (key + 3)) as u32;
    *pos = at + 4;
    *xor_byte = key + 4;
    Ok(b0 + b1 * 0x100 + b2 * 0x1_0000 + b3 * 0x100_0000)
}

impl ArchiveHeader {
    /// Decodes the header of the archive that starts with `data`. The
    /// preamble is skipped. An archive of fewer than 21 bytes has no header.
    pub fn from_bytes(data: &[u8]) -> (result: Result<ArchiveHeader, Error>)
        ensures
            match result {
                Ok(header) => data@.len() >= HEADER_SIZE && header == decode_header(data@),
                Err(error) => data@.len() < HEADER_SIZE && error == Error::IO(
                    IoError::UnexpectedEof,
                ),
            },
    {
        if data.len() < HEADER_SIZE {
            return Err(Error::IO(IoError::UnexpectedEof));
        }
        let mut pos: usize = PREAMBLE_SIZE;
        let mut xor_byte: u8 = 0;

        // Please note the order of these calls *is* important
        let dir_crc32 = match read_next_u32(data, &mut pos, &mut xor_byte) {
            Ok(value) => value,
            Err(error) => {
                return Err(error);
            },
        };
        let dir_compressed_size = match read_next_u32(data, &mut pos, &mut xor_byte) {
            Ok(value) => value,
            Err(error) => {
                return Err(error);
            },
        };
        let name_compressed_size = match read_next_u32(data, &mut pos, &mut xor_byte) {
            Ok(value) => value,
            Err(error) => {
                return Err(error);
            },
        };
        let file_count = match read_next_u32(data, &mut pos, &mut xor_byte) {
            Ok(value) => value,
            Err(error) => {
                return Err(error);
            },
        };
        Ok(ArchiveHeader { dir_crc32, dir_compressed_size, name_compressed_size, file_count })
    }
}

} // verus!
