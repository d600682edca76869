//! The directory records of an archive.
use crate::mpk::error::DecodeError;
use crate::mpk::error::Error;
use crate::mpk::le::lemma_bytes_of_u32_le;
use crate::mpk::le::lemma_u32_le_at;
use crate::mpk::le::read_u32_le;
use crate::mpk::le::u32_le;
use crate::mpk::le::u32_le_bytes;
use vstd::prelude::*;
use vstd::slice::axiom_spec_len;
use vstd::slice::slice_subrange;
use vstd::slice::slice_to_vec;
use vstd::utf8::decode_utf8;
use vstd::utf8::decode_utf8_encode_utf8;
use vstd::utf8::encode_utf8;
use vstd::utf8::encode_utf8_decode_utf8;
use vstd::utf8::encode_utf8_valid_utf8;
use vstd::utf8::valid_utf8;

verus! {

/// The number of bytes that one record takes in the directory.
pub const TOTAL_FILE_BYTE_SIZE: usize = 284;

/// Where, in a record, the seven numbers start. The name, with the zero byte
/// that ends it, stands before them.
pub const FILE_DETAIL_POS: usize = 256;

/// Information of Archived File
///
/// This represents a segment from the Mpak directory
/// header detailing information on a file contained
/// in the archive.
#[derive(Debug, Clone, PartialEq, Eq)]
pub struct FileInfo {
    /// The name of the file: the bytes of the record up to the first zero
    /// byte, as UTF-8 text. In a record it takes fewer than 256 bytes.
    pub name: String,
    /// The time stamp of the file, as the archive gives it.
    pub timestamp: u32,
    /// A number whose meaning is not known. It is kept as it stands.
    pub unknown: u32,
    /// Not used to get at the file; kept for completeness.
    pub memory_offset: u32,
    /// The number of bytes that the record gives for the inflated contents.
    /// Nothing holds the contents to it.
    pub decompressed_byte_size: u32,
    /// Where the compressed bytes of the file start, counted from the end
    /// of the compressed directory.
    pub file_offset: u32,
    /// The number of compressed bytes of the file.
    pub compressed_byte_size: u32,
    /// The checksum of the compressed bytes. It is kept, and not verified.
    pub compressed_crc32: u32,
}

/// What a `FileInfo` says, with the name as a sequence of characters.
pub struct FileInfoView {
    pub name: Seq<char>,
    pub timestamp: u32,
    pub unknown: u32,
    pub memory_offset: u32,
    pub decompressed_byte_size: u32,
    pub file_offset: u32,
    pub compressed_byte_size: u32,
    pub compressed_crc32: u32,
}

impl View for FileInfo {
    type V = FileInfoView;

    open spec fn view(&self) -> FileInfoView {
        FileInfoView {
            name: self.name@,
            timestamp: self.timestamp,
            unknown: self.unknown,
            memory_offset: self.memory_offset,
            decompressed_byte_size: self.decompressed_byte_size,
            file_offset: self.file_offset,
            compressed_byte_size: self.compressed_byte_size,
            compressed_crc32: self.compressed_crc32,
        }
    }
}

/// `end` is where the name of `record` ends: the first zero byte of the
/// record, which stands before the numbers.
pub open spec fn is_name_end(record: Seq<u8>, end: int) -> bool {
    &&& 0 <= end < FILE_DETAIL_POS
    &&& record[end] == 0
    &&& forall|i: int| 0 <= i < end ==> record[i] != 0
}

/// The record holds a zero byte among its first 256 bytes, so that its name
/// ends before the numbers start.
pub open spec fn has_name_end(record: Seq<u8>) -> bool {
    exists|end: int| is_name_end(record, end)
}

/// The index of the first zero byte of a record whose name ends.
pub open spec fn name_end(record: Seq<u8>) -> int
    recommends
        has_name_end(record),
{
    choose|end: int| is_name_end(record, end)
}

/// The bytes of the record's name, without the zero byte that ends it.
pub open spec fn name_bytes(record: Seq<u8>) -> Seq<u8>
    recommends
        has_name_end(record),
{
    record.subrange(0, name_end(record))
}

/// What the first 284 bytes of `record` decode to: the name up to the first
/// zero byte, which is to be found among the first 256 bytes, and seven
/// little-endian numbers from byte 256 on, in the order of the fields.
pub open spec fn decode_record(record: Seq<u8>) -> Result<FileInfoView, Error>
    recommends
        record.len() >= TOTAL_FILE_BYTE_SIZE,
{
    if !has_name_end(record) {
        Err(Error::Decode(DecodeError::MissingTerminator))
    } else if !valid_utf8(name_bytes(record)) {
        Err(Error::Decode(DecodeError::InvalidUtf8))
    } else {
        Ok(
            FileInfoView {
                name: decode_utf8(name_bytes(record)),
                timestamp: u32_le(record, FILE_DETAIL_POS as int),
                unknown: u32_le(record, FILE_DETAIL_POS + 4),
                memory_offset: u32_le(record, FILE_DETAIL_POS + 8),
                decompressed_byte_size: u32_le(record, FILE_DETAIL_POS + 12),
                file_offset: u32_le(record, FILE_DETAIL_POS + 16),
                compressed_byte_size: u32_le(record, FILE_DETAIL_POS + 20),
                compressed_crc32: u32_le(record, FILE_DETAIL_POS + 24),
            },
        )
    }
}

/// A record's name ends in one place only.
pub proof fn lemma_name_end_unique(record: Seq<u8>, end: int)
    requires
        is_name_end(record, end),
    ensures
        has_name_end(record),
        name_end(record) == end,
{
    let chosen = name_end(record);
    assert(is_name_end(record, chosen));
    if chosen < end {
        assert(record[chosen] != 0);
    } else if end < chosen {
        assert(record[end] != 0);
    }
}

/// The 28 bytes in which a record spells its seven numbers.
pub open spec fn detail_bytes(info: FileInfoView) -> Seq<u8> {
    u32_le_bytes(info.timestamp) + u32_le_bytes(info.unknown) + u32_le_bytes(info.memory_offset)
        + u32_le_bytes(info.decompressed_byte_size) + u32_le_bytes(info.file_offset)
        + u32_le_bytes(info.compressed_byte_size) + u32_le_bytes(info.compressed_crc32)
}

/// The name of `info` can stand in a record: with the zero byte that ends it
/// it fits before the numbers, and it holds no zero byte itself.
pub open spec fn fits_record(info: FileInfoView) -> bool {
    let name = encode_utf8(info.name);
    &&& name.len() < FILE_DETAIL_POS
    &&& forall|i: int| 0 <= i < name.len() ==> name[i] != 0
}

/// The record that spells `info`: the name in UTF-8, zero bytes up to byte
/// 256, then the seven numbers.
pub open spec fn encode_record(info: FileInfoView) -> Seq<u8>
    recommends
        fits_record(info),
{
    let name = encode_utf8(info.name);
    name + Seq::new((FILE_DETAIL_POS - name.len()) as nat, |i: int| 0u8) + detail_bytes(info)
}

/// Reading the numbers back from the bytes that spell them gives the numbers.
proof fn lemma_record_of_detail_bytes(record: Seq<u8>, info: FileInfoView)
    requires
        record.len() >= TOTAL_FILE_BYTE_SIZE,
        record.subrange(FILE_DETAIL_POS as int, TOTAL_FILE_BYTE_SIZE as int) == detail_bytes(info),
    ensures
        u32_le(record, FILE_DETAIL_POS as int) == info.timestamp,
        u32_le(record, FILE_DETAIL_POS + 4) == info.unknown,
        u32_le(record, FILE_DETAIL_POS + 8) == info.memory_offset,
        u32_le(record, FILE_DETAIL_POS + 12) == info.decompressed_byte_size,
        u32_le(record, FILE_DETAIL_POS + 16) == info.file_offset,
        u32_le(record, FILE_DETAIL_POS + 20) == info.compressed_byte_size,
        u32_le(record, FILE_DETAIL_POS + 24) == info.compressed_crc32,
{
    let at = FILE_DETAIL_POS as int;
    let details = record.subrange(at, TOTAL_FILE_BYTE_SIZE as int);
    assert forall|i: int| 0 <= i < 28 implies #[trigger] record[at + i] == details[i] by {}
    assert(details.subrange(0, 4) =~= u32_le_bytes(info.timestamp));
    assert(details.subrange(4, 8) =~= u32_le_bytes(info.unknown));
    assert(details.subrange(8, 12) =~= u32_le_bytes(info.memory_offset));
    assert(details.subrange(12, 16) =~= u32_le_bytes(info.decompressed_byte_size));
    assert(details.subrange(16, 20) =~= u32_le_bytes(info.file_offset));
    assert(details.subrange(20, 24) =~= u32_le_bytes(info.compressed_byte_size));
    assert(details.subrange(24, 28) =~= u32_le_bytes(info.compressed_crc32));
    lemma_u32_le_at(details, 0, info.timestamp);
    lemma_u32_le_at(details, 4, info.unknown);
    lemma_u32_le_at(details, 8, info.memory_offset);
    lemma_u32_le_at(details, 12, info.decompressed_byte_size);
    lemma_u32_le_at(details, 16, info.file_offset);
    lemma_u32_le_at(details, 20, info.compressed_byte_size);
    lemma_u32_le_at(details, 24, info.compressed_crc32);
}

/// Decoding a record and spelling the result again gives back the bytes of
/// the record: the seven numbers spell the 28 bytes from byte 256 on, and the
/// name in UTF-8 is the bytes up to the first zero byte. So the record that
/// spells the result has the same name, zero byte and numbers in the same
/// places, and decodes to the same.
pub proof fn lemma_decode_then_encode(record: Seq<u8>, info: FileInfoView)
    requires
        record.len() >= TOTAL_FILE_BYTE_SIZE,
        decode_record(record) == Ok::<FileInfoView, Error>(info),
    ensures
        is_name_end(record, name_end(record)),
        encode_utf8(info.name) == record.subrange(0, name_end(record)),
        detail_bytes(info) == record.subrange(
            FILE_DETAIL_POS as int,
            TOTAL_FILE_BYTE_SIZE as int,
        ),
        fits_record(info),
        encode_record(info).len() == TOTAL_FILE_BYTE_SIZE,
        encode_record(info).subrange(0, name_end(record) + 1) == record.subrange(
            0,
            name_end(record) + 1,
        ),
        encode_record(info).subrange(FILE_DETAIL_POS as int, TOTAL_FILE_BYTE_SIZE as int)
            == record.subrange(FILE_DETAIL_POS as int, TOTAL_FILE_BYTE_SIZE as int),
        decode_record(encode_record(info)) == Ok::<FileInfoView, Error>(info),
{
    let at = FILE_DETAIL_POS as int;
    let end = name_end(record);
    let again = encode_record(info);
    assert(detail_bytes(info) == record.subrange(at, at + 28)) by {
        lemma_bytes_of_u32_le(record, at);
        lemma_bytes_of_u32_le(record, at + 4);
        lemma_bytes_of_u32_le(record, at + 8);
        lemma_bytes_of_u32_le(record, at + 12);
        lemma_bytes_of_u32_le(record, at + 16);
        lemma_bytes_of_u32_le(record, at + 20);
        lemma_bytes_of_u32_le(record, at + 24);
        assert(detail_bytes(info) =~= record.subrange(at, at + 28));
    }
    decode_utf8_encode_utf8(name_bytes(record));
    assert(fits_record(info)) by {
        assert forall|i: int| 0 <= i < end implies record.subrange(0, end)[i] != 0 by {}
    }
    lemma_encode_record_layout(info);
    assert(again.subrange(0, end + 1) =~= record.subrange(0, end + 1)) by {
        assert forall|i: int| 0 <= i < end implies again[i] == record[i] by {
            assert(again[i] == again.subrange(0, end)[i]);
            assert(record[i] == record.subrange(0, end)[i]);
        }
    }
    lemma_encode_then_decode(info);
}

/// How the record that spells `info` is laid out.
proof fn lemma_encode_record_layout(info: FileInfoView)
    requires
        fits_record(info),
    ensures
        encode_record(info).len() == TOTAL_FILE_BYTE_SIZE,
        encode_record(info).subrange(0, encode_utf8(info.name).len() as int) == encode_utf8(
            info.name,
        ),
        encode_record(info)[encode_utf8(info.name).len() as int] == 0,
        encode_record(info).subrange(FILE_DETAIL_POS as int, TOTAL_FILE_BYTE_SIZE as int)
            == detail_bytes(info),
{
    let name = encode_utf8(info.name);
    let zeros = Seq::new((FILE_DETAIL_POS - name.len()) as nat, |i: int| 0u8);
    let details = detail_bytes(info);
    let record = encode_record(info);
    assert(details.len() == 28);
    assert(record == name + zeros + details);
    assert((name + zeros).len() == FILE_DETAIL_POS);
    assert(record.subrange(0, name.len() as int) =~= name);
    assert(record[name.len() as int] == zeros[0]);
    assert(record.subrange(FILE_DETAIL_POS as int, TOTAL_FILE_BYTE_SIZE as int) =~= details);
}

/// Spelling a `FileInfo` as a record and decoding the record gives back
/// the `FileInfo`, name and numbers.
pub proof fn lemma_encode_then_decode(info: FileInfoView)
    requires
        fits_record(info),
    ensures
        encode_record(info).len() == TOTAL_FILE_BYTE_SIZE,
        decode_record(encode_record(info)) == Ok::<FileInfoView, Error>(info),
{
    let name = encode_utf8(info.name);
    let record = encode_record(info);
    let end = name.len() as int;
    lemma_encode_record_layout(info);
    assert forall|i: int| 0 <= i < end implies record[i] != 0 by {
        assert(record[i] == record.subrange(0, end)[i]);
    }
    lemma_name_end_unique(record, end);
    encode_utf8_valid_utf8(info.name);
    encode_utf8_decode_utf8(info.name);
    lemma_record_of_detail_bytes(record, info);
}

/// A record without a zero byte among its first 256 bytes does not decode:
/// its name has no end.
pub proof fn lemma_no_zero_byte_no_record(record: Seq<u8>)
    requires
        forall|i: int| 0 <= i < FILE_DETAIL_POS ==> record[i] != 0,
    ensures
        decode_record(record) == Err::<FileInfoView, Error>(
            Error::Decode(DecodeError::MissingTerminator),
        ),
{
    if has_name_end(record) {
        assert(record[name_end(record)] == 0);
    }
}

impl FileInfo {
    /// From Bytes
    ///
    /// The file information portion of the Mpak archive is
    /// segmented into 284 byte sized portions.  This method
    /// expects to receive a slice of bytes covering that
    /// from beginning to end and returns a `FileInfo` struct
    /// with the relevant data loaded. Bytes past the first 284
    /// are not looked at. The name is to end among the first 256
    /// bytes, before the numbers start.
    ///
    pub fn from_bytes(bytes: &[u8]) -> (result: Result<FileInfo, Error>)
        requires
            bytes@.len() >= TOTAL_FILE_BYTE_SIZE,
        ensures
            match result {
                Ok(info) => decode_record(bytes@) == Ok::<FileInfoView, Error>(info@),
                Err(error) => decode_record(bytes@) == Err::<FileInfoView, Error>(error),
            },
    {
        let mut pos: usize = 0;
        while pos < FILE_DETAIL_POS && bytes[pos] != 0
            invariant
                pos <= FILE_DETAIL_POS <= bytes@.len(),
                forall|i: int| 0 <= i < pos ==> bytes@[i] != 0,
            decreases FILE_DETAIL_POS - pos,
        {
            pos += 1;
        }
        if pos == FILE_DETAIL_POS {
            proof {
                if has_name_end(bytes@) {
                    assert(bytes@[name_end(bytes@)] == 0);
                }
            }
            return Err(Error::Decode(DecodeError::MissingTerminator));
        }
        proof {
            lemma_name_end_unique(bytes@, pos as int);
        }
        let name = match String::from_utf8(slice_to_vec(slice_subrange(bytes, 0, pos))) {
            Ok(name) => name,
            Err(_) => {
                return Err(Error::Decode(DecodeError::InvalidUtf8));
            },
        };

        // Magical position where critical info is found
        pos = FILE_DETAIL_POS;

        // Please note the order of these calls *is* important
        let timestamp = Self::read_next_u32(bytes, &mut pos);
        let unknown = Self::read_next_u32(bytes, &mut pos);
        let memory_offset = Self::read_next_u32(bytes, &mut pos);
        let decompressed_byte_size = Self::read_next_u32(bytes, &mut pos);
        let file_offset = Self::read_next_u32(bytes, &mut pos);
        let compressed_byte_size = Self::read_next_u32(bytes, &mut pos);
        let compressed_crc32 = Self::read_next_u32(bytes, &mut pos);
        Ok(
            FileInfo {
                name,
                timestamp,
                unknown,
                memory_offset,
                decompressed_byte_size,
                file_offset,
                compressed_byte_size,
                compressed_crc32,
            },
        )
    }

    /// Raw Byte Size
    ///
    /// This is the number of bytes expected to be found
    /// in the file for a given `FileInfo`
    ///
    pub fn raw_byte_size() -> (size: usize)
        ensures
            size == TOTAL_FILE_BYTE_SIZE,
    {
        TOTAL_FILE_BYTE_SIZE
    }

    // Private Functions
    fn read_next_u32(bytes: &[u8], pos: &mut usize) -> (value: u32)
        requires
            *old(pos) + 4 <= bytes@.len(),
        ensures
            value == u32_le(bytes@, *old(pos) as int),
            *final(pos) == *old(pos) + 4,
    {
        proof {
            axiom_spec_len(bytes);
        }
        let value = read_u32_le(bytes, *pos).unwrap();
        *pos += 4;
        value
    }
}

} // verus!
