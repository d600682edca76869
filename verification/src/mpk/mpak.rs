//! Archives.
use crate::mpk::error::DecodeError;
use crate::mpk::error::Error;
use crate::mpk::error::IoError;
use crate::mpk::file_info::FileInfo;
use crate::mpk::file_info::FileInfoView;
use crate::mpk::header::decode_header;
use crate::mpk::header::ArchiveHeader;
use crate::mpk::header::HEADER_SIZE;
use crate::mpk::info_collection::decode_directory;
use crate::mpk::info_collection::is_last_of_name;
use crate::mpk::info_collection::lemma_decode_directory_entries;
use crate::mpk::info_collection::record_count;
use crate::mpk::info_collection::record_info;
use crate::mpk::info_collection::texts_of;
use crate::mpk::info_collection::InfoCollection;
use crate::mpk::zlib::inflated_segment;
use crate::mpk::zlib::read_inflated;
use vstd::prelude::*;
use vstd::utf8::decode_utf8;
use vstd::utf8::valid_utf8;

verus! {

/// Mpak Archive
///
/// The archive info as well as the bytes of a Mpak archive.
/// Some of the raw parts of the header info are kept as
/// separate fields instead of re-reading or calculating
/// them all the time. An `Mpak` is made by `open` and never
/// changes: it always says what its bytes decode to.
///
#[derive(Debug)]
pub struct Mpak {
    data: Vec<u8>,
    dir_crc32: u32,
    dir_compressed_size: u32,
    name_compressed_size: u32,
    file_count: u32,
    name: String,
    file_info: InfoCollection,
}

/// What an `Mpak` says: the bytes of the archive, the four numbers of its
/// header, its display name and its directory.
pub struct MpakView {
    pub data: Seq<u8>,
    pub dir_crc32: u32,
    pub dir_compressed_size: u32,
    pub name_compressed_size: u32,
    pub file_count: u32,
    pub name: Seq<char>,
    pub file_info: Map<Seq<char>, FileInfoView>,
}

impl View for Mpak {
    type V = MpakView;

    closed spec fn view(&self) -> MpakView {
        MpakView {
            data: self.data@,
            dir_crc32: self.dir_crc32,
            dir_compressed_size: self.dir_compressed_size,
            name_compressed_size: self.name_compressed_size,
            file_count: self.file_count,
            name: self.name@,
            file_info: self.file_info@,
        }
    }
}

/// The text that the `size` bytes of `data` from `at` on inflate to.
pub open spec fn decode_name(data: Seq<u8>, at: int, size: int) -> Result<Seq<char>, Error> {
    match inflated_segment(data, at, size) {
        Err(error) => Err(error),
        Ok(bytes) => if valid_utf8(bytes) {
            Ok(decode_utf8(bytes))
        } else {
            Err(Error::Decode(DecodeError::InvalidUtf8))
        },
    }
}

/// The directory that the `size` bytes of `data` from `at` on inflate to.
pub open spec fn decode_file_details(data: Seq<u8>, at: int, size: int) -> Result<
    Map<Seq<char>, FileInfoView>,
    Error,
> {
    match inflated_segment(data, at, size) {
        Err(error) => Err(error),
        Ok(blob) => decode_directory(blob),
    }
}

/// What the bytes of an archive decode to. Behind the header stands the
/// compressed name, and behind the name the compressed directory, each as
/// long as the header says. What goes wrong first decides the error: an
/// archive too short for its header, then the name, then the directory.
pub open spec fn decode_archive(data: Seq<u8>) -> Result<MpakView, Error> {
    if data.len() < HEADER_SIZE {
        Err(Error::IO(IoError::UnexpectedEof))
    } else {
        let header = decode_header(data);
        match decode_name(data, HEADER_SIZE as int, header.name_compressed_size as int) {
            Err(error) => Err(error),
            Ok(name) => match decode_file_details(
                data,
                HEADER_SIZE + header.name_compressed_size,
                header.dir_compressed_size as int,
            ) {
                Err(error) => Err(error),
                Ok(file_info) => Ok(
                    MpakView {
                        data,
                        dir_crc32: header.dir_crc32,
                        dir_compressed_size: header.dir_compressed_size,
                        name_compressed_size: header.name_compressed_size,
                        file_count: header.file_count,
                        name,
                        file_info,
                    },
                ),
            },
        }
    }
}

/// Where in the archive the compressed bytes of a file start: behind the
/// header, the compressed name and the compressed directory, as far on as
/// the file's record says.
pub open spec fn payload_offset(archive: MpakView, info: FileInfoView) -> int {
    HEADER_SIZE + archive.name_compressed_size + archive.dir_compressed_size + info.file_offset
}

/// The contents of the file called `name`: `None` where the directory has
/// no such name, else what the file's compressed bytes inflate to.
pub open spec fn contents_of(archive: MpakView, name: Seq<char>) -> Result<Option<Seq<u8>>, Error> {
    if !archive.file_info.dom().contains(name) {
        Ok(None)
    } else {
        let info = archive.file_info[name];
        match inflated_segment(
            archive.data,
            payload_offset(archive, info),
            info.compressed_byte_size as int,
        ) {
            Err(error) => Err(error),
            Ok(bytes) => Ok(Some(bytes)),
        }
    }
}

/// The inflated directory of an archive that decodes.
pub open spec fn directory_blob(data: Seq<u8>) -> Seq<u8>
    recommends
        decode_archive(data) is Ok,
{
    let header = decode_header(data);
    inflated_segment(
        data,
        HEADER_SIZE + header.name_compressed_size,
        header.dir_compressed_size as int,
    )->Ok_0
}

/// The record of a file gives the length of its contents truly, where these
/// can be had at all.
pub open spec fn gives_true_length(archive: MpakView, info: FileInfoView) -> bool {
    inflated_segment(
        archive.data,
        payload_offset(archive, info),
        info.compressed_byte_size as int,
    ) matches Ok(bytes) ==> bytes.len() == info.decompressed_byte_size
}

/// An archive that is cut off before the end of its directory does not
/// decode. One that is cut off before the end of its compressed name fails
/// for want of bytes.
pub proof fn lemma_truncated_archive_fails(data: Seq<u8>)
    requires
        data.len() < HEADER_SIZE || data.len() < HEADER_SIZE + decode_header(
            data,
        ).name_compressed_size + decode_header(data).dir_compressed_size,
    ensures
        decode_archive(data) is Err,
        data.len() < HEADER_SIZE + decode_header(data).name_compressed_size ==> decode_archive(data)
            == Err::<MpakView, Error>(Error::IO(IoError::UnexpectedEof)),
{
}

/// The directory of an archive that decodes is what its inflated directory
/// decodes to: it holds the names of the records in there and no others, and
/// under each name what the last record of that name says.
pub proof fn lemma_archive_file_info(data: Seq<u8>)
    requires
        decode_archive(data) is Ok,
    ensures
        decode_directory(directory_blob(data)) == Ok::<Map<Seq<char>, FileInfoView>, Error>(
            decode_archive(data)->Ok_0.file_info,
        ),
        decode_archive(data)->Ok_0.file_info.dom().finite(),
        forall|i: int|
            0 <= i < record_count(directory_blob(data)) ==> (#[trigger] decode_archive(
                data,
            )->Ok_0.file_info.dom().contains(record_info(directory_blob(data), i).name)),
        forall|name: Seq<char>| #[trigger]
            decode_archive(data)->Ok_0.file_info.dom().contains(name) ==> exists|i: int|
                #[trigger] is_last_of_name(directory_blob(data), record_count(directory_blob(data)), i)
                    && record_info(directory_blob(data), i).name == name,
        forall|i: int| #[trigger]
            is_last_of_name(directory_blob(data), record_count(directory_blob(data)), i)
                ==> decode_archive(data)->Ok_0.file_info[record_info(directory_blob(data), i).name]
                == record_info(directory_blob(data), i),
{
    lemma_decode_directory_entries(directory_blob(data));
}

/// To ask for a file that the directory does not name is no error: there
/// are no contents.
pub proof fn lemma_missing_file_is_absent(archive: MpakView, name: Seq<char>)
    requires
        !archive.file_info.dom().contains(name),
    ensures
        contents_of(archive, name) == Ok::<Option<Seq<u8>>, Error>(None),
{
}

/// The contents of a file are as long as its record says, where the record
/// gives the length truly. Nothing holds the archive to that.
pub proof fn lemma_contents_length(archive: MpakView, name: Seq<char>)
    requires
        archive.file_info.dom().contains(name),
        gives_true_length(archive, archive.file_info[name]),
    ensures
        contents_of(archive, name) matches Ok(Some(bytes)) ==> bytes.len()
            == archive.file_info[name].decompressed_byte_size,
{
}

impl Mpak {
    #[verifier::type_invariant]
    spec fn is_decoded(self) -> bool {
        decode_archive(self.data@) == Ok::<MpakView, Error>(self@)
    }

    /// Open Archive
    ///
    /// Given the bytes of a mpak archive; this will return a new
    /// `Mpak` struct loaded with the file header info, which keeps
    /// the bytes for the contents of the files to be taken from.
    ///
    pub fn open(data: Vec<u8>) -> (result: Result<Mpak, Error>)
        ensures
            match result {
                Ok(mpak) => mpak@.data == data@ && decode_archive(data@) == Ok::<MpakView, Error>(
                    mpak@,
                ),
                Err(error) => decode_archive(data@) == Err::<MpakView, Error>(error),
            },
    {
        let header = match ArchiveHeader::from_bytes(data.as_slice()) {
            Ok(header) => header,
            Err(error) => {
                return Err(error);
            },
        };
        let name_at: u64 = HEADER_SIZE as u64;
        let name = match Mpak::read_name(data.as_slice(), name_at, header.name_compressed_size) {
            Ok(name) => name,
            Err(error) => {
                return Err(error);
            },
        };
        let file_info_at: u64 = name_at + header.name_compressed_size as u64;
        let file_info = match Mpak::read_file_details(
            data.as_slice(),
            file_info_at,
            header.dir_compressed_size,
        ) {
            Ok(file_info) => file_info,
            Err(error) => {
                return Err(error);
            },
        };

        Ok(
            Mpak {
                data,
                dir_crc32: header.dir_crc32,
                dir_compressed_size: header.dir_compressed_size,
                name_compressed_size: header.name_compressed_size,
                file_count: header.file_count,
                name,
                file_info,
            },
        )
    }

    /// File Contents
    ///
    /// Given a filename string reference; this will return a potential
    /// buffer of the decompressed contents in the file if it is found.
    /// That no file has this name is no error. The length of the contents
    /// is not held against the length that the file's record gives.
    ///
    pub fn file_contents(&self, filename: &str) -> (result: Result<Option<Vec<u8>>, Error>)
        ensures
            decode_archive(self@.data) == Ok::<MpakView, Error>(self@),
            match result {
                Ok(Some(bytes)) => contents_of(self@, filename@) == Ok::<Option<Seq<u8>>, Error>(
                    Some(bytes@),
                ),
                Ok(None) => contents_of(self@, filename@) == Ok::<Option<Seq<u8>>, Error>(None),
                Err(error) => contents_of(self@, filename@) == Err::<Option<Seq<u8>>, Error>(error),
            },
    {
        proof {
            use_type_invariant(self);
        }
        match self.file_info.get(filename) {
            None => Ok(None),
            Some(info) => {
                match read_inflated(
                    self.data.as_slice(),
                    self.to_file_info_offset(info),
                    info.compressed_byte_size,
                ) {
                    Ok(bytes) => Ok(Some(bytes)),
                    Err(error) => Err(error),
                }
            },
        }
    }

    /// File Names
    ///
    /// Provides a collection of string references to the names of the
    /// files compressed in this mpak archive, each name once.  If you
    /// want to keep a hold of these for future use you may want to
    /// clone them.
    ///
    pub fn file_names(&self) -> (names: Vec<&String>)
        ensures
            decode_archive(self@.data) == Ok::<MpakView, Error>(self@),
            texts_of(names@).no_duplicates(),
            texts_of(names@).to_set() == self@.file_info.dom(),
            self@.file_info.dom().finite(),
            names@.len() == self@.file_info.len(),
    {
        proof {
            use_type_invariant(self);
        }
        self.file_info.keys()
    }

    /// The absolute offset of the compressed bytes of the file that `info`
    /// describes.
    pub fn to_file_info_offset(&self, info: &FileInfo) -> (offset: u64)
        ensures
            offset == payload_offset(self@, info@),
    {
        HEADER_SIZE as u64 + self.name_compressed_size as u64 + self.dir_compressed_size as u64
            + info.file_offset as u64
    }

    /// The bytes of the archive.
    pub fn data(&self) -> (data: &Vec<u8>)
        ensures
            data@ == self@.data,
    {
        &self.data
    }

    /// The checksum of the compressed directory, as the header gives it.
    pub fn dir_crc32(&self) -> (value: u32)
        ensures
            value == self@.dir_crc32,
    {
        self.dir_crc32
    }

    /// The number of bytes of the compressed directory.
    pub fn dir_compressed_size(&self) -> (value: u32)
        ensures
            value == self@.dir_compressed_size,
    {
        self.dir_compressed_size
    }

    /// The number of bytes of the compressed archive name.
    pub fn name_compressed_size(&self) -> (value: u32)
        ensures
            value == self@.name_compressed_size,
    {
        self.name_compressed_size
    }

    /// The number of files that the header announces.
    pub fn file_count(&self) -> (value: u32)
        ensures
            value == self@.file_count,
    {
        self.file_count
    }

    /// The display name of the archive.
    pub fn name(&self) -> (name: &String)
        ensures
            name@ == self@.name,
    {
        &self.name
    }

    /// The directory of the archive.
    pub fn file_info(&self) -> (file_info: &InfoCollection)
        ensures
            file_info@ == self@.file_info,
    {
        &self.file_info
    }

    // Private functions
    fn read_file_details(data: &[u8], at: u64, buffer_size: u32) -> (result: Result<
        InfoCollection,
        Error,
    >)
        ensures
            match result {
                Ok(file_info) => decode_file_details(data@, at as int, buffer_size as int) == Ok::<
                    Map<Seq<char>, FileInfoView>,
                    Error,
                >(file_info@),
                Err(error) => decode_file_details(data@, at as int, buffer_size as int) == Err::<
                    Map<Seq<char>, FileInfoView>,
                    Error,
                >(error),
            },
    {
        match read_inflated(data, at, buffer_size) {
            Ok(buffer) => InfoCollection::from_bytes(buffer.as_slice()),
            Err(error) => Err(error),
        }
    }

    fn read_name(data: &[u8], at: u64, buffer_size: u32) -> (result: Result<String, Error>)
        ensures
            match result {
                Ok(name) => decode_name(data@, at as int, buffer_size as int) == Ok::<
                    Seq<char>,
                    Error,
                >(name@),
                Err(error) => decode_name(data@, at as int, buffer_size as int) == Err::<
                    Seq<char>,
                    Error,
                >(error),
            },
    {
        match read_inflated(data, at, buffer_size) {
            Ok(buffer) => match String::from_utf8(buffer) {
                Ok(name) => Ok(name),
                Err(_) => Err(Error::Decode(DecodeError::InvalidUtf8)),
            },
            Err(error) => Err(error),
        }
    }
}

} // verus!
