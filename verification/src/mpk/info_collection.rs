//! The directory of an archive: its records, found by name.
use crate::mpk::error::DecodeError;
use crate::mpk::error::Error;
use crate::mpk::file_info::decode_record;
use crate::mpk::file_info::FileInfo;
use crate::mpk::file_info::FileInfoView;
use crate::mpk::file_info::TOTAL_FILE_BYTE_SIZE;
use crate::mpk::text::same_text;
use vstd::arithmetic::div_mod::lemma_fundamental_div_mod;
use vstd::prelude::*;
use vstd::seq_lib::seq_to_set_is_finite;
use vstd::slice::axiom_spec_len;
use vstd::slice::slice_subrange;

verus! {

/// Record number `index` of a directory; the first one is number 0.
pub open spec fn record_at(blob: Seq<u8>, index: int) -> Seq<u8> {
    blob.subrange(index * TOTAL_FILE_BYTE_SIZE, (index + 1) * TOTAL_FILE_BYTE_SIZE)
}

/// The number of whole records in a directory.
pub open spec fn record_count(blob: Seq<u8>) -> nat {
    blob.len() / (TOTAL_FILE_BYTE_SIZE as nat)
}

/// What the first `count` records of a directory decode to, taken in their
/// order: the mapping from their names to what they say, where a later record
/// replaces an earlier one of the same name. The first record that does not
/// decode gives its error to the whole.
pub open spec fn decode_records(blob: Seq<u8>, count: nat) -> Result<
    Map<Seq<char>, FileInfoView>,
    Error,
>
    recommends
        count <= record_count(blob),
    decreases count,
{
    if count == 0 {
        Ok(Map::empty())
    } else {
        match decode_records(blob, (count - 1) as nat) {
            Err(error) => Err(error),
            Ok(earlier) => match decode_record(record_at(blob, count - 1)) {
                Err(error) => Err(error),
                Ok(info) => Ok(earlier.insert(info.name, info)),
            },
        }
    }
}

/// What a directory decodes to: what its whole records decode to, unless
/// bytes are left over behind the last of them.
pub open spec fn decode_directory(blob: Seq<u8>) -> Result<Map<Seq<char>, FileInfoView>, Error> {
    match decode_records(blob, record_count(blob)) {
        Err(error) => Err(error),
        Ok(entries) => if blob.len() % (TOTAL_FILE_BYTE_SIZE as nat) != 0 {
            Err(Error::Decode(DecodeError::PartialRecord))
        } else {
            Ok(entries)
        },
    }
}

/// The names of `entries`, in the order of the entries.
spec fn names_of(entries: Seq<FileInfo>) -> Seq<Seq<char>> {
    Seq::new(entries.len(), |i: int| entries[i].name@)
}

/// The mapping that entries with distinct names stand for: from each name to
/// what its entry says.
spec fn map_of(entries: Seq<FileInfo>) -> Map<Seq<char>, FileInfoView> {
    Map::new(
        |name: Seq<char>| names_of(entries).contains(name),
        |name: Seq<char>| entries[names_of(entries).index_of(name)]@,
    )
}

/// The records of a directory, each under its name. No two of them have the
/// same name: a record that is put in under a name that is taken replaces the
/// one that was there.
#[derive(Debug)]
pub struct InfoCollection {
    entries: Vec<FileInfo>,
}

impl View for InfoCollection {
    type V = Map<Seq<char>, FileInfoView>;

    closed spec fn view(&self) -> Map<Seq<char>, FileInfoView> {
        map_of(self.entries@)
    }
}

/// Among entries with distinct names, the entry at `at` is the one found
/// under its name.
proof fn lemma_map_of_at(entries: Seq<FileInfo>, at: int)
    requires
        names_of(entries).no_duplicates(),
        0 <= at < entries.len(),
    ensures
        map_of(entries).dom().contains(entries[at].name@),
        map_of(entries)[entries[at].name@] == entries[at]@,
{
    let names = names_of(entries);
    assert(names[at] == entries[at].name@);
    let found = names.index_of(entries[at].name@);
    assert(names[found] == names[at]);
}

/// A name that no entry has is not in the mapping.
proof fn lemma_map_of_absent(entries: Seq<FileInfo>, name: Seq<char>)
    requires
        forall|i: int| 0 <= i < entries.len() ==> entries[i].name@ != name,
    ensures
        !map_of(entries).dom().contains(name),
{
    let names = names_of(entries);
    if names.contains(name) {
        let i = names.index_of(name);
        assert(names[i] == entries[i].name@);
    }
}

/// An entry under a new name, put behind the others, adds its name to the
/// mapping.
proof fn lemma_map_of_push(entries: Seq<FileInfo>, info: FileInfo)
    requires
        names_of(entries).no_duplicates(),
        forall|i: int| 0 <= i < entries.len() ==> entries[i].name@ != info.name@,
    ensures
        names_of(entries.push(info)).no_duplicates(),
        map_of(entries.push(info)) == map_of(entries).insert(info.name@, info@),
{
    let after = entries.push(info);
    let names = names_of(entries);
    let names_after = names_of(after);
    assert(names_after =~= names.push(info.name@));
    assert forall|i: int, j: int|
        0 <= i < names_after.len() && 0 <= j < names_after.len() && i != j implies names_after[i]
        != names_after[j] by {
        if i < names.len() {
            assert(names[i] == entries[i].name@);
        }
        if j < names.len() {
            assert(names[j] == entries[j].name@);
        }
    }
    let expected = map_of(entries).insert(info.name@, info@);
    assert forall|name: Seq<char>| map_of(after).dom().contains(name) implies expected.dom().contains(
        name,
    ) && map_of(after)[name] == expected[name] by {
        let at = names_after.index_of(name);
        assert(names_after[at] == name);
        if at < entries.len() {
            assert(names[at] == name);
            lemma_map_of_at(entries, at);
            assert(after[at] == entries[at]);
        }
    }
    assert forall|name: Seq<char>| expected.dom().contains(name) implies map_of(
        after,
    ).dom().contains(name) by {
        if name == info.name@ {
            assert(names_after[entries.len() as int] == name);
        } else {
            let at = names.index_of(name);
            assert(names[at] == name);
            assert(names_after[at] == name);
        }
    }
    assert(map_of(after) =~= expected);
}

/// An entry put in the place of the one that had its name takes that
/// name over in the mapping.
proof fn lemma_map_of_update(entries: Seq<FileInfo>, at: int, info: FileInfo)
    requires
        names_of(entries).no_duplicates(),
        0 <= at < entries.len(),
        entries[at].name@ == info.name@,
    ensures
        names_of(entries.update(at, info)).no_duplicates(),
        map_of(entries.update(at, info)) == map_of(entries).insert(info.name@, info@),
{
    let after = entries.update(at, info);
    let names = names_of(entries);
    assert(names_of(after) =~= names);
    let expected = map_of(entries).insert(info.name@, info@);
    assert(names[at] == info.name@);
    assert forall|name: Seq<char>| map_of(after).dom().contains(name) implies map_of(after)[name]
        == expected[name] by {
        let found = names.index_of(name);
        assert(names[found] == name);
        if name == info.name@ {
            assert(found == at);
        } else {
            assert(after[found] == entries[found]);
        }
    }
    assert(map_of(after) =~= expected);
}

/// The texts of borrowed strings, in their order.
pub open spec fn texts_of(names: Seq<&String>) -> Seq<Seq<char>> {
    Seq::new(names.len(), |i: int| names[i]@)
}

/// The names that the mapping knows are the names of the entries, and where
/// no two entries share a name there are as many names as entries.
proof fn lemma_map_of_names(entries: Seq<FileInfo>)
    requires
        names_of(entries).no_duplicates(),
    ensures
        map_of(entries).dom() == names_of(entries).to_set(),
        map_of(entries).dom().finite(),
        map_of(entries).dom().len() == entries.len(),
{
    let names = names_of(entries);
    assert(map_of(entries).dom() =~= names.to_set());
    seq_to_set_is_finite(names);
    names.unique_seq_to_set();
}

/// Once the first records of a directory fail to decode, more of them fail
/// in the same way.
proof fn lemma_decode_records_fails(blob: Seq<u8>, count: nat, more: nat)
    requires
        count <= more,
        decode_records(blob, count) is Err,
    ensures
        decode_records(blob, more) == decode_records(blob, count),
    decreases more,
{
    if count < more {
        lemma_decode_records_fails(blob, count, (more - 1) as nat);
    }
}

/// What record number `index` of a directory says, where it decodes.
pub open spec fn record_info(blob: Seq<u8>, index: int) -> FileInfoView
    recommends
        decode_record(record_at(blob, index)) is Ok,
{
    decode_record(record_at(blob, index))->Ok_0
}

/// Among the first `count` records, record number `index` is the last one of
/// its name.
pub open spec fn is_last_of_name(blob: Seq<u8>, count: nat, index: int) -> bool {
    &&& 0 <= index < count
    &&& forall|later: int|
        index < later < count ==> (#[trigger] record_info(blob, later)).name != record_info(
            blob,
            index,
        ).name
}

/// The first records of a directory decode if and only if each of them
/// decodes.
pub proof fn lemma_decode_records_ok(blob: Seq<u8>, count: nat)
    ensures
        decode_records(blob, count) is Ok <==> forall|i: int|
            0 <= i < count ==> (#[trigger] decode_record(record_at(blob, i))) is Ok,
    decreases count,
{
    if count > 0 {
        lemma_decode_records_ok(blob, (count - 1) as nat);
        if decode_records(blob, count) is Ok {
            assert forall|i: int| 0 <= i < count implies (#[trigger] decode_record(
                record_at(blob, i),
            )) is Ok by {}
        } else if decode_records(blob, (count - 1) as nat) is Ok {
            assert(decode_record(record_at(blob, count - 1)) is Err);
        }
    }
}

/// The first record of a directory that does not decode gives its error to
/// the records taken together.
pub proof fn lemma_decode_records_first_error(blob: Seq<u8>, count: nat, index: int)
    requires
        0 <= index < count,
        forall|i: int| 0 <= i < index ==> (#[trigger] decode_record(record_at(blob, i))) is Ok,
        decode_record(record_at(blob, index)) is Err,
    ensures
        decode_records(blob, count) is Err,
        decode_records(blob, count)->Err_0 == decode_record(record_at(blob, index))->Err_0,
{
    lemma_decode_records_ok(blob, index as nat);
    lemma_decode_records_fails(blob, (index + 1) as nat, count);
}

/// The mapping that the first records of a directory decode to holds the
/// names of these records and no others, and under each name what the last
/// record of that name says.
pub proof fn lemma_decode_records_entries(blob: Seq<u8>, count: nat)
    requires
        decode_records(blob, count) is Ok,
    ensures
        decode_records(blob, count)->Ok_0.dom().finite(),
        forall|i: int|
            0 <= i < count ==> (#[trigger] decode_records(blob, count)->Ok_0.dom().contains(
                record_info(blob, i).name,
            )),
        forall|name: Seq<char>| #[trigger]
            decode_records(blob, count)->Ok_0.dom().contains(name) ==> exists|i: int|
                #[trigger] is_last_of_name(blob, count, i) && record_info(blob, i).name == name,
        forall|i: int| #[trigger]
            is_last_of_name(blob, count, i) ==> decode_records(blob, count)->Ok_0[record_info(
                blob,
                i,
            ).name] == record_info(blob, i),
    decreases count,
{
    let entries = decode_records(blob, count)->Ok_0;
    if count > 0 {
        let before = (count - 1) as nat;
        let earlier = decode_records(blob, before)->Ok_0;
        let info = record_info(blob, count - 1);
        lemma_decode_records_entries(blob, before);
        assert(entries == earlier.insert(info.name, info));
        assert(is_last_of_name(blob, count, count - 1));
        assert forall|i: int| 0 <= i < count implies (#[trigger] entries.dom().contains(
            record_info(blob, i).name,
        )) by {
            if i < before {
                assert(earlier.dom().contains(record_info(blob, i).name));
            }
        }
        assert forall|name: Seq<char>| #[trigger] entries.dom().contains(name) implies exists|
            i: int,
        | #[trigger] is_last_of_name(blob, count, i) && record_info(blob, i).name == name by {
            if name != info.name {
                assert(earlier.dom().contains(name));
                let i = choose|i: int| #[trigger]
                    is_last_of_name(blob, before, i) && record_info(blob, i).name == name;
                assert(is_last_of_name(blob, count, i));
            }
        }
        assert forall|i: int| #[trigger] is_last_of_name(blob, count, i) implies entries[record_info(
            blob,
            i,
        ).name] == record_info(blob, i) by {
            if i < before {
                assert(record_info(blob, count - 1).name != record_info(blob, i).name);
                assert(is_last_of_name(blob, before, i));
            }
        }
    }
}

/// The mapping that a directory decodes to holds the names of its records
/// and no others, each once, and under each name what the last record of that
/// name says. A directory that decodes is made of whole records, and each of
/// them decodes.
pub proof fn lemma_decode_directory_entries(blob: Seq<u8>)
    requires
        decode_directory(blob) is Ok,
    ensures
        blob.len() == record_count(blob) * TOTAL_FILE_BYTE_SIZE,
        decode_directory(blob)->Ok_0.dom().finite(),
        forall|i: int|
            0 <= i < record_count(blob) ==> (#[trigger] decode_record(record_at(blob, i))) is Ok,
        forall|i: int|
            0 <= i < record_count(blob) ==> (#[trigger] decode_directory(blob)->Ok_0.dom().contains(
                record_info(blob, i).name,
            )),
        forall|name: Seq<char>| #[trigger]
            decode_directory(blob)->Ok_0.dom().contains(name) ==> exists|i: int|
                #[trigger] is_last_of_name(blob, record_count(blob), i) && record_info(
                    blob,
                    i,
                ).name == name,
        forall|i: int| #[trigger]
            is_last_of_name(blob, record_count(blob), i) ==> decode_directory(
                blob,
            )->Ok_0[record_info(blob, i).name] == record_info(blob, i),
{
    lemma_decode_records_ok(blob, record_count(blob));
    lemma_decode_records_entries(blob, record_count(blob));
    lemma_fundamental_div_mod(blob.len() as int, TOTAL_FILE_BYTE_SIZE as int);
}

impl InfoCollection {
    #[verifier::type_invariant]
    spec fn distinct_names(self) -> bool {
        names_of(self.entries@).no_duplicates()
    }

    /// A directory without records.
    pub fn new() -> (collection: InfoCollection)
        ensures
            collection@ == Map::<Seq<char>, FileInfoView>::empty(),
    {
        let collection = InfoCollection { entries: Vec::new() };
        assert(collection@ =~= Map::<Seq<char>, FileInfoView>::empty());
        collection
    }

    /// Where the record called `name` stands, if there is one.
    fn position(&self, name: &str) -> (found: Option<usize>)
        ensures
            match found {
                Some(at) => at < self.entries@.len() && self.entries@[at as int].name@ == name@,
                None => forall|i: int|
                    0 <= i < self.entries@.len() ==> self.entries@[i].name@ != name@,
            },
    {
        let mut index: usize = 0;
        while index < self.entries.len()
            invariant
                index <= self.entries@.len(),
                forall|i: int| 0 <= i < index ==> self.entries@[i].name@ != name@,
            decreases self.entries@.len() - index,
        {
            if same_text(self.entries[index].name.as_str(), name) {
                return Some(index);
            }
            index += 1;
        }
        None
    }

    /// Puts `info` in under its name. A record that was there under the same
    /// name is replaced.
    pub fn insert(&mut self, info: FileInfo)
        ensures
            final(self)@ == old(self)@.insert(info.name@, info@),
    {
        proof {
            use_type_invariant(&*self);
        }
        match self.position(info.name.as_str()) {
            Some(at) => {
                proof {
                    lemma_map_of_update(self.entries@, at as int, info);
                }
                let mut entries: Vec<FileInfo> = Vec::new();
                core::mem::swap(&mut self.entries, &mut entries);
                entries.set(at, info);
                core::mem::swap(&mut self.entries, &mut entries);
            },
            None => {
                proof {
                    lemma_map_of_push(self.entries@, info);
                }
                let mut entries: Vec<FileInfo> = Vec::new();
                core::mem::swap(&mut self.entries, &mut entries);
                entries.push(info);
                core::mem::swap(&mut self.entries, &mut entries);
            },
        }
    }

    /// The record called `name`, if there is one.
    pub fn get(&self, name: &str) -> (found: Option<&FileInfo>)
        ensures
            match found {
                Some(info) => self@.dom().contains(name@) && self@[name@] == info@,
                None => !self@.dom().contains(name@),
            },
    {
        proof {
            use_type_invariant(self);
        }
        match self.position(name) {
            Some(at) => {
                proof {
                    lemma_map_of_at(self.entries@, at as int);
                }
                Some(&self.entries[at])
            },
            None => {
                proof {
                    lemma_map_of_absent(self.entries@, name@);
                }
                None
            },
        }
    }
    /// The number of records.
    pub fn len(&self) -> (count: usize)
        ensures
            self@.dom().finite(),
            count == self@.len(),
    {
        proof {
            use_type_invariant(self);
            lemma_map_of_names(self.entries@);
        }
        self.entries.len()
    }

    /// The names of the records, each once. Their order is that in which
    /// the names first came in.
    pub fn keys(&self) -> (names: Vec<&String>)
        ensures
            texts_of(names@).no_duplicates(),
            texts_of(names@).to_set() == self@.dom(),
            self@.dom().finite(),
            names@.len() == self@.len(),
    {
        proof {
            use_type_invariant(self);
            lemma_map_of_names(self.entries@);
        }
        let mut names: Vec<&String> = Vec::new();
        let mut index: usize = 0;
        while index < self.entries.len()
            invariant
                index <= self.entries@.len(),
                names@.len() == index,
                texts_of(names@) == names_of(self.entries@).subrange(0, index as int),
            decreases self.entries@.len() - index,
        {
            let ghost before = names@;
            names.push(&self.entries[index].name);
            assert forall|i: int| 0 <= i < names@.len() implies texts_of(names@)[i] == names_of(
                self.entries@,
            )[i] by {
                if i < index {
                    assert(texts_of(before)[i] == names_of(self.entries@).subrange(
                        0,
                        index as int,
                    )[i]);
                }
            }
            assert(texts_of(names@) =~= names_of(self.entries@).subrange(0, index + 1));
            index += 1;
        }
        assert(texts_of(names@) =~= names_of(self.entries@));
        names
    }

    /// Decodes a directory: the records of 284 bytes each that `blob` is
    /// made of, one after another. A record replaces an earlier one of the
    /// same name. Bytes left over behind the last whole record are an error.
    pub fn from_bytes(blob: &[u8]) -> (result: Result<InfoCollection, Error>)
        ensures
            match result {
                Ok(collection) => decode_directory(blob@) == Ok::<
                    Map<Seq<char>, FileInfoView>,
                    Error,
                >(collection@),
                Err(error) => decode_directory(blob@) == Err::<
                    Map<Seq<char>, FileInfoView>,
                    Error,
                >(error),
            },
    {
        proof {
            axiom_spec_len(blob);
        }
        let count = blob.len() / TOTAL_FILE_BYTE_SIZE;
        let mut collection = InfoCollection::new();
        let mut index: usize = 0;
        while index < count
            invariant
                index <= count == record_count(blob@),
                count * TOTAL_FILE_BYTE_SIZE <= blob@.len() <= usize::MAX,
                decode_records(blob@, index as nat) == Ok::<Map<Seq<char>, FileInfoView>, Error>(
                    collection@,
                ),
            decreases count - index,
        {
            let record = slice_subrange(
                blob,
                index * TOTAL_FILE_BYTE_SIZE,
                (index + 1) * TOTAL_FILE_BYTE_SIZE,
            );
            assert(record@ == record_at(blob@, index as int));
            match FileInfo::from_bytes(record) {
                Ok(info) => {
                    collection.insert(info);
                },
                Err(error) => {
                    proof {
                        lemma_decode_records_fails(blob@, (index + 1) as nat, count as nat);
                    }
                    return Err(error);
                },
            }
            index += 1;
        }
        if blob.len() % TOTAL_FILE_BYTE_SIZE != 0 {
            return Err(Error::Decode(DecodeError::PartialRecord));
        }
        Ok(collection)
    }
}

} // verus!
