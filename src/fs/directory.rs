//! Decoding 8.3 directory records.
use vstd::prelude::*;
use vstd::utf8::{valid_utf8, decode_utf8};
use crate::device::block_device::BlockDevice;
use crate::fs::clusters::{ClusterError, ClusterReader};
use crate::fs::fat::{le_u32, read_le_u32};

verus! {

/// Size in bytes of one on-disk directory record.
pub const RECORD_LEN: usize = 32;

/// First byte of the record that ends a directory.
pub const END_OF_DIRECTORY: u8 = 0x00;

/// First byte of a deleted record.
pub const DELETED: u8 = 0xE5;

/// Attribute value of a long-file-name continuation record.
pub const ATTR_LONG_NAME: u8 = 0x0F;

/// Attribute bit of a directory.
pub const ATTR_DIRECTORY: u8 = 0x10;

/// Failure while listing a directory.
#[derive(Debug, Clone, Copy, PartialEq, Eq, Structural)]
pub enum DirectoryError {
    /// The directory's cluster chain could not be read.
    Cluster(ClusterError),
    /// A record's name or extension is not valid UTF-8.
    InvalidEntry,
}

impl DirectoryError {
    /// The failure came from the device rather than from the volume's contents.
    pub open spec fn is_io(self) -> bool {
        match self {
            DirectoryError::Cluster(e) => e.is_io(),
            DirectoryError::InvalidEntry => false,
        }
    }
}

impl From<ClusterError> for DirectoryError {
    fn from(e: ClusterError) -> (r: Self) {
        DirectoryError::Cluster(e)
    }
}

impl vstd::std_specs::convert::FromSpecImpl<ClusterError> for DirectoryError {
    open spec fn obeys_from_spec() -> bool {
        true
    }

    open spec fn from_spec(e: ClusterError) -> DirectoryError {
        DirectoryError::Cluster(e)
    }
}

/// Kind of a directory entry.
#[derive(Debug, Clone, Copy, PartialEq, Eq, Structural)]
pub enum EntryType {
    File,
    Directory,
}

impl EntryType {
    pub fn is_dir(&self) -> (r: bool)
        ensures
            r == (*self is Directory),
    {
        match self {
            EntryType::Directory => true,
            EntryType::File => false,
        }
    }
}

/// A decoded directory entry.
#[derive(Debug, Clone, PartialEq, Eq)]
pub struct DirectoryEntry {
    /// The 8.3 name: `NAME.EXT`, or `NAME` when the extension is blank.
    pub name: String,
    pub entry_type: EntryType,
    pub start_cluster: u32,
    /// Size in bytes of a file; zero for a directory.
    pub size: u32,
}

/// The mathematical value of a `DirectoryEntry`.
pub struct EntryView {
    pub name: Seq<char>,
    pub entry_type: EntryType,
    pub start_cluster: u32,
    pub size: u32,
}

impl View for DirectoryEntry {
    type V = EntryView;

    open spec fn view(&self) -> EntryView {
        EntryView {
            name: self.name@,
            entry_type: self.entry_type,
            start_cluster: self.start_cluster,
            size: self.size,
        }
    }
}

/// The values of a sequence of entries.
pub open spec fn entries_view(v: Seq<DirectoryEntry>) -> Seq<EntryView> {
    v.map_values(|e: DirectoryEntry| e@)
}

/// The value of a listing result.
pub open spec fn listing_view(r: Result<Vec<DirectoryEntry>, DirectoryError>) -> Result<
    Seq<EntryView>,
    DirectoryError,
> {
    match r {
        Ok(v) => Ok(entries_view(v@)),
        Err(e) => Err(e),
    }
}

/// Little-endian value of two bytes.
pub open spec fn le_u16(lo: u8, hi: u8) -> u32 {
    (lo + 0x100 * hi) as u32
}

/// `s` without its trailing spaces.
pub open spec fn trim_spaces(s: Seq<u8>) -> Seq<u8>
    decreases s.len(),
{
    if s.len() > 0 && s.last() == 0x20 {
        trim_spaces(s.drop_last())
    } else {
        s
    }
}

/// The bytes of the short name of a record: the trimmed name field, then a
/// dot and the trimmed extension field when that is not blank.
pub open spec fn short_name_bytes(rec: Seq<u8>) -> Seq<u8> {
    let name = trim_spaces(rec.subrange(0, 8));
    let ext = trim_spaces(rec.subrange(8, 11));
    if ext.len() == 0 {
        name
    } else {
        name + seq![0x2Eu8] + ext
    }
}

/// The entry a retained 32-byte record describes, or `None` when its name
/// is not valid UTF-8.
pub open spec fn decode_record(rec: Seq<u8>) -> Option<EntryView> {
    let name = short_name_bytes(rec);
    let is_dir = rec[11] & ATTR_DIRECTORY != 0;
    if valid_utf8(name) {
        Some(
            EntryView {
                name: decode_utf8(name),
                entry_type: if is_dir {
                    EntryType::Directory
                } else {
                    EntryType::File
                },
                start_cluster: (le_u16(rec[20], rec[21]) * 0x1_0000 + le_u16(rec[26], rec[27])) as u32,
                size: if is_dir {
                    0
                } else {
                    le_u32(rec.subrange(28, 32))
                },
            },
        )
    } else {
        None
    }
}

/// `r` with `s` put in front of its entries; errors pass through.
pub open spec fn prepend_entries(s: Seq<EntryView>, r: Result<Seq<EntryView>, DirectoryError>) -> Result<
    Seq<EntryView>,
    DirectoryError,
> {
    match r {
        Ok(t) => Ok(s + t),
        Err(e) => Err(e),
    }
}

/// The entries of a directory whose chain holds the bytes `d`, in on-disk
/// order: a record starting with 0x00 ends the directory, deleted and
/// long-name records are skipped, a trailing partial record is ignored.
pub open spec fn decode_records(d: Seq<u8>) -> Result<Seq<EntryView>, DirectoryError>
    decreases d.len(),
{
    if d.len() < RECORD_LEN {
        Ok(Seq::empty())
    } else {
        let rec = d.subrange(0, RECORD_LEN as int);
        let rest = d.subrange(RECORD_LEN as int, d.len() as int);
        if rec[0] == END_OF_DIRECTORY {
            Ok(Seq::empty())
        } else if rec[0] == DELETED || rec[11] == ATTR_LONG_NAME {
            decode_records(rest)
        } else {
            match decode_record(rec) {
                None => Err(DirectoryError::InvalidEntry),
                Some(e) => prepend_entries(seq![e], decode_records(rest)),
            }
        }
    }
}

/// A directory whose first record starts with the end mark has no entries,
/// whatever bytes follow.
pub proof fn lemma_end_mark_first(d: Seq<u8>)
    requires
        d.len() >= RECORD_LEN,
        d[0] == END_OF_DIRECTORY,
    ensures
        decode_records(d) == Ok::<Seq<EntryView>, DirectoryError>(Seq::empty()),
{
    assert(d.subrange(0, RECORD_LEN as int)[0] == d[0]);
}

/// A long-name record is invisible: a directory made of one such record and
/// one ordinary record lists exactly the ordinary record's entry.
pub proof fn lemma_long_name_skipped(d: Seq<u8>)
    requires
        d.len() == 2 * RECORD_LEN,
        d[0] != END_OF_DIRECTORY,
        d[11] == ATTR_LONG_NAME,
        d[32] != END_OF_DIRECTORY,
        d[32] != DELETED,
        d[43] != ATTR_LONG_NAME,
        decode_record(d.subrange(32, 64)) is Some,
    ensures
        decode_records(d) == Ok::<Seq<EntryView>, DirectoryError>(
            seq![decode_record(d.subrange(32, 64))->0],
        ),
{
    let first = d.subrange(0, 32);
    let second = d.subrange(32, 64);
    assert(first[0] == d[0] && first[11] == d[11]);
    assert(second[0] == d[32] && second[11] == d[43]);
    assert(second.subrange(0, 32) =~= second);
    let tail = second.subrange(32, 32);
    assert(tail.len() == 0);
    assert(decode_records(tail) == Ok::<Seq<EntryView>, DirectoryError>(Seq::empty()));
    assert(d.subrange(32, d.len() as int) =~= second);
    assert(decode_records(d) == decode_records(second));
    assert(decode_records(second) == prepend_entries(
        seq![decode_record(second)->0],
        decode_records(tail),
    ));
    assert(seq![decode_record(second)->0] + Seq::<EntryView>::empty() =~= seq![
        decode_record(second)->0,
    ]);
}

/// Relies on `String::from_utf8`: it succeeds exactly on valid UTF-8, and the
/// string then holds the characters those bytes encode.
#[verifier::external_body]
fn string_from_utf8(bytes: Vec<u8>) -> (r: Option<String>)
    ensures
        r is Some <==> valid_utf8(bytes@),
        r matches Some(s) ==> s@ == decode_utf8(bytes@),
{
    String::from_utf8(bytes).ok()
}

/// Length of `raw[start..end]` once its trailing spaces are dropped.
fn trimmed_end(raw: &[u8], start: usize, end: usize) -> (r: usize)
    requires
        start <= end <= raw@.len(),
    ensures
        start <= r <= end,
        raw@.subrange(start as int, r as int) == trim_spaces(raw@.subrange(start as int, end as int)),
{
    let mut n = end;
    while n > start && raw[n - 1] == 0x20
        invariant
            start <= n <= end <= raw@.len(),
            trim_spaces(raw@.subrange(start as int, n as int)) == trim_spaces(
                raw@.subrange(start as int, end as int),
            ),
        decreases n,
    {
        assert(raw@.subrange(start as int, n as int).drop_last() =~= raw@.subrange(
            start as int,
            n - 1,
        ));
        n = n - 1;
    }
    n
}

/// Rebuilds the 8.3 name of a record from its name and extension fields.
fn parse_short_name(raw: &[u8]) -> (r: Result<String, DirectoryError>)
    requires
        raw@.len() >= 11,
    ensures
        valid_utf8(short_name_bytes(raw@)) ==> (r matches Ok(s) && s@ == decode_utf8(
            short_name_bytes(raw@),
        )),
        !valid_utf8(short_name_bytes(raw@)) ==> r == Err::<String, DirectoryError>(
            DirectoryError::InvalidEntry,
        ),
{
    let name_end = trimmed_end(raw, 0, 8);
    let ext_end = trimmed_end(raw, 8, 11);
    let mut bytes: Vec<u8> = Vec::new();
    let mut i: usize = 0;
    while i < name_end
        invariant
            i <= name_end <= 8,
            raw@.len() >= 11,
            bytes@ == raw@.subrange(0, i as int),
        decreases name_end - i,
    {
        bytes.push(raw[i]);
        assert(bytes@ =~= raw@.subrange(0, i + 1));
        i = i + 1;
    }
    if ext_end > 8 {
        bytes.push(0x2E);
        let ghost head = bytes@;
        let mut j: usize = 8;
        while j < ext_end
            invariant
                8 <= j <= ext_end <= 11,
                raw@.len() >= 11,
                bytes@ == head + raw@.subrange(8, j as int),
            decreases ext_end - j,
        {
            bytes.push(raw[j]);
            assert(bytes@ =~= head + raw@.subrange(8, j + 1));
            j = j + 1;
        }
    }
    assert(bytes@ =~= short_name_bytes(raw@));
    match string_from_utf8(bytes) {
        Some(s) => Ok(s),
        None => Err(DirectoryError::InvalidEntry),
    }
}

/// Decodes the retained record `rec` (its first byte is neither an end nor a
/// deletion mark, and it is no long-name record).
fn decode_one(rec: &[u8]) -> (r: Result<DirectoryEntry, DirectoryError>)
    requires
        rec@.len() == RECORD_LEN,
    ensures
        match decode_record(rec@) {
            Some(e) => (r matches Ok(d) && d@ == e),
            None => r == Err::<DirectoryEntry, DirectoryError>(DirectoryError::InvalidEntry),
        },
{
    let name = match parse_short_name(rec) {
        Ok(s) => s,
        Err(e) => {
            return Err(e);
        },
    };
    let attr = rec[11];
    let is_dir = attr & ATTR_DIRECTORY != 0;
    let high = rec[20] as u32 + 0x100 * (rec[21] as u32);
    let low = rec[26] as u32 + 0x100 * (rec[27] as u32);
    let start_cluster = high * 0x1_0000 + low;
    let size = if is_dir {
        0
    } else {
        let field = &rec[28..32];
        assert(field@ =~= rec@.subrange(28, 32));
        read_le_u32(field)
    };
    Ok(
        DirectoryEntry {
            name,
            entry_type: if is_dir {
                EntryType::Directory
            } else {
                EntryType::File
            },
            start_cluster,
            size,
        },
    )
}

/// Decodes the records held by the bytes of a directory's cluster chain.
pub fn decode_directory(data: &[u8]) -> (r: Result<Vec<DirectoryEntry>, DirectoryError>)
    ensures
        listing_view(r) == decode_records(data@),
{
    let mut entries: Vec<DirectoryEntry> = Vec::new();
    let mut pos: usize = 0;
    let len = data.len();
    proof {
        assert(data@.subrange(0, len as int) =~= data@);
        assert(entries_view(entries@) =~= Seq::<EntryView>::empty());
        match decode_records(data@) {
            Ok(t) => {
                assert(Seq::<EntryView>::empty() + t =~= t);
            },
            Err(_) => {},
        }
    }
    while RECORD_LEN <= len - pos
        invariant
            pos <= len == data@.len(),
            decode_records(data@) == prepend_entries(
                entries_view(entries@),
                decode_records(data@.subrange(pos as int, len as int)),
            ),
        decreases len - pos,
    {
        let rec = &data[pos..pos + RECORD_LEN];
        let ghost rest = data@.subrange(pos as int, len as int);
        assert(rec@ =~= rest.subrange(0, RECORD_LEN as int));
        assert(rest.subrange(RECORD_LEN as int, rest.len() as int) =~= data@.subrange(
            pos + RECORD_LEN,
            len as int,
        ));
        if rec[0] == END_OF_DIRECTORY {
            assert(entries_view(entries@) =~= entries_view(entries@) + Seq::<EntryView>::empty());
            return Ok(entries);
        }
        if rec[0] != DELETED && rec[11] != ATTR_LONG_NAME {
            let entry = match decode_one(rec) {
                Ok(e) => e,
                Err(e) => {
                    return Err(e);
                },
            };
            let ghost before = entries_view(entries@);
            entries.push(entry);
            proof {
                assert(entries_view(entries@) =~= before + seq![entry@]);
                match decode_records(data@.subrange(pos + RECORD_LEN, len as int)) {
                    Ok(t) => {
                        assert(before + (seq![entry@] + t) =~= (before + seq![entry@]) + t);
                    },
                    Err(_) => {},
                }
            }
        }
        pos = pos + RECORD_LEN;
    }
    assert(entries_view(entries@) =~= entries_view(entries@) + Seq::<EntryView>::empty());
    Ok(entries)
}

/// Lists directories.
pub struct DirectoryReader<'a, D: BlockDevice> {
    cluster_reader: &'a ClusterReader<'a, D>,
}

impl<'a, D: BlockDevice> DirectoryReader<'a, D> {
    /// The reader of the directories' cluster chains.
    pub closed spec fn chains(&self) -> ClusterReader<'a, D> {
        *self.cluster_reader
    }

    /// The devices read answer every read within their contents.
    pub open spec fn answers(&self) -> bool {
        self.chains().answers()
    }

    /// The entries of the directory at `start_cluster`, when the devices
    /// answer every read within their contents.
    pub open spec fn dir_model(&self, start_cluster: u32) -> Result<Seq<EntryView>, DirectoryError> {
        match self.chains().chain_model(start_cluster) {
            Ok(bytes) => decode_records(bytes),
            Err(e) => Err(DirectoryError::Cluster(e)),
        }
    }

    pub fn new(cluster_reader: &'a ClusterReader<'a, D>) -> (r: Self)
        ensures
            r.chains() == *cluster_reader,
    {
        DirectoryReader { cluster_reader }
    }

    /// Reads every entry of the directory at `start_cluster`. On devices that
    /// answer, the outcome is the one the volume gives; otherwise a failed
    /// read is reported as such.
    pub fn read_dir(&self, start_cluster: u32) -> (r: Result<Vec<DirectoryEntry>, DirectoryError>)
        ensures
            self.answers() ==> listing_view(r) == self.dir_model(start_cluster),
            r is Ok ==> listing_view(r) == self.dir_model(start_cluster),
            r matches Err(e) ==> e.is_io() || listing_view(r) == self.dir_model(start_cluster),
    {
        let mut data: Vec<u8> = Vec::new();
        match self.cluster_reader.read_cluster_chain(start_cluster, &mut data) {
            Ok(()) => {},
            Err(e) => {
                return Err(DirectoryError::Cluster(e));
            },
        }
        assert(data@ =~= Seq::<u8>::empty() + data@);
        decode_directory(data.as_slice())
    }
}

} // verus!
