//! Zip archives: what the service reads in one and writes to one.

use std::io::{Cursor, Read, Write};
use vstd::prelude::*;
use vstd::utf8::encode_utf8;
use zip::result::ZipError;

verus! {

// Reading

#[verifier::external_type_specification]
#[verifier::external_body]
#[verifier::reject_recursive_types(T)]
pub struct ExCursor<T>(Cursor<T>);

#[verifier::external_type_specification]
#[verifier::external_body]
#[verifier::reject_recursive_types(R)]
pub struct ExZipArchive<R>(zip::ZipArchive<R>);

/// One entry of an archive: its name, the size that its header gives, and its data, or why the
/// data cannot be read.
pub struct EntryModel {
    pub name: Seq<char>,
    pub size: u64,
    pub data: Result<Seq<u8>, Seq<char>>,
}

/// What an archive holds: its entries in order, or for one that cannot be opened the reason.
pub type Listing = Seq<Result<EntryModel, Seq<char>>>;

/// What `zip::ZipArchive::new` makes of the bytes: the entries in order, or the reason why the
/// bytes are no archive.
pub uninterp spec fn zip_listing(bytes: Seq<u8>) -> Result<Listing, Seq<char>>;

/// The entries of an opened archive, in order.
pub uninterp spec fn archive_entries(archive: zip::ZipArchive<Cursor<&[u8]>>) -> Listing;

/// Whether a name with these characters names a directory.
pub open spec fn names_directory(name: Seq<char>) -> bool {
    name.len() > 0 && (name.last() == '/' || name.last() == '\\')
}

/// What the header of an entry says of it.
pub struct EntryHeader {
    pub name: String,
    pub size: u64,
    pub is_dir: bool,
}

/// `zip::ZipArchive::new` on a reader over `bytes`: opens the archive or says why it cannot; both
/// depend on the bytes alone.
#[verifier::external_body]
pub(crate) fn open_archive(bytes: &[u8]) -> (res: Result<zip::ZipArchive<Cursor<&[u8]>>, String>)
    ensures
        match res {
            Ok(archive) => zip_listing(bytes@) == Ok::<Listing, Seq<char>>(archive_entries(archive)),
            Err(reason) => zip_listing(bytes@) == Err::<Listing, Seq<char>>(reason@),
        },
{
    zip::ZipArchive::new(Cursor::new(bytes)).map_err(|e| e.to_string())
}

/// `zip::ZipArchive::len`: how many entries the archive holds.
#[verifier::external_body]
pub(crate) fn entry_count(archive: &zip::ZipArchive<Cursor<&[u8]>>) -> (n: usize)
    ensures
        n == archive_entries(*archive).len(),
{
    archive.len()
}

/// `zip::ZipArchive::by_index`: the header of the entry at `i`, or why the entry cannot be opened
/// (encrypted, or of a compression method that is not supported). An entry is a directory if its
/// name ends in a slash or a backslash. Reading leaves the entries as they are. An entry that
/// carries the field of AES encryption without being marked as encrypted makes `by_index` panic;
/// `by_index_decrypt` tells it beforehand, and it counts as encrypted.
#[verifier::external_body]
pub(crate) fn entry_header(archive: &mut zip::ZipArchive<Cursor<&[u8]>>, i: usize) -> (res: Result<
    EntryHeader,
    String,
>)
    requires
        i < archive_entries(*old(archive)).len(),
    ensures
        archive_entries(*final(archive)) == archive_entries(*old(archive)),
        match (archive_entries(*old(archive))[i as int], res) {
            (Ok(entry), Ok(header)) => header.name@ == entry.name && header.size == entry.size
                && header.is_dir == names_directory(entry.name),
            (Err(why), Err(reason)) => reason@ == why,
            _ => false,
        },
{
    if let Ok(Err(_)) = archive.by_index_decrypt(i, b"") {
        return Err(ZipError::UnsupportedArchive(ZipError::PASSWORD_REQUIRED).to_string());
    }
    let entry = archive.by_index(i).map_err(|e| e.to_string())?;
    Ok(EntryHeader { name: entry.name().to_owned(), size: entry.size(), is_dir: entry.is_dir() })
}

/// `Read::read_to_end` on the `zip::read::ZipFile` at `i`: the unpacked data of the entry, or why
/// it cannot be unpacked. Reading leaves the entries as they are.
#[verifier::external_body]
pub(crate) fn entry_data(archive: &mut zip::ZipArchive<Cursor<&[u8]>>, i: usize) -> (res: Result<
    Vec<u8>,
    String,
>)
    requires
        i < archive_entries(*old(archive)).len(),
        archive_entries(*old(archive))[i as int] is Ok,
    ensures
        archive_entries(*final(archive)) == archive_entries(*old(archive)),
        match (archive_entries(*old(archive))[i as int]->Ok_0.data, res) {
            (Ok(data), Ok(bytes)) => bytes@ == data,
            (Err(why), Err(reason)) => reason@ == why,
            _ => false,
        },
{
    let mut entry = archive.by_index(i).map_err(|e| e.to_string())?;
    let mut data = Vec::new();
    entry.read_to_end(&mut data).map_err(|e| e.to_string())?;
    Ok(data)
}

// Writing

/// An archive that is being written to memory.
#[verifier::external_body]
pub struct ArchiveWriter {
    inner: zip::ZipWriter<Cursor<Vec<u8>>>,
}

/// The entries written so far: the name and the data of each, in order.
pub uninterp spec fn written_entries(writer: ArchiveWriter) -> Seq<(Seq<char>, Seq<u8>)>;

/// Whether the last entry is a file that takes data.
pub uninterp spec fn takes_data(writer: ArchiveWriter) -> bool;

/// What `zip::ZipWriter` packs the entries into: the bytes of the archive.
pub uninterp spec fn zip_packed(entries: Seq<(Seq<char>, Seq<u8>)>) -> Seq<u8>;

/// More bytes than an archive of these entries takes: twice the data and the name of each, and room
/// for the headers.
pub open spec fn packed_bound(entries: Seq<(Seq<char>, Seq<u8>)>) -> nat
    decreases entries.len(),
{
    if entries.len() == 0 {
        128
    } else {
        let last = entries.last();
        packed_bound(entries.drop_last()) + 2 * last.1.len() + 2 * encode_utf8(last.0).len() + 1024
    }
}

/// Half of the format's limit of 4 GiB on an entry: up to here data cannot grow past the limit
/// when it is packed.
pub open spec fn safe_size() -> nat {
    0x8000_0000
}

/// Whether the entry is within the format's limit of 4 GiB, as it is and packed.
pub open spec fn within_limit(entry: (Seq<char>, Seq<u8>)) -> bool {
    ||| entry.1.len() <= safe_size()
    ||| entry.1.len() < 0xffff_ffff && zip_packed(seq![entry]).len() < 0xffff_ffff
}

/// Whether every entry is small enough to be written without fail.
pub open spec fn all_safe(entries: Seq<(Seq<char>, Seq<u8>)>) -> bool {
    forall|i: int| 0 <= i < entries.len() ==> within_limit(#[trigger] entries[i])
}

/// The bytes with which the locator of a 64-bit directory begins.
pub open spec fn locator_mark() -> Seq<u8> {
    seq![0x50u8, 0x4bu8, 0x06u8, 0x07u8]
}

/// Whether the mark of a locator stands in the one place where it is looked for: 20 bytes before
/// the record of 22 bytes that ends an archive.
pub open spec fn marked(bytes: Seq<u8>) -> bool {
    bytes.len() >= 42 && bytes.subrange(bytes.len() - 42, bytes.len() - 38) == locator_mark()
}

/// Whether an archive whose last entry bears this name can have the mark in that place by accident:
/// the last name ends right before the closing record, and before the name stand the four bytes
/// that say where the entry begins.
pub open spec fn may_be_marked(name: Seq<char>) -> bool {
    let n = encode_utf8(name);
    ||| 16 <= n.len() < 20
    ||| n.len() >= 20 && n.subrange(n.len() - 20, n.len() - 16) == locator_mark()
}

/// How many bytes the headers in the directory of an archive of these entries take.
pub open spec fn directory_size(entries: Seq<(Seq<char>, Seq<u8>)>) -> nat
    decreases entries.len(),
{
    if entries.len() == 0 {
        0
    } else {
        directory_size(entries.drop_last()) + 46 + encode_utf8(entries.last().0).len()
    }
}

/// Whether these entries call for a 64-bit directory: they are too many, or what stands before the
/// directory takes more than 4 GiB.
pub open spec fn has_locator(entries: Seq<(Seq<char>, Seq<u8>)>) -> bool {
    ||| entries.len() > 0xffff
    ||| zip_packed(entries).len() > 0xffff_ffff + directory_size(entries) + 22
}

/// Whether an archive of these entries is read as it was written: every entry is within the limit,
/// every name fits its header, and no mark stands by accident where the locator of a 64-bit
/// directory is looked for.
pub open spec fn reads_back(entries: Seq<(Seq<char>, Seq<u8>)>) -> bool {
    &&& all_safe(entries)
    &&& forall|i: int|
        0 <= i < entries.len() ==> encode_utf8((#[trigger] entries[i]).0).len() <= 0xffff
    &&& entries.len() > 0 && may_be_marked(entries.last().0) && !has_locator(entries) ==> !marked(
        zip_packed(entries),
    )
}

/// The listing of an archive that holds these entries.
pub open spec fn listing_of(entries: Seq<(Seq<char>, Seq<u8>)>) -> Listing {
    entries.map_values(
        |e: (Seq<char>, Seq<u8>)|
            Ok::<EntryModel, Seq<char>>(
                (EntryModel { name: e.0, size: e.1.len() as u64, data: Ok(e.1) }),
            ),
    )
}

/// `zip::ZipWriter::new` on an empty buffer: a writer without entries.
#[verifier::external_body]
pub(crate) fn new_writer() -> (writer: ArchiveWriter)
    ensures
        written_entries(writer) == Seq::<(Seq<char>, Seq<u8>)>::empty(),
{
    ArchiveWriter { inner: zip::ZipWriter::new(Cursor::new(Vec::new())) }
}

/// `zip::ZipWriter::add_directory`: adds an entry of that name without data. It fails only where
/// the entry before it has outgrown the format.
#[verifier::external_body]
pub(crate) fn add_directory(writer: &mut ArchiveWriter, name: &str) -> (res: Result<(), String>)
    requires
        names_directory(name@),
    ensures
        res is Ok ==> written_entries(*final(writer)) == written_entries(*old(writer)).push(
            (name@, Seq::<u8>::empty()),
        ),
        all_safe(written_entries(*old(writer))) ==> res is Ok,
{
    let options = zip::write::FileOptions::default()
        .compression_method(zip::CompressionMethod::Deflated);
    writer.inner.add_directory(name, options).map_err(|e| e.to_string())
}

/// `zip::ZipWriter::start_file`: adds an entry of that name, which takes the data that follows. It
/// fails only where the entry before it has outgrown the format.
#[verifier::external_body]
pub(crate) fn start_file(writer: &mut ArchiveWriter, name: &str) -> (res: Result<(), String>)
    requires
        !names_directory(name@),
    ensures
        res is Ok ==> takes_data(*final(writer)) && written_entries(*final(writer))
            == written_entries(*old(writer)).push((name@, Seq::<u8>::empty())),
        all_safe(written_entries(*old(writer))) ==> res is Ok,
{
    let options = zip::write::FileOptions::default()
        .compression_method(zip::CompressionMethod::Deflated);
    writer.inner.start_file(name, options).map_err(|e| e.to_string())
}

/// `Write::write_all` on a `zip::ZipWriter`: the bytes become the data of the last entry, which has
/// none yet. It fails only where that is no file or outgrows the format.
#[verifier::external_body]
pub(crate) fn write_data(writer: &mut ArchiveWriter, data: &[u8]) -> (res: Result<(), String>)
    requires
        written_entries(*old(writer)).len() > 0,
        written_entries(*old(writer)).last().1.len() == 0,
    ensures
        res is Ok ==> written_entries(*final(writer)) == written_entries(
            *old(writer),
        ).drop_last().push((written_entries(*old(writer)).last().0, data@)),
        takes_data(*old(writer)) && data@.len() <= 0xffff_ffff ==> res is Ok,
{
    writer.inner.write_all(data).map_err(|e| e.to_string())
}

/// `zip::ZipWriter::finish`: the bytes of the archive, which depend on the names and the data of the
/// entries alone. They begin with the letters `PK` and are not more than the entries call for:
/// packed data is less than twice as long as the data and some 600 bytes. What `zip::ZipArchive`
/// reads in them are the entries that were written; left out are an entry that reaches the format's
/// limit, a name that does not fit its header, and bytes of the last entry that stand where the
/// locator of a 64-bit directory is looked for and read as its mark. It fails only where the last
/// entry has outgrown the format.
#[verifier::external_body]
pub(crate) fn finish_archive(writer: ArchiveWriter) -> (res: Result<Vec<u8>, String>)
    ensures
        res matches Ok(bytes) ==> {
            &&& bytes@ == zip_packed(written_entries(writer))
            &&& 22 <= bytes@.len() <= packed_bound(written_entries(writer))
            &&& bytes@[0] == 0x50
            &&& bytes@[1] == 0x4b
            &&& reads_back(written_entries(writer)) ==> zip_listing(bytes@) == Ok::<
                Listing,
                Seq<char>,
            >(listing_of(written_entries(writer)))
        },
        all_safe(written_entries(writer)) ==> res is Ok,
{
    let mut writer = writer;
    writer.inner.finish().map(|cursor| cursor.into_inner()).map_err(|e| e.to_string())
}

// What holds of all of this

/// A name that ends with a slash or a backslash names a directory, and no other does.
pub proof fn lemma_directory_names(name: Seq<char>)
    ensures
        names_directory(name) <==> (name.len() > 0 && (name[name.len() - 1] == '/' || name[name.len()
            - 1] == '\\')),
{
}

/// An archive of entries lists each of them under its name, with its size and all its data.
pub proof fn lemma_listing(entries: Seq<(Seq<char>, Seq<u8>)>)
    ensures
        listing_of(entries).len() == entries.len(),
        forall|i: int|
            0 <= i < entries.len() ==> (#[trigger] listing_of(entries)[i] matches Ok(entry)
                && entry.name == entries[i].0 && entry.data == Ok::<Seq<u8>, Seq<char>>(
                entries[i].1,
            ) && (entries[i].1.len() <= u64::MAX ==> entry.size == entries[i].1.len())),
{
}

} // verus!
