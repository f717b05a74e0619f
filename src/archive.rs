//! The zip crate's archive reader, as this library relies on it. An archive is
//! modelled by `archive_entries`: each entry's name and what reading it yields.
use std::io::Cursor;
use std::io::Read;
use vstd::prelude::*;
use vstd::utf8::{decode_utf8, valid_utf8};
use zip::result::ZipError;
use zip::ZipArchive;

verus! {

/// `zip::ZipArchive`, the zip crate's archive reader, held opaque.
#[verifier::external_type_specification]
#[verifier::external_body]
#[verifier::reject_recursive_types(R)]
pub struct ExZipArchive<R>(ZipArchive<R>);

/// `std::io::Cursor`, the in-memory reader under an archive, held opaque.
#[verifier::external_type_specification]
#[verifier::external_body]
#[verifier::reject_recursive_types(T)]
pub struct ExCursor<T>(Cursor<T>);

/// `zip::result::ZipError`, why an archive could not be opened, held opaque.
#[verifier::external_type_specification]
#[verifier::external_body]
pub struct ExZipError(ZipError);

/// An archive held in memory.
pub type Bundle = ZipArchive<Cursor<Vec<u8>>>;

/// The entries of an archive: each name of its central directory, mapped to
/// the bytes that reading the entry yields, or to `None` when reading it fails
/// (it does not decompress, its checksum fails, or it is encrypted with a
/// password other than the empty one).
pub uninterp spec fn archive_entries(a: ZipArchive<Cursor<Vec<u8>>>) -> Map<Seq<char>, Option<Seq<u8>>>;

/// What opening the bytes `data` as a zip archive gives: `None` when they are
/// no readable archive, else the entries of the archive, as `archive_entries`.
pub uninterp spec fn zip_archive_of(data: Seq<u8>) -> Option<Map<Seq<char>, Option<Seq<u8>>>>;

/// What reading one entry of an archive gave.
pub enum EntryRead {
    /// The entry's whole content.
    Bytes(Vec<u8>),
    /// The archive has no entry of that name.
    Missing,
    /// The entry exists but could not be read.
    Unreadable,
}

/// Relies on `zip::ZipArchive::new`: reads the central directory of the
/// archive held in `data`, or fails on bytes that hold no readable archive.
#[verifier::external_body]
pub(crate) fn open_archive(data: Vec<u8>) -> (r: Result<Bundle, ZipError>)
    ensures
        r is Ok <==> zip_archive_of(data@) is Some,
        r matches Ok(b) ==> zip_archive_of(data@) == Some(archive_entries(b)),
{
    ZipArchive::new(Cursor::new(data))
}

/// Relies on `zip::ZipArchive::file_names`: it yields each name of the central
/// directory once, in an order that the crate does not fix.
#[verifier::external_body]
pub(crate) fn entry_names(a: &Bundle) -> (r: Vec<String>)
    ensures
        forall|i: int| 0 <= i < r@.len() ==> archive_entries(*a).contains_key(#[trigger] r@[i]@),
        forall|k: Seq<char>| #[trigger] archive_entries(*a).contains_key(k) ==> exists|i: int|
            0 <= i < r@.len() && r@[i]@ == k,
{
    a.file_names().map(String::from).collect()
}

/// Relies on `zip::ZipArchive::by_name_decrypt` with the empty password, which
/// fails with `FileNotFound` exactly when no entry has that name and returns
/// `InvalidPassword` where `by_name` would panic, and on `Read::read_to_end` of
/// the entry it returns, which yields the entry's content or fails. Reading
/// leaves the entries as they were.
#[verifier::external_body]
pub(crate) fn read_entry(a: &mut Bundle, name: &str) -> (r: EntryRead)
    ensures
        archive_entries(*final(a)) == archive_entries(*old(a)),
        r is Missing <==> !archive_entries(*old(a)).contains_key(name@),
        r is Unreadable <==> archive_entries(*old(a)).contains_key(name@)
            && archive_entries(*old(a))[name@] is None,
        r matches EntryRead::Bytes(b) ==> archive_entries(*old(a))[name@] == Some(b@),
{
    match a.by_name_decrypt(name, b"") {
        Ok(Ok(mut file)) => {
            let mut buf = Vec::new();
            match file.read_to_end(&mut buf) {
                Ok(_) => EntryRead::Bytes(buf),
                Err(_) => EntryRead::Unreadable,
            }
        },
        Ok(Err(_)) => EntryRead::Unreadable,
        Err(ZipError::FileNotFound) => EntryRead::Missing,
        Err(_) => EntryRead::Unreadable,
    }
}

/// Relies on `String::from_utf8`: it succeeds exactly on valid UTF-8, and the
/// string then holds the characters that the bytes encode.
#[verifier::external_body]
pub(crate) fn utf8_string(b: Vec<u8>) -> (r: Option<String>)
    ensures
        r is Some <==> valid_utf8(b@),
        r matches Some(s) ==> s@ == decode_utf8(b@),
{
    String::from_utf8(b).ok()
}

} // verus!
