//! Reading parts of an Office document (a ZIP archive) with the `zip` crate.
use vstd::prelude::*;

use std::io::{Cursor, Read};

verus! {

/// A ZIP archive being read (`zip::ZipArchive`).
#[verifier::external_type_specification]
#[verifier::external_body]
#[verifier::reject_recursive_types(R)]
pub struct ExZipArchive<R>(zip::ZipArchive<R>);

/// A reader over bytes in memory (`std::io::Cursor`).
#[verifier::external_type_specification]
#[verifier::external_body]
#[verifier::reject_recursive_types(T)]
pub struct ExCursor<T>(Cursor<T>);

/// Why reading an archive failed (`zip::result::ZipError`).
#[verifier::external_type_specification]
#[verifier::external_body]
pub struct ExZipError(zip::result::ZipError);

/// The archive read from a byte slice.
pub type Archive<'a> = zip::ZipArchive<Cursor<&'a [u8]>>;

/// Whether `zip::ZipArchive::new` accepts the bytes as an archive.
pub uninterp spec fn zip_opens(data: Seq<u8>) -> bool;

/// The bytes an archive was read from.
pub uninterp spec fn zip_source(archive: zip::ZipArchive<Cursor<&[u8]>>) -> Seq<u8>;

/// The names of the archive's entries, in central-directory order.
pub uninterp spec fn zip_entry_names(data: Seq<u8>) -> Seq<Seq<char>>;

/// Whether `ZipArchive::by_index` can open entry `i`.
pub uninterp spec fn zip_index_opens(data: Seq<u8>, i: int) -> bool;

/// How reading the entry `name` as text ends.
pub enum ZipTextOutcome {
    /// The entry's text.
    Text(Seq<char>),
    /// `ZipArchive::by_name` failed (no such entry, or it cannot be opened).
    EntryFailed,
    /// The entry could not be read as UTF-8 text.
    ReadFailed,
}

/// The outcome of reading the entry `name` of an archive as text.
pub uninterp spec fn zip_text_outcome(data: Seq<u8>, name: Seq<char>) -> ZipTextOutcome;

/// Why reading an entry as text failed, with the error's message.
#[derive(Debug)]
pub enum ZipEntryError {
    /// The entry could not be opened (`ZipArchive::by_name`).
    EntryFailed(String),
    /// The entry's content could not be read as UTF-8 text.
    ReadFailed(String),
}

/// `zip::ZipArchive::new` over the bytes.
#[verifier::external_body]
pub fn open_archive<'a>(data: &'a [u8]) -> (r: Result<Archive<'a>, zip::result::ZipError>)
    ensures
        r is Ok <==> zip_opens(data@),
        r matches Ok(a) ==> zip_source(a) == data@,
{
    zip::ZipArchive::new(Cursor::new(data))
}

/// The message of a `zip` error (its `Display` text); nothing is stated
/// of the text.
#[verifier::external_body]
pub fn zip_error_text(e: &zip::result::ZipError) -> String {
    format!("{e}")
}

/// `ZipArchive::len`: the number of entries.
#[verifier::external_body]
pub fn archive_len(a: &Archive) -> (n: usize)
    ensures
        n == zip_entry_names(zip_source(*a)).len(),
{
    a.len()
}

/// The name of entry `i` (`ZipArchive::by_index`, then `ZipFile::name`).
#[verifier::external_body]
pub fn entry_name_at(a: &mut Archive, i: usize) -> (r: Result<String, zip::result::ZipError>)
    ensures
        zip_source(*final(a)) == zip_source(*old(a)),
        r is Ok <==> zip_index_opens(zip_source(*old(a)), i as int),
        r matches Ok(n) ==> n@ == zip_entry_names(zip_source(*old(a)))[i as int],
{
    a.by_index(i).map(|f| f.name().to_string())
}

/// The entry `name` read as UTF-8 text (`ZipArchive::by_name`, then
/// `Read::read_to_string`).
#[verifier::external_body]
pub fn read_zip_text_entry(a: &mut Archive, name: &str) -> (r: Result<String, ZipEntryError>)
    ensures
        zip_source(*final(a)) == zip_source(*old(a)),
        match (r, zip_text_outcome(zip_source(*old(a)), name@)) {
            (Ok(t), ZipTextOutcome::Text(u)) => t@ == u,
            (Err(ZipEntryError::EntryFailed(_)), ZipTextOutcome::EntryFailed) => true,
            (Err(ZipEntryError::ReadFailed(_)), ZipTextOutcome::ReadFailed) => true,
            _ => false,
        },
{
    let mut entry = a.by_name(name).map_err(|e| ZipEntryError::EntryFailed(e.to_string()))?;
    let mut text = String::new();
    entry.read_to_string(&mut text).map_err(|e| ZipEntryError::ReadFailed(e.to_string()))?;
    Ok(text)
}

} // verus!
