//! Zip archives.

use std::io::Read;

use vstd::prelude::*;

use crate::text::opt_text;

verus! {

/// `zip::ZipArchive`, an archive that is being read.
#[verifier::external_type_specification]
#[verifier::external_body]
#[verifier::reject_recursive_types(R)]
pub struct ExZipArchive<R>(zip::ZipArchive<R>);

/// `std::io::Cursor`, bytes that are read like a file.
#[verifier::external_type_specification]
#[verifier::external_body]
#[verifier::reject_recursive_types(T)]
pub struct ExCursor<T>(std::io::Cursor<T>);

/// The bytes that an archive was opened on.
pub uninterp spec fn zip_data(archive: zip::ZipArchive<std::io::Cursor<Vec<u8>>>) -> Seq<u8>;

/// Why bytes are no archive.
pub uninterp spec fn zip_fault(data: Seq<u8>) -> Option<Seq<char>>;

/// How many entries an archive has.
pub uninterp spec fn zip_count(data: Seq<u8>) -> nat;

/// The name of an entry that can be opened.
pub uninterp spec fn zip_name(data: Seq<u8>, index: int) -> Option<Seq<char>>;

/// The text of the entry of a name; the outer error says why it cannot be opened,
/// the inner one why it cannot be read as text.
pub uninterp spec fn zip_text(data: Seq<u8>, name: Seq<char>) -> Result<
    Result<Seq<char>, Seq<char>>,
    Seq<char>,
>;

/// Calls `zip::ZipArchive::new` on the bytes. Whether they are an archive, and
/// what the error says, are functions of the bytes.
#[verifier::external_body]
pub(crate) fn open_archive(bytes: Vec<u8>) -> (r: Result<
    zip::ZipArchive<std::io::Cursor<Vec<u8>>>,
    String,
>)
    ensures
        match r {
            Ok(archive) => zip_data(archive) == bytes@ && zip_fault(bytes@) is None,
            Err(e) => zip_fault(bytes@) == Some(e@),
        },
{
    zip::ZipArchive::new(std::io::Cursor::new(bytes)).map_err(|e| e.to_string())
}

/// Calls `zip::ZipArchive::len`: the count of entries, a function of the bytes.
#[verifier::external_body]
pub(crate) fn archive_len(archive: &zip::ZipArchive<std::io::Cursor<Vec<u8>>>) -> (r: usize)
    ensures
        r == zip_count(zip_data(*archive)),
{
    archive.len()
}

/// Calls `zip::ZipArchive::by_index` and asks the entry for its name. Whether the
/// entry can be opened, and its name, are functions of the bytes and the place;
/// the archive goes on reading the same bytes.
#[verifier::external_body]
pub(crate) fn archive_name(
    archive: &mut zip::ZipArchive<std::io::Cursor<Vec<u8>>>,
    index: usize,
) -> (r: Option<String>)
    ensures
        opt_text(r) == zip_name(zip_data(*old(archive)), index as int),
        zip_data(*final(archive)) == zip_data(*old(archive)),
{
    archive.by_index(index).ok().map(|f| f.name().to_string())
}

/// Calls `zip::ZipArchive::by_name` and reads the entry as text. The text, or the
/// error, is a function of the bytes and the name; the archive goes on reading
/// the same bytes.
#[verifier::external_body]
pub(crate) fn archive_text(
    archive: &mut zip::ZipArchive<std::io::Cursor<Vec<u8>>>,
    name: &str,
) -> (r: Result<Result<String, String>, String>)
    ensures
        match r {
            Ok(Ok(text)) => zip_text(zip_data(*old(archive)), name@) == Ok::<
                Result<Seq<char>, Seq<char>>,
                Seq<char>,
            >(Ok(text@)),
            Ok(Err(e)) => zip_text(zip_data(*old(archive)), name@) == Ok::<
                Result<Seq<char>, Seq<char>>,
                Seq<char>,
            >(Err(e@)),
            Err(e) => zip_text(zip_data(*old(archive)), name@) == Err::<
                Result<Seq<char>, Seq<char>>,
                Seq<char>,
            >(e@),
        },
        zip_data(*final(archive)) == zip_data(*old(archive)),
{
    let mut entry = archive.by_name(name).map_err(|e| e.to_string())?;
    let mut text = String::new();
    Ok(entry.read_to_string(&mut text).map(|_| text).map_err(|e| e.to_string()))
}

} // verus!
