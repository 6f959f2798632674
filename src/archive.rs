//! The zip archive that holds a publication, as a collection of named
//! entries.
use vstd::prelude::*;

verus! {

#[verifier::external_type_specification]
#[verifier::external_body]
#[verifier::reject_recursive_types(R)]
pub struct ExZipArchive<R>(zip::ZipArchive<R>);

#[verifier::external_type_specification]
#[verifier::external_body]
#[verifier::reject_recursive_types(T)]
pub struct ExCursor<T>(std::io::Cursor<T>);

/// An archive read from bytes in memory.
pub type Archive = zip::ZipArchive<std::io::Cursor<Vec<u8>>>;

/// The entries of an archive: each name that `ZipArchive::by_name_decrypt`
/// (with an empty password) opens, with the bytes it decompresses to (an
/// entry that does not open or decompress is not among them).
pub uninterp spec fn archive_entries(a: zip::ZipArchive<std::io::Cursor<Vec<u8>>>) -> Map<
    Seq<char>,
    Seq<u8>,
>;

/// The entries of the archive that `bytes` hold, if they open as one.
pub uninterp spec fn zip_entries_of(bytes: Seq<u8>) -> Option<Map<Seq<char>, Seq<u8>>>;

/// Relies on zip's `ZipArchive::new`, over an in-memory `std::io::Cursor`:
/// reads the archive's central directory.
#[verifier::external_body]
pub(crate) fn open_archive(bytes: Vec<u8>) -> (r: Result<Archive, zip::result::ZipError>)
    ensures
        r is Ok <==> zip_entries_of(bytes@) is Some,
        r matches Ok(a) ==> zip_entries_of(bytes@) == Some(archive_entries(a)),
{
    zip::ZipArchive::new(std::io::Cursor::new(bytes))
}

/// Relies on zip's `ZipArchive::by_name_decrypt`, with an empty password,
/// and `std::io::Read::read_to_end` on the entry it returns: the bytes of the
/// entry named `name`. An entry that asks for a password it does not accept
/// fails. Reading moves only the archive's cursor, and succeeds exactly on
/// the archive's entries.
#[verifier::external_body]
pub(crate) fn read_entry(a: &mut Archive, name: &str) -> (r: Result<Vec<u8>, zip::result::ZipError>)
    ensures
        archive_entries(*final(a)) == archive_entries(*old(a)),
        r is Ok <==> archive_entries(*old(a)).contains_key(name@),
        r matches Ok(b) ==> b@ == archive_entries(*old(a))[name@],
{
    let mut entry = match a.by_name_decrypt(name, &[])? {
        Ok(entry) => entry,
        Err(_) => {
            return Err(zip::result::ZipError::UnsupportedArchive(
                zip::result::ZipError::PASSWORD_REQUIRED,
            ))
        },
    };
    let mut bytes = Vec::new();
    std::io::Read::read_to_end(&mut entry, &mut bytes)?;
    Ok(bytes)
}

} // verus!
