//! Reading ZIP archives: the trusted calls into the `zip` crate.
use std::io::Read;
use vstd::prelude::*;

verus! {

/// A byte buffer with a position, of `std::io`.
#[verifier::external_type_specification]
#[verifier::external_body]
#[verifier::reject_recursive_types(T)]
pub struct ExCursor<T>(std::io::Cursor<T>);

/// An opened ZIP archive of the `zip` crate.
#[verifier::external_type_specification]
#[verifier::external_body]
#[verifier::reject_recursive_types(R)]
pub struct ExZipArchive<R>(zip::ZipArchive<R>);

/// The reason for which the `zip` crate cannot read an archive or an entry.
#[verifier::external_type_specification]
#[verifier::external_body]
pub struct ExZipError(zip::result::ZipError);

/// The entries that `zip::ZipArchive::new` finds in the bytes of an archive, where it can open
/// it: of each the name, where the entry can be opened, and the content, where it can be read.
pub uninterp spec fn zip_entries(bytes: Seq<u8>) -> Option<
    Seq<(Option<Seq<char>>, Option<Seq<u8>>)>,
>;

/// The entries of an opened archive.
pub uninterp spec fn archive_entries(archive: zip::ZipArchive<std::io::Cursor<Vec<u8>>>) -> Seq<
    (Option<Seq<char>>, Option<Seq<u8>>),
>;

/// `zip::ZipArchive::new`: whether the bytes are an archive, and what its entries are, depends on
/// the bytes alone.
#[verifier::external_body]
pub(crate) fn open_archive(bytes: Vec<u8>) -> (r: Result<
    zip::ZipArchive<std::io::Cursor<Vec<u8>>>,
    zip::result::ZipError,
>)
    ensures
        match r {
            Ok(archive) => zip_entries(bytes@) == Some(archive_entries(archive)),
            Err(_) => zip_entries(bytes@) is None,
        },
{
    zip::ZipArchive::new(std::io::Cursor::new(bytes))
}

/// `zip::ZipArchive::len`: the number of entries.
#[verifier::external_body]
pub(crate) fn entry_count(archive: &zip::ZipArchive<std::io::Cursor<Vec<u8>>>) -> (n: usize)
    ensures
        n == archive_entries(*archive).len(),
{
    archive.len()
}

/// `zip::ZipArchive::by_index` and the name of the entry it opens. The archive holds the same
/// entries afterwards.
#[verifier::external_body]
pub(crate) fn entry_name(
    archive: &mut zip::ZipArchive<std::io::Cursor<Vec<u8>>>,
    index: usize,
) -> (r: Result<String, zip::result::ZipError>)
    requires
        index < archive_entries(*old(archive)).len(),
    ensures
        archive_entries(*final(archive)) == archive_entries(*old(archive)),
        match r {
            Ok(name) => archive_entries(*old(archive))[index as int].0 == Some(name@),
            Err(_) => archive_entries(*old(archive))[index as int].0 is None,
        },
{
    let entry = archive.by_index(index)?;
    Ok(entry.name().to_string())
}

/// `std::io::Read::read_to_end` on an entry of the archive. The archive holds the same entries
/// afterwards.
#[verifier::external_body]
pub(crate) fn entry_content(
    archive: &mut zip::ZipArchive<std::io::Cursor<Vec<u8>>>,
    index: usize,
) -> (r: Result<Vec<u8>, zip::result::ZipError>)
    requires
        index < archive_entries(*old(archive)).len(),
    ensures
        archive_entries(*final(archive)) == archive_entries(*old(archive)),
        match r {
            Ok(content) => archive_entries(*old(archive))[index as int].1 == Some(content@),
            Err(_) => archive_entries(*old(archive))[index as int].1 is None,
        },
{
    let mut content = Vec::new();
    archive.by_index(index)?.read_to_end(&mut content)?;
    Ok(content)
}

}
