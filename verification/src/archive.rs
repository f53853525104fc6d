//! The names inside a zip container, read through the `zip` crate from its
//! central directory. Nothing is extracted.

use vstd::prelude::*;

verus! {

#[verifier::external_type_specification]
#[verifier::external_body]
#[verifier::reject_recursive_types(T)]
pub struct ExCursor<T>(std::io::Cursor<T>);

#[verifier::external_type_specification]
#[verifier::external_body]
#[verifier::reject_recursive_types(R)]
pub struct ExZipArchive<R>(zip::ZipArchive<R>);

/// What an open archive holds: for each entry, in index order, the name that
/// `ZipArchive::by_index` gives it, or `None` where `by_index` refuses the
/// entry (an encrypted or unsupported one).
pub uninterp spec fn zip_entries(a: zip::ZipArchive<std::io::Cursor<Vec<u8>>>) -> Seq<Option<Seq<char>>>;

/// What `ZipArchive::new` finds in `bytes`: the entries of the archive it
/// opens, as `zip_entries` lists them, or `None` when it refuses the bytes.
pub uninterp spec fn zip_listing(bytes: Seq<u8>) -> Option<Seq<Option<Seq<char>>>>;

/// The archive in `bytes`, if the `zip` crate can read its central directory.
///
/// Trusted: calls `zip::ZipArchive::new` on a copy of the bytes. The contract
/// only names the outcome.
#[verifier::external_body]
pub(crate) fn open_archive(bytes: &[u8]) -> (r: Option<zip::ZipArchive<std::io::Cursor<Vec<u8>>>>)
    ensures
        r is None <==> zip_listing(bytes@) is None,
        r matches Some(a) ==> zip_listing(bytes@) == Some(zip_entries(a)),
{
    zip::ZipArchive::new(std::io::Cursor::new(bytes.to_vec())).ok()
}

/// The number of entries.
///
/// Trusted: calls `ZipArchive::len`, the number of files in the central directory.
#[verifier::external_body]
pub(crate) fn entry_count(a: &zip::ZipArchive<std::io::Cursor<Vec<u8>>>) -> (r: usize)
    ensures
        r == zip_entries(*a).len(),
{
    a.len()
}

/// The name of entry `i`, or `None` where the archive refuses to open it.
///
/// Trusted: calls `ZipArchive::by_index` and `ZipFile::name`. Opening an entry
/// moves the reader but does not change what the archive lists.
#[verifier::external_body]
pub(crate) fn entry_name(a: &mut zip::ZipArchive<std::io::Cursor<Vec<u8>>>, i: usize) -> (r: Option<String>)
    requires
        i < zip_entries(*old(a)).len(),
    ensures
        zip_entries(*final(a)) == zip_entries(*old(a)),
        r is None <==> zip_entries(*old(a))[i as int] is None,
        r matches Some(n) ==> zip_entries(*old(a))[i as int] == Some(n@),
{
    a.by_index(i).ok().map(|f| f.name().to_string())
}

} // verus!
