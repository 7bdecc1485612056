//! Finding the ffmpeg program inside the archive it is published in.
//!
//! On a Mac ffmpeg comes as a zip archive, read through the `zip` crate; on
//! Linux it comes as a `.tar.xz` archive, read through `xz2` and `tar`.

use vstd::prelude::*;

use std::io::Cursor;
use zip::result::ZipError;
use zip::ZipArchive;

use super::{is_ffmpeg_tar_path, is_ffmpeg_tar_path_spec, is_ffmpeg_zip_name, is_ffmpeg_zip_name_spec};

verus! {

#[verifier::external_type_specification]
#[verifier::external_body]
#[verifier::reject_recursive_types(T)]
pub struct ExCursor<T>(Cursor<T>);

#[verifier::external_type_specification]
#[verifier::external_body]
#[verifier::reject_recursive_types(R)]
pub struct ExZipArchive<R>(ZipArchive<R>);

#[verifier::external_type_specification]
#[verifier::external_body]
pub struct ExZipError(ZipError);

/// The entries of the zip archive held in `bytes`, as an archive opened
/// with `ZipArchive::new` reads them: for each entry, by index, its name as
/// `ZipArchive::by_index` and `ZipFile::name` give it, or `None` where one of
/// them fails for that entry. `None` as a whole where `ZipArchive::new`
/// refuses the bytes.
pub uninterp spec fn zip_entry_names(bytes: Seq<u8>) -> Option<Seq<Option<Seq<char>>>>;

/// The uncompressed contents of entry `index` of the zip archive held in
/// `bytes`, as `ZipArchive::by_index` and reading the `ZipFile` to its end
/// give them in an archive opened with `ZipArchive::new`, or `None` where
/// one of them fails.
pub uninterp spec fn zip_entry_data(bytes: Seq<u8>, index: int) -> Option<Seq<u8>>;

/// What an opened zip archive holds: for each entry, by index, its name, or
/// `None` where `by_index` or `name` fails for it.
pub uninterp spec fn zip_archive_names(archive: ZipArchive<Cursor<Vec<u8>>>) -> Seq<
    Option<Seq<char>>,
>;

/// The uncompressed contents of entry `index` of an opened zip archive, or
/// `None` where `by_index` or reading the entry fails.
pub uninterp spec fn zip_archive_data(archive: ZipArchive<Cursor<Vec<u8>>>, index: int) -> Option<
    Seq<u8>,
>;

/// Trusted: `zip::ZipArchive::new` over a `Cursor` of `bytes`. It reads the
/// central directory; whether it succeeds, and what the archive it returns
/// holds, depend only on the bytes.
#[verifier::external_body]
fn zip_open(bytes: Vec<u8>) -> (r: Result<ZipArchive<Cursor<Vec<u8>>>, ZipError>)
    ensures
        match r {
            Ok(a) => zip_entry_names(bytes@) == Some(zip_archive_names(a)) && forall|i: int|
                #![trigger zip_archive_data(a, i)]
                zip_archive_data(a, i) == zip_entry_data(bytes@, i),
            Err(_) => zip_entry_names(bytes@) is None,
        },
{
    ZipArchive::new(Cursor::new(bytes))
}

/// Trusted: `ZipArchive::len`, the number of entries in the central
/// directory.
#[verifier::external_body]
fn zip_len(archive: &ZipArchive<Cursor<Vec<u8>>>) -> (r: usize)
    ensures
        r == zip_archive_names(*archive).len(),
{
    archive.len()
}

/// Trusted: `ZipArchive::by_index` followed by `ZipFile::name`. Either may
/// fail (a broken local header, an unsupported compression method, an
/// undecodable name); the outcome is the archive's record for the entry,
/// and reading moves only the reader's position, not what the archive holds.
#[verifier::external_body]
fn zip_entry_name(archive: &mut ZipArchive<Cursor<Vec<u8>>>, index: usize) -> (r: Result<
    String,
    ZipError,
>)
    requires
        index < zip_archive_names(*old(archive)).len(),
    ensures
        zip_archive_names(*final(archive)) == zip_archive_names(*old(archive)),
        forall|i: int|
            #![trigger zip_archive_data(*final(archive), i)]
            zip_archive_data(*final(archive), i) == zip_archive_data(*old(archive), i),
        match r {
            Ok(n) => zip_archive_names(*old(archive))[index as int] == Some(n@),
            Err(_) => zip_archive_names(*old(archive))[index as int] is None,
        },
{
    let file = archive.by_index(index)?;
    let name = file.name()?.into_owned();
    Ok(name)
}

/// Trusted: `ZipArchive::by_index` followed by reading the `ZipFile` to its
/// end with `std::io::Read::read_to_end`. Either may fail (an unsupported
/// compression method, corrupt data); the outcome is the archive's record
/// for the entry, and reading moves only the reader's position.
#[verifier::external_body]
fn zip_entry_contents(archive: &mut ZipArchive<Cursor<Vec<u8>>>, index: usize) -> (r: Result<
    Vec<u8>,
    ZipError,
>)
    requires
        index < zip_archive_names(*old(archive)).len(),
    ensures
        zip_archive_names(*final(archive)) == zip_archive_names(*old(archive)),
        forall|i: int|
            #![trigger zip_archive_data(*final(archive), i)]
            zip_archive_data(*final(archive), i) == zip_archive_data(*old(archive), i),
        match r {
            Ok(d) => zip_archive_data(*old(archive), index as int) == Some(d@),
            Err(_) => zip_archive_data(*old(archive), index as int) is None,
        },
{
    let mut file = archive.by_index(index)?;
    let mut out: Vec<u8> = Vec::new();
    std::io::Read::read_to_end(&mut file, &mut out)?;
    Ok(out)
}

/// Whether an entry's name was read and is the ffmpeg program.
pub open spec fn is_ffmpeg_entry(name: Option<Seq<char>>) -> bool {
    name matches Some(n) && is_ffmpeg_zip_name_spec(n)
}

/// Whether an entry's name was read and is some other file.
pub open spec fn is_other_entry(name: Option<Seq<char>>) -> bool {
    name matches Some(n) && !is_ffmpeg_zip_name_spec(n)
}

/// Whether `i` is the first index whose name is the ffmpeg program, every
/// name before it having been read.
pub open spec fn is_first_ffmpeg_entry(names: Seq<Option<Seq<char>>>, i: int) -> bool {
    &&& 0 <= i < names.len()
    &&& is_ffmpeg_entry(names[i])
    &&& forall|j: int| 0 <= j < i ==> is_other_entry(#[trigger] names[j])
}

/// Whether every name was read and none is the ffmpeg program.
pub open spec fn no_ffmpeg_entry(names: Seq<Option<Seq<char>>>) -> bool {
    forall|j: int| 0 <= j < names.len() ==> is_other_entry(#[trigger] names[j])
}

/// Whether `i` is the first index whose name cannot be read, every name
/// before it having been read and none of them being the ffmpeg program.
pub open spec fn is_first_unreadable_entry(names: Seq<Option<Seq<char>>>, i: int) -> bool {
    &&& 0 <= i < names.len()
    &&& names[i] is None
    &&& forall|j: int| 0 <= j < i ==> is_other_entry(#[trigger] names[j])
}

/// Why ffmpeg could not be taken from its archive.
#[derive(Debug, Clone, Copy, PartialEq, Eq, Structural)]
pub enum ExtractError {
    /// The archive could not be read.
    Archive,
    /// No entry of the archive is the ffmpeg program.
    NotFound,
}

/// Looks through the entries of an opened zip archive, in order, for the
/// first one that is the ffmpeg program; it stops at the first entry whose
/// name cannot be read.
pub fn find_ffmpeg_zip_entry(archive: &mut ZipArchive<Cursor<Vec<u8>>>) -> (r: Result<
    Option<usize>,
    ZipError,
>)
    ensures
        zip_archive_names(*final(archive)) == zip_archive_names(*old(archive)),
        forall|i: int|
            #![trigger zip_archive_data(*final(archive), i)]
            zip_archive_data(*final(archive), i) == zip_archive_data(*old(archive), i),
        r matches Ok(Some(i)) ==> is_first_ffmpeg_entry(zip_archive_names(*old(archive)), i as int),
        r matches Ok(None) ==> no_ffmpeg_entry(zip_archive_names(*old(archive))),
        r is Err ==> exists|i: int| is_first_unreadable_entry(zip_archive_names(*old(archive)), i),
{
    let ghost names = zip_archive_names(*archive);
    let n = zip_len(archive);
    let mut i: usize = 0;
    while i < n
        invariant
            i <= n,
            n == names.len(),
            names == zip_archive_names(*old(archive)),
            zip_archive_names(*archive) == names,
            forall|k: int|
                #![trigger zip_archive_data(*archive, k)]
                zip_archive_data(*archive, k) == zip_archive_data(*old(archive), k),
            forall|j: int| 0 <= j < i ==> is_other_entry(#[trigger] names[j]),
        decreases n - i,
    {
        let name = match zip_entry_name(archive, i) {
            Ok(name) => name,
            Err(e) => {
                assert(is_first_unreadable_entry(names, i as int));
                return Err(e);
            },
        };
        if is_ffmpeg_zip_name(name.as_str()) {
            return Ok(Some(i));
        }
        i = i + 1;
    }
    Ok(None)
}

/// Takes the ffmpeg program out of a zip archive: the contents of its first
/// entry named `ffmpeg` or ending in `/ffmpeg`. It fails with `Archive`
/// where the bytes are no zip archive, an entry name up to that entry cannot
/// be read, or that entry's contents cannot be read; and with `NotFound`
/// where every name was read and none is ffmpeg.
pub fn extract_ffmpeg_zip(bytes: Vec<u8>) -> (r: Result<Vec<u8>, ExtractError>)
    ensures
        zip_entry_names(bytes@) is None ==> r == Err::<Vec<u8>, ExtractError>(
            ExtractError::Archive,
        ),
        forall|i: int|
            #![trigger is_first_ffmpeg_entry(zip_entry_names(bytes@)->Some_0, i)]
            zip_entry_names(bytes@) is Some && is_first_ffmpeg_entry(
                zip_entry_names(bytes@)->Some_0,
                i,
            ) ==> match zip_entry_data(bytes@, i) {
                Some(d) => r matches Ok(v) && v@ == d,
                None => r == Err::<Vec<u8>, ExtractError>(ExtractError::Archive),
            },
        forall|i: int|
            #![trigger is_first_unreadable_entry(zip_entry_names(bytes@)->Some_0, i)]
            zip_entry_names(bytes@) is Some && is_first_unreadable_entry(
                zip_entry_names(bytes@)->Some_0,
                i,
            ) ==> r == Err::<Vec<u8>, ExtractError>(ExtractError::Archive),
        zip_entry_names(bytes@) is Some && no_ffmpeg_entry(zip_entry_names(bytes@)->Some_0) ==> r
            == Err::<Vec<u8>, ExtractError>(ExtractError::NotFound),
{
    let ghost source = bytes@;
    let mut archive = match zip_open(bytes) {
        Ok(a) => a,
        Err(_) => {
            return Err(ExtractError::Archive);
        },
    };
    let ghost names = zip_archive_names(archive);
    proof {
        lemma_first_entries_exclusive(names);
    }
    match find_ffmpeg_zip_entry(&mut archive) {
        Err(_) => Err(ExtractError::Archive),
        Ok(None) => Err(ExtractError::NotFound),
        Ok(Some(i)) => match zip_entry_contents(&mut archive, i) {
            Ok(d) => {
                assert(zip_archive_data(archive, i as int) == zip_entry_data(source, i as int));
                Ok(d)
            },
            Err(_) => {
                assert(zip_archive_data(archive, i as int) == zip_entry_data(source, i as int));
                Err(ExtractError::Archive)
            },
        },
    }
}

/// At most one of the outcomes of a walk over entry names holds: a first
/// ffmpeg entry (only one), a first unreadable entry (only one), or all
/// names read and none ffmpeg.
pub proof fn lemma_first_entries_exclusive(names: Seq<Option<Seq<char>>>)
    ensures
        forall|i: int, j: int|
            is_first_ffmpeg_entry(names, i) && is_first_ffmpeg_entry(names, j) ==> i == j,
        forall|i: int, j: int|
            is_first_unreadable_entry(names, i) && is_first_unreadable_entry(names, j) ==> i == j,
        forall|i: int, j: int|
            is_first_ffmpeg_entry(names, i) ==> !is_first_unreadable_entry(names, j),
        forall|i: int| is_first_ffmpeg_entry(names, i) ==> !no_ffmpeg_entry(names),
        forall|i: int| is_first_unreadable_entry(names, i) ==> !no_ffmpeg_entry(names),
{
    assert forall|i: int, j: int|
        is_first_ffmpeg_entry(names, i) && is_first_ffmpeg_entry(names, j) implies i == j by {
        if i < j {
            assert(is_other_entry(names[i]));
        } else if j < i {
            assert(is_other_entry(names[j]));
        }
    }
    assert forall|i: int, j: int|
        is_first_unreadable_entry(names, i) && is_first_unreadable_entry(names, j) implies i
        == j by {
        if i < j {
            assert(is_other_entry(names[i]));
        } else if j < i {
            assert(is_other_entry(names[j]));
        }
    }
    assert forall|i: int, j: int|
        is_first_ffmpeg_entry(names, i) implies !is_first_unreadable_entry(names, j) by {
        if is_first_unreadable_entry(names, j) {
            if i < j {
                assert(is_other_entry(names[i]));
            } else if j < i {
                assert(is_other_entry(names[j]));
            }
        }
    }
    assert forall|i: int| is_first_ffmpeg_entry(names, i) implies !no_ffmpeg_entry(names) by {
        assert(!is_other_entry(names[i]));
    }
    assert forall|i: int| is_first_unreadable_entry(names, i) implies !no_ffmpeg_entry(names) by {
        assert(!is_other_entry(names[i]));
    }
}

// ---------------------------------------------------------------------------
// The .tar.xz archive.
// ---------------------------------------------------------------------------

/// The entries of the `.tar.xz` archive held in `bytes`, in order, as
/// `tar::Archive::entries` over an `xz2::read::XzDecoder` of the bytes
/// yields them: for each entry its path as `Entry::path` gives it, as text
/// (bytes that are no UTF-8 replaced), or `None` where reading that entry or
/// its path fails. A failed entry ends the listing, since the iterator stops
/// after an error.
pub uninterp spec fn tar_xz_entry_paths(bytes: Seq<u8>) -> Seq<Option<Seq<char>>>;

/// The contents of entry `index` of the `.tar.xz` archive held in `bytes`,
/// as reading that entry to its end gives them, or `None` where reaching or
/// reading it fails.
pub uninterp spec fn tar_xz_entry_data(bytes: Seq<u8>, index: int) -> Option<Seq<u8>>;

/// The views of a sequence of optional strings.
pub open spec fn opt_strings_view(v: Seq<Option<String>>) -> Seq<Option<Seq<char>>> {
    v.map_values(|o: Option<String>| crate::music_info::song::opt_view(o))
}

/// Trusted: `tar::Archive::new` over `xz2::read::XzDecoder::new(bytes)`,
/// then `Archive::entries`, each entry's `Entry::path` turned into text with
/// `to_string_lossy`. The listing depends only on the bytes. `entries` on a
/// fresh archive does not fail in the tar source; its error would be
/// recorded as one unreadable entry.
#[verifier::external_body]
fn tar_xz_paths(bytes: &[u8]) -> (r: Vec<Option<String>>)
    ensures
        opt_strings_view(r@) == tar_xz_entry_paths(bytes@),
{
    let mut archive = tar::Archive::new(xz2::read::XzDecoder::new(bytes));
    let entries = match archive.entries() {
        Ok(e) => e,
        Err(_) => return vec![None],
    };
    entries
        .map(|e| e.ok().and_then(|e| e.path().ok().map(|p| p.to_string_lossy().into_owned())))
        .collect()
}

/// Trusted: as `tar_xz_paths`, then `Iterator::nth` on the entries to reach
/// entry `index` and `std::io::Read::read_to_end` on it. The contents depend
/// only on the bytes and the index.
#[verifier::external_body]
fn tar_xz_data(bytes: &[u8], index: usize) -> (r: Option<Vec<u8>>)
    ensures
        match r {
            Some(d) => tar_xz_entry_data(bytes@, index as int) == Some(d@),
            None => tar_xz_entry_data(bytes@, index as int) is None,
        },
{
    let mut archive = tar::Archive::new(xz2::read::XzDecoder::new(bytes));
    let mut entries = archive.entries().ok()?;
    let mut entry = entries.nth(index)?.ok()?;
    let mut out: Vec<u8> = Vec::new();
    std::io::Read::read_to_end(&mut entry, &mut out).ok()?;
    Some(out)
}

/// Whether a tar entry's path was read and is the ffmpeg program.
pub open spec fn is_ffmpeg_tar_entry(path: Option<Seq<char>>) -> bool {
    path matches Some(p) && is_ffmpeg_tar_path_spec(p)
}

/// Whether a tar entry's path was read and is some other file.
pub open spec fn is_other_tar_entry(path: Option<Seq<char>>) -> bool {
    path matches Some(p) && !is_ffmpeg_tar_path_spec(p)
}

/// Whether `i` is the first tar entry that is the ffmpeg program, every path
/// before it having been read.
pub open spec fn is_first_ffmpeg_tar_entry(paths: Seq<Option<Seq<char>>>, i: int) -> bool {
    &&& 0 <= i < paths.len()
    &&& is_ffmpeg_tar_entry(paths[i])
    &&& forall|j: int| 0 <= j < i ==> is_other_tar_entry(#[trigger] paths[j])
}

/// Whether `i` is the first tar entry that cannot be read, every path before
/// it having been read and none of them being ffmpeg.
pub open spec fn is_first_unreadable_tar_entry(paths: Seq<Option<Seq<char>>>, i: int) -> bool {
    &&& 0 <= i < paths.len()
    &&& paths[i] is None
    &&& forall|j: int| 0 <= j < i ==> is_other_tar_entry(#[trigger] paths[j])
}

/// Whether every tar path was read and none is ffmpeg.
pub open spec fn no_ffmpeg_tar_entry(paths: Seq<Option<Seq<char>>>) -> bool {
    forall|j: int| 0 <= j < paths.len() ==> is_other_tar_entry(#[trigger] paths[j])
}

/// Takes the ffmpeg program out of a `.tar.xz` archive: the contents of its
/// first entry whose file name is `ffmpeg` in a directory `bin`. It fails
/// with `Archive` where an entry up to that one, or its contents, cannot be
/// read, and with `NotFound` where every entry was read and none is ffmpeg.
pub fn extract_ffmpeg_tar_xz(bytes: &[u8]) -> (r: Result<Vec<u8>, ExtractError>)
    ensures
        forall|i: int|
            #![trigger is_first_ffmpeg_tar_entry(tar_xz_entry_paths(bytes@), i)]
            is_first_ffmpeg_tar_entry(tar_xz_entry_paths(bytes@), i) ==> match tar_xz_entry_data(
                bytes@,
                i,
            ) {
                Some(d) => r matches Ok(v) && v@ == d,
                None => r == Err::<Vec<u8>, ExtractError>(ExtractError::Archive),
            },
        forall|i: int|
            #![trigger is_first_unreadable_tar_entry(tar_xz_entry_paths(bytes@), i)]
            is_first_unreadable_tar_entry(tar_xz_entry_paths(bytes@), i) ==> r == Err::<
                Vec<u8>,
                ExtractError,
            >(ExtractError::Archive),
        no_ffmpeg_tar_entry(tar_xz_entry_paths(bytes@)) ==> r == Err::<Vec<u8>, ExtractError>(
            ExtractError::NotFound,
        ),
{
    let paths = tar_xz_paths(bytes);
    let ghost pv = tar_xz_entry_paths(bytes@);
    proof {
        lemma_first_tar_entries_exclusive(pv);
    }
    let mut i: usize = 0;
    while i < paths.len()
        invariant
            i <= paths.len(),
            pv == opt_strings_view(paths@),
            pv.len() == paths@.len(),
            pv == tar_xz_entry_paths(bytes@),
            forall|j: int| 0 <= j < i ==> is_other_tar_entry(#[trigger] pv[j]),
        decreases paths.len() - i,
    {
        assert(pv[i as int] == crate::music_info::song::opt_view(paths@[i as int]));
        match &paths[i] {
            None => {
                assert(is_first_unreadable_tar_entry(pv, i as int));
                return Err(ExtractError::Archive);
            },
            Some(p) => {
                if is_ffmpeg_tar_path(p.as_str()) {
                    assert(is_first_ffmpeg_tar_entry(pv, i as int));
                    return match tar_xz_data(bytes, i) {
                        Some(d) => Ok(d),
                        None => Err(ExtractError::Archive),
                    };
                }
            },
        }
        i = i + 1;
    }
    assert(no_ffmpeg_tar_entry(pv));
    Err(ExtractError::NotFound)
}

/// At most one of the outcomes of a walk over tar paths holds.
pub proof fn lemma_first_tar_entries_exclusive(paths: Seq<Option<Seq<char>>>)
    ensures
        forall|i: int, j: int|
            is_first_ffmpeg_tar_entry(paths, i) && is_first_ffmpeg_tar_entry(paths, j) ==> i == j,
        forall|i: int, j: int|
            is_first_ffmpeg_tar_entry(paths, i) ==> !is_first_unreadable_tar_entry(paths, j),
        forall|i: int| is_first_ffmpeg_tar_entry(paths, i) ==> !no_ffmpeg_tar_entry(paths),
        forall|i: int| is_first_unreadable_tar_entry(paths, i) ==> !no_ffmpeg_tar_entry(paths),
{
    assert forall|i: int, j: int|
        is_first_ffmpeg_tar_entry(paths, i) && is_first_ffmpeg_tar_entry(paths, j) implies i
        == j by {
        if i < j {
            assert(is_other_tar_entry(paths[i]));
        } else if j < i {
            assert(is_other_tar_entry(paths[j]));
        }
    }
    assert forall|i: int, j: int|
        is_first_ffmpeg_tar_entry(paths, i) implies !is_first_unreadable_tar_entry(paths, j) by {
        if is_first_unreadable_tar_entry(paths, j) {
            if i < j {
                assert(is_other_tar_entry(paths[i]));
            } else if j < i {
                assert(is_other_tar_entry(paths[j]));
            }
        }
    }
    assert forall|i: int| is_first_ffmpeg_tar_entry(paths, i) implies !no_ffmpeg_tar_entry(
        paths,
    ) by {
        assert(!is_other_tar_entry(paths[i]));
    }
    assert forall|i: int| is_first_unreadable_tar_entry(paths, i) implies !no_ffmpeg_tar_entry(
        paths,
    ) by {
        assert(!is_other_tar_entry(paths[i]));
    }
}

} // verus!
