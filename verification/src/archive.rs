//! Unpacking a zip archive held in memory.
//!
//! The archive is read with the `zip` crate. Where the entries go is decided
//! by `paths`; nothing here touches the file system.

use crate::paths::{
    first_refused, folder_name, names_directory, plan_extraction, root_name, stays_inside,
    target_path, ExtractError,
};
use crate::text::string_views;
use vstd::prelude::*;

verus! {

/// `zip::ZipArchive`, an archive opened on a reader. Nothing is known of
/// what is inside a value but what `archive_entries` names.
#[verifier::external_type_specification]
#[verifier::external_body]
#[verifier::reject_recursive_types(R)]
pub struct ExZipArchive<R>(zip::ZipArchive<R>);

/// `std::io::Cursor`, the reader over bytes in memory that the archive is
/// opened on.
#[verifier::external_type_specification]
#[verifier::external_body]
#[verifier::reject_recursive_types(T)]
pub struct ExCursor<T>(std::io::Cursor<T>);

/// `zip::result::ZipError`, why the `zip` crate could not read an archive.
/// It is carried through and never looked into.
#[verifier::external_type_specification]
#[verifier::external_body]
pub struct ExZipError(zip::result::ZipError);

/// What the `zip` crate finds in an archive made of `bytes`: `None` where it
/// cannot open the archive; otherwise the entries in the order of the
/// central directory, each with its name and with the bytes that it unpacks
/// to, `None` where the entry cannot be unpacked.
pub uninterp spec fn zip_entries(bytes: Seq<u8>) -> Option<Seq<(Seq<char>, Option<Seq<u8>>)>>;

/// The entries of an open archive, as `zip_entries` gives them for the bytes
/// it was opened on.
pub uninterp spec fn archive_entries(archive: zip::ZipArchive<std::io::Cursor<Vec<u8>>>) -> Seq<
    (Seq<char>, Option<Seq<u8>>),
>;

/// The names of `entries`, in order.
pub open spec fn entry_names(entries: Seq<(Seq<char>, Option<Seq<u8>>)>) -> Seq<Seq<char>> {
    entries.map_values(|entry: (Seq<char>, Option<Seq<u8>>)| entry.0)
}

/// `zip::ZipArchive::new` on a cursor over `bytes`: the archive holds the
/// entries that the bytes describe, and the call fails exactly where the
/// bytes describe no archive.
#[verifier::external_body]
fn open_archive(bytes: Vec<u8>) -> (r: Result<
    zip::ZipArchive<std::io::Cursor<Vec<u8>>>,
    zip::result::ZipError,
>)
    ensures
        match r {
            Ok(archive) => zip_entries(bytes@) == Some(archive_entries(archive)),
            Err(_) => zip_entries(bytes@) is None,
        },
{
    zip::ZipArchive::new(std::io::Cursor::new(bytes))
}

/// `zip::ZipArchive::len`: the number of entries.
#[verifier::external_body]
fn archive_len(archive: &zip::ZipArchive<std::io::Cursor<Vec<u8>>>) -> (n: usize)
    ensures
        n == archive_entries(*archive).len(),
{
    archive.len()
}

/// `zip::ZipArchive::name_for_index`: the name of the entry at `index`, and
/// `None` exactly where there is no such entry.
#[verifier::external_body]
fn archive_name(archive: &zip::ZipArchive<std::io::Cursor<Vec<u8>>>, index: usize) -> (r: Option<
    String,
>)
    ensures
        match r {
            Some(name) => index < archive_entries(*archive).len() && name@ == archive_entries(
                *archive,
            )[index as int].0,
            None => index >= archive_entries(*archive).len(),
        },
{
    archive.name_for_index(index).map(String::from)
}

/// `zip::ZipArchive::by_index` and `std::io::Read::read_to_end` on the entry
/// it gives: the bytes that the entry at `index` unpacks to; an error where
/// there is no such entry or it cannot be unpacked. The archive holds the
/// same entries afterwards.
#[verifier::external_body]
fn archive_data(archive: &mut zip::ZipArchive<std::io::Cursor<Vec<u8>>>, index: usize) -> (r:
    Result<Vec<u8>, zip::result::ZipError>)
    ensures
        archive_entries(*final(archive)) == archive_entries(*old(archive)),
        match r {
            Ok(data) => index < archive_entries(*old(archive)).len() && archive_entries(
                *old(archive),
            )[index as int].1 == Some(data@),
            Err(_) => index >= archive_entries(*old(archive)).len() || archive_entries(
                *old(archive),
            )[index as int].1 is None,
        },
{
    let mut file = archive.by_index(index)?;
    let mut data = Vec::new();
    std::io::Read::read_to_end(&mut file, &mut data)?;
    Ok(data)
}

/// One entry of an archive, unpacked.
#[derive(Debug)]
pub struct ExtractedEntry {
    /// The path relative to the destination, its levels joined by slashes.
    pub path: String,
    /// Whether the entry is a directory.
    pub is_dir: bool,
    /// What the file holds; empty for a directory.
    pub data: Vec<u8>,
}

/// Whether the entry at `i` is a file that cannot be unpacked.
pub open spec fn is_broken(entries: Seq<(Seq<char>, Option<Seq<u8>>)>, i: int) -> bool {
    !names_directory(entries[i].0) && entries[i].1 is None
}

/// Whether one of the first `upto` entries is a file that cannot be unpacked.
pub open spec fn any_broken(entries: Seq<(Seq<char>, Option<Seq<u8>>)>, upto: int) -> bool {
    exists|i: int| 0 <= i < upto && #[trigger] is_broken(entries, i)
}

/// Whether `file` is the entry at `i`, unpacked to where the plan puts it.
pub open spec fn is_unpacked(
    file: ExtractedEntry,
    entries: Seq<(Seq<char>, Option<Seq<u8>>)>,
    i: int,
) -> bool {
    &&& target_path(entry_names(entries), entries[i].0) == Some(file.path@)
    &&& stays_inside(entry_names(entries), entries[i].0)
    &&& file.is_dir == names_directory(entries[i].0)
    &&& if file.is_dir {
        file.data@.len() == 0
    } else {
        entries[i].1 == Some(file.data@)
    }
}

/// The names of the entries of an open archive.
fn names_in(archive: &zip::ZipArchive<std::io::Cursor<Vec<u8>>>) -> (names: Vec<String>)
    ensures
        string_views(names@) == entry_names(archive_entries(*archive)),
{
    let ghost entries = archive_entries(*archive);
    let count = archive_len(archive);
    let mut names: Vec<String> = Vec::new();
    let mut i: usize = 0;
    proof {
        assert(string_views(names@) =~= entry_names(entries.take(0)));
    }
    while i < count
        invariant
            i <= count,
            count == entries.len(),
            entries == archive_entries(*archive),
            string_views(names@) == entry_names(entries.take(i as int)),
        decreases count - i,
    {
        let name = match archive_name(archive, i) {
            Some(name) => name,
            None => String::new(),
        };
        proof {
            assert(entries.take(i + 1) == entries.take(i as int).push(entries[i as int]));
            assert(string_views(names@.push(name)) == string_views(names@).push(name@));
            assert(entry_names(entries.take(i as int).push(entries[i as int])) == entry_names(
                entries.take(i as int),
            ).push(entries[i as int].0));
        }
        names.push(name);
        i += 1;
    }
    proof {
        assert(entries.take(count as int) == entries);
    }
    names
}

/// Names the folder that the archive `bytes` unpacks to: the first component
/// that all entries share, or `fallback`, the archive's own base name, where
/// they share none. Fails exactly where the archive cannot be opened.
pub fn get_root_folder_name(bytes: Vec<u8>, fallback: &str) -> (r: Result<String, ExtractError>)
    ensures
        match zip_entries(bytes@) {
            Some(entries) => r matches Ok(name) && name@ == root_name(
                entry_names(entries),
                fallback@,
            ),
            None => r == Err::<String, ExtractError>(ExtractError::Unreadable),
        },
{
    match open_archive(bytes) {
        Ok(archive) => Ok(folder_name(&names_in(&archive), fallback)),
        Err(_) => Err(ExtractError::Unreadable),
    }
}

/// Unpacks the archive `bytes` in memory: one member for each entry, in the
/// archive's order, with the path below the destination that `paths` gives
/// it and, for a file, the bytes to write there.
///
/// Where all entries share their first component it is left out of every
/// path. An archive with an entry that would be written outside the
/// destination is refused whole, before anything is unpacked; so is one
/// that cannot be opened, or that holds a file which cannot be unpacked.
pub fn extract_zip(bytes: Vec<u8>) -> (r: Result<Vec<ExtractedEntry>, ExtractError>)
    ensures
        match zip_entries(bytes@) {
            None => r == Err::<Vec<ExtractedEntry>, ExtractError>(ExtractError::Unreadable),
            Some(entries) => match first_refused(entry_names(entries), 0) {
                Some(i) => r matches Err(ExtractError::UnsafePath(at)) && at == i,
                None => if any_broken(entries, entries.len() as int) {
                    r == Err::<Vec<ExtractedEntry>, ExtractError>(ExtractError::Unreadable)
                } else {
                    r matches Ok(files) && files.len() == entries.len() && forall|i: int|
                        0 <= i < files.len() ==> is_unpacked(#[trigger] files[i], entries, i)
                },
            },
        },
{
    let ghost source = bytes@;
    let mut archive = match open_archive(bytes) {
        Ok(archive) => archive,
        Err(_) => {
            return Err(ExtractError::Unreadable);
        },
    };
    let ghost entries = archive_entries(archive);
    let ghost all = entry_names(entries);
    let names = names_in(&archive);
    let plan = match plan_extraction(&names) {
        Ok(plan) => plan,
        Err(e) => {
            return Err(e);
        },
    };
    let mut files: Vec<ExtractedEntry> = Vec::new();
    let mut i: usize = 0;
    while i < plan.len()
        invariant
            i <= plan.len(),
            plan.len() == entries.len(),
            entries == archive_entries(archive),
            all == entry_names(entries),
            files.len() == i,
            source == bytes@,
            zip_entries(source) == Some(entries),
            first_refused(all, 0) is None,
            !any_broken(entries, i as int),
            forall|k: int|
                0 <= k < plan.len() ==> target_path(all, #[trigger] all[k]) == Some(plan[k].path@)
                    && plan[k].is_dir == names_directory(all[k]) && stays_inside(all, all[k]),
            forall|k: int| 0 <= k < i ==> is_unpacked(#[trigger] files[k], entries, k),
        decreases plan.len() - i,
    {
        proof {
            assert(all[i as int] == entries[i as int].0);
        }
        let data = if plan[i].is_dir {
            Vec::new()
        } else {
            match archive_data(&mut archive, i) {
                Ok(data) => data,
                Err(_) => {
                    proof {
                        assert(is_broken(entries, i as int));
                    }
                    return Err(ExtractError::Unreadable);
                },
            }
        };
        proof {
            assert(!is_broken(entries, i as int));
        }
        files.push(ExtractedEntry { path: plan[i].path.clone(), is_dir: plan[i].is_dir, data });
        i += 1;
    }
    Ok(files)
}

} // verus!
