//! Fetching one artifact into the cache.
//!
//! A fetch looks at what the cache holds first. A cached file with the
//! expected digest is used as it is and nothing is requested. Any other
//! cached file is deleted and the artifact is downloaded. What was downloaded
//! is kept only where it has the expected digest; otherwise it is deleted and
//! the fetch fails, so that a file with a wrong digest is never handed on.

use crate::digest::{has_digest, matches_digest};
use crate::text::{append_chars, chars_of, string_of};
use vstd::prelude::*;

verus! {

/// Why a fetch failed.
#[derive(Debug, Clone, Copy, PartialEq, Eq, Structural)]
pub enum FetchError {
    /// The artifact could not be downloaded.
    Network,
    /// What was downloaded does not have the expected digest.
    Integrity,
}

/// What to do before anything is requested.
#[derive(Debug, Clone, Copy, PartialEq, Eq, Structural)]
pub enum FetchAction {
    /// The cached file has the expected digest: use it and request nothing.
    UseCached,
    /// Nothing is cached: download.
    Download,
    /// The cached file has another digest: delete it, then download.
    Redownload,
}

/// What to do before anything is requested, given what the cache holds.
pub open spec fn first_action(cached: Option<Seq<u8>>, expected: Seq<char>) -> FetchAction {
    match cached {
        None => FetchAction::Download,
        Some(bytes) => if has_digest(bytes, expected) {
            FetchAction::UseCached
        } else {
            FetchAction::Redownload
        },
    }
}

/// How a download ends: `downloaded` is what arrived, `None` where nothing did.
pub open spec fn download_result(downloaded: Option<Seq<u8>>, expected: Seq<char>) -> Result<
    (),
    FetchError,
> {
    match downloaded {
        None => Err(FetchError::Network),
        Some(bytes) => if has_digest(bytes, expected) {
            Ok(())
        } else {
            Err(FetchError::Integrity)
        },
    }
}

/// How a fetch ends, given what the cache holds and what a download would bring.
pub open spec fn fetch_result(
    cached: Option<Seq<u8>>,
    expected: Seq<char>,
    remote: Option<Seq<u8>>,
) -> Result<(), FetchError> {
    if first_action(cached, expected) == FetchAction::UseCached {
        Ok(())
    } else {
        download_result(remote, expected)
    }
}

/// What the cache holds after a fetch.
pub open spec fn cache_after(
    cached: Option<Seq<u8>>,
    expected: Seq<char>,
    remote: Option<Seq<u8>>,
) -> Option<Seq<u8>> {
    if first_action(cached, expected) == FetchAction::UseCached {
        cached
    } else if download_result(remote, expected) is Ok {
        remote
    } else {
        None
    }
}

/// Whether a fetch asks for a download.
pub open spec fn requests_download(cached: Option<Seq<u8>>, expected: Seq<char>) -> bool {
    first_action(cached, expected) != FetchAction::UseCached
}

/// The view of an optional byte vector.
pub open spec fn bytes_view(bytes: Option<Vec<u8>>) -> Option<Seq<u8>> {
    match bytes {
        Some(b) => Some(b@),
        None => None,
    }
}

/// Decides what to do before anything is requested: `cached` is the content
/// of the cached file, `None` where there is none.
pub fn begin_fetch(cached: &Option<Vec<u8>>, expected: &str) -> (action: FetchAction)
    ensures
        action == first_action(bytes_view(*cached), expected@),
{
    match cached {
        None => FetchAction::Download,
        Some(bytes) => {
            if matches_digest(bytes, expected) {
                FetchAction::UseCached
            } else {
                FetchAction::Redownload
            }
        },
    }
}

/// Decides how a download ends: `downloaded` is what arrived, `None` where
/// nothing did. On `Ok` the file is kept; on an error it is to be deleted.
pub fn complete_fetch(downloaded: &Option<Vec<u8>>, expected: &str) -> (r: Result<(), FetchError>)
    ensures
        r == download_result(bytes_view(*downloaded), expected@),
{
    match downloaded {
        None => Err(FetchError::Network),
        Some(bytes) => {
            if matches_digest(bytes, expected) {
                Ok(())
            } else {
                Err(FetchError::Integrity)
            }
        },
    }
}

/// Runs one fetch on a cache entry held in memory. `remote` is what a
/// download brings, `None` where it fails; it is looked at only where the
/// fetch asks for a download.
pub fn fetch(cache: &mut Option<Vec<u8>>, expected: &str, remote: &Option<Vec<u8>>) -> (r: Result<
    (),
    FetchError,
>)
    ensures
        r == fetch_result(bytes_view(*old(cache)), expected@, bytes_view(*remote)),
        bytes_view(*final(cache)) == cache_after(
            bytes_view(*old(cache)),
            expected@,
            bytes_view(*remote),
        ),
{
    match begin_fetch(cache, expected) {
        FetchAction::UseCached => Ok(()),
        _ => {
            let outcome = complete_fetch(remote, expected);
            match outcome {
                Ok(()) => {
                    *cache = match remote {
                        Some(bytes) => Some(bytes.clone()),
                        None => None,
                    };
                },
                Err(_) => {
                    *cache = None;
                },
            }
            outcome
        },
    }
}

/// A fetch that succeeds leaves a file with the expected digest in the
/// cache: a file with another digest is never handed on.
pub proof fn lemma_fetched_has_digest(
    cached: Option<Seq<u8>>,
    expected: Seq<char>,
    remote: Option<Seq<u8>>,
)
    requires
        fetch_result(cached, expected, remote) is Ok,
    ensures
        cache_after(cached, expected, remote) matches Some(bytes) && has_digest(bytes, expected),
{
}

/// A cached file with the expected digest is used as it is: the fetch
/// succeeds whatever a download would bring, asks for none, and leaves the
/// cache as it was.
pub proof fn lemma_cache_hit(cached: Seq<u8>, expected: Seq<char>, remote: Option<Seq<u8>>)
    requires
        has_digest(cached, expected),
    ensures
        !requests_download(Some(cached), expected),
        fetch_result(Some(cached), expected, remote) is Ok,
        cache_after(Some(cached), expected, remote) == Some(cached),
{
}

/// Where what was downloaded does not have the expected digest, the fetch
/// fails for that reason and leaves nothing in the cache; whatever digest
/// the next fetch expects, it asks for a download again.
pub proof fn lemma_mismatch_discards(
    cached: Option<Seq<u8>>,
    expected: Seq<char>,
    downloaded: Seq<u8>,
    next_expected: Seq<char>,
)
    requires
        requests_download(cached, expected),
        !has_digest(downloaded, expected),
    ensures
        fetch_result(cached, expected, Some(downloaded)) == Err::<(), FetchError>(
            FetchError::Integrity,
        ),
        cache_after(cached, expected, Some(downloaded)) is None,
        requests_download(cache_after(cached, expected, Some(downloaded)), next_expected),
{
}

/// The address of the archive of the map `id`.
pub open spec fn map_archive_url(id: Seq<char>) -> Seq<char> {
    "https://github.com/OpenVoxelStudios/Maps/releases/latest/download/"@ + id + ".zip"@
}

/// The address of the published digest of the archive of the map `id`.
pub open spec fn map_digest_url(id: Seq<char>) -> Seq<char> {
    map_archive_url(id) + ".sha256"@
}

/// The name of the cached archive of the map `id`.
pub open spec fn cache_file_name(id: Seq<char>) -> Seq<char> {
    id + ".zip"@
}

/// Builds the address of the archive of the map `id`.
pub fn archive_url(id: &str) -> (url: String)
    ensures
        url@ == map_archive_url(id@),
{
    let mut url = chars_of("https://github.com/OpenVoxelStudios/Maps/releases/latest/download/");
    append_chars(&mut url, &chars_of(id));
    append_chars(&mut url, &chars_of(".zip"));
    string_of(&url)
}

/// Builds the address of the published digest of the archive of the map `id`.
pub fn digest_url(id: &str) -> (url: String)
    ensures
        url@ == map_digest_url(id@),
{
    let mut url = chars_of(archive_url(id).as_str());
    append_chars(&mut url, &chars_of(".sha256"));
    string_of(&url)
}

/// Builds the name of the cached archive of the map `id`.
pub fn cache_name(id: &str) -> (name: String)
    ensures
        name@ == cache_file_name(id@),
{
    let mut name = chars_of(id);
    append_chars(&mut name, &chars_of(".zip"));
    string_of(&name)
}

} // verus!
