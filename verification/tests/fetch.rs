use ovl::digest::{digests_agree, getsha256, matches_digest};
use ovl::fetch::{
    archive_url, begin_fetch, cache_name, complete_fetch, digest_url, fetch, FetchAction,
    FetchError,
};

const ABC: &str = "ba7816bf8f01cfea414140de5dae2223b00361a396177a9cb410ff61f20015ad";
const EMPTY: &str = "e3b0c44298fc1c149afbf4c8996fb92427ae41e4649b934ca495991b7852b855";

#[test]
fn digest_is_sha256_in_hex() {
    assert_eq!(getsha256(&b"abc".to_vec()), ABC);
    assert_eq!(getsha256(&Vec::new()), EMPTY);
}

#[test]
fn digests_compare_without_case_or_surrounding_space() {
    assert!(digests_agree(ABC, ABC));
    assert!(digests_agree(ABC, &format!("  {}\n", ABC.to_uppercase())));
    assert!(digests_agree("\tAbC ", "abc"));
    assert!(!digests_agree(ABC, EMPTY));
    assert!(!digests_agree("ab c", "abc"));
    assert!(digests_agree("", " \n"));
}

#[test]
fn content_matches_its_published_digest() {
    assert!(matches_digest(&b"abc".to_vec(), &format!("{}\n", ABC)));
    assert!(matches_digest(&b"abc".to_vec(), &ABC.to_uppercase()));
    assert!(!matches_digest(&b"abd".to_vec(), ABC));
    assert!(!matches_digest(&b"abc".to_vec(), ""));
}

#[test]
fn decides_what_to_do_with_the_cache() {
    assert_eq!(begin_fetch(&None, ABC), FetchAction::Download);
    assert_eq!(begin_fetch(&Some(b"abc".to_vec()), ABC), FetchAction::UseCached);
    assert_eq!(begin_fetch(&Some(b"stale".to_vec()), ABC), FetchAction::Redownload);
}

#[test]
fn decides_how_a_download_ends() {
    assert_eq!(complete_fetch(&Some(b"abc".to_vec()), ABC), Ok(()));
    assert_eq!(complete_fetch(&Some(b"abd".to_vec()), ABC), Err(FetchError::Integrity));
    assert_eq!(complete_fetch(&None, ABC), Err(FetchError::Network));
}

#[test]
fn mismatch_deletes_the_file_and_the_next_fetch_downloads_again() {
    let mut cache: Option<Vec<u8>> = None;
    let corrupt = Some(b"corrupt".to_vec());
    assert_eq!(fetch(&mut cache, ABC, &corrupt), Err(FetchError::Integrity));
    assert_eq!(cache, None);
    assert_eq!(begin_fetch(&cache, ABC), FetchAction::Download);
    let good = Some(b"abc".to_vec());
    assert_eq!(fetch(&mut cache, ABC, &good), Ok(()));
    assert_eq!(cache, Some(b"abc".to_vec()));
}

#[test]
fn cache_hit_asks_for_nothing() {
    let mut cache = Some(b"abc".to_vec());
    assert_eq!(fetch(&mut cache, ABC, &None), Ok(()));
    assert_eq!(cache, Some(b"abc".to_vec()));
    assert_eq!(fetch(&mut cache, ABC, &Some(b"other".to_vec())), Ok(()));
    assert_eq!(cache, Some(b"abc".to_vec()));
}

#[test]
fn stale_cache_is_replaced_or_dropped() {
    let mut cache = Some(b"old".to_vec());
    assert_eq!(fetch(&mut cache, ABC, &Some(b"abc".to_vec())), Ok(()));
    assert_eq!(cache, Some(b"abc".to_vec()));
    let mut cache = Some(b"old".to_vec());
    assert_eq!(fetch(&mut cache, ABC, &None), Err(FetchError::Network));
    assert_eq!(cache, None);
    let mut cache = Some(b"old".to_vec());
    assert_eq!(fetch(&mut cache, ABC, &Some(b"bad".to_vec())), Err(FetchError::Integrity));
    assert_eq!(cache, None);
}

#[test]
fn builds_addresses_from_the_identifier() {
    assert_eq!(
        archive_url("sky"),
        "https://github.com/OpenVoxelStudios/Maps/releases/latest/download/sky.zip"
    );
    assert_eq!(
        digest_url("sky"),
        "https://github.com/OpenVoxelStudios/Maps/releases/latest/download/sky.zip.sha256"
    );
    assert_eq!(cache_name("sky"), "sky.zip");
}
