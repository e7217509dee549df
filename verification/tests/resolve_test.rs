use good_git::error::Error;
use good_git::repo::Repo;
use good_git::resolve::{bucket_of, is_prefix, resolve, starts_with};

const STORED: &str = "d670460b4b4aece5915caf5c68d12f560a9fe3e4";

fn names(list: &[&str]) -> Vec<String> {
    list.iter().map(|name| name.to_string()).collect()
}

fn bucket_d6() -> Vec<String> {
    names(&["70460b4b4aece5915caf5c68d12f560a9fe3e4"])
}

#[test]
fn a_unique_prefix_resolves_to_the_stored_hash() {
    let listing = bucket_d6();
    assert_eq!(resolve("d670", Some(&listing)), Ok(STORED.to_string()));
    assert_eq!(resolve("d67046", Some(&listing)), Ok(STORED.to_string()));
    assert_eq!(resolve("d67", Some(&listing)), Ok(STORED.to_string()));
}

#[test]
fn the_full_hash_resolves_to_itself() {
    let listing = bucket_d6();
    assert_eq!(resolve(STORED, Some(&listing)), Ok(STORED.to_string()));
}

#[test]
fn every_prefix_length_from_two_to_forty_resolves() {
    let listing = names(&[
        "70460b4b4aece5915caf5c68d12f560a9fe3e4",
        "00000000000000000000000000000000000000",
    ]);
    for k in 3..=40 {
        assert_eq!(resolve(&STORED[..k], Some(&listing)), Ok(STORED.to_string()));
    }
}

#[test]
fn the_bucket_alone_selects_every_name_in_it() {
    assert_eq!(resolve("d6", Some(&bucket_d6())), Ok(STORED.to_string()));
    let crowded = names(&[
        "70460b4b4aece5915caf5c68d12f560a9fe3e4",
        "00000000000000000000000000000000000000",
    ]);
    assert_eq!(resolve("d6", Some(&crowded)), Err(Error::Ambiguous));
    assert_eq!(resolve("d6", Some(&vec![])), Err(Error::NotFound));
    assert_eq!(resolve("d6", None), Err(Error::NotFound));
}

#[test]
fn too_short_or_not_hex_is_not_found() {
    let listing = bucket_d6();
    assert_eq!(resolve("", Some(&listing)), Err(Error::NotFound));
    assert_eq!(resolve("d", Some(&listing)), Err(Error::NotFound));
    assert_eq!(resolve("hello", Some(&listing)), Err(Error::NotFound));
    assert_eq!(resolve("d6zz", Some(&listing)), Err(Error::NotFound));
    assert_eq!(resolve("d6 7", Some(&listing)), Err(Error::NotFound));
    assert_eq!(resolve("\u{e9}670", Some(&listing)), Err(Error::NotFound));
}

#[test]
fn longer_than_a_hash_is_not_found() {
    let listing = names(&["70460b4b4aece5915caf5c68d12f560a9fe3e40"]);
    let long = format!("{}0", STORED);
    assert_eq!(resolve(&long, Some(&listing)), Err(Error::NotFound));
}

#[test]
fn a_missing_bucket_is_not_found() {
    assert_eq!(resolve("d670", None), Err(Error::NotFound));
    assert_eq!(resolve(STORED, None), Err(Error::NotFound));
}

#[test]
fn no_matching_name_is_not_found() {
    let listing = bucket_d6();
    assert_eq!(resolve("d671", Some(&listing)), Err(Error::NotFound));
    assert_eq!(resolve("d6704a", Some(&listing)), Err(Error::NotFound));
    assert_eq!(resolve("d670", Some(&vec![])), Err(Error::NotFound));
}

#[test]
fn matching_is_case_sensitive() {
    let listing = names(&["abcdef0000000000000000000000000000000000"]);
    assert_eq!(
        resolve("00ab", Some(&listing)),
        Ok("00abcdef0000000000000000000000000000000000".to_string())
    );
    assert_eq!(resolve("00AB", Some(&listing)), Err(Error::NotFound));
}

#[test]
fn two_names_with_the_same_prefix_are_ambiguous() {
    let listing = names(&[
        "70460b4b4aece5915caf5c68d12f560a9fe3e4",
        "70460b0000000000000000000000000000000000",
        "ffffffffffffffffffffffffffffffffffffff",
    ]);
    assert_eq!(resolve("d670", Some(&listing)), Err(Error::Ambiguous));
    assert_eq!(resolve("d67046", Some(&listing)), Err(Error::Ambiguous));
    assert_eq!(resolve("d670460b", Some(&listing)), Err(Error::Ambiguous));
    assert_eq!(resolve("d670460b4", Some(&listing)), Ok(STORED.to_string()));
    assert_eq!(
        resolve("d6f", Some(&listing)),
        Ok("d6ffffffffffffffffffffffffffffffffffffff".to_string())
    );
}

#[test]
fn the_order_of_the_listing_does_not_matter() {
    let one = names(&["70aa", "71bb", "70cc"]);
    let other = names(&["70cc", "70aa", "71bb"]);
    assert_eq!(resolve("0070", Some(&one)), Err(Error::Ambiguous));
    assert_eq!(resolve("0070", Some(&other)), Err(Error::Ambiguous));
    assert_eq!(resolve("0071", Some(&one)), Ok("0071bb".to_string()));
    assert_eq!(resolve("0071", Some(&other)), Ok("0071bb".to_string()));
}

#[test]
fn is_prefix_wants_two_to_forty_hex_digits() {
    assert!(is_prefix("d6"));
    assert!(is_prefix("D6"));
    assert!(is_prefix("d670"));
    assert!(is_prefix(STORED));
    assert!(!is_prefix(""));
    assert!(!is_prefix("d"));
    assert!(!is_prefix("hello"));
    assert!(!is_prefix(&format!("{}a", STORED)));
}

#[test]
fn bucket_of_is_the_first_two_characters() {
    assert_eq!(bucket_of("d670"), Ok("d6".to_string()));
    assert_eq!(bucket_of("d6"), Ok("d6".to_string()));
    assert_eq!(bucket_of(STORED), Ok("d6".to_string()));
    assert_eq!(bucket_of("d"), Err(Error::NotFound));
    assert_eq!(bucket_of("hello"), Err(Error::NotFound));
}

#[test]
fn starts_with_compares_characters() {
    assert!(starts_with("70460b", ""));
    assert!(starts_with("70460b", "70"));
    assert!(starts_with("70460b", "70460b"));
    assert!(!starts_with("70460b", "70460b4"));
    assert!(!starts_with("70460b", "71"));
    assert!(!starts_with("", "7"));
    assert!(starts_with("\u{e9}t\u{e9}", "\u{e9}t"));
    assert!(!starts_with("\u{e9}t\u{e9}", "et"));
}

#[test]
fn repo_keeps_its_root() {
    let repo = Repo::new("/srv/store");
    assert_eq!(repo.root(), "/srv/store");
}

#[test]
fn object_path_splits_the_hash_after_the_bucket() {
    let repo = Repo::new("/srv/store");
    assert_eq!(
        repo.object_path(STORED),
        Some("/srv/store/objects/d6/70460b4b4aece5915caf5c68d12f560a9fe3e4".to_string())
    );
    assert_eq!(repo.object_path("d670"), None);
    assert_eq!(repo.object_path(&STORED.to_uppercase()), None);
    assert_eq!(repo.object_path(""), None);
}

#[test]
fn bucket_dir_is_below_objects() {
    let repo = Repo::new("store");
    assert_eq!(repo.bucket_dir("d670"), Ok("store/objects/d6".to_string()));
    assert_eq!(repo.bucket_dir(STORED), Ok("store/objects/d6".to_string()));
    assert_eq!(repo.bucket_dir("d"), Err(Error::NotFound));
    assert_eq!(repo.bucket_dir("hello"), Err(Error::NotFound));
}
