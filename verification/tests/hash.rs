use lcas::hash::{hash, hash_manifest, to_decimal};

#[test]
fn hash_stable() {
    let result = hash(&vec![1, 2, 3]);
    assert_eq!(result, "16991689376074199867");
}

#[test]
fn hash_empty_vec() {
    let result = hash(&vec![]);
    assert_eq!(result, "3244421341483603138");
}

#[test]
fn hash_manifest_stable() {
    let manifest = vec![
        ("file1.txt".to_string(), "hash1".to_string(), false),
        ("file2.txt".to_string(), "hash2".to_string(), true),
    ];
    let result = hash_manifest(&manifest);
    assert_eq!(result, "1259801786371591190");
}

#[test]
fn hash_manifest_empty() {
    let manifest: Vec<(String, String, bool)> = vec![];
    let result = hash_manifest(&manifest);
    assert_eq!(result, "3244421341483603138");
}

#[test]
fn hash_manifest_single_entry() {
    let manifest = vec![("main.rs".to_string(), "abc123".to_string(), true)];
    let result = hash_manifest(&manifest);
    assert_eq!(result, "9815591975043689442");
}

#[test]
fn decimal_of_small_and_large_numbers() {
    assert_eq!(to_decimal(0), "0");
    assert_eq!(to_decimal(7), "7");
    assert_eq!(to_decimal(10), "10");
    assert_eq!(to_decimal(1905), "1905");
    assert_eq!(to_decimal(u64::MAX), "18446744073709551615");
}

fn entry(path: &str, id: &str, executable: bool) -> (String, String, bool) {
    (path.to_string(), id.to_string(), executable)
}

#[test]
fn hash_is_the_same_for_the_same_bytes() {
    let bytes: Vec<u8> = (0..=255u8).collect();
    assert_eq!(hash(&bytes), hash(&bytes.clone()));
    assert_ne!(hash(&bytes), hash(&bytes[1..]));
}

#[test]
fn hash_manifest_is_the_hash_of_the_joined_text() {
    let manifest = vec![entry("file1.txt", "hash1", false), entry("file2.txt", "hash2", true)];
    assert_eq!(hash_manifest(&manifest), hash(b"file1.txthash1falsefile2.txthash2true"));
    let manifest = vec![entry("é", "1", true)];
    assert_eq!(hash_manifest(&manifest), hash("é1true".as_bytes()));
}

#[test]
fn hash_manifest_changes_with_every_field_and_with_the_order() {
    let base = vec![entry("a", "1", false), entry("b", "2", true)];
    let id = hash_manifest(&base);
    assert_ne!(id, hash_manifest(&vec![entry("c", "1", false), entry("b", "2", true)]));
    assert_ne!(id, hash_manifest(&vec![entry("a", "3", false), entry("b", "2", true)]));
    assert_ne!(id, hash_manifest(&vec![entry("a", "1", true), entry("b", "2", true)]));
    assert_ne!(id, hash_manifest(&vec![entry("b", "2", true), entry("a", "1", false)]));
}

#[test]
fn hash_manifest_cannot_tell_apart_entries_that_join_to_one_text() {
    let one = vec![entry("aa", "", true), entry("aatrueaa", "", true)];
    let other = vec![entry("aatrueaa", "", true), entry("aa", "", true)];
    assert_eq!(hash_manifest(&one), hash_manifest(&other));
    assert_eq!(
        hash_manifest(&vec![entry("ab", "c", false)]),
        hash_manifest(&vec![entry("a", "bc", false)])
    );
}
