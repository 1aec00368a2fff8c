use lcas::error::{CasError, ErrorKind};
use lcas::manifest::MANIFEST_FORMAT;
use lcas::{hash_manifest, Manifest};

#[test]
fn new_manifest_has_the_current_format() {
    let files = vec![("main.rs".to_string(), "abc123".to_string(), true)];
    let manifest = Manifest::new(files.clone());
    assert_eq!(manifest.format, 1);
    assert_eq!(MANIFEST_FORMAT, 1);
    assert_eq!(manifest.files, files);
}

#[test]
fn manifest_is_identified_by_its_entries() {
    let files = vec![("main.rs".to_string(), "abc123".to_string(), true)];
    let mut manifest = Manifest::new(files.clone());
    assert_eq!(manifest.id(), "9815591975043689442");
    assert_eq!(manifest.id(), hash_manifest(&files));
    manifest.format = 2;
    assert_eq!(manifest.id(), "9815591975043689442");
    assert_eq!(Manifest::new(Vec::new()).id(), "3244421341483603138");
}

#[test]
fn failure_in_words() {
    let cases = [
        (ErrorKind::AlreadyExists, "Already exists! /repo"),
        (ErrorKind::NotFound, "Not found: /repo"),
        (ErrorKind::Malformed, "/repo"),
        (ErrorKind::IntegrityFailure, "Unable to verify hash: /repo"),
        (ErrorKind::Io, "/repo"),
    ];
    for (kind, words) in cases {
        let error = CasError::new(kind, "/repo".to_string());
        assert_eq!(error.kind, kind);
        assert_eq!(error.detail, "/repo");
        assert_eq!(error.message(), words);
    }
}
