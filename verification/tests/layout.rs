use lcas::error::ErrorKind;
use lcas::layout::{
    chunk_location, link_location, manifest_location, pointer_location, registry_location,
    trim_leading_slashes,
};
use lcas::{create_repo, create_store, RepoType, Store, StoreDirs};

fn create_test_store(test_name: &str) -> Store {
    Store {
        cache_path: format!("/tmp/lcas_testing_cache_{test_name}"),
        kind: RepoType::Local,
        path: format!("/tmp/lcas_testing_store_{test_name}"),
        repos: vec![format!("/tmp/lcas_testing_repo_{test_name}")],
    }
}

#[test]
fn test_create_store() {
    let store = create_test_store("basic");
    assert_eq!(create_repo(&store.repos[0], false).unwrap().len(), 2);
    assert_eq!(
        create_store(&store, false).unwrap(),
        StoreDirs {
            dirs: vec!["chunks".to_string(), "manifests".to_string(), "artifacts".to_string()],
            cache: "/tmp/lcas_testing_cache_basic".to_string(),
        }
    );
}

#[test]
fn test_create_store_when_exists_should_fail() {
    let store = create_test_store("create_store_when_exists_should_fail");
    create_store(&store, false).unwrap();
    // Try to create the store again, should error
    let result = create_store(&store, true);
    assert!(result.is_err());
    let error = result.unwrap_err();
    assert_eq!(error.kind, ErrorKind::AlreadyExists);
    assert_eq!(error.detail, store.path);
}

#[test]
fn test_create_repo_creates_directories() {
    let dirs = create_repo("/tmp/lcas_testing_repo_dirs", false).unwrap();
    assert!(dirs.contains(&"chunks".to_string()));
    assert!(dirs.contains(&"manifests".to_string()));
    assert_eq!(dirs.len(), 2);
}

#[test]
fn test_create_repo_on_file() {
    let err = create_repo("/tmp/lcas_testing_repo_file", true).unwrap_err();
    assert!(err.message().contains("Already exists!"));
}

#[test]
fn test_create_repo_on_dir() {
    let err = create_repo("/tmp/lcas_testing_repo_dir", true).unwrap_err();
    assert!(err.message().contains("Already exists!"));
    assert_eq!(err.message(), "Already exists! /tmp/lcas_testing_repo_dir");
}

#[test]
fn paths_follow_the_layout() {
    assert_eq!(registry_location(), "artifacts");
    assert_eq!(chunk_location("123"), "chunks/123");
    assert_eq!(manifest_location("456"), "manifests/456");
    assert_eq!(pointer_location("tool"), "artifacts/tool");
    assert_eq!(link_location("456", "/bin/tool"), "manifests/456/bin/tool");
    assert_eq!(link_location("456", "bin/tool"), "manifests/456/bin/tool");
}

#[test]
fn leading_slashes_are_trimmed() {
    assert_eq!(trim_leading_slashes("/a/b"), "a/b");
    assert_eq!(trim_leading_slashes("///a//b/"), "a//b/");
    assert_eq!(trim_leading_slashes("a/b"), "a/b");
    assert_eq!(trim_leading_slashes("///"), "");
    assert_eq!(trim_leading_slashes(""), "");
}

#[test]
fn new_store_gets_its_cache_root() {
    let store = Store {
        kind: RepoType::Https,
        repos: vec!["https://repo.example".to_string()],
        cache_path: "/var/cache/lcas".to_string(),
        path: "/opt/store".to_string(),
    };
    let made = create_store(&store, false).unwrap();
    assert_eq!(made.cache, "/var/cache/lcas");
    assert_eq!(made.dirs, vec!["chunks", "manifests", "artifacts"]);
}

#[test]
fn store_that_exists_gets_nothing_made() {
    let store = create_test_store("exists");
    let error = create_store(&store, true).unwrap_err();
    assert_eq!(error.kind, ErrorKind::AlreadyExists);
    assert_eq!(error.message(), format!("Already exists! {}", store.path));
}
