use lcas::error::ErrorKind;
use lcas::resolver::{
    resolve_repo_path, url_of, ResolveAction, ResolveEvent, ResolvePhase, ResolveState,
};
use lcas::{RepoType, Store};

fn store(kind: RepoType, repos: &[&str]) -> Store {
    Store {
        kind,
        repos: repos.iter().map(|r| r.to_string()).collect(),
        cache_path: "/cache".to_string(),
        path: "/store".to_string(),
    }
}

/// Runs a resolution in which source `i` delivers where `delivers[i]` is set.
fn resolve(store: &Store, path: &str, cached: bool, delivers: &[bool]) -> (Vec<ResolveAction>, ResolveAction) {
    let mut tried = Vec::new();
    let mut state = ResolveState::new(store, path.to_string());
    let mut event = ResolveEvent::Start { cached };
    loop {
        let (next, action) = resolve_repo_path(state, event);
        state = next;
        match action {
            ResolveAction::Copy { .. } | ResolveAction::Download { .. } => {
                let i = tried.len();
                tried.push(action);
                event = if delivers[i] {
                    ResolveEvent::Fetched
                } else {
                    ResolveEvent::Failed { reason: format!("source {i} is down") }
                };
            }
            last => {
                assert_eq!(state.phase(), ResolvePhase::Over);
                return (tried, last);
            }
        }
    }
}

fn copy(repo: &str, path: &str) -> ResolveAction {
    ResolveAction::Copy { repo: repo.to_string(), path: path.to_string() }
}

fn found(path: &str) -> ResolveAction {
    ResolveAction::Found { path: path.to_string() }
}

#[test]
fn test_store_to_cache_empty() {
    let store = store(RepoType::Local, &["/tmp/lcas_testing_repo_store_to_cache_empty"]);
    let (tried, last) = resolve(&store, "manifests/undefined", false, &[false]);
    assert_eq!(tried.len(), 1);
    match last {
        ResolveAction::Failed { error, reasons } => {
            assert_eq!(error.kind, ErrorKind::NotFound);
            assert_eq!(error.detail, "manifests/undefined");
            assert_eq!(reasons, vec!["source 0 is down".to_string()]);
        }
        other => panic!("resolved to {other:?}"),
    }
}

#[test]
fn cached_path_is_found_without_fetching() {
    let store = store(RepoType::Local, &["/a", "/b"]);
    let (tried, last) = resolve(&store, "chunks/1", true, &[]);
    assert!(tried.is_empty());
    assert_eq!(last, found("chunks/1"));
}

#[test]
fn first_source_is_tried_first() {
    let store = store(RepoType::Local, &["/a", "/b"]);
    let (tried, last) = resolve(&store, "chunks/1", false, &[true, true]);
    assert_eq!(tried, vec![copy("/a", "chunks/1")]);
    assert_eq!(last, found("chunks/1"));
}

#[test]
fn second_source_delivers_after_first_fails() {
    let store = store(RepoType::Local, &["/a", "/b"]);
    let (tried, last) = resolve(&store, "chunks/1", false, &[false, true]);
    assert_eq!(tried, vec![copy("/a", "chunks/1"), copy("/b", "chunks/1")]);
    assert_eq!(last, found("chunks/1"));
}

#[test]
fn last_of_many_sources_delivers() {
    let store = store(RepoType::Local, &["/a", "/b", "/c", "/d"]);
    let (tried, last) = resolve(&store, "artifacts", false, &[false, false, false, true]);
    assert_eq!(tried.len(), 4);
    assert_eq!(tried[3], copy("/d", "artifacts"));
    assert_eq!(last, found("artifacts"));
}

#[test]
fn all_sources_failing_reports_every_reason() {
    let store = store(RepoType::Local, &["/a", "/b", "/c"]);
    let (tried, last) = resolve(&store, "chunks/9", false, &[false, false, false]);
    assert_eq!(tried.len(), 3);
    match last {
        ResolveAction::Failed { error, reasons } => {
            assert_eq!(error.kind, ErrorKind::NotFound);
            assert_eq!(error.detail, "chunks/9");
            assert_eq!(
                reasons,
                vec![
                    "source 0 is down".to_string(),
                    "source 1 is down".to_string(),
                    "source 2 is down".to_string(),
                ]
            );
        }
        other => panic!("resolved to {other:?}"),
    }
}

#[test]
fn no_source_fails_without_reasons() {
    let store = store(RepoType::Local, &[]);
    let (tried, last) = resolve(&store, "chunks/9", false, &[]);
    assert!(tried.is_empty());
    match last {
        ResolveAction::Failed { error, reasons } => {
            assert_eq!(error.kind, ErrorKind::NotFound);
            assert!(reasons.is_empty());
        }
        other => panic!("resolved to {other:?}"),
    }
}

#[test]
fn https_sources_are_downloaded() {
    let store = store(RepoType::Https, &["https://one.example", "https://two.example"]);
    let (tried, last) = resolve(&store, "chunks/1", false, &[false, true]);
    assert_eq!(
        tried,
        vec![
            ResolveAction::Download {
                url: "https://one.example/chunks/1".to_string(),
                path: "chunks/1".to_string()
            },
            ResolveAction::Download {
                url: "https://two.example/chunks/1".to_string(),
                path: "chunks/1".to_string()
            },
        ]
    );
    assert_eq!(last, found("chunks/1"));
}

#[test]
fn event_out_of_turn_ends_the_resolution() {
    let store = store(RepoType::Local, &["/a"]);
    let state = ResolveState::new(&store, "x".to_string());
    assert_eq!(state.phase(), ResolvePhase::Start);
    let (state, action) = resolve_repo_path(state, ResolveEvent::Fetched);
    assert_eq!(state.phase(), ResolvePhase::Over);
    match action {
        ResolveAction::Failed { error, reasons } => {
            assert_eq!(error.kind, ErrorKind::Io);
            assert!(reasons.is_empty());
        }
        other => panic!("resolved to {other:?}"),
    }
    let (state, action) = resolve_repo_path(state, ResolveEvent::Start { cached: true });
    assert_eq!(state.phase(), ResolvePhase::Over);
    assert!(matches!(action, ResolveAction::Failed { .. }));
}

#[test]
fn url_names_the_path_below_the_source() {
    assert_eq!(url_of("https://repo.example", "chunks/1"), "https://repo.example/chunks/1");
    assert_eq!(url_of("https://repo.example/", "chunks/1"), "https://repo.example/chunks/1");
    assert_eq!(url_of("https://repo.example/base", "artifacts"), "https://repo.example/base/artifacts");
    assert_eq!(url_of("https://repo.example//", "artifacts"), "https://repo.example//artifacts");
    assert_eq!(url_of("", "artifacts"), "/artifacts");
    assert_eq!(url_of("https://repo.example", ""), "https://repo.example/");
}

#[test]
fn different_paths_are_fetched_from_different_urls() {
    let store = store(RepoType::Https, &["https://repo.example/"]);
    let (chunk, _) = resolve(&store, "chunks/1", false, &[true]);
    let (manifest, _) = resolve(&store, "manifests/2", false, &[true]);
    let (registry, _) = resolve(&store, "artifacts", false, &[true]);
    assert_eq!(
        chunk,
        vec![ResolveAction::Download {
            url: "https://repo.example/chunks/1".to_string(),
            path: "chunks/1".to_string()
        }]
    );
    assert_eq!(
        manifest,
        vec![ResolveAction::Download {
            url: "https://repo.example/manifests/2".to_string(),
            path: "manifests/2".to_string()
        }]
    );
    assert_eq!(
        registry,
        vec![ResolveAction::Download {
            url: "https://repo.example/artifacts".to_string(),
            path: "artifacts".to_string()
        }]
    );
}
