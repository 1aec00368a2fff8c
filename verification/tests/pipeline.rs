use lcas::builder::{build, BuildPlan, InputFile};
use lcas::error::{CasError, ErrorKind};
use lcas::installer::{install_artifact, InstallAction, InstallEvent, InstallState};
use lcas::publish::TempEntry;
use lcas::resolver::{resolve_repo_path, ResolveAction, ResolveEvent, ResolveState};
use lcas::{Manifest, RepoType, Store};
use std::collections::BTreeMap;

/// A repository held in memory.
#[derive(Clone, Default)]
struct Repo {
    files: BTreeMap<String, Vec<u8>>,
    manifests: BTreeMap<String, Manifest>,
}

/// A store held in memory, with its cache and the repositories it can reach.
#[derive(Default)]
struct World {
    repos: BTreeMap<String, Repo>,
    cache: Repo,
    chunks: BTreeMap<String, (Vec<u8>, Option<u32>)>,
    links: BTreeMap<String, String>,
    pointers: BTreeMap<String, String>,
    clock: u128,
    times: BTreeMap<String, u128>,
}

fn write_plan(repo: &mut Repo, plan: &BuildPlan) {
    for (path, data) in &plan.chunks {
        repo.files.insert(path.clone(), data.clone());
    }
    repo.manifests.insert(plan.manifest_path.clone(), plan.manifest.clone());
    repo.files.insert("artifacts".to_string(), plan.artifacts.clone().into_bytes());
}

fn build_into(repo: &mut Repo, root: &str, files: &Vec<InputFile>, name: &str) -> String {
    let registry = repo
        .files
        .get("artifacts")
        .map(|bytes| String::from_utf8(bytes.clone()).unwrap());
    let plan = build(root, files, name, registry.as_deref()).expect("Build Failure");
    write_plan(repo, &plan);
    plan.manifest_hash
}

impl World {
    fn resolve(&mut self, store: &Store, path: &str) -> Result<String, CasError> {
        let cached = self.cache.files.contains_key(path) || self.cache.manifests.contains_key(path);
        let mut state = ResolveState::new(store, path.to_string());
        let mut event = ResolveEvent::Start { cached };
        loop {
            let (next, action) = resolve_repo_path(state, event);
            state = next;
            event = match action {
                ResolveAction::Copy { repo, path } => {
                    let source = self.repos.get(&repo).cloned().unwrap_or_default();
                    if let Some(bytes) = source.files.get(&path) {
                        self.cache.files.insert(path, bytes.clone());
                        ResolveEvent::Fetched
                    } else if let Some(manifest) = source.manifests.get(&path) {
                        self.cache.manifests.insert(path, manifest.clone());
                        ResolveEvent::Fetched
                    } else {
                        ResolveEvent::Failed { reason: format!("{repo} has no {path}") }
                    }
                }
                ResolveAction::Download { url, .. } => ResolveEvent::Failed {
                    reason: format!("{url} cannot be reached"),
                },
                ResolveAction::Found { path } => return Ok(path),
                ResolveAction::Failed { error, .. } => return Err(error),
            };
        }
    }

    fn install(&mut self, name: &str, store: &Store) -> Result<(), CasError> {
        let mut state = InstallState::new(name.to_string());
        let mut event = InstallEvent::Start;
        loop {
            let (next, action) = install_artifact(state, event);
            state = next;
            event = match action {
                InstallAction::ReadRegistry { path } => {
                    let local = self.resolve(store, &path)?;
                    let bytes = self.cache.files[&local].clone();
                    InstallEvent::Registry { contents: String::from_utf8(bytes).unwrap() }
                }
                InstallAction::ReadManifest { path } => {
                    let local = self.resolve(store, &path)?;
                    InstallEvent::Manifest { manifest: self.cache.manifests[&local].clone() }
                }
                InstallAction::ReadChunk { path } => {
                    let local = self.resolve(store, &path)?;
                    InstallEvent::Chunk { compressed: self.cache.files[&local].clone() }
                }
                InstallAction::WriteChunk { path, content, mode } => {
                    self.chunks.insert(path, (content, mode));
                    InstallEvent::Done
                }
                InstallAction::ProbeLink { link } => InstallEvent::Exists {
                    present: self.links.contains_key(&link),
                },
                InstallAction::Link { link, target } => {
                    assert!(self.chunks.contains_key(&target));
                    assert!(self.links.insert(link, target).is_none());
                    InstallEvent::Done
                }
                InstallAction::ListPointers { dir } => {
                    let prefix = format!("{dir}/");
                    let entries = self
                        .pointers
                        .keys()
                        .map(|path| TempEntry {
                            name: path[prefix.len()..].to_string(),
                            modified: self.times.get(path).copied(),
                        })
                        .collect();
                    InstallEvent::Listing { entries }
                }
                InstallAction::Publish { temp, evict, target, pointer } => {
                    assert_eq!(evict, self.pointers.contains_key(&temp));
                    for (link, chunk) in &self.links {
                        if link.starts_with(&format!("{target}/")) {
                            assert!(self.chunks.contains_key(chunk));
                        }
                    }
                    self.clock += 1;
                    self.times.insert(pointer.clone(), self.clock);
                    self.pointers.insert(pointer, target);
                    InstallEvent::Done
                }
                InstallAction::Finished => return Ok(()),
                InstallAction::Abort { error } => return Err(error),
            };
        }
    }

    /// The content and the permission bits behind `path` of the installed artifact `name`.
    fn installed(&self, name: &str, path: &str) -> Option<&(Vec<u8>, Option<u32>)> {
        let manifest_dir = self.pointers.get(&format!("artifacts/{name}"))?;
        let chunk = self.links.get(&format!("{manifest_dir}/{path}"))?;
        self.chunks.get(chunk)
    }
}

fn file(path: &str, content: &[u8], mode: u32) -> InputFile {
    InputFile { path: path.to_string(), content: content.to_vec(), mode }
}

fn tree() -> Vec<InputFile> {
    vec![
        file("/in/file1.txt", b"Hello, world!", 0o644),
        file("/in/file2.txt", b"Another file.", 0o644),
        file("/in/nested/nested1.txt", b"Nested file 1.", 0o644),
        file("/in/nested/nested2.txt", b"Nested file 2.", 0o755),
        file("/in/nested/deeper/deepfile.txt", b"Deep nested file.", 0o644),
    ]
}

fn local_store(repos: &[&str]) -> Store {
    Store {
        kind: RepoType::Local,
        repos: repos.iter().map(|r| r.to_string()).collect(),
        cache_path: "/cache".to_string(),
        path: "/store".to_string(),
    }
}

#[test]
fn test_create_and_load_artifact() {
    let mut world = World::default();
    let mut repo = Repo::default();
    build_into(&mut repo, "/in", &tree(), "test_artifact");
    world.repos.insert("/repo".to_string(), repo);
    let store = local_store(&["/repo"]);

    world.install("test_artifact", &store).unwrap();

    for input in tree() {
        let below = input.path.strip_prefix("/in/").unwrap();
        let (content, mode) = world.installed("test_artifact", below).unwrap();
        assert_eq!(content, &input.content);
        assert_eq!(mode.is_some(), input.mode & 0o111 != 0);
    }
    assert_eq!(world.installed("test_artifact", "nested/nested2.txt").unwrap().1, Some(0o755));

    let manifest_dir = world.pointers["artifacts/test_artifact"].clone();
    let mut expected: Vec<String> = tree()
        .iter()
        .map(|f| format!("{manifest_dir}/{}", f.path.strip_prefix("/in/").unwrap()))
        .collect();
    expected.sort();
    let links: Vec<String> = world.links.keys().cloned().collect();
    assert_eq!(links, expected);
    assert!(links.contains(&format!("{manifest_dir}/nested/deeper/deepfile.txt")));
}

#[test]
fn test_create_and_load_artifact_multirepo() {
    let mut world = World::default();
    let mut repo_a = Repo::default();
    let files = vec![file("/in/file1.txt", b"Hello, world!", 0o644)];
    build_into(&mut repo_a, "/in", &files, "test_artifact_a");
    build_into(&mut repo_a, "/in", &files, "test_artifact_b");
    world.repos.insert("/repo_a".to_string(), repo_a);
    world.repos.insert("/repo_b".to_string(), Repo::default());
    let store = local_store(&["/repo_a", "/repo_b"]);

    world.install("test_artifact_a", &store).unwrap();
    world.install("test_artifact_b", &store).unwrap();

    assert_eq!(world.installed("test_artifact_a", "file1.txt").unwrap().0, b"Hello, world!");
    assert_eq!(world.installed("test_artifact_b", "file1.txt").unwrap().0, b"Hello, world!");
    assert_eq!(world.chunks.len(), 1);
}

#[test]
fn install_falls_back_to_the_second_repository() {
    let mut world = World::default();
    let mut repo = Repo::default();
    build_into(&mut repo, "/in", &tree(), "tool");
    world.repos.insert("/mirror".to_string(), repo);
    let store = local_store(&["/gone", "/mirror"]);

    world.install("tool", &store).unwrap();
    assert_eq!(world.installed("tool", "file2.txt").unwrap().0, b"Another file.");
}

#[test]
fn install_from_nowhere_is_not_found() {
    let mut world = World::default();
    let store = local_store(&["/gone", "/also_gone"]);
    let error = world.install("tool", &store).unwrap_err();
    assert_eq!(error.kind, ErrorKind::NotFound);
    assert_eq!(error.detail, "artifacts");
    assert!(world.pointers.is_empty());
}

#[test]
fn install_over_https_without_transport_fails() {
    let mut world = World::default();
    let store = Store {
        kind: RepoType::Https,
        repos: vec!["https://repo.example".to_string()],
        cache_path: "/cache".to_string(),
        path: "/store".to_string(),
    };
    let error = world.install("tool", &store).unwrap_err();
    assert_eq!(error.kind, ErrorKind::NotFound);
}

#[test]
fn corrupt_chunk_is_never_stored() {
    let mut world = World::default();
    let mut repo = Repo::default();
    build_into(&mut repo, "/in", &tree(), "tool");
    let victim = format!("chunks/{}", lcas::hash(b"Nested file 1."));
    let bytes = repo.files.get_mut(&victim).unwrap();
    let last = bytes.len() - 1;
    bytes[last] ^= 0x55;
    let corrupt = bytes.clone();
    world.repos.insert("/repo".to_string(), repo);
    let store = local_store(&["/repo"]);

    let error = world.install("tool", &store).unwrap_err();
    assert_eq!(error.kind, ErrorKind::IntegrityFailure);
    assert_eq!(error.detail, lcas::hash(b"Nested file 1."));
    assert!(!world.chunks.contains_key(&victim));
    assert!(world.chunks.values().all(|(content, _)| content != &corrupt));
    assert!(world.pointers.is_empty());
    assert!(world.links.is_empty());
}

#[test]
fn chunk_replaced_by_another_chunk_is_never_stored() {
    let mut world = World::default();
    let mut repo = Repo::default();
    build_into(&mut repo, "/in", &tree(), "tool");
    let victim = format!("chunks/{}", lcas::hash(b"Hello, world!"));
    let other = repo.files[&format!("chunks/{}", lcas::hash(b"Another file."))].clone();
    repo.files.insert(victim.clone(), other);
    world.repos.insert("/repo".to_string(), repo);
    let store = local_store(&["/repo"]);

    let error = world.install("tool", &store).unwrap_err();
    assert_eq!(error.kind, ErrorKind::IntegrityFailure);
    assert!(world.chunks.is_empty());
    assert!(world.pointers.is_empty());
}

#[test]
fn reinstall_moves_the_pointer_to_the_new_manifest() {
    let mut world = World::default();
    let mut repo = Repo::default();
    let first = build_into(&mut repo, "/in", &vec![file("/in/a", b"one", 0o644)], "tool");
    world.repos.insert("/repo".to_string(), repo.clone());
    let store = local_store(&["/repo"]);
    world.install("tool", &store).unwrap();
    assert_eq!(world.pointers["artifacts/tool"], format!("manifests/{first}"));

    let second = build_into(&mut repo, "/in", &vec![file("/in/a", b"two", 0o644)], "tool");
    assert_ne!(first, second);
    world.repos.insert("/repo".to_string(), repo);
    world.cache = Repo::default();
    world.install("tool", &store).unwrap();
    assert_eq!(world.pointers["artifacts/tool"], format!("manifests/{second}"));
    assert_eq!(world.installed("tool", "a").unwrap().0, b"two");
}

#[test]
fn unknown_artifact_is_not_found() {
    let mut world = World::default();
    let mut repo = Repo::default();
    build_into(&mut repo, "/in", &tree(), "tool");
    world.repos.insert("/repo".to_string(), repo);
    let store = local_store(&["/repo"]);
    let error = world.install("other", &store).unwrap_err();
    assert_eq!(error.kind, ErrorKind::NotFound);
    assert_eq!(error.detail, "other");
}

#[test]
fn installing_twice_changes_nothing() {
    let mut world = World::default();
    let mut repo = Repo::default();
    build_into(&mut repo, "/in", &tree(), "tool");
    world.repos.insert("/repo".to_string(), repo);
    let store = local_store(&["/repo"]);

    world.install("tool", &store).unwrap();
    let chunks = world.chunks.clone();
    let links = world.links.clone();
    let pointers = world.pointers.clone();
    world.install("tool", &store).unwrap();
    assert_eq!(world.chunks, chunks);
    assert_eq!(world.links, links);
    assert_eq!(world.pointers, pointers);
}
