//! Where things lie in a repository, in a store and in its cache.
//!
//! All paths made here are relative to the root of the repository, of the
//! store or of the cache, with `/` between their parts.

use vstd::prelude::*;
use crate::error::{CasError, CasErrorView, ErrorKind};
use crate::text::{chars_of, string_of};

verus! {

/// How the sources of a store are reached.
#[derive(Clone, Copy, Debug, PartialEq, Eq, Structural)]
pub enum RepoType {
    /// A directory on the local filesystem.
    Local,
    /// A location reached over HTTPS.
    Https,
}

/// A consumer's store and the sources it installs from.
#[derive(Clone, Debug, PartialEq, Eq)]
pub struct Store {
    /// How the sources are reached.
    pub kind: RepoType,
    /// The sources, in the order in which they are tried.
    pub repos: Vec<String>,
    /// The root of the cache: the directory that holds what was fetched. It
    /// is laid out as a repository, and is a directory of its own.
    pub cache_path: String,
    /// The directory that holds the installed chunks, manifests and artifacts.
    pub path: String,
}

/// The path of the registry file of a repository.
pub open spec fn registry_path() -> Seq<char> {
    "artifacts"@
}

/// The path of the chunk with the given identifier.
pub open spec fn chunk_path(id: Seq<char>) -> Seq<char> {
    chunks_dir() + "/"@ + id
}

/// The path of the manifest with the given identifier.
pub open spec fn manifest_path(id: Seq<char>) -> Seq<char> {
    manifests_dir() + "/"@ + id
}

/// The path, in a store, of the directory of the pointers.
pub open spec fn pointers_dir() -> Seq<char> {
    "artifacts"@
}

/// The path, in a store, of the pointer with the given name.
pub open spec fn pointer_path(name: Seq<char>) -> Seq<char> {
    pointers_dir() + "/"@ + name
}

/// A path without the slashes it begins with.
pub open spec fn trim_slashes(path: Seq<char>) -> Seq<char>
    decreases path.len(),
{
    if path.len() > 0 && path[0] == '/' {
        trim_slashes(path.drop_first())
    } else {
        path
    }
}

/// The path, in a store, of the link that stands for the file `path` of the
/// manifest with the given identifier.
pub open spec fn link_path(manifest: Seq<char>, path: Seq<char>) -> Seq<char> {
    manifest_path(manifest) + "/"@ + trim_slashes(path)
}

/// The path of the directory of the chunks.
pub open spec fn chunks_dir() -> Seq<char> {
    "chunks"@
}

/// The path of the directory of the manifests.
pub open spec fn manifests_dir() -> Seq<char> {
    "manifests"@
}

/// The directories of a new repository.
pub open spec fn repo_dirs() -> Seq<Seq<char>> {
    seq![chunks_dir(), manifests_dir()]
}

/// The directories of a new store.
pub open spec fn store_dirs() -> Seq<Seq<char>> {
    seq![chunks_dir(), manifests_dir(), pointers_dir()]
}

/// The path of the registry file of a repository.
pub fn registry_location() -> (p: String)
    ensures
        p@ == registry_path(),
{
    "artifacts".to_owned()
}

/// The path of the directory of the chunks.
pub fn chunks_location() -> (p: String)
    ensures
        p@ == chunks_dir(),
{
    "chunks".to_owned()
}

/// The path of the directory of the manifests.
pub fn manifests_location() -> (p: String)
    ensures
        p@ == manifests_dir(),
{
    "manifests".to_owned()
}

/// The path, in a store, of the directory of the pointers.
pub fn pointers_location() -> (p: String)
    ensures
        p@ == pointers_dir(),
{
    "artifacts".to_owned()
}

/// The path of `name` inside the directory `dir`.
fn inside(dir: String, name: &str) -> (p: String)
    ensures
        p@ == dir@ + "/"@ + name@,
{
    let mut p = dir;
    p.append("/");
    p.append(name);
    p
}

/// The path of the chunk with the given identifier.
pub fn chunk_location(id: &str) -> (p: String)
    ensures
        p@ == chunk_path(id@),
{
    inside(chunks_location(), id)
}

/// The path of the manifest with the given identifier.
pub fn manifest_location(id: &str) -> (p: String)
    ensures
        p@ == manifest_path(id@),
{
    inside(manifests_location(), id)
}

/// The path, in a store, of the pointer with the given name.
pub fn pointer_location(name: &str) -> (p: String)
    ensures
        p@ == pointer_path(name@),
{
    inside(pointers_location(), name)
}

/// What follows position `from` in `v`, without the slashes it begins with.
pub fn trim_from(v: &Vec<char>, from: usize) -> (p: String)
    requires
        from <= v.len(),
    ensures
        p@ == trim_slashes(v@.skip(from as int)),
{
    let mut i: usize = from;
    while i < v.len() && v[i] == '/'
        invariant
            from <= i <= v.len(),
            trim_slashes(v@.skip(from as int)) == trim_slashes(v@.skip(i as int)),
        decreases v.len() - i,
    {
        assert(v@.skip(i as int).drop_first() == v@.skip(i + 1));
        i += 1;
    }
    string_of(v, i, v.len())
}

/// A path without the slashes it begins with.
pub fn trim_leading_slashes(path: &str) -> (p: String)
    ensures
        p@ == trim_slashes(path@),
{
    let v = chars_of(path);
    assert(v@.skip(0) == v@);
    trim_from(&v, 0)
}

/// A trimmed path begins with no slash, so that trimming it again changes nothing.
pub proof fn lemma_trimmed(path: Seq<char>)
    ensures
        trim_slashes(path).len() > 0 ==> trim_slashes(path)[0] != '/',
        trim_slashes(trim_slashes(path)) == trim_slashes(path),
    decreases path.len(),
{
    if path.len() > 0 && path[0] == '/' {
        lemma_trimmed(path.drop_first());
    }
}

/// The path, in a store, of the link that stands for the file `path` of the
/// manifest with the given identifier.
pub fn link_location(manifest: &str, path: &str) -> (p: String)
    ensures
        p@ == link_path(manifest@, path@),
{
    let rest = trim_leading_slashes(path);
    inside(manifest_location(manifest), rest.as_str())
}

/// What creating a repository at `repo_dir` takes: the directories to make
/// below it. A place that exists, whatever is there, is refused.
pub fn create_repo(repo_dir: &str, exists: bool) -> (r: Result<Vec<String>, CasError>)
    ensures
        exists ==> (r matches Err(e) && e@ == (CasErrorView {
            kind: ErrorKind::AlreadyExists,
            detail: repo_dir@,
        })),
        !exists ==> (r matches Ok(dirs) && dirs.deep_view() == repo_dirs()),
{
    if exists {
        return Err(CasError::new(ErrorKind::AlreadyExists, repo_dir.to_owned()));
    }
    let mut dirs: Vec<String> = Vec::new();
    dirs.push(chunks_location());
    dirs.push(manifests_location());
    Ok(dirs)
}

/// What creating a store takes.
#[derive(Clone, Debug, PartialEq, Eq)]
pub struct StoreDirs {
    /// The directories to make below the path of the store.
    pub dirs: Vec<String>,
    /// The root of the cache, a directory of its own, to make as well.
    pub cache: String,
}

/// What creating a store takes, as a value.
pub struct StoreDirsView {
    pub dirs: Seq<Seq<char>>,
    pub cache: Seq<char>,
}

impl View for StoreDirs {
    type V = StoreDirsView;

    open spec fn view(&self) -> StoreDirsView {
        StoreDirsView { dirs: self.dirs.deep_view(), cache: self.cache@ }
    }
}

/// What creating the store takes: the directories to make below its path,
/// and the root of its cache, which lies where the store says and is made
/// as well. A place that exists where the store is to be, whatever is
/// there, is refused, and then nothing is to be made.
pub fn create_store(store: &Store, exists: bool) -> (r: Result<StoreDirs, CasError>)
    ensures
        exists ==> (r matches Err(e) && e@ == (CasErrorView {
            kind: ErrorKind::AlreadyExists,
            detail: store.path@,
        })),
        !exists ==> (r matches Ok(made) && made@ == (StoreDirsView {
            dirs: store_dirs(),
            cache: store.cache_path@,
        })),
{
    if exists {
        return Err(CasError::new(ErrorKind::AlreadyExists, store.path.clone()));
    }
    let mut dirs: Vec<String> = Vec::new();
    dirs.push(chunks_location());
    dirs.push(manifests_location());
    dirs.push(pointers_location());
    assert(dirs.deep_view() == store_dirs());
    Ok(StoreDirs { dirs, cache: store.cache_path.clone() })
}

} // verus!
