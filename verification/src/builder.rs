//! Building a tree into a repository.
//!
//! The builder is given the files of a tree, as they were read, and says
//! what is to be written: one chunk for each file, the manifest, and the
//! registry with the artifact registered.

use vstd::prelude::*;
use vstd::utf8::encode_utf8;
use crate::artifacts::{
    add_artifact, clean_name, lemma_registered_is_read_back, lookup, malformed_error, put, records,
    registry_text, serialized, well_formed,
};
use crate::compression::{compress_file, zstd_content, zstd_frame};
use crate::error::{CasError, CasErrorView, ErrorKind};
use crate::hash::{
    chunk_id, hash, lemma_decimal_clean, manifest_id, manifest_text, xxh3_64_digest, EntryView,
};
use crate::installer::{
    install_next, link_of, mode_of, verified_content, InstallActionView, InstallEventView,
    InstallPhase, InstallStateView,
};
use crate::layout::{
    chunk_location, chunk_path, lemma_trimmed, manifest_location, manifest_path, trim_from,
    trim_slashes,
};
use crate::manifest::{Manifest, ManifestView, MANIFEST_FORMAT};
use crate::text::chars_of;

verus! {

/// The level at which chunks are compressed.
pub const COMPRESSION_LEVEL: i32 = 3;

/// The permission bits that make a file executable for someone.
pub const EXECUTE_BITS: u32 = 0o111;

/// A file of the tree that is built.
#[derive(Clone, Debug, PartialEq, Eq)]
pub struct InputFile {
    /// The path of the file, as it was found: the path of the tree, then the path below it.
    pub path: String,
    /// The bytes of the file.
    pub content: Vec<u8>,
    /// The permission bits of the file.
    pub mode: u32,
}

/// A file of the tree as a value.
pub struct InputFileView {
    pub path: Seq<char>,
    pub content: Seq<u8>,
    pub mode: u32,
}

impl View for InputFile {
    type V = InputFileView;

    open spec fn view(&self) -> InputFileView {
        InputFileView { path: self.path@, content: self.content@, mode: self.mode }
    }
}

impl DeepView for InputFile {
    type V = InputFileView;

    open spec fn deep_view(&self) -> InputFileView {
        self@
    }
}

/// What a build writes into the repository.
#[derive(Clone, Debug, PartialEq, Eq)]
pub struct BuildPlan {
    /// The chunks: for each file of the tree, in order, the path of its
    /// chunk and the compressed bytes to write there.
    pub chunks: Vec<(String, Vec<u8>)>,
    /// The manifest.
    pub manifest: Manifest,
    /// The identifier of the manifest.
    pub manifest_hash: String,
    /// The path at which the manifest is written.
    pub manifest_path: String,
    /// The new contents of the registry file.
    pub artifacts: String,
}

/// A build plan as a value.
pub struct BuildPlanView {
    pub chunks: Seq<(Seq<char>, Seq<u8>)>,
    pub manifest: ManifestView,
    pub manifest_hash: Seq<char>,
    pub manifest_path: Seq<char>,
    pub artifacts: Seq<char>,
}

impl View for BuildPlan {
    type V = BuildPlanView;

    open spec fn view(&self) -> BuildPlanView {
        BuildPlanView {
            chunks: self.chunks.deep_view(),
            manifest: self.manifest@,
            manifest_hash: self.manifest_hash@,
            manifest_path: self.manifest_path@,
            artifacts: self.artifacts@,
        }
    }
}

/// What was found in the tree: a path, and whether a regular file lies there.
#[derive(Clone, Debug, PartialEq, Eq)]
pub struct TreeEntry {
    /// The path, as it was found.
    pub path: String,
    /// Whether it is a regular file: not a directory, a link or a device.
    pub is_file: bool,
}

/// An entry of the tree as a value.
pub struct TreeEntryView {
    pub path: Seq<char>,
    pub is_file: bool,
}

impl View for TreeEntry {
    type V = TreeEntryView;

    open spec fn view(&self) -> TreeEntryView {
        TreeEntryView { path: self.path@, is_file: self.is_file }
    }
}

impl DeepView for TreeEntry {
    type V = TreeEntryView;

    open spec fn deep_view(&self) -> TreeEntryView {
        self@
    }
}

/// The paths of the regular files among the entries, in order.
pub open spec fn regular_paths(entries: Seq<TreeEntryView>) -> Seq<Seq<char>>
    decreases entries.len(),
{
    if entries.len() == 0 {
        Seq::empty()
    } else if entries.last().is_file {
        regular_paths(entries.drop_last()).push(entries.last().path)
    } else {
        regular_paths(entries.drop_last())
    }
}

/// The files to build, among what was found in the tree: the regular
/// files, in the order in which they were found.
pub fn regular_files(entries: &Vec<TreeEntry>) -> (paths: Vec<String>)
    ensures
        paths.deep_view() == regular_paths(entries.deep_view()),
{
    let ghost es = entries.deep_view();
    let mut paths: Vec<String> = Vec::new();
    let mut i: usize = 0;
    while i < entries.len()
        invariant
            i <= entries.len(),
            es == entries.deep_view(),
            paths.deep_view() == regular_paths(es.take(i as int)),
        decreases entries.len() - i,
    {
        assert(es.take(i + 1).drop_last() == es.take(i as int));
        if entries[i].is_file {
            paths.push(entries[i].path.clone());
        }
        i += 1;
    }
    assert(es.take(i as int) == es);
    paths
}

/// Whether the permission bits let someone execute the file.
pub open spec fn is_executable(mode: u32) -> bool {
    mode & EXECUTE_BITS != 0
}

/// Whether what is written after `root` in a path is a path below
/// `root`: it begins at a separator, or is empty, unless `root` is empty or
/// ends in a separator itself.
pub open spec fn joins(root: Seq<char>, tail: Seq<char>) -> bool {
    root.len() == 0 || root.last() == '/' || tail.len() == 0 || tail[0] == '/'
}

/// Whether `path` lies in the tree `root`: it is `root` followed by a path below it.
pub open spec fn lies_in(root: Seq<char>, path: Seq<char>) -> bool {
    root.is_prefix_of(path) && joins(root, path.skip(root.len() as int))
}

/// The path of a file relative to the tree `root`. Where `path` lies in the
/// tree, it is what follows `root`; where it does not, it is the whole of
/// `path`. Either way the separators it would begin with are left out, so
/// that the result never begins with one.
pub open spec fn relative_path(root: Seq<char>, path: Seq<char>) -> Seq<char> {
    if lies_in(root, path) {
        trim_slashes(path.skip(root.len() as int))
    } else {
        trim_slashes(path)
    }
}

/// The path of a file below a tree does not depend on where the tree lies:
/// it is what is written after the path of the tree.
pub proof fn lemma_relative_path_below(root: Seq<char>, below: Seq<char>)
    requires
        joins(root, below),
    ensures
        relative_path(root, root + below) == trim_slashes(below),
{
    assert((root + below).subrange(0, root.len() as int) == root);
    assert((root + below).skip(root.len() as int) == below);
}

/// The path of a file below a tree does not depend on whether the path of
/// the tree is written with a separator at its end.
pub proof fn lemma_relative_path_spelling(root: Seq<char>, below: Seq<char>)
    ensures
        relative_path(root, root + seq!['/'] + below) == trim_slashes(below),
        relative_path(root + seq!['/'], root + seq!['/'] + below) == trim_slashes(below),
{
    let slashed = seq!['/'] + below;
    assert(root + seq!['/'] + below == root + slashed);
    lemma_relative_path_below(root, slashed);
    assert(slashed.drop_first() == below);
    lemma_relative_path_below(root + seq!['/'], below);
}

/// The manifest entry of a file of the tree below `root`.
pub open spec fn entry_of(root: Seq<char>, file: InputFileView) -> EntryView {
    (relative_path(root, file.path), chunk_id(file.content), is_executable(file.mode))
}

/// The manifest entries of the files, in order.
pub open spec fn entries_of(root: Seq<char>, files: Seq<InputFileView>) -> Seq<EntryView> {
    files.map_values(|f: InputFileView| entry_of(root, f))
}

/// Whether the content of the file can be compressed.
pub open spec fn compresses(file: InputFileView) -> bool {
    zstd_frame(file.content, COMPRESSION_LEVEL as int) is Some
}

/// The chunk of a file: where it is written, and the bytes written there.
pub open spec fn chunk_of(file: InputFileView) -> (Seq<char>, Seq<u8>) {
    (chunk_path(chunk_id(file.content)), zstd_frame(file.content, COMPRESSION_LEVEL as int)->0)
}

/// Whether file `k` is the first whose content cannot be compressed.
pub open spec fn first_uncompressed(files: Seq<InputFileView>, k: int) -> bool {
    &&& 0 <= k < files.len()
    &&& !compresses(files[k])
    &&& forall|j: int| 0 <= j < k ==> compresses(#[trigger] files[j])
}

/// Whether the content of every file can be compressed.
pub open spec fn all_compress(files: Seq<InputFileView>) -> bool {
    forall|i: int| 0 <= i < files.len() ==> compresses(#[trigger] files[i])
}

/// The words that introduce the file that cannot be compressed.
pub open spec fn uncompressed_words() -> Seq<char> {
    "Couldn't compress "@
}

/// The failure of a build in which a file cannot be compressed: it says
/// so, and names the first such file.
pub open spec fn uncompressed_error(files: Seq<InputFileView>) -> CasErrorView {
    CasErrorView {
        kind: ErrorKind::Io,
        detail: uncompressed_words() + files[choose|k: int| first_uncompressed(files, k)].path,
    }
}

/// Only one file is the first whose content cannot be compressed.
pub proof fn lemma_first_uncompressed(files: Seq<InputFileView>, k: int)
    requires
        first_uncompressed(files, k),
    ensures
        !all_compress(files),
        uncompressed_error(files).detail == uncompressed_words() + files[k].path,
{
}

/// What building the files of the tree `root` as the artifact `name`
/// writes, in a repository whose registry reads `registry`.
pub open spec fn build_plan(
    root: Seq<char>,
    files: Seq<InputFileView>,
    name: Seq<char>,
    registry: Seq<char>,
) -> BuildPlanView {
    let entries = entries_of(root, files);
    let id = manifest_id(entries);
    BuildPlanView {
        chunks: files.map_values(|f: InputFileView| chunk_of(f)),
        manifest: ManifestView { files: entries, format: MANIFEST_FORMAT },
        manifest_hash: id,
        manifest_path: manifest_path(id),
        artifacts: serialized(put(records(registry), name, id)),
    }
}

/// Whether `v[at..]` begins with `p`.
fn begins_at(v: &Vec<char>, at: usize, p: &Vec<char>) -> (r: bool)
    requires
        at <= v.len(),
    ensures
        r == p@.is_prefix_of(v@.skip(at as int)),
{
    if v.len() - at < p.len() {
        return false;
    }
    let mut i: usize = 0;
    while i < p.len()
        invariant
            at <= v.len(),
            p.len() <= v.len() - at,
            i <= p.len(),
            forall|j: int| 0 <= j < i ==> p@[j] == v@[at + j],
        decreases p.len() - i,
    {
        if p[i] != v[at + i] {
            return false;
        }
        i += 1;
    }
    true
}

/// The path of a file relative to the tree `root`: what follows `root` in
/// `path`, or the whole of `path` where it does not lie in the tree,
/// without the separators it would begin with.
pub fn relative_to(root: &str, path: &str) -> (r: String)
    ensures
        r@ == relative_path(root@, path@),
{
    let p = chars_of(path);
    let q = chars_of(root);
    assert(p@.skip(0) == p@);
    if begins_at(&p, 0, &q) && (q.len() == 0 || q[q.len() - 1] == '/' || p.len() == q.len()
        || p[q.len()] == '/') {
        trim_from(&p, q.len())
    } else {
        trim_from(&p, 0)
    }
}

/// Whether the permission bits let someone execute the file.
pub fn mode_is_executable(mode: u32) -> (r: bool)
    ensures
        r == is_executable(mode),
{
    mode & EXECUTE_BITS != 0
}

/// Builds the files of the tree `input_dir` as the artifact
/// `artifact_name`: says what is to be written into a repository whose
/// registry file has the contents `artifacts` (`None` where it is missing).
///
/// Each file gives one chunk, named by the hash of its content and holding
/// that content compressed, and one entry of the manifest, in the order of
/// the files. The artifact is registered for the manifest's identifier.
/// The build fails where a file cannot be compressed or where the registry
/// is malformed, and then nothing is to be written.
pub fn build(
    input_dir: &str,
    files: &Vec<InputFile>,
    artifact_name: &str,
    artifacts: Option<&str>,
) -> (r: Result<BuildPlan, CasError>)
    ensures
        all_compress(files.deep_view()) && well_formed(registry_text(artifacts)) ==> (r matches Ok(plan)
            && plan@ == build_plan(
            input_dir@,
            files.deep_view(),
            artifact_name@,
            registry_text(artifacts),
        )),
        !all_compress(files.deep_view()) ==> (r matches Err(e) && e@ == uncompressed_error(
            files.deep_view(),
        )),
        all_compress(files.deep_view()) && !well_formed(registry_text(artifacts)) ==> (r matches Err(e)
            && e@ == malformed_error(registry_text(artifacts))),
        r matches Ok(plan) ==> forall|i: int|
            0 <= i < files.len() ==> verified_content(
                (#[trigger] plan@.manifest.files[i]).1,
                plan@.chunks[i].1,
            ) == Some(files.deep_view()[i].content),
{
    let ghost fs = files.deep_view();
    let mut chunks: Vec<(String, Vec<u8>)> = Vec::new();
    let mut entries: Vec<(String, String, bool)> = Vec::new();
    let mut i: usize = 0;
    while i < files.len()
        invariant
            i <= files.len(),
            fs == files.deep_view(),
            forall|j: int| 0 <= j < i ==> compresses(#[trigger] fs[j]),
            chunks.deep_view() == fs.take(i as int).map_values(|f: InputFileView| chunk_of(f)),
            entries.deep_view() == entries_of(input_dir@, fs.take(i as int)),
            forall|j: int|
                0 <= j < i ==> zstd_content((#[trigger] chunks.deep_view()[j]).1) == Some(
                    fs[j].content,
                ),
        decreases files.len() - i,
    {
        let file = &files[i];
        let compressed = match compress_file(&file.content, COMPRESSION_LEVEL) {
            Some(c) => c,
            None => {
                proof {
                    lemma_first_uncompressed(fs, i as int);
                }
                let mut detail = "Couldn't compress ".to_owned();
                detail.append(file.path.as_str());
                return Err(CasError::new(ErrorKind::Io, detail));
            },
        };
        let id = hash(file.content.as_slice());
        let executable = mode_is_executable(file.mode);
        let ghost chunks_before = chunks.deep_view();
        let ghost entries_before = entries.deep_view();
        assert(compressed.deep_view() =~= compressed@);
        chunks.push((chunk_location(id.as_str()), compressed));
        entries.push((relative_to(input_dir, file.path.as_str()), id, executable));
        proof {
            assert(chunks.deep_view() == chunks_before.push(chunk_of(fs[i as int])));
            assert(entries.deep_view() == entries_before.push(entry_of(input_dir@, fs[i as int])));
        }
        i += 1;
    }
    assert(fs.take(i as int) == fs);
    let manifest = Manifest::new(entries);
    let manifest_hash = manifest.id();
    let manifest_path = manifest_location(manifest_hash.as_str());
    let registry = match add_artifact(artifact_name.to_owned(), manifest_hash.clone(), artifacts) {
        Ok(text) => text,
        Err(e) => {
            return Err(e);
        },
    };
    let plan = BuildPlan { chunks, manifest, manifest_hash, manifest_path, artifacts: registry };
    Ok(plan)
}

/// The chunk files of a repository into which the chunks were written one
/// after the other, a later one over an earlier one of the same path.
pub open spec fn written(chunks: Seq<(Seq<char>, Seq<u8>)>) -> Map<Seq<char>, Seq<u8>>
    decreases chunks.len(),
{
    if chunks.len() == 0 {
        Map::empty()
    } else {
        written(chunks.drop_last()).insert(chunks.last().0, chunks.last().1)
    }
}

/// Whether files with the same identifier have the same content.
pub open spec fn collision_free(files: Seq<InputFileView>) -> bool {
    forall|i: int, j: int|
        0 <= i < files.len() && 0 <= j < files.len() && chunk_id((#[trigger] files[i]).content)
            == chunk_id((#[trigger] files[j]).content) ==> files[i].content == files[j].content
}

/// Chunks with the same path have the same identifier.
pub proof fn lemma_chunk_path_injective(a: Seq<char>, b: Seq<char>)
    requires
        chunk_path(a) == chunk_path(b),
    ensures
        a == b,
{
    let dir = chunk_path(Seq::empty());
    assert(a == (dir + a).skip(dir.len() as int));
}

/// Once the chunks of the first `n` files are written, the repository
/// holds, for each of these files, its chunk at the path of its chunk,
/// unless two files with different contents have the same identifier.
pub proof fn lemma_written_chunks(files: Seq<InputFileView>, n: int, i: int)
    requires
        collision_free(files),
        0 <= i < n <= files.len(),
    ensures
        written(files.take(n).map_values(|f: InputFileView| chunk_of(f))).contains_key(
            chunk_of(files[i]).0,
        ),
        written(files.take(n).map_values(|f: InputFileView| chunk_of(f)))[chunk_of(files[i]).0]
            == chunk_of(files[i]).1,
    decreases n,
{
    let chunks = files.take(n).map_values(|f: InputFileView| chunk_of(f));
    let earlier = files.take(n - 1).map_values(|f: InputFileView| chunk_of(f));
    assert(chunks.drop_last() == earlier);
    if i < n - 1 {
        lemma_written_chunks(files, n - 1, i);
        if chunk_of(files[n - 1]).0 == chunk_of(files[i]).0 {
            lemma_chunk_path_injective(
                chunk_id(files[n - 1].content),
                chunk_id(files[i].content),
            );
        }
    }
}

/// After a build the repository holds, for every file of the tree, its
/// chunk at the path of its chunk, unless two files with different
/// contents have the same identifier.
pub proof fn lemma_built_chunk_is_written(
    root: Seq<char>,
    files: Seq<InputFileView>,
    name: Seq<char>,
    registry: Seq<char>,
    i: int,
)
    requires
        collision_free(files),
        0 <= i < files.len(),
    ensures
        written(build_plan(root, files, name, registry).chunks).contains_key(
            build_plan(root, files, name, registry).chunks[i].0,
        ),
        written(build_plan(root, files, name, registry).chunks)[build_plan(
            root,
            files,
            name,
            registry,
        ).chunks[i].0] == build_plan(root, files, name, registry).chunks[i].1,
{
    assert(files.take(files.len() as int) == files);
    lemma_written_chunks(files, files.len() as int, i);
}

/// Whether the files are those of one tree that lies at `root`: file `i`
/// lies at the path `below[i]` below the root, written after the root with
/// or without separators between them.
pub open spec fn lies_at(root: Seq<char>, files: Seq<InputFileView>, below: Seq<Seq<char>>) -> bool {
    &&& files.len() == below.len()
    &&& forall|i: int|
        0 <= i < files.len() ==> exists|tail: Seq<char>|
            (#[trigger] files[i]).path == root + tail && joins(root, tail)
                && #[trigger] trim_slashes(tail) == trim_slashes(below[i])
}

/// A tree has one manifest, wherever it lies and however the path to it is
/// spelled: two readings of the files of one tree, with the same contents
/// and permissions at the same paths below their roots, give the same
/// entries and the same identifier.
pub proof fn lemma_manifest_of_tree(
    root: Seq<char>,
    files: Seq<InputFileView>,
    other_root: Seq<char>,
    other_files: Seq<InputFileView>,
    below: Seq<Seq<char>>,
)
    requires
        lies_at(root, files, below),
        lies_at(other_root, other_files, below),
        forall|i: int|
            0 <= i < files.len() ==> (#[trigger] files[i]).content == other_files[i].content
                && files[i].mode == other_files[i].mode,
    ensures
        entries_of(root, files) == entries_of(other_root, other_files),
        manifest_id(entries_of(root, files)) == manifest_id(entries_of(other_root, other_files)),
        forall|i: int|
            0 <= i < files.len() ==> (#[trigger] entries_of(root, files)[i]).0 == trim_slashes(
                below[i],
            ),
{
    assert forall|i: int| 0 <= i < files.len() implies relative_path(
        root,
        (#[trigger] files[i]).path,
    ) == trim_slashes(below[i]) && relative_path(other_root, other_files[i].path) == trim_slashes(
        below[i],
    ) by {
        let tail = choose|tail: Seq<char>|
            files[i].path == root + tail && joins(root, tail) && #[trigger] trim_slashes(tail)
                == trim_slashes(below[i]);
        lemma_relative_path_below(root, tail);
        let other_tail = choose|tail: Seq<char>|
            other_files[i].path == other_root + tail && joins(other_root, tail)
                && #[trigger] trim_slashes(tail) == trim_slashes(below[i]);
        lemma_relative_path_below(other_root, other_tail);
    }
}

/// Files with the same content share one chunk: the same path and the
/// same bytes, named by the identifier that both their entries hold.
pub proof fn lemma_same_content_one_chunk(
    root: Seq<char>,
    files: Seq<InputFileView>,
    name: Seq<char>,
    registry: Seq<char>,
    i: int,
    j: int,
)
    requires
        0 <= i < files.len(),
        0 <= j < files.len(),
        files[i].content == files[j].content,
    ensures
        build_plan(root, files, name, registry).chunks[i] == build_plan(
            root,
            files,
            name,
            registry,
        ).chunks[j],
        build_plan(root, files, name, registry).manifest.files[i].1 == build_plan(
            root,
            files,
            name,
            registry,
        ).manifest.files[j].1,
        build_plan(root, files, name, registry).chunks[i].0 == chunk_path(
            build_plan(root, files, name, registry).manifest.files[i].1,
        ),
{
}

/// A file that was built is installed as it was: an install that has come
/// to its entry and is handed its chunk writes the content of the file,
/// with the permission to execute it where the file had one, and links the
/// path of the file relative to the tree, below the directory of the
/// manifest, to that chunk.
pub proof fn lemma_built_file_is_installed(
    root: Seq<char>,
    files: Seq<InputFileView>,
    name: Seq<char>,
    registry: Seq<char>,
    s: InstallStateView,
    i: int,
)
    requires
        0 <= i < files.len(),
        zstd_content(chunk_of(files[i]).1) == Some(files[i].content),
        s.phase == InstallPhase::Fetching,
        s.index == i,
        s.files == build_plan(root, files, name, registry).manifest.files,
    ensures
        install_next(
            s,
            InstallEventView::Chunk {
                compressed: build_plan(root, files, name, registry).chunks[i].1,
            },
        ).1 == (InstallActionView::WriteChunk {
            path: chunk_path(chunk_id(files[i].content)),
            content: files[i].content,
            mode: mode_of(is_executable(files[i].mode)),
        }),
        link_of(s.manifest, s.files, i as nat) == (InstallActionView::Link {
            link: manifest_path(s.manifest) + "/"@ + relative_path(root, files[i].path),
            target: chunk_path(chunk_id(files[i].content)),
        }),
{
    lemma_trimmed(files[i].path);
    lemma_trimmed(files[i].path.skip(root.len() as int));
}

/// An artifact that was built is found by its name, whatever the registry
/// held before: read again, the registry that the build writes gives the
/// identifier of the manifest.
pub proof fn lemma_built_artifact_is_registered(
    root: Seq<char>,
    files: Seq<InputFileView>,
    name: Seq<char>,
    registry: Seq<char>,
)
    requires
        well_formed(registry),
        clean_name(name),
    ensures
        well_formed(build_plan(root, files, name, registry).artifacts),
        lookup(records(build_plan(root, files, name, registry).artifacts), name) == Some(
            build_plan(root, files, name, registry).manifest_hash,
        ),
{
    let id = build_plan(root, files, name, registry).manifest_hash;
    lemma_decimal_clean(
        xxh3_64_digest(encode_utf8(manifest_text(entries_of(root, files)))) as nat,
    );
    lemma_registered_is_read_back(registry, name, id);
}

} // verus!
