//! What a build followed by an install achieves.
//!
//! The install asks the outside world for one thing after the other. Here
//! the outside world is a value: a repository that holds what a build wrote,
//! and a store that is empty at first and does what it is asked. In such a
//! world the install of a tree that was built comes to its end, and the
//! store then holds the tree.

use vstd::prelude::*;
use crate::artifacts::{clean_name, well_formed};
use crate::builder::{
    build_plan, chunk_of, collision_free, is_executable, lemma_built_artifact_is_registered,
    lemma_built_chunk_is_written, lemma_chunk_path_injective, relative_path, written,
    BuildPlanView, InputFileView,
};
use crate::compression::zstd_content;
use crate::hash::chunk_id;
use crate::installer::{
    fetch_of, initial, install_next, list_pointers, mode_of, probe_of, InstallActionView,
    InstallEventView, InstallPhase, InstallStateView,
};
use crate::layout::{
    chunk_path, lemma_trimmed, link_path, manifest_path, pointer_path, registry_path,
};
use crate::manifest::ManifestView;
use crate::publish::TempEntryView;

verus! {

/// The outside world of an install: what the repository holds, and what
/// the store holds.
pub struct WorldView {
    /// The text of the registry of the repository.
    pub registry: Seq<char>,
    /// The manifests of the repository, by their paths.
    pub manifests: Map<Seq<char>, ManifestView>,
    /// The chunks of the repository, compressed, by their paths.
    pub repository: Map<Seq<char>, Seq<u8>>,
    /// The entries of the directory of the pointers of the store, as they are listed.
    pub listing: Seq<TempEntryView>,
    /// The chunks of the store, by their paths.
    pub chunks: Map<Seq<char>, Seq<u8>>,
    /// The paths of the chunks of the store that can be executed.
    pub executable: Set<Seq<char>>,
    /// The links of the store: where each lies, and where it points.
    pub links: Map<Seq<char>, Seq<char>>,
    /// The pointers of the store: where each lies, and where it points.
    pub pointers: Map<Seq<char>, Seq<char>>,
}

/// An install under way: its state, what it has asked for, and the world.
pub struct RunView {
    pub state: InstallStateView,
    pub action: InstallActionView,
    pub world: WorldView,
}

/// The world after it has done what it was asked, and what it hands back.
/// What the repository does not hold is not handed back: the world then
/// only says that it is done.
pub open spec fn carry_out(w: WorldView, a: InstallActionView) -> (WorldView, InstallEventView) {
    match a {
        InstallActionView::ReadRegistry { path } => if path == registry_path() {
            (w, InstallEventView::Registry { contents: w.registry })
        } else {
            (w, InstallEventView::Done)
        },
        InstallActionView::ReadManifest { path } => if w.manifests.contains_key(path) {
            (w, InstallEventView::Manifest { manifest: w.manifests[path] })
        } else {
            (w, InstallEventView::Done)
        },
        InstallActionView::ReadChunk { path } => if w.repository.contains_key(path) {
            (w, InstallEventView::Chunk { compressed: w.repository[path] })
        } else {
            (w, InstallEventView::Done)
        },
        InstallActionView::WriteChunk { path, content, mode } => (
            WorldView {
                chunks: w.chunks.insert(path, content),
                executable: if mode is Some {
                    w.executable.insert(path)
                } else {
                    w.executable
                },
                ..w
            },
            InstallEventView::Done,
        ),
        InstallActionView::ProbeLink { link } => (
            w,
            InstallEventView::Exists { present: w.links.contains_key(link) },
        ),
        InstallActionView::Link { link, target } => (
            WorldView { links: w.links.insert(link, target), ..w },
            InstallEventView::Done,
        ),
        InstallActionView::ListPointers { dir } => (
            w,
            InstallEventView::Listing { entries: w.listing },
        ),
        InstallActionView::Publish { temp, evict, target, pointer } => (
            WorldView { pointers: w.pointers.insert(pointer, target), ..w },
            InstallEventView::Done,
        ),
        InstallActionView::Finished => (w, InstallEventView::Done),
        InstallActionView::Abort { error } => (w, InstallEventView::Done),
    }
}

/// The install of `name` as it begins in the world `world`.
pub open spec fn begin(name: Seq<char>, world: WorldView) -> RunView {
    let (state, action) = install_next(initial(name), InstallEventView::Start);
    RunView { state, action, world }
}

/// The install after the world has done what was asked, and the install
/// has taken what the world handed back.
pub open spec fn round(r: RunView) -> RunView {
    let (world, event) = carry_out(r.world, r.action);
    let (state, action) = install_next(r.state, event);
    RunView { state, action, world }
}

/// The install after `n` rounds.
pub open spec fn rounds(r: RunView, n: nat) -> RunView
    decreases n,
{
    if n == 0 {
        r
    } else {
        rounds(round(r), (n - 1) as nat)
    }
}

/// Rounds made one after the other add up.
pub proof fn lemma_rounds_add(r: RunView, a: nat, b: nat)
    ensures
        rounds(r, a + b) == rounds(rounds(r, a), b),
    decreases a,
{
    if a > 0 {
        lemma_rounds_add(round(r), (a - 1) as nat, b);
    }
}

/// Two rounds are a round and a round.
pub proof fn lemma_two_rounds(r: RunView)
    ensures
        rounds(r, 2) == round(round(r)),
{
    reveal_with_fuel(rounds, 3);
}

/// A tree that is built and installed: the tree, the name it is given, the
/// registry of the repository before the build, and the entries of the
/// directory of the pointers of the store.
pub struct TreeView {
    pub root: Seq<char>,
    pub files: Seq<InputFileView>,
    pub name: Seq<char>,
    pub registry: Seq<char>,
    pub listing: Seq<TempEntryView>,
}

/// What the build of the tree writes.
pub open spec fn plan_of(t: TreeView) -> BuildPlanView {
    build_plan(t.root, t.files, t.name, t.registry)
}

/// The world after the build of the tree: the repository holds what the
/// build wrote, and the store holds nothing.
pub open spec fn built(t: TreeView) -> WorldView {
    WorldView {
        registry: plan_of(t).artifacts,
        manifests: Map::empty().insert(plan_of(t).manifest_path, plan_of(t).manifest),
        repository: written(plan_of(t).chunks),
        listing: t.listing,
        chunks: Map::empty(),
        executable: Set::empty(),
        links: Map::empty(),
        pointers: Map::empty(),
    }
}

/// Whether the tree can be built and installed as it is: the registry
/// reads, the name can be written into it, every chunk decompresses to the
/// content it was made of, no two files lie at one path, and files with the
/// same identifier have the same content and the same permission to
/// execute them.
pub open spec fn installable(t: TreeView) -> bool {
    &&& well_formed(t.registry)
    &&& clean_name(t.name)
    &&& collision_free(t.files)
    &&& forall|i: int|
        0 <= i < t.files.len() ==> zstd_content(chunk_of(#[trigger] t.files[i]).1) == Some(
            t.files[i].content,
        )
    &&& forall|i: int, j: int|
        0 <= i < j < t.files.len() ==> relative_path(t.root, (#[trigger] t.files[i]).path)
            != relative_path(t.root, (#[trigger] t.files[j]).path)
    &&& forall|i: int, j: int|
        0 <= i < t.files.len() && 0 <= j < t.files.len() && (#[trigger] t.files[i]).content == (
        #[trigger] t.files[j]).content ==> is_executable(t.files[i].mode) == is_executable(
            t.files[j].mode,
        )
}

/// The path of the chunk of file `i`.
pub open spec fn chunk_at(t: TreeView, i: int) -> Seq<char> {
    chunk_path(chunk_id(t.files[i].content))
}

/// The path of the link of file `i`: the path of the file relative to the
/// tree, below the directory of the manifest.
pub open spec fn link_at(t: TreeView, i: int) -> Seq<char> {
    manifest_path(plan_of(t).manifest_hash) + "/"@ + relative_path(t.root, t.files[i].path)
}

/// The chunks of the store once the chunks of the first `k` files are written.
pub open spec fn chunks_stored(t: TreeView, k: nat) -> Map<Seq<char>, Seq<u8>>
    decreases k,
{
    if k == 0 {
        Map::empty()
    } else {
        chunks_stored(t, (k - 1) as nat).insert(chunk_at(t, k - 1), t.files[k - 1].content)
    }
}

/// The chunks of the store that can be executed once the chunks of the
/// first `k` files are written.
pub open spec fn chunks_executable(t: TreeView, k: nat) -> Set<Seq<char>>
    decreases k,
{
    if k == 0 {
        Set::empty()
    } else if is_executable(t.files[k - 1].mode) {
        chunks_executable(t, (k - 1) as nat).insert(chunk_at(t, k - 1))
    } else {
        chunks_executable(t, (k - 1) as nat)
    }
}

/// The links of the store once the links of the first `k` files are made.
pub open spec fn links_made(t: TreeView, k: nat) -> Map<Seq<char>, Seq<char>>
    decreases k,
{
    if k == 0 {
        Map::empty()
    } else {
        links_made(t, (k - 1) as nat).insert(link_at(t, k - 1), chunk_at(t, k - 1))
    }
}

/// The world once the chunks of the first `chunks` files are written and
/// the links of the first `links` files are made.
pub open spec fn world_at(t: TreeView, chunks: nat, links: nat) -> WorldView {
    WorldView {
        chunks: chunks_stored(t, chunks),
        executable: chunks_executable(t, chunks),
        links: links_made(t, links),
        ..built(t)
    }
}

/// The state of the install in the given phase, at entry `index`, once the
/// chunks of the first `stored` files are handed out.
pub open spec fn state_at(t: TreeView, phase: InstallPhase, index: nat, stored: nat) -> InstallStateView {
    InstallStateView {
        name: t.name,
        manifest: plan_of(t).manifest_hash,
        files: plan_of(t).manifest.files,
        phase,
        index,
        stored: Seq::new(stored, |i: int| t.files[i].content),
    }
}

/// The install once the links of the first `k` files are in place.
pub open spec fn linking(t: TreeView, k: nat) -> RunView {
    let n = t.files.len();
    if k < n {
        RunView {
            state: state_at(t, InstallPhase::Probing, k, n),
            action: probe_of(plan_of(t).manifest_hash, plan_of(t).manifest.files, k),
            world: world_at(t, n, k),
        }
    } else {
        RunView {
            state: state_at(t, InstallPhase::Listing, 0, n),
            action: list_pointers(),
            world: world_at(t, n, n),
        }
    }
}

/// The install once the chunks of the first `k` files are written.
pub open spec fn fetching(t: TreeView, k: nat) -> RunView {
    let n = t.files.len();
    if k < n {
        RunView {
            state: state_at(t, InstallPhase::Fetching, k, k),
            action: fetch_of(plan_of(t).manifest.files, k),
            world: world_at(t, k, 0),
        }
    } else {
        linking(t, 0)
    }
}

/// Texts that begin alike and are equal end alike.
pub proof fn lemma_same_prefix(a: Seq<char>, x: Seq<char>, y: Seq<char>)
    requires
        a + x == a + y,
    ensures
        x == y,
{
    assert(x == (a + x).skip(a.len() as int));
}

/// The link of a file lies where its entry says, and the links of two
/// files lie at two paths.
pub proof fn lemma_link_at(t: TreeView, i: int, j: int)
    requires
        installable(t),
        0 <= i < t.files.len(),
        0 <= j < t.files.len(),
    ensures
        link_path(plan_of(t).manifest_hash, plan_of(t).manifest.files[i].0) == link_at(t, i),
        plan_of(t).manifest.files[i].1 == chunk_id(t.files[i].content),
        plan_of(t).manifest.files[i].2 == is_executable(t.files[i].mode),
        i != j ==> link_at(t, i) != link_at(t, j),
{
    lemma_trimmed(t.files[i].path);
    lemma_trimmed(t.files[i].path.skip(t.root.len() as int));
    if i != j && link_at(t, i) == link_at(t, j) {
        lemma_same_prefix(
            manifest_path(plan_of(t).manifest_hash) + "/"@,
            relative_path(t.root, t.files[i].path),
            relative_path(t.root, t.files[j].path),
        );
    }
}

/// The install of a tree that was built reads the registry and the
/// manifest, and comes to the first chunk.
#[verifier::rlimit(50)]
pub proof fn lemma_reaches_chunks(t: TreeView)
    requires
        installable(t),
    ensures
        rounds(begin(t.name, built(t)), 2) == fetching(t, 0),
{
    let first = begin(t.name, built(t));
    lemma_two_rounds(first);
    lemma_built_artifact_is_registered(t.root, t.files, t.name, t.registry);
    let second = round(first);
    assert(second.state == (InstallStateView {
        manifest: plan_of(t).manifest_hash,
        phase: InstallPhase::Manifest,
        ..initial(t.name)
    }));
    assert(second.action == (InstallActionView::ReadManifest {
        path: manifest_path(plan_of(t).manifest_hash),
    }));
    assert(second.world == built(t));
    assert(built(t).manifests.contains_key(manifest_path(plan_of(t).manifest_hash)));
    let third = round(second);
    assert(Seq::<Seq<u8>>::empty() =~= Seq::new(0nat, |i: int| t.files[i].content));
    assert(world_at(t, 0, 0) == built(t));
    assert(third == fetching(t, 0));
}

/// Two rounds fetch, verify and write the chunk of a file that was built.
#[verifier::rlimit(50)]
pub proof fn lemma_chunk_rounds(t: TreeView, k: nat)
    requires
        installable(t),
        k < t.files.len(),
    ensures
        rounds(fetching(t, k), 2) == fetching(t, k + 1),
{
    let first = fetching(t, k);
    lemma_two_rounds(first);
    lemma_built_chunk_is_written(t.root, t.files, t.name, t.registry, k as int);
    lemma_link_at(t, k as int, k as int);
    if k + 1 < t.files.len() {
        lemma_link_at(t, (k + 1) as int, (k + 1) as int);
    } else {
        lemma_link_at(t, 0, 0);
    }
    let second = round(first);
    let content = t.files[k as int].content;
    assert(second.world == first.world);
    assert(Seq::new(k, |i: int| t.files[i].content).push(content) =~= Seq::new(
        k + 1,
        |i: int| t.files[i].content,
    ));
    assert(second.state == state_at(t, InstallPhase::Storing, k, k + 1));
    assert(second.action == (InstallActionView::WriteChunk {
        path: chunk_at(t, k as int),
        content,
        mode: mode_of(is_executable(t.files[k as int].mode)),
    }));
    let third = round(second);
    assert(third.world == world_at(t, k + 1, 0));
    assert(third == fetching(t, k + 1));
}

/// Two rounds for each file write the chunks of the first `k` files.
pub proof fn lemma_all_chunks(t: TreeView, k: nat)
    requires
        installable(t),
        k <= t.files.len(),
    ensures
        rounds(fetching(t, 0), 2 * k) == fetching(t, k),
    decreases k,
{
    if k > 0 {
        lemma_all_chunks(t, (k - 1) as nat);
        lemma_chunk_rounds(t, (k - 1) as nat);
        lemma_rounds_add(fetching(t, 0), (2 * (k - 1)) as nat, 2);
    }
}

/// The links that are made are those of the files, and no others.
pub proof fn lemma_links_made(t: TreeView, k: nat, link: Seq<char>)
    requires
        installable(t),
        k <= t.files.len(),
    ensures
        links_made(t, k).contains_key(link) <==> exists|j: int|
            0 <= j < k && link == #[trigger] link_at(t, j),
        forall|j: int|
            0 <= j < k && link == #[trigger] link_at(t, j) ==> links_made(t, k)[link] == chunk_at(
                t,
                j,
            ),
    decreases k,
{
    if k > 0 {
        lemma_links_made(t, (k - 1) as nat, link);
        if link == link_at(t, k - 1) {
            assert forall|j: int| 0 <= j < k && link == #[trigger] link_at(t, j) implies j == k
                - 1 by {
                lemma_link_at(t, j, k - 1);
            }
        }
    }
}

/// Two rounds find that the link of a file is not there, and make it.
#[verifier::rlimit(50)]
pub proof fn lemma_link_rounds(t: TreeView, k: nat)
    requires
        installable(t),
        k < t.files.len(),
    ensures
        rounds(linking(t, k), 2) == linking(t, k + 1),
{
    let first = linking(t, k);
    lemma_two_rounds(first);
    lemma_link_at(t, k as int, k as int);
    if k + 1 < t.files.len() {
        lemma_link_at(t, (k + 1) as int, (k + 1) as int);
    }
    lemma_links_made(t, k, link_at(t, k as int));
    assert forall|j: int| 0 <= j < k implies link_at(t, k as int) != #[trigger] link_at(t, j) by {
        lemma_link_at(t, j, k as int);
    }
    let second = round(first);
    assert(second.world == first.world);
    assert(second.state == state_at(t, InstallPhase::Linking, k, t.files.len()));
    assert(second.action == (InstallActionView::Link {
        link: link_at(t, k as int),
        target: chunk_at(t, k as int),
    }));
    let third = round(second);
    assert(third.world == world_at(t, t.files.len(), k + 1));
    assert(third == linking(t, k + 1));
}

/// Two rounds for each file make the links of the first `k` files.
pub proof fn lemma_all_links(t: TreeView, k: nat)
    requires
        installable(t),
        k <= t.files.len(),
    ensures
        rounds(linking(t, 0), 2 * k) == linking(t, k),
    decreases k,
{
    if k > 0 {
        lemma_all_links(t, (k - 1) as nat);
        lemma_link_rounds(t, (k - 1) as nat);
        lemma_rounds_add(linking(t, 0), (2 * (k - 1)) as nat, 2);
    }
}

/// The world at the end of the install of a tree that was built.
pub open spec fn installed(t: TreeView) -> WorldView {
    WorldView {
        pointers: Map::empty().insert(
            pointer_path(t.name),
            manifest_path(plan_of(t).manifest_hash),
        ),
        ..world_at(t, t.files.len(), t.files.len())
    }
}

/// Once all links are in place, two rounds publish the pointer and finish.
#[verifier::rlimit(50)]
pub proof fn lemma_publish_rounds(t: TreeView)
    requires
        installable(t),
    ensures
        rounds(linking(t, t.files.len()), 2).action == InstallActionView::Finished,
        rounds(linking(t, t.files.len()), 2).world == installed(t),
{
    let first = linking(t, t.files.len());
    lemma_two_rounds(first);
    let second = round(first);
    assert(second.world == first.world);
    assert(second.action is Publish);
    let third = round(second);
    assert(third.world == installed(t));
}

/// The chunk of each file is in the store, with the content of the file.
pub proof fn lemma_chunks_stored(t: TreeView, k: nat, i: int)
    requires
        installable(t),
        0 <= i < k <= t.files.len(),
    ensures
        chunks_stored(t, k).contains_key(chunk_at(t, i)),
        chunks_stored(t, k)[chunk_at(t, i)] == t.files[i].content,
    decreases k,
{
    if i < k - 1 {
        lemma_chunks_stored(t, (k - 1) as nat, i);
        if chunk_at(t, k - 1) == chunk_at(t, i) {
            lemma_chunk_path_injective(
                chunk_id(t.files[k - 1].content),
                chunk_id(t.files[i].content),
            );
        }
    }
}

/// A chunk of the store that can be executed is the chunk of a file that could.
pub proof fn lemma_executable_only(t: TreeView, k: nat, path: Seq<char>)
    requires
        k <= t.files.len(),
        chunks_executable(t, k).contains(path),
    ensures
        exists|j: int| 0 <= j < k && path == #[trigger] chunk_at(t, j) && is_executable(
            t.files[j].mode,
        ),
    decreases k,
{
    if k > 0 && !(is_executable(t.files[k - 1].mode) && path == chunk_at(t, k - 1)) {
        lemma_executable_only(t, (k - 1) as nat, path);
    }
}

/// The chunk of each file can be executed exactly where the file could.
pub proof fn lemma_chunks_executable(t: TreeView, k: nat, i: int)
    requires
        installable(t),
        0 <= i < k <= t.files.len(),
    ensures
        chunks_executable(t, k).contains(chunk_at(t, i)) == is_executable(t.files[i].mode),
    decreases k,
{
    if i < k - 1 {
        lemma_chunks_executable(t, (k - 1) as nat, i);
        if chunk_at(t, k - 1) == chunk_at(t, i) {
            lemma_chunk_path_injective(
                chunk_id(t.files[k - 1].content),
                chunk_id(t.files[i].content),
            );
        }
    } else if !is_executable(t.files[i].mode) && chunks_executable(t, k).contains(
        chunk_at(t, i),
    ) {
        lemma_executable_only(t, (k - 1) as nat, chunk_at(t, i));
        let j = choose|j: int|
            0 <= j < k - 1 && chunk_at(t, i) == #[trigger] chunk_at(t, j) && is_executable(
                t.files[j].mode,
            );
        lemma_chunk_path_injective(chunk_id(t.files[i].content), chunk_id(t.files[j].content));
    }
}

/// The number of rounds that the install of a tree of `n` files takes: two
/// to read the registry and the manifest, two for each chunk, two for each
/// link, and two to publish the pointer.
pub open spec fn rounds_of(n: nat) -> nat {
    4 * n + 4
}

/// A tree that is built into a repository and installed from it into an
/// empty store is in the store as it was. The install finishes; the pointer
/// of the artifact points at the directory of its manifest; below that
/// directory, at the path of each file relative to the tree, lies a link to
/// a chunk that holds the content of the file, byte for byte, and can be
/// executed exactly where the file could; and no other link lies there.
pub proof fn lemma_build_then_install(t: TreeView)
    requires
        installable(t),
    ensures
        rounds(begin(t.name, built(t)), rounds_of(t.files.len())).action
            == InstallActionView::Finished,
        rounds(begin(t.name, built(t)), rounds_of(t.files.len())).world == installed(t),
        installed(t).pointers.contains_key(pointer_path(t.name)),
        installed(t).pointers[pointer_path(t.name)] == manifest_path(plan_of(t).manifest_hash),
        forall|i: int|
            0 <= i < t.files.len() ==> {
                &&& installed(t).links.contains_key(#[trigger] link_at(t, i))
                &&& installed(t).links[link_at(t, i)] == chunk_at(t, i)
                &&& installed(t).chunks.contains_key(chunk_at(t, i))
                &&& installed(t).chunks[chunk_at(t, i)] == t.files[i].content
                &&& installed(t).executable.contains(chunk_at(t, i)) == is_executable(
                    t.files[i].mode,
                )
            },
        forall|link: Seq<char>| #[trigger]
            installed(t).links.contains_key(link) ==> exists|i: int|
                0 <= i < t.files.len() && link == #[trigger] link_at(t, i),
{
    let n = t.files.len();
    let first = begin(t.name, built(t));
    lemma_reaches_chunks(t);
    lemma_all_chunks(t, n);
    lemma_all_links(t, n);
    lemma_publish_rounds(t);
    lemma_rounds_add(first, 2, 2 * n);
    lemma_rounds_add(first, 2 + 2 * n, 2 * n);
    lemma_rounds_add(first, 2 + 2 * n + 2 * n, 2);
    assert forall|i: int| 0 <= i < n implies {
        &&& installed(t).links.contains_key(#[trigger] link_at(t, i))
        &&& installed(t).links[link_at(t, i)] == chunk_at(t, i)
        &&& installed(t).chunks.contains_key(chunk_at(t, i))
        &&& installed(t).chunks[chunk_at(t, i)] == t.files[i].content
        &&& installed(t).executable.contains(chunk_at(t, i)) == is_executable(t.files[i].mode)
    } by {
        lemma_links_made(t, n, link_at(t, i));
        lemma_chunks_stored(t, n, i);
        lemma_chunks_executable(t, n, i);
    }
    assert forall|link: Seq<char>| #[trigger]
        installed(t).links.contains_key(link) implies exists|i: int|
        0 <= i < n && link == #[trigger] link_at(t, i) by {
        lemma_links_made(t, n, link);
    }
}

} // verus!
