//! Installing an artifact into a store.

use vstd::prelude::*;
use crate::artifacts::{get_artifact, lookup, malformed_error, records, well_formed};
use crate::compression::{decompress_file, zstd_content};
use crate::error::{out_of_turn, CasError, CasErrorView, ErrorKind};
use crate::hash::{chunk_id, hash, EntryView};
use crate::layout::{
    chunk_location, chunk_path, link_location, link_path, manifest_location, manifest_path,
    pointer_location, pointer_path, pointers_dir, pointers_location, registry_location,
    registry_path,
};
use crate::manifest::{Manifest, ManifestView};
use crate::publish::{get_temp_file, temp_choice, TempEntry, TempEntryView, TempFileView};

verus! {

/// The permission bits of an installed executable chunk.
pub const EXECUTABLE_MODE: u32 = 0o755;

/// The content of a compressed chunk, where it is the content that the
/// identifier `chunk_hash` stands for.
pub open spec fn verified_content(chunk_hash: Seq<char>, compressed: Seq<u8>) -> Option<Seq<u8>> {
    match zstd_content(compressed) {
        Some(content) => if chunk_id(content) == chunk_hash {
            Some(content)
        } else {
            None
        },
        None => None,
    }
}

/// The failure of a chunk that does not verify.
pub open spec fn integrity_failure(chunk_hash: Seq<char>) -> CasErrorView {
    CasErrorView { kind: ErrorKind::IntegrityFailure, detail: chunk_hash }
}

/// Accepts `content` as the chunk `chunk_hash` where it hashes to that
/// identifier, and refuses it otherwise.
pub fn check_chunk(chunk_hash: &String, content: Vec<u8>) -> (r: Result<Vec<u8>, CasError>)
    ensures
        chunk_id(content@) == chunk_hash@ ==> (r matches Ok(c) && c@ == content@),
        chunk_id(content@) != chunk_hash@ ==> (r matches Err(e) && e@ == integrity_failure(
            chunk_hash@,
        )),
{
    let actual = hash(content.as_slice());
    if actual == *chunk_hash {
        Ok(content)
    } else {
        Err(CasError::new(ErrorKind::IntegrityFailure, chunk_hash.clone()))
    }
}

/// The content to store for the chunk `chunk_hash`, given the compressed
/// bytes that a repository holds for it. Bytes that do not decompress, or
/// that decompress to other content than the identifier stands for, are
/// refused: nothing of them is to be stored.
pub fn install_chunk(chunk_hash: &String, compressed: &Vec<u8>) -> (r: Result<Vec<u8>, CasError>)
    ensures
        verified_content(chunk_hash@, compressed@) matches Some(content) ==> (r matches Ok(c)
            && c@ == content),
        verified_content(chunk_hash@, compressed@) is None ==> (r matches Err(e) && e@
            == integrity_failure(chunk_hash@)),
{
    match decompress_file(compressed) {
        Some(content) => check_chunk(chunk_hash, content),
        None => Err(CasError::new(ErrorKind::IntegrityFailure, chunk_hash.clone())),
    }
}

/// Where the chunk `chunk_hash` lies in a store, and the permission bits
/// that make it executable.
pub fn make_chunk_executable(chunk_hash: &String) -> (r: (String, u32))
    ensures
        r.0@ == chunk_path(chunk_hash@),
        r.1 == EXECUTABLE_MODE,
{
    (chunk_location(chunk_hash.as_str()), EXECUTABLE_MODE)
}


/// What an install is waiting for.
#[derive(Clone, Copy, Debug, PartialEq, Eq, Structural)]
pub enum InstallPhase {
    /// Nothing yet: the install has not begun.
    Start,
    /// The contents of the registry.
    Registry,
    /// The manifest of the artifact.
    Manifest,
    /// The compressed bytes of the chunk of the current entry.
    Fetching,
    /// That the chunk of the current entry has been written.
    Storing,
    /// Whether something exists where the link of the current entry belongs.
    Probing,
    /// That the link of the current entry has been made.
    Linking,
    /// The entries of the directory of the pointers.
    Listing,
    /// That the pointer has been put in place.
    Publishing,
    /// Nothing more: the install has finished or failed.
    Over,
}

/// How far the install of one artifact has come.
pub struct InstallState {
    name: String,
    manifest: String,
    files: Vec<(String, String, bool)>,
    phase: InstallPhase,
    index: usize,
    stored: Ghost<Seq<Seq<u8>>>,
}

/// The state of an install as a value.
pub struct InstallStateView {
    /// The name of the artifact.
    pub name: Seq<char>,
    /// The identifier of its manifest, once the registry has been read.
    pub manifest: Seq<char>,
    /// The entries of the manifest, once it has been read.
    pub files: Seq<EntryView>,
    /// What the install is waiting for.
    pub phase: InstallPhase,
    /// The entry at which the install is.
    pub index: nat,
    /// The contents handed out to be written as chunks, entry by entry.
    pub stored: Seq<Seq<u8>>,
}

/// What the outside world is asked to do next.
#[derive(Clone, Debug, PartialEq, Eq)]
pub enum InstallAction {
    /// Resolve `path` in the sources and hand back the text of the registry.
    ReadRegistry { path: String },
    /// Resolve `path` in the sources and hand back the manifest it holds.
    ReadManifest { path: String },
    /// Resolve `path` in the sources and hand back its bytes.
    ReadChunk { path: String },
    /// Write `content` to `path` in the store and, where `mode` is given,
    /// set the permission bits of the file to it.
    WriteChunk { path: String, content: Vec<u8>, mode: Option<u32> },
    /// Say whether anything exists at `link` in the store.
    ProbeLink { link: String },
    /// Make the directories above `link` in the store, and make `link` a
    /// symbolic link to `target` in the store.
    Link { link: String, target: String },
    /// Hand back the entries of the directory `dir` in the store.
    ListPointers { dir: String },
    /// Where `evict` is set, remove `temp`. Then make `temp` a symbolic
    /// link to `target` and rename it to `pointer`; all three are paths in the store.
    Publish { temp: String, evict: bool, target: String, pointer: String },
    /// Nothing: the artifact is installed.
    Finished,
    /// Nothing: the install has failed.
    Abort { error: CasError },
}

/// An action as a value.
pub enum InstallActionView {
    ReadRegistry { path: Seq<char> },
    ReadManifest { path: Seq<char> },
    ReadChunk { path: Seq<char> },
    WriteChunk { path: Seq<char>, content: Seq<u8>, mode: Option<u32> },
    ProbeLink { link: Seq<char> },
    Link { link: Seq<char>, target: Seq<char> },
    ListPointers { dir: Seq<char> },
    Publish { temp: Seq<char>, evict: bool, target: Seq<char>, pointer: Seq<char> },
    Finished,
    Abort { error: CasErrorView },
}

impl View for InstallAction {
    type V = InstallActionView;

    open spec fn view(&self) -> InstallActionView {
        match self {
            InstallAction::ReadRegistry { path } => InstallActionView::ReadRegistry { path: path@ },
            InstallAction::ReadManifest { path } => InstallActionView::ReadManifest { path: path@ },
            InstallAction::ReadChunk { path } => InstallActionView::ReadChunk { path: path@ },
            InstallAction::WriteChunk { path, content, mode } => InstallActionView::WriteChunk {
                path: path@,
                content: content@,
                mode: *mode,
            },
            InstallAction::ProbeLink { link } => InstallActionView::ProbeLink { link: link@ },
            InstallAction::Link { link, target } => InstallActionView::Link {
                link: link@,
                target: target@,
            },
            InstallAction::ListPointers { dir } => InstallActionView::ListPointers { dir: dir@ },
            InstallAction::Publish { temp, evict, target, pointer } => InstallActionView::Publish {
                temp: temp@,
                evict: *evict,
                target: target@,
                pointer: pointer@,
            },
            InstallAction::Finished => InstallActionView::Finished,
            InstallAction::Abort { error } => InstallActionView::Abort { error: error@ },
        }
    }
}

/// What the outside world hands back.
#[derive(Clone, Debug, PartialEq, Eq)]
pub enum InstallEvent {
    /// The install is to begin.
    Start,
    /// The text of the registry.
    Registry { contents: String },
    /// The manifest.
    Manifest { manifest: Manifest },
    /// The bytes of a chunk, as the repository holds them.
    Chunk { compressed: Vec<u8> },
    /// What was asked for has been done.
    Done,
    /// Whether something exists at the path that was asked about.
    Exists { present: bool },
    /// The entries of the directory of the pointers.
    Listing { entries: Vec<TempEntry> },
}

/// An event as a value.
pub enum InstallEventView {
    Start,
    Registry { contents: Seq<char> },
    Manifest { manifest: ManifestView },
    Chunk { compressed: Seq<u8> },
    Done,
    Exists { present: bool },
    Listing { entries: Seq<TempEntryView> },
}

impl View for InstallEvent {
    type V = InstallEventView;

    open spec fn view(&self) -> InstallEventView {
        match self {
            InstallEvent::Start => InstallEventView::Start,
            InstallEvent::Registry { contents } => InstallEventView::Registry {
                contents: contents@,
            },
            InstallEvent::Manifest { manifest } => InstallEventView::Manifest {
                manifest: manifest@,
            },
            InstallEvent::Chunk { compressed } => InstallEventView::Chunk {
                compressed: compressed@,
            },
            InstallEvent::Done => InstallEventView::Done,
            InstallEvent::Exists { present } => InstallEventView::Exists { present: *present },
            InstallEvent::Listing { entries } => InstallEventView::Listing {
                entries: entries.deep_view(),
            },
        }
    }
}

/// The state of an install that has not begun.
pub open spec fn initial(name: Seq<char>) -> InstallStateView {
    InstallStateView {
        name,
        manifest: Seq::empty(),
        files: Seq::empty(),
        phase: InstallPhase::Start,
        index: 0,
        stored: Seq::empty(),
    }
}

/// The state after the install has ended.
pub open spec fn over(s: InstallStateView) -> InstallStateView {
    InstallStateView { phase: InstallPhase::Over, ..s }
}

/// The failure of an artifact that the registry does not hold.
pub open spec fn not_registered(name: Seq<char>) -> CasErrorView {
    CasErrorView { kind: ErrorKind::NotFound, detail: name }
}

/// The permission bits to set on the chunk of an entry.
pub open spec fn mode_of(executable: bool) -> Option<u32> {
    if executable {
        Some(EXECUTABLE_MODE)
    } else {
        None
    }
}

/// The action that fetches the chunk of entry `i`.
pub open spec fn fetch_of(files: Seq<EntryView>, i: nat) -> InstallActionView {
    InstallActionView::ReadChunk { path: chunk_path(files[i as int].1) }
}

/// The action that asks whether the link of entry `i` exists.
pub open spec fn probe_of(manifest: Seq<char>, files: Seq<EntryView>, i: nat) -> InstallActionView {
    InstallActionView::ProbeLink { link: link_path(manifest, files[i as int].0) }
}

/// The action that links entry `i` of the manifest to its chunk.
pub open spec fn link_of(manifest: Seq<char>, files: Seq<EntryView>, i: nat) -> InstallActionView {
    InstallActionView::Link {
        link: link_path(manifest, files[i as int].0),
        target: chunk_path(files[i as int].1),
    }
}

/// The action that lists the pointers.
pub open spec fn list_pointers() -> InstallActionView {
    InstallActionView::ListPointers { dir: pointers_dir() }
}

/// The action that publishes the pointer under the temporary name `file`.
pub open spec fn publish_of(s: InstallStateView, file: TempFileView) -> InstallActionView {
    InstallActionView::Publish {
        temp: pointer_path(file.name),
        evict: file.evict,
        target: manifest_path(s.manifest),
        pointer: pointer_path(s.name),
    }
}

/// What follows once the registry has been read.
pub open spec fn after_registry(s: InstallStateView, contents: Seq<char>) -> (
    InstallStateView,
    InstallActionView,
) {
    if !well_formed(contents) {
        (over(s), InstallActionView::Abort { error: malformed_error(contents) })
    } else {
        match lookup(records(contents), s.name) {
            Some(id) => (
                InstallStateView { manifest: id, phase: InstallPhase::Manifest, ..s },
                InstallActionView::ReadManifest { path: manifest_path(id) },
            ),
            None => (over(s), InstallActionView::Abort { error: not_registered(s.name) }),
        }
    }
}

/// What follows once the manifest has been read.
pub open spec fn after_manifest(s: InstallStateView, files: Seq<EntryView>) -> (
    InstallStateView,
    InstallActionView,
) {
    if files.len() == 0 {
        (InstallStateView { files, phase: InstallPhase::Listing, index: 0, ..s }, list_pointers())
    } else {
        (
            InstallStateView { files, phase: InstallPhase::Fetching, index: 0, ..s },
            fetch_of(files, 0),
        )
    }
}

/// What follows once the bytes of the current chunk have come.
pub open spec fn after_chunk(s: InstallStateView, compressed: Seq<u8>) -> (
    InstallStateView,
    InstallActionView,
) {
    let entry = s.files[s.index as int];
    match verified_content(entry.1, compressed) {
        Some(content) => (
            InstallStateView {
                phase: InstallPhase::Storing,
                stored: s.stored.push(content),
                ..s
            },
            InstallActionView::WriteChunk {
                path: chunk_path(entry.1),
                content,
                mode: mode_of(entry.2),
            },
        ),
        None => (over(s), InstallActionView::Abort { error: integrity_failure(entry.1) }),
    }
}

/// What follows once the current chunk has been written.
pub open spec fn after_store(s: InstallStateView) -> (InstallStateView, InstallActionView) {
    if s.index + 1 < s.files.len() {
        (
            InstallStateView { phase: InstallPhase::Fetching, index: s.index + 1, ..s },
            fetch_of(s.files, s.index + 1),
        )
    } else {
        (
            InstallStateView { phase: InstallPhase::Probing, index: 0, ..s },
            probe_of(s.manifest, s.files, 0),
        )
    }
}

/// What follows once the link of the current entry is in place.
pub open spec fn after_link(s: InstallStateView) -> (InstallStateView, InstallActionView) {
    if s.index + 1 < s.files.len() {
        (
            InstallStateView { phase: InstallPhase::Probing, index: s.index + 1, ..s },
            probe_of(s.manifest, s.files, s.index + 1),
        )
    } else {
        (InstallStateView { phase: InstallPhase::Listing, index: 0, ..s }, list_pointers())
    }
}

/// What follows once it is known whether the link of the current entry
/// exists. A link that exists is left as it is: manifests never change, so
/// it cannot stand for other content.
pub open spec fn after_probe(s: InstallStateView, present: bool) -> (
    InstallStateView,
    InstallActionView,
) {
    if present {
        after_link(s)
    } else {
        (
            InstallStateView { phase: InstallPhase::Linking, ..s },
            link_of(s.manifest, s.files, s.index),
        )
    }
}

/// The state and the action that follow when `e` arrives in state `s`.
///
/// The chunks are fetched, verified and written one by one, in the order of
/// the manifest. Only when all are written are the links made, each unless
/// it exists, and only when all are in place is the pointer published. A chunk that does not verify
/// ends the install, and so does an event that does not answer what was asked.
pub open spec fn install_next(s: InstallStateView, e: InstallEventView) -> (
    InstallStateView,
    InstallActionView,
) {
    match (s.phase, e) {
        (InstallPhase::Start, InstallEventView::Start) => (
            InstallStateView { phase: InstallPhase::Registry, ..s },
            InstallActionView::ReadRegistry { path: registry_path() },
        ),
        (InstallPhase::Registry, InstallEventView::Registry { contents }) => after_registry(
            s,
            contents,
        ),
        (InstallPhase::Manifest, InstallEventView::Manifest { manifest }) => after_manifest(
            s,
            manifest.files,
        ),
        (InstallPhase::Fetching, InstallEventView::Chunk { compressed }) => after_chunk(
            s,
            compressed,
        ),
        (InstallPhase::Storing, InstallEventView::Done) => after_store(s),
        (InstallPhase::Probing, InstallEventView::Exists { present }) => after_probe(s, present),
        (InstallPhase::Linking, InstallEventView::Done) => after_link(s),
        (InstallPhase::Listing, InstallEventView::Listing { entries }) => (
            InstallStateView { phase: InstallPhase::Publishing, ..s },
            publish_of(s, temp_choice(entries, 0)),
        ),
        (InstallPhase::Publishing, InstallEventView::Done) => (over(s), InstallActionView::Finished),
        _ => (over(s), InstallActionView::Abort { error: out_of_turn() }),
    }
}

/// What holds of the state of every install: the contents handed out so
/// far are those of the first entries of the manifest, each with the
/// identifier its entry gives, and the links and the pointer come only
/// after the content of every entry.
pub open spec fn consistent(s: InstallStateView) -> bool {
    &&& s.stored.len() <= s.files.len()
    &&& forall|k: int| 0 <= k < s.stored.len() ==> chunk_id(#[trigger] s.stored[k]) == s.files[k].1
    &&& match s.phase {
        InstallPhase::Start | InstallPhase::Registry | InstallPhase::Manifest => s.stored.len()
            == 0,
        InstallPhase::Fetching => s.index < s.files.len() && s.stored.len() == s.index,
        InstallPhase::Storing => s.index < s.files.len() && s.stored.len() == s.index + 1,
        InstallPhase::Probing | InstallPhase::Linking => s.index < s.files.len() && s.stored.len()
            == s.files.len(),
        InstallPhase::Listing | InstallPhase::Publishing => s.stored.len() == s.files.len(),
        InstallPhase::Over => true,
    }
}

impl View for InstallState {
    type V = InstallStateView;

    closed spec fn view(&self) -> InstallStateView {
        InstallStateView {
            name: self.name@,
            manifest: self.manifest@,
            files: self.files.deep_view(),
            phase: self.phase,
            index: self.index as nat,
            stored: self.stored@,
        }
    }
}

impl InstallState {
    #[verifier::type_invariant]
    spec fn inv(self) -> bool {
        consistent(self@)
    }

    /// The state of the install of `artifact_name` before it has begun.
    pub fn new(artifact_name: String) -> (s: InstallState)
        ensures
            s@ == initial(artifact_name@),
            consistent(s@),
    {
        let files: Vec<(String, String, bool)> = Vec::new();
        assert(files.deep_view() == Seq::<EntryView>::empty());
        InstallState {
            name: artifact_name,
            manifest: String::new(),
            files,
            phase: InstallPhase::Start,
            index: 0,
            stored: Ghost(Seq::empty()),
        }
    }

    /// What the install is waiting for.
    pub fn phase(&self) -> (p: InstallPhase)
        ensures
            p == self@.phase,
    {
        self.phase
    }

    /// Whether the install has finished or failed.
    pub fn is_over(&self) -> (b: bool)
        ensures
            b == (self@.phase == InstallPhase::Over),
    {
        match self.phase {
            InstallPhase::Over => true,
            _ => false,
        }
    }
}

/// Installs an artifact, one step at a time: takes the state of the
/// install and what the outside world hands back, and gives the state that
/// follows and what to do next. The install begins in the state
/// `InstallState::new` with the event `Start`, and is over with the action
/// `Finished` or `Abort`.
pub fn install_artifact(state: InstallState, event: InstallEvent) -> (r: (
    InstallState,
    InstallAction,
))
    ensures
        (r.0@, r.1@) == install_next(state@, event@),
        consistent(state@),
        consistent(r.0@),
{
    proof {
        use_type_invariant(&state);
    }
    let ghost s = state@;
    let InstallState { name, manifest, files, phase, index, stored } = state;
    assert(s.files.len() == files.len());
    match (phase, event) {
        (InstallPhase::Start, InstallEvent::Start) => {
            let next = InstallState {
                name,
                manifest,
                files,
                phase: InstallPhase::Registry,
                index,
                stored,
            };
            (next, InstallAction::ReadRegistry { path: registry_location() })
        },
        (InstallPhase::Registry, InstallEvent::Registry { contents }) => {
            match get_artifact(&name, Some(contents.as_str())) {
                Ok(Some(id)) => {
                    let path = manifest_location(id.as_str());
                    let next = InstallState {
                        name,
                        manifest: id,
                        files,
                        phase: InstallPhase::Manifest,
                        index,
                        stored,
                    };
                    (next, InstallAction::ReadManifest { path })
                },
                Ok(None) => {
                    let error = CasError::new(ErrorKind::NotFound, name.clone());
                    let next = InstallState {
                        name,
                        manifest,
                        files,
                        phase: InstallPhase::Over,
                        index,
                        stored,
                    };
                    (next, InstallAction::Abort { error })
                },
                Err(error) => {
                    let next = InstallState {
                        name,
                        manifest,
                        files,
                        phase: InstallPhase::Over,
                        index,
                        stored,
                    };
                    (next, InstallAction::Abort { error })
                },
            }
        },
        (InstallPhase::Manifest, InstallEvent::Manifest { manifest: read }) => {
            let entries = read.files;
            if entries.len() == 0 {
                let next = InstallState {
                    name,
                    manifest,
                    files: entries,
                    phase: InstallPhase::Listing,
                    index: 0,
                    stored,
                };
                (next, InstallAction::ListPointers { dir: pointers_location() })
            } else {
                let path = chunk_location(entries[0].1.as_str());
                let next = InstallState {
                    name,
                    manifest,
                    files: entries,
                    phase: InstallPhase::Fetching,
                    index: 0,
                    stored,
                };
                (next, InstallAction::ReadChunk { path })
            }
        },
        (InstallPhase::Fetching, InstallEvent::Chunk { compressed }) => {
            match install_chunk(&files[index].1, &compressed) {
                Ok(content) => {
                    let (path, mode) = make_chunk_executable(&files[index].1);
                    let mode = if files[index].2 {
                        Some(mode)
                    } else {
                        None
                    };
                    let ghost accepted = stored@.push(content@);
                    let next = InstallState {
                        name,
                        manifest,
                        files,
                        phase: InstallPhase::Storing,
                        index,
                        stored: Ghost(accepted),
                    };
                    (next, InstallAction::WriteChunk { path, content, mode })
                },
                Err(error) => {
                    let next = InstallState {
                        name,
                        manifest,
                        files,
                        phase: InstallPhase::Over,
                        index,
                        stored,
                    };
                    (next, InstallAction::Abort { error })
                },
            }
        },
        (InstallPhase::Storing, InstallEvent::Done) => {
            if index + 1 < files.len() {
                let path = chunk_location(files[index + 1].1.as_str());
                let next = InstallState {
                    name,
                    manifest,
                    files,
                    phase: InstallPhase::Fetching,
                    index: index + 1,
                    stored,
                };
                (next, InstallAction::ReadChunk { path })
            } else {
                let link = link_location(manifest.as_str(), files[0].0.as_str());
                let next = InstallState {
                    name,
                    manifest,
                    files,
                    phase: InstallPhase::Probing,
                    index: 0,
                    stored,
                };
                (next, InstallAction::ProbeLink { link })
            }
        },
        (InstallPhase::Probing, InstallEvent::Exists { present: false }) => {
            let link = link_location(manifest.as_str(), files[index].0.as_str());
            let target = chunk_location(files[index].1.as_str());
            let next = InstallState {
                name,
                manifest,
                files,
                phase: InstallPhase::Linking,
                index,
                stored,
            };
            (next, InstallAction::Link { link, target })
        },
        (InstallPhase::Probing, InstallEvent::Exists { present: true })
        | (InstallPhase::Linking, InstallEvent::Done) => {
            if index + 1 < files.len() {
                let link = link_location(manifest.as_str(), files[index + 1].0.as_str());
                let next = InstallState {
                    name,
                    manifest,
                    files,
                    phase: InstallPhase::Probing,
                    index: index + 1,
                    stored,
                };
                (next, InstallAction::ProbeLink { link })
            } else {
                let next = InstallState {
                    name,
                    manifest,
                    files,
                    phase: InstallPhase::Listing,
                    index: 0,
                    stored,
                };
                (next, InstallAction::ListPointers { dir: pointers_location() })
            }
        },
        (InstallPhase::Listing, InstallEvent::Listing { entries }) => {
            let file = get_temp_file(None, &entries);
            let action = InstallAction::Publish {
                temp: pointer_location(file.name.as_str()),
                evict: file.evict,
                target: manifest_location(manifest.as_str()),
                pointer: pointer_location(name.as_str()),
            };
            let next = InstallState {
                name,
                manifest,
                files,
                phase: InstallPhase::Publishing,
                index,
                stored,
            };
            (next, action)
        },
        (InstallPhase::Publishing, InstallEvent::Done) => {
            let next = InstallState {
                name,
                manifest,
                files,
                phase: InstallPhase::Over,
                index,
                stored,
            };
            (next, InstallAction::Finished)
        },
        _ => {
            let next = InstallState {
                name,
                manifest,
                files,
                phase: InstallPhase::Over,
                index,
                stored,
            };
            (next, InstallAction::Abort { error: CasError::out_of_turn() })
        },
    }
}

/// The state of the install of `name` after the given events, in order.
pub open spec fn install_run(name: Seq<char>, events: Seq<InstallEventView>) -> InstallStateView
    decreases events.len(),
{
    if events.len() == 0 {
        initial(name)
    } else {
        install_next(install_run(name, events.drop_last()), events.last()).0
    }
}

/// Whatever arrives, the state of an install stays consistent.
pub proof fn lemma_install_consistent(s: InstallStateView, e: InstallEventView)
    requires
        consistent(s),
    ensures
        consistent(install_next(s, e).0),
{
}

/// Whatever the outside world hands back, and in whatever order, the state
/// of an install is consistent.
pub proof fn lemma_run_consistent(name: Seq<char>, events: Seq<InstallEventView>)
    ensures
        consistent(install_run(name, events)),
    decreases events.len(),
{
    if events.len() > 0 {
        lemma_run_consistent(name, events.drop_last());
    }
}

/// Content is handed out to be written only for the bytes of the chunk that
/// was asked for, only where they decompress to content with the
/// identifier of the current entry, and only under the path of that
/// identifier. Nothing else adds to what has been handed out.
pub proof fn lemma_written_content_is_verified(s: InstallStateView, e: InstallEventView)
    requires
        consistent(s),
    ensures
        install_next(s, e).1 matches InstallActionView::WriteChunk { path, content, mode } ==> (e
            matches InstallEventView::Chunk { compressed } && zstd_content(compressed) == Some(
            content,
        ) && chunk_id(content) == s.files[s.index as int].1 && path == chunk_path(
            chunk_id(content),
        ) && install_next(s, e).0.stored == s.stored.push(content)),
        !(install_next(s, e).1 is WriteChunk) ==> install_next(s, e).0.stored == s.stored,
{
}

/// Bytes that do not decompress to the content that the identifier of the
/// current entry stands for end the install: it fails with an integrity
/// failure, and nothing is handed out to be written.
pub proof fn lemma_corrupt_chunk_aborts(s: InstallStateView, compressed: Seq<u8>)
    requires
        s.phase == InstallPhase::Fetching,
        verified_content(s.files[s.index as int].1, compressed) is None,
    ensures
        install_next(s, InstallEventView::Chunk { compressed }) == (
            over(s),
            InstallActionView::Abort { error: integrity_failure(s.files[s.index as int].1) },
        ),
{
}

/// What the install of `name` has asked for after the given events, in order.
pub open spec fn install_actions(name: Seq<char>, events: Seq<InstallEventView>) -> Seq<
    InstallActionView,
>
    decreases events.len(),
{
    if events.len() == 0 {
        Seq::empty()
    } else {
        install_actions(name, events.drop_last()).push(
            install_next(install_run(name, events.drop_last()), events.last()).1,
        )
    }
}

/// Whether one of the actions writes `content` as the chunk `id`.
pub open spec fn wrote(actions: Seq<InstallActionView>, id: Seq<char>, content: Seq<u8>) -> bool {
    exists|m: int|
        0 <= m < actions.len() && #[trigger] actions[m] == (InstallActionView::WriteChunk {
            path: chunk_path(id),
            content,
            mode: actions[m]->WriteChunk_mode,
        })
}

/// Every content that counts as handed out was written by an action, as
/// the chunk that its entry names.
pub proof fn lemma_stored_was_written(name: Seq<char>, events: Seq<InstallEventView>, k: int)
    requires
        0 <= k < install_run(name, events).stored.len(),
    ensures
        wrote(
            install_actions(name, events),
            install_run(name, events).files[k].1,
            install_run(name, events).stored[k],
        ),
    decreases events.len(),
{
    if events.len() > 0 {
        let before = install_run(name, events.drop_last());
        let asked = install_actions(name, events.drop_last());
        let action = install_next(before, events.last()).1;
        let actions = install_actions(name, events);
        lemma_run_consistent(name, events.drop_last());
        if k < before.stored.len() {
            lemma_stored_was_written(name, events.drop_last(), k);
            let m = choose|m: int|
                0 <= m < asked.len() && #[trigger] asked[m] == (InstallActionView::WriteChunk {
                    path: chunk_path(before.files[k].1),
                    content: before.stored[k],
                    mode: asked[m]->WriteChunk_mode,
                });
            assert(actions[m] == asked[m]);
        } else {
            assert(actions[asked.len() as int] == action);
        }
    }
}

/// The pointer is published only after every chunk of the manifest has
/// been written with content that its identifier stands for: whatever the
/// outside world hands back, when the install asks to publish, it has asked
/// before, for every entry, to write verified content as the entry's chunk.
pub proof fn lemma_published_after_all_chunks(
    name: Seq<char>,
    events: Seq<InstallEventView>,
    e: InstallEventView,
)
    requires
        install_next(install_run(name, events), e).1 is Publish,
    ensures
        install_run(name, events).stored.len() == install_run(name, events).files.len(),
        forall|k: int|
            0 <= k < install_run(name, events).files.len() ==> chunk_id(
                #[trigger] install_run(name, events).stored[k],
            ) == install_run(name, events).files[k].1 && wrote(
                install_actions(name, events),
                install_run(name, events).files[k].1,
                install_run(name, events).stored[k],
            ),
{
    lemma_run_consistent(name, events);
    assert forall|k: int| 0 <= k < install_run(name, events).files.len() implies wrote(
        install_actions(name, events),
        install_run(name, events).files[k].1,
        #[trigger] install_run(name, events).stored[k],
    ) by {
        lemma_stored_was_written(name, events, k);
    }
}

/// Whether, in the course of the events, the link of entry `k` of the
/// manifest `manifest` with the entries `files` came to be in place: it was
/// found to exist, or it was asked for and made.
pub open spec fn link_settled(
    name: Seq<char>,
    events: Seq<InstallEventView>,
    manifest: Seq<char>,
    files: Seq<EntryView>,
    k: int,
) -> bool {
    exists|m: int|
        0 <= m < events.len() && link_settled_at(
            install_run(name, events.take(m)),
            #[trigger] events[m],
            manifest,
            files,
            k,
        )
}

/// Whether the event `e`, arriving in state `s`, puts the link of entry `k` in place.
pub open spec fn link_settled_at(
    s: InstallStateView,
    e: InstallEventView,
    manifest: Seq<char>,
    files: Seq<EntryView>,
    k: int,
) -> bool {
    &&& s.manifest == manifest
    &&& s.files == files
    &&& s.index == k
    &&& (s.phase == InstallPhase::Probing && e == (InstallEventView::Exists { present: true })
        || s.phase == InstallPhase::Linking && e == InstallEventView::Done)
}

/// How many links are in place in a state: those of the entries before the
/// current one while the links are made, and all of them after that.
pub open spec fn links_done(s: InstallStateView) -> nat {
    match s.phase {
        InstallPhase::Probing | InstallPhase::Linking => s.index,
        InstallPhase::Listing | InstallPhase::Publishing => s.files.len(),
        _ => 0,
    }
}

/// What has come to be in place stays in place when more events arrive.
pub proof fn lemma_link_stays_settled(
    name: Seq<char>,
    events: Seq<InstallEventView>,
    manifest: Seq<char>,
    files: Seq<EntryView>,
    k: int,
)
    requires
        events.len() > 0,
        link_settled(name, events.drop_last(), manifest, files, k),
    ensures
        link_settled(name, events, manifest, files, k),
{
    let earlier = events.drop_last();
    let m = choose|m: int|
        0 <= m < earlier.len() && link_settled_at(
            install_run(name, earlier.take(m)),
            #[trigger] earlier[m],
            manifest,
            files,
            k,
        );
    assert(earlier.take(m) == events.take(m));
    assert(events[m] == earlier[m]);
}

/// One event puts at most one link in place, the next one, and changes
/// nothing of the manifest while links are in place.
#[verifier::rlimit(50)]
pub proof fn lemma_step_links(s: InstallStateView, e: InstallEventView)
    requires
        consistent(s),
    ensures
        links_done(install_next(s, e).0) <= links_done(s) + 1,
        links_done(install_next(s, e).0) > 0 && links_done(s) > 0 ==> install_next(s, e).0.manifest
            == s.manifest && install_next(s, e).0.files == s.files,
        links_done(install_next(s, e).0) > links_done(s) ==> link_settled_at(
            s,
            e,
            install_next(s, e).0.manifest,
            install_next(s, e).0.files,
            links_done(s) as int,
        ),
{
}

/// Every link that counts as in place was found to exist, or was asked for
/// and made, in the course of the events.
#[verifier::rlimit(50)]
pub proof fn lemma_links_settled(name: Seq<char>, events: Seq<InstallEventView>, k: int)
    requires
        0 <= k < links_done(install_run(name, events)),
    ensures
        link_settled(
            name,
            events,
            install_run(name, events).manifest,
            install_run(name, events).files,
            k,
        ),
    decreases events.len(),
{
    if events.len() > 0 {
        let earlier = events.drop_last();
        let before = install_run(name, earlier);
        let after = install_run(name, events);
        lemma_run_consistent(name, earlier);
        lemma_step_links(before, events.last());
        assert(events.take(earlier.len() as int) == earlier);
        if k < links_done(before) {
            lemma_links_settled(name, earlier, k);
            lemma_link_stays_settled(name, events, after.manifest, after.files, k);
        } else {
            assert(link_settled_at(
                before,
                events[earlier.len() as int],
                after.manifest,
                after.files,
                k,
            ));
        }
    }
}

/// The pointer is published only after the link of every entry of the
/// manifest is in place, and only for the manifest that the registry names
/// for the artifact.
#[verifier::rlimit(50)]
pub proof fn lemma_published_after_all_links(
    name: Seq<char>,
    events: Seq<InstallEventView>,
    e: InstallEventView,
)
    requires
        install_next(install_run(name, events), e).1 is Publish,
    ensures
        forall|k: int|
            0 <= k < install_run(name, events).files.len() ==> #[trigger] link_settled(
                name,
                events,
                install_run(name, events).manifest,
                install_run(name, events).files,
                k,
            ),
        install_next(install_run(name, events), e).1->Publish_target == manifest_path(
            install_run(name, events).manifest,
        ),
        install_next(install_run(name, events), e).1->Publish_pointer == pointer_path(name),
        registry_named(name, events, install_run(name, events).manifest),
{
    lemma_run_name(name, events);
    lemma_manifest_is_registered(name, events);
    assert forall|k: int| 0 <= k < install_run(name, events).files.len() implies #[trigger] link_settled(
        name,
        events,
        install_run(name, events).manifest,
        install_run(name, events).files,
        k,
    ) by {
        lemma_links_settled(name, events, k);
    }
}

/// The install of an artifact stays the install of that artifact.
pub proof fn lemma_run_name(name: Seq<char>, events: Seq<InstallEventView>)
    ensures
        install_run(name, events).name == name,
    decreases events.len(),
{
    if events.len() > 0 {
        lemma_run_name(name, events.drop_last());
    }
}

/// Whether, in the course of the events, the registry was read and named
/// `manifest` for the artifact.
pub open spec fn registry_named(
    name: Seq<char>,
    events: Seq<InstallEventView>,
    manifest: Seq<char>,
) -> bool {
    exists|m: int|
        0 <= m < events.len() && registry_names(
            install_run(name, events.take(m)),
            #[trigger] events[m],
            manifest,
        )
}

/// Whether the event `e`, arriving in state `s`, is the registry, and names
/// `manifest` for the artifact of the install.
pub open spec fn registry_names(s: InstallStateView, e: InstallEventView, manifest: Seq<char>) -> bool {
    &&& s.phase == InstallPhase::Registry
    &&& e is Registry
    &&& well_formed(e->contents)
    &&& lookup(records(e->contents), s.name) == Some(manifest)
}

/// Whether the manifest of the install is known in the given phase.
pub open spec fn manifest_known(phase: InstallPhase) -> bool {
    phase != InstallPhase::Start && phase != InstallPhase::Registry && phase != InstallPhase::Over
}

/// The manifest of the install becomes known when the registry names it,
/// and does not change after that.
#[verifier::rlimit(50)]
pub proof fn lemma_step_manifest(s: InstallStateView, e: InstallEventView)
    ensures
        manifest_known(install_next(s, e).0.phase) ==> if s.phase == InstallPhase::Registry {
            registry_names(s, e, install_next(s, e).0.manifest)
        } else {
            manifest_known(s.phase) && install_next(s, e).0.manifest == s.manifest
        },
{
}

/// Once the registry has been read, the manifest of the install is the one
/// that the registry names for the artifact.
#[verifier::rlimit(50)]
pub proof fn lemma_manifest_is_registered(name: Seq<char>, events: Seq<InstallEventView>)
    requires
        manifest_known(install_run(name, events).phase),
    ensures
        registry_named(name, events, install_run(name, events).manifest),
    decreases events.len(),
{
    if events.len() > 0 {
        let earlier = events.drop_last();
        let before = install_run(name, earlier);
        lemma_run_name(name, earlier);
        lemma_step_manifest(before, events.last());
        assert(events.take(earlier.len() as int) == earlier);
        if before.phase == InstallPhase::Registry {
            assert(registry_names(
                before,
                events[earlier.len() as int],
                install_run(name, events).manifest,
            ));
        } else {
            lemma_manifest_is_registered(name, earlier);
            let m = choose|m: int|
                0 <= m < earlier.len() && registry_names(
                    install_run(name, earlier.take(m)),
                    #[trigger] earlier[m],
                    before.manifest,
                );
            assert(earlier.take(m) == events.take(m));
            assert(events[m] == earlier[m]);
        }
    }
}

/// An install that is over stays over: whatever arrives, nothing more is asked.
pub proof fn lemma_over_stays_over(s: InstallStateView, e: InstallEventView)
    requires
        s.phase == InstallPhase::Over,
    ensures
        install_next(s, e) == (s, InstallActionView::Abort { error: out_of_turn() }),
{
}

/// A chunk made of some content, stored under the identifier of that
/// content, installs as that content.
pub proof fn lemma_built_chunk_installs(content: Seq<u8>, compressed: Seq<u8>)
    requires
        zstd_content(compressed) == Some(content),
    ensures
        verified_content(chunk_id(content), compressed) == Some(content),
{
}

} // verus!
