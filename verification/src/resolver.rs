//! Resolving a path of a repository to a file in the cache.
//!
//! What is in the cache is taken as it is. What is not is fetched from the
//! sources of the store, one after the other in their order, until one
//! delivers it. Where none does, the failure of each is reported.

use vstd::prelude::*;
use crate::error::{out_of_turn, CasError, CasErrorView, ErrorKind};
use crate::layout::{RepoType, Store};
use crate::text::chars_of;

verus! {

/// What a resolution is waiting for.
#[derive(Clone, Copy, Debug, PartialEq, Eq, Structural)]
pub enum ResolvePhase {
    /// Whether the cache holds the path.
    Start,
    /// Whether the current source has delivered it.
    Fetching,
    /// Nothing more: the resolution has ended.
    Over,
}

/// How far the resolution of one path has come.
pub struct ResolveState {
    kind: RepoType,
    repos: Vec<String>,
    path: String,
    phase: ResolvePhase,
    source: usize,
    reasons: Vec<String>,
}

/// The state of a resolution as a value.
pub struct ResolveStateView {
    /// How the sources are reached.
    pub kind: RepoType,
    /// The sources, in the order in which they are tried.
    pub repos: Seq<Seq<char>>,
    /// The path that is resolved.
    pub path: Seq<char>,
    /// What the resolution is waiting for.
    pub phase: ResolvePhase,
    /// The source that is being tried.
    pub source: nat,
    /// Why each source tried before it failed, in their order.
    pub reasons: Seq<Seq<char>>,
}

/// What the outside world hands back.
#[derive(Clone, Debug, PartialEq, Eq)]
pub enum ResolveEvent {
    /// The resolution is to begin; `cached` says whether the cache holds the path.
    Start { cached: bool },
    /// The source has delivered the path into the cache.
    Fetched,
    /// The source has failed, for the given reason.
    Failed { reason: String },
}

/// An event as a value.
pub enum ResolveEventView {
    Start { cached: bool },
    Fetched,
    Failed { reason: Seq<char> },
}

impl View for ResolveEvent {
    type V = ResolveEventView;

    open spec fn view(&self) -> ResolveEventView {
        match self {
            ResolveEvent::Start { cached } => ResolveEventView::Start { cached: *cached },
            ResolveEvent::Fetched => ResolveEventView::Fetched,
            ResolveEvent::Failed { reason } => ResolveEventView::Failed { reason: reason@ },
        }
    }
}

/// What the outside world is asked to do next.
#[derive(Clone, Debug, PartialEq, Eq)]
pub enum ResolveAction {
    /// Make the directories above `path` in the cache, then copy the file
    /// `path` of the directory `repo` to `path` in the cache.
    Copy { repo: String, path: String },
    /// Make the directories above `path` in the cache, then download `url`,
    /// which names `path` below the source, to `path` in the cache.
    Download { url: String, path: String },
    /// Nothing: the content is at `path` in the cache.
    Found { path: String },
    /// Nothing: the resolution has failed. `reasons` holds the failure of
    /// each source that was tried, in the order of the sources.
    Failed { error: CasError, reasons: Vec<String> },
}

/// An action as a value.
pub enum ResolveActionView {
    Copy { repo: Seq<char>, path: Seq<char> },
    Download { url: Seq<char>, path: Seq<char> },
    Found { path: Seq<char> },
    Failed { error: CasErrorView, reasons: Seq<Seq<char>> },
}

impl View for ResolveAction {
    type V = ResolveActionView;

    open spec fn view(&self) -> ResolveActionView {
        match self {
            ResolveAction::Copy { repo, path } => ResolveActionView::Copy {
                repo: repo@,
                path: path@,
            },
            ResolveAction::Download { url, path } => ResolveActionView::Download {
                url: url@,
                path: path@,
            },
            ResolveAction::Found { path } => ResolveActionView::Found { path: path@ },
            ResolveAction::Failed { error, reasons } => ResolveActionView::Failed {
                error: error@,
                reasons: reasons.deep_view(),
            },
        }
    }
}

/// The state of a resolution that has not begun.
pub open spec fn unresolved(kind: RepoType, repos: Seq<Seq<char>>, path: Seq<char>) -> ResolveStateView {
    ResolveStateView {
        kind,
        repos,
        path,
        phase: ResolvePhase::Start,
        source: 0,
        reasons: Seq::empty(),
    }
}

/// The address of `path` below the source `source`: the source, one `/`,
/// and the path. A source that ends in `/` gets no second one.
pub open spec fn source_url(source: Seq<char>, path: Seq<char>) -> Seq<char> {
    if source.len() > 0 && source.last() == '/' {
        source + path
    } else {
        source + "/"@ + path
    }
}

/// The action that fetches the path from source `i`.
pub open spec fn fetch_from(s: ResolveStateView, i: nat) -> ResolveActionView {
    match s.kind {
        RepoType::Local => ResolveActionView::Copy { repo: s.repos[i as int], path: s.path },
        RepoType::Https => ResolveActionView::Download {
            url: source_url(s.repos[i as int], s.path),
            path: s.path,
        },
    }
}

/// The failure of a path that no source delivers.
pub open spec fn not_delivered(path: Seq<char>) -> CasErrorView {
    CasErrorView { kind: ErrorKind::NotFound, detail: path }
}

/// What follows once the cache has been looked into.
pub open spec fn after_lookup(s: ResolveStateView, cached: bool) -> (
    ResolveStateView,
    ResolveActionView,
) {
    if cached {
        (
            ResolveStateView { phase: ResolvePhase::Over, ..s },
            ResolveActionView::Found { path: s.path },
        )
    } else if s.repos.len() == 0 {
        (
            ResolveStateView { phase: ResolvePhase::Over, ..s },
            ResolveActionView::Failed { error: not_delivered(s.path), reasons: s.reasons },
        )
    } else {
        (ResolveStateView { phase: ResolvePhase::Fetching, source: 0, ..s }, fetch_from(s, 0))
    }
}

/// What follows once the current source has failed.
pub open spec fn after_failure(s: ResolveStateView, reason: Seq<char>) -> (
    ResolveStateView,
    ResolveActionView,
) {
    let reasons = s.reasons.push(reason);
    if s.source + 1 < s.repos.len() {
        (ResolveStateView { source: s.source + 1, reasons, ..s }, fetch_from(s, s.source + 1))
    } else {
        (
            ResolveStateView { phase: ResolvePhase::Over, reasons, ..s },
            ResolveActionView::Failed { error: not_delivered(s.path), reasons },
        )
    }
}

/// The state and the action that follow when `e` arrives in state `s`.
pub open spec fn resolve_next(s: ResolveStateView, e: ResolveEventView) -> (
    ResolveStateView,
    ResolveActionView,
) {
    match (s.phase, e) {
        (ResolvePhase::Start, ResolveEventView::Start { cached }) => after_lookup(s, cached),
        (ResolvePhase::Fetching, ResolveEventView::Fetched) => (
            ResolveStateView { phase: ResolvePhase::Over, ..s },
            ResolveActionView::Found { path: s.path },
        ),
        (ResolvePhase::Fetching, ResolveEventView::Failed { reason }) => after_failure(s, reason),
        _ => (
            ResolveStateView { phase: ResolvePhase::Over, ..s },
            ResolveActionView::Failed { error: out_of_turn(), reasons: s.reasons },
        ),
    }
}

/// What holds of the state of every resolution: while a source is tried,
/// every source before it has failed and its reason is kept.
pub open spec fn orderly(s: ResolveStateView) -> bool {
    match s.phase {
        ResolvePhase::Start => s.source == 0 && s.reasons.len() == 0,
        ResolvePhase::Fetching => s.source < s.repos.len() && s.reasons.len() == s.source,
        ResolvePhase::Over => true,
    }
}

impl View for ResolveState {
    type V = ResolveStateView;

    closed spec fn view(&self) -> ResolveStateView {
        ResolveStateView {
            kind: self.kind,
            repos: self.repos.deep_view(),
            path: self.path@,
            phase: self.phase,
            source: self.source as nat,
            reasons: self.reasons.deep_view(),
        }
    }
}

fn copy_names(names: &Vec<String>) -> (r: Vec<String>)
    ensures
        r.deep_view() == names.deep_view(),
{
    let mut r: Vec<String> = Vec::new();
    let mut i: usize = 0;
    while i < names.len()
        invariant
            i <= names.len(),
            r.deep_view() == names.deep_view().take(i as int),
        decreases names.len() - i,
    {
        let ghost before = r.deep_view();
        r.push(names[i].clone());
        assert(r.deep_view() == before.push(names.deep_view()[i as int]));
        i += 1;
    }
    r
}

impl ResolveState {
    #[verifier::type_invariant]
    spec fn inv(self) -> bool {
        orderly(self@)
    }

    /// The state of the resolution of `path` in the sources of `store`,
    /// before it has begun.
    pub fn new(store: &Store, path: String) -> (s: ResolveState)
        ensures
            s@ == unresolved(store.kind, store.repos.deep_view(), path@),
            orderly(s@),
    {
        let reasons: Vec<String> = Vec::new();
        assert(reasons.deep_view() == Seq::<Seq<char>>::empty());
        ResolveState {
            kind: store.kind,
            repos: copy_names(&store.repos),
            path,
            phase: ResolvePhase::Start,
            source: 0,
            reasons,
        }
    }

    /// What the resolution is waiting for.
    pub fn phase(&self) -> (p: ResolvePhase)
        ensures
            p == self@.phase,
    {
        self.phase
    }
}

/// The address of `path` below the source `source`.
pub fn url_of(source: &str, path: &str) -> (url: String)
    ensures
        url@ == source_url(source@, path@),
{
    let v = chars_of(source);
    let mut url = source.to_owned();
    if v.len() == 0 || v[v.len() - 1] != '/' {
        url.append("/");
    }
    url.append(path);
    url
}

fn fetch_action(kind: RepoType, repos: &Vec<String>, i: usize, path: &String) -> (a: ResolveAction)
    requires
        i < repos.len(),
    ensures
        a@ == (match kind {
            RepoType::Local => ResolveActionView::Copy {
                repo: repos.deep_view()[i as int],
                path: path@,
            },
            RepoType::Https => ResolveActionView::Download {
                url: source_url(repos.deep_view()[i as int], path@),
                path: path@,
            },
        }),
{
    match kind {
        RepoType::Local => ResolveAction::Copy { repo: repos[i].clone(), path: path.clone() },
        RepoType::Https => ResolveAction::Download {
            url: url_of(repos[i].as_str(), path.as_str()),
            path: path.clone(),
        },
    }
}

/// Resolves a path, one step at a time: takes the state of the resolution
/// and what the outside world hands back, and gives the state that follows
/// and what to do next. The resolution begins in the state
/// `ResolveState::new` with the event `Start`, and is over with the action
/// `Found` or `Failed`.
pub fn resolve_repo_path(state: ResolveState, event: ResolveEvent) -> (r: (
    ResolveState,
    ResolveAction,
))
    ensures
        (r.0@, r.1@) == resolve_next(state@, event@),
        orderly(state@),
        orderly(r.0@),
{
    proof {
        use_type_invariant(&state);
    }
    let ResolveState { kind, repos, path, phase, source, reasons } = state;
    match (phase, event) {
        (ResolvePhase::Start, ResolveEvent::Start { cached }) => {
            if cached {
                let action = ResolveAction::Found { path: path.clone() };
                let next = ResolveState {
                    kind,
                    repos,
                    path,
                    phase: ResolvePhase::Over,
                    source,
                    reasons,
                };
                (next, action)
            } else if repos.len() == 0 {
                let error = CasError::new(ErrorKind::NotFound, path.clone());
                let action = ResolveAction::Failed { error, reasons: copy_names(&reasons) };
                let next = ResolveState {
                    kind,
                    repos,
                    path,
                    phase: ResolvePhase::Over,
                    source,
                    reasons,
                };
                (next, action)
            } else {
                let action = fetch_action(kind, &repos, 0, &path);
                let next = ResolveState {
                    kind,
                    repos,
                    path,
                    phase: ResolvePhase::Fetching,
                    source: 0,
                    reasons,
                };
                (next, action)
            }
        },
        (ResolvePhase::Fetching, ResolveEvent::Fetched) => {
            let action = ResolveAction::Found { path: path.clone() };
            let next = ResolveState {
                kind,
                repos,
                path,
                phase: ResolvePhase::Over,
                source,
                reasons,
            };
            (next, action)
        },
        (ResolvePhase::Fetching, ResolveEvent::Failed { reason }) => {
            let mut reasons = reasons;
            let ghost before = reasons.deep_view();
            reasons.push(reason);
            assert(reasons.deep_view() == before.push(reason@));
            if source + 1 < repos.len() {
                let action = fetch_action(kind, &repos, source + 1, &path);
                let next = ResolveState {
                    kind,
                    repos,
                    path,
                    phase: ResolvePhase::Fetching,
                    source: source + 1,
                    reasons,
                };
                (next, action)
            } else {
                let error = CasError::new(ErrorKind::NotFound, path.clone());
                let action = ResolveAction::Failed { error, reasons: copy_names(&reasons) };
                let next = ResolveState {
                    kind,
                    repos,
                    path,
                    phase: ResolvePhase::Over,
                    source,
                    reasons,
                };
                (next, action)
            }
        },
        _ => {
            let action = ResolveAction::Failed {
                error: CasError::out_of_turn(),
                reasons: copy_names(&reasons),
            };
            let next = ResolveState {
                kind,
                repos,
                path,
                phase: ResolvePhase::Over,
                source,
                reasons,
            };
            (next, action)
        },
    }
}

/// The state and the action after the sources tried first have failed for
/// the given reasons, one after the other, in a resolution that found
/// nothing in the cache.
pub open spec fn after_failures(s: ResolveStateView, reasons: Seq<Seq<char>>) -> (
    ResolveStateView,
    ResolveActionView,
)
    decreases reasons.len(),
{
    if reasons.len() == 0 {
        resolve_next(s, ResolveEventView::Start { cached: false })
    } else {
        resolve_next(
            after_failures(s, reasons.drop_last()).0,
            ResolveEventView::Failed { reason: reasons.last() },
        )
    }
}

/// What is in the cache is found at once, whatever the sources are.
pub proof fn lemma_cached_is_found(s: ResolveStateView)
    requires
        s.phase == ResolvePhase::Start,
    ensures
        resolve_next(s, ResolveEventView::Start { cached: true }).1 == (ResolveActionView::Found {
            path: s.path,
        }),
{
}

/// While fewer sources have failed than there are, the next source is
/// tried, and the reasons of those that failed are kept.
pub proof fn lemma_failures_go_on(s: ResolveStateView, reasons: Seq<Seq<char>>)
    requires
        s.phase == ResolvePhase::Start,
        s.source == 0,
        s.reasons.len() == 0,
        reasons.len() < s.repos.len(),
    ensures
        after_failures(s, reasons).0 == (ResolveStateView {
            phase: ResolvePhase::Fetching,
            source: reasons.len(),
            reasons,
            ..s
        }),
        after_failures(s, reasons).1 == fetch_from(s, reasons.len()),
    decreases reasons.len(),
{
    if reasons.len() == 0 {
        assert(s.reasons == reasons);
    } else {
        lemma_failures_go_on(s, reasons.drop_last());
        assert(reasons.drop_last().push(reasons.last()) == reasons);
    }
}

/// A source that delivers ends the resolution with success, however many
/// sources have failed before it.
pub proof fn lemma_later_source_delivers(s: ResolveStateView, reasons: Seq<Seq<char>>)
    requires
        s.phase == ResolvePhase::Start,
        s.source == 0,
        s.reasons.len() == 0,
        reasons.len() < s.repos.len(),
    ensures
        resolve_next(after_failures(s, reasons).0, ResolveEventView::Fetched).1 == (
        ResolveActionView::Found { path: s.path }),
{
    lemma_failures_go_on(s, reasons);
}

/// Where every source fails, the resolution fails, and reports the reason
/// of each source, in the order of the sources.
pub proof fn lemma_all_sources_fail(s: ResolveStateView, reasons: Seq<Seq<char>>)
    requires
        s.phase == ResolvePhase::Start,
        s.source == 0,
        s.reasons.len() == 0,
        reasons.len() == s.repos.len(),
    ensures
        after_failures(s, reasons).1 == (ResolveActionView::Failed {
            error: not_delivered(s.path),
            reasons,
        }),
{
    if reasons.len() == 0 {
        assert(s.reasons == reasons);
    } else {
        lemma_failures_go_on(s, reasons.drop_last());
        assert(reasons.drop_last().push(reasons.last()) == reasons);
    }
}

} // verus!
