//! The failures this crate reports.

use vstd::prelude::*;

verus! {

/// What went wrong.
#[derive(Clone, Copy, Debug, PartialEq, Eq, Structural)]
pub enum ErrorKind {
    /// The place where a repository or a store was to be created is taken.
    AlreadyExists,
    /// A name is not registered, or no source holds the content asked for.
    NotFound,
    /// A registry line has no separator, or a manifest cannot be read.
    Malformed,
    /// A chunk does not have the content its identifier stands for.
    IntegrityFailure,
    /// The filesystem, the network or the codec failed.
    Io,
}

/// A failure: its kind, and what it is about: a path, a name, an
/// identifier, or the words for what is malformed or what failed.
#[derive(Clone, Debug, PartialEq, Eq)]
pub struct CasError {
    pub kind: ErrorKind,
    pub detail: String,
}

/// A failure as a value.
pub struct CasErrorView {
    pub kind: ErrorKind,
    pub detail: Seq<char>,
}

impl View for CasError {
    type V = CasErrorView;

    open spec fn view(&self) -> CasErrorView {
        CasErrorView { kind: self.kind, detail: self.detail@ }
    }
}

/// The words that introduce a failure of the given kind. A malformed input
/// and a failure of the filesystem, the network or the codec are introduced
/// by no words: the detail says in full what failed, and how.
pub open spec fn kind_text(kind: ErrorKind) -> Seq<char> {
    match kind {
        ErrorKind::AlreadyExists => "Already exists! "@,
        ErrorKind::NotFound => "Not found: "@,
        ErrorKind::Malformed => Seq::empty(),
        ErrorKind::IntegrityFailure => "Unable to verify hash: "@,
        ErrorKind::Io => Seq::empty(),
    }
}

/// The failure of an event that does not answer what was asked.
pub open spec fn out_of_turn() -> CasErrorView {
    CasErrorView { kind: ErrorKind::Io, detail: "an event arrived that answers no pending step"@ }
}

impl CasError {
    /// A failure of the given kind about `detail`.
    pub fn new(kind: ErrorKind, detail: String) -> (e: CasError)
        ensures
            e@ == (CasErrorView { kind, detail: detail@ }),
    {
        CasError { kind, detail }
    }

    /// The failure of an event that does not answer what was asked.
    pub fn out_of_turn() -> (e: CasError)
        ensures
            e@ == out_of_turn(),
    {
        CasError {
            kind: ErrorKind::Io,
            detail: "an event arrived that answers no pending step".to_owned(),
        }
    }

    /// The failure in words: what kind it is, then what it is about. A
    /// failure of a kind that is introduced by no words reads as its detail.
    pub fn message(&self) -> (text: String)
        ensures
            text@ == kind_text(self.kind) + self.detail@,
            self.kind == ErrorKind::Malformed || self.kind == ErrorKind::Io ==> text@
                == self.detail@,
    {
        let mut text = match self.kind {
            ErrorKind::AlreadyExists => "Already exists! ".to_owned(),
            ErrorKind::NotFound => "Not found: ".to_owned(),
            ErrorKind::Malformed => String::new(),
            ErrorKind::IntegrityFailure => "Unable to verify hash: ".to_owned(),
            ErrorKind::Io => String::new(),
        };
        text.append(self.detail.as_str());
        assert(Seq::<char>::empty() + self.detail@ == self.detail@);
        text
    }
}

} // verus!
