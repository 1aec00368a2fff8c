//! Fetching over HTTPS.
//!
//! This crate opens no connection. A caller that has a transport performs
//! the fetch that the resolver asks for; `download_file` is what a caller
//! without one falls back to.

use vstd::prelude::*;
use crate::error::{CasError, CasErrorView, ErrorKind};

verus! {

/// What a download reports where no transport is at hand.
pub open spec fn no_transport() -> Seq<char> {
    "Attempted to download from a HTTPS source, but HTTPS feature not enabled."@
}

/// Refuses to download `url` to `target_location`: nothing is fetched and
/// nothing is written. The failure reads, in words, as `no_transport`.
pub fn download_file(url: &str, target_location: &str) -> (r: Result<u64, CasError>)
    ensures
        r matches Err(e) && e@ == (CasErrorView { kind: ErrorKind::Io, detail: no_transport() }),
{
    Err(
        CasError::new(
            ErrorKind::Io,
            "Attempted to download from a HTTPS source, but HTTPS feature not enabled.".to_owned(),
        ),
    )
}

} // verus!
