//! Cleans tracking parameters, tracker-encoded fragments, and known
//! redirect-wrapper indirection out of URLs, driven by a layered rule set:
//! a built-in baseline overlaid with user-supplied rules. The matching,
//! precedence and unwrapping logic is specified and verified; the `url`,
//! `globset` and `percent-encoding` crates are called through the trusted
//! boundary in `outside`.

use vstd::prelude::*;

pub mod cleaner;
pub mod laws;
pub mod outside;
pub mod rules;
pub mod text;

verus! {

/// How a cleaning request can fail.
///
/// An invalid URL is a per-item failure: a batch caller skips the item and
/// goes on. An invalid glob pattern in the active rules is fatal, since a
/// silently dropped rule would silently disable tracker removal. The hop
/// limit guards the recursive unwrapping of redirector chains.
#[derive(Debug, Clone)]
pub enum CleanError {
    /// The input does not parse as an absolute URL; carries the raw input.
    InvalidUrl(String),
    /// A wildcard pattern in the active rules is malformed; carries it.
    InvalidGlobPattern(String),
    /// A chain of redirect wrappers exceeded the hop limit.
    TooManyRedirects,
}

} // verus!
