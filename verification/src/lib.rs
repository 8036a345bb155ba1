//! Resolution engine for `at://` record identifiers.
//!
//! An AT-URI of the form `at://identity[/collection[/rkey]]` is parsed and
//! validated, candidate servers are consulted in order through their
//! discovery documents, the first matching URL template is expanded, and the
//! outcome is memoized in two capacity-bounded caches with asymmetric
//! time-to-live policies.

pub mod cache;
pub mod errors;
pub mod matching;
pub mod model;
pub mod resolve;
pub mod text;
pub mod webfinger;
pub mod webhostmeta;
