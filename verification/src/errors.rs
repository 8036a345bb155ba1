//! Error carrier and the splitting of tagged error messages into their
//! bare tag and their human-readable head.

use vstd::prelude::*;

use crate::text::spec_split;
use crate::text::split_char;

verus! {

/// A terminal error of the service, carrying its tagged message.
pub struct HopperError(pub String);

impl HopperError {
    pub fn new(message: String) -> (r: Self)
        ensures
            r.0@ == message@,
    {
        HopperError(message)
    }

    /// The tagged message carried by this error.
    pub fn message(&self) -> (r: &str)
        ensures
            r@ == self.0@,
    {
        self.0.as_str()
    }
}

/// Splits a tagged error message into the bare tag — the text before the
/// first space — and the partial form — the text before the first colon.
pub fn expand_error(err: &str) -> (r: (String, String))
    ensures
        r.0@ == spec_split(err@, ' ')[0],
        r.1@ == spec_split(err@, ':')[0],
{
    let by_space = split_char(err, ' ');
    let by_colon = split_char(err, ':');
    let bare = by_space[0].clone();
    let partial = by_colon[0].clone();
    proof {
        assert(by_space@.map_values(|p: String| p@)[0] == by_space@[0]@);
        assert(by_colon@.map_values(|p: String| p@)[0] == by_colon@[0]@);
    }
    (bare, partial)
}

} // verus!
