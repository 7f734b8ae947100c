//! The testing route: a fixed response, pinned down exactly.

use vstd::prelude::*;

verus! {

/// The testing route's response: the teapot status code and its body.
pub fn teapot() -> (r: (u16, &'static str))
    ensures
        r.0 == 418,
        r.1@ == "Error 418: I'm short and stout!"@,
{
    (418, "Error 418: I'm short and stout!")
}

} // verus!
