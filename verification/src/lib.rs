//! Edit-decision pipeline for a non-destructive media editor.
//!
//! The pipeline turns the textual output of an external silence analyzer
//! into a timeline of silence intervals, turns user edit intent into a
//! validated edit decision list, and compiles that list into a trim/concat
//! filter plan for an external transcoder. All times are kept as integer
//! milliseconds so that interval arithmetic is exact.

use vstd::prelude::*;

pub mod detect;
pub mod dispatch;
pub mod edl;
pub mod filtergraph;
pub mod numbers;
pub mod sanitize;
pub mod timeline;
pub mod transcript;

verus! {

/// The interface's greeting line.
pub fn greet(name: &str) -> (r: String)
    ensures
        r@ == "Hello, "@ + name@ + "! Welcome to ClipFlow."@,
{
    let mut s = String::from_str("Hello, ");
    s.append(name);
    s.append("! Welcome to ClipFlow.");
    proof {
        assert(s@ =~= "Hello, "@ + name@ + "! Welcome to ClipFlow."@);
    }
    s
}

} // verus!
