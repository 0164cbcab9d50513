//! Rendering of a live execution snapshot: a control-flow graph annotated with
//! breakpoints and the current position, and source text with the executing
//! span marked inside its syntax highlighting.
use vstd::prelude::*;

pub mod graph;
pub mod highlight;
pub mod source;
pub mod text;

verus! {

} // verus!
