use vstd::prelude::*;

pub mod compile;
pub mod editor;
pub mod external_node_descriptions;
pub mod name_map;
pub mod runtime;
pub mod script;
pub mod simulation;

verus! {
} // verus!
