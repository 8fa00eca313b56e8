use vstd::prelude::*;

use crate::name_map::NameMap;

verus! {

/// The ports that an external node is declared with.
pub struct ExternalNodeDescrption {
    pub inputs: Vec<String>,
    pub outputs: Vec<String>,
}

/// The declared external nodes, by name.
pub struct ExternalNodeDescrptions {
    pub nodes: NameMap<ExternalNodeDescrption>,
}

impl Default for ExternalNodeDescrptions {
    fn default() -> (d: Self)
        ensures
            d.nodes@ == Map::<Seq<char>, ExternalNodeDescrption>::empty(),
    {
        ExternalNodeDescrptions { nodes: NameMap::new() }
    }
}

} // verus!
