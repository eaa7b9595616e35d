use vstd::prelude::*;
use crate::unit::{Node, SpecNode};

verus! {

/// The finished artifact of a parse: the ordered syntax trees of the
/// subject's top-level statements, ready for an analysis stage.
#[derive(Debug, Clone)]
pub struct AST {
    pub nodes: Vec<Node>,
}

impl AST {
    pub fn new(nodes: Vec<Node>) -> (a: AST)
        ensures
            a.nodes == nodes,
    {
        AST { nodes }
    }

    /// The analysis stage: nothing is checked yet.
    pub fn analyse(&self) {
    }
}

} // verus!
