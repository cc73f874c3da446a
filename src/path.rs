//! A path through the search graph, from the start node to a terminal node.

use vstd::prelude::*;

verus! {

/// An ordered sequence of nodes, built once by reconstruction and never
/// changed afterwards.
#[derive(Clone, Debug)]
pub struct Path {
    nodes: Vec<u64>,
}

impl View for Path {
    type V = Seq<u64>;

    closed spec fn view(&self) -> Seq<u64> {
        self.nodes@
    }
}

impl Path {
    /// A path made of the given nodes, in order.
    pub fn from_nodes(nodes: Vec<u64>) -> (r: Path)
        ensures
            r@ == nodes@,
    {
        Path { nodes }
    }

    /// The path with no node in it.
    pub fn empty() -> (r: Path)
        ensures
            r@ == Seq::<u64>::empty(),
    {
        Path { nodes: Vec::new() }
    }

    /// The nodes of the path, first to last.
    pub fn nodes(&self) -> (r: &Vec<u64>)
        ensures
            r@ == self@,
    {
        &self.nodes
    }

    /// Number of nodes in the path.
    pub fn len(&self) -> (r: usize)
        ensures
            r == self@.len(),
    {
        self.nodes.len()
    }

    /// Whether the path holds no node.
    pub fn is_empty(&self) -> (r: bool)
        ensures
            r == (self@.len() == 0),
    {
        self.nodes.len() == 0
    }
}

} // verus!
