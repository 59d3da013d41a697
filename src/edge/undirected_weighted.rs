use crate::edge::EdgeTrait;
use crate::id::{EdgeId, VertexId};
use core::convert::Infallible;
use vstd::prelude::*;

verus! {

/// An undirected edge between two vertices, with a weight.
pub struct UnDirectedWeightedEdge<'id, Weight>(pub Weight, VertexId<'id>, VertexId<'id>);

impl<'id, Weight> EdgeTrait<'id, Weight> for UnDirectedWeightedEdge<'id, Weight> {
    type Error = Infallible;

    closed spec fn first(&self) -> usize {
        self.1@
    }

    closed spec fn second(&self) -> usize {
        self.2@
    }

    closed spec fn weight(&self) -> Weight {
        self.0
    }

    /// Every edge is accepted.
    open spec fn admits(weight: Weight, first: usize, second: usize, id: usize) -> bool {
        true
    }

    fn add_edge(
        weight: Weight,
        first: VertexId<'id>,
        second: VertexId<'id>,
        _id: EdgeId<'id>,
    ) -> (r: Result<Self, Self::Error>) {
        Ok(UnDirectedWeightedEdge(weight, first, second))
    }

    fn other(&self, id: VertexId<'id>) -> (r: Option<VertexId<'id>>) {
        if id.id() == self.1.id() {
            Some(self.2)
        } else if id.id() == self.2.id() {
            Some(self.1)
        } else {
            None
        }
    }

    fn get_weight(&self) -> (r: &Weight) {
        &self.0
    }

    fn get_weight_mut(&mut self) -> (r: &mut Weight) {
        &mut self.0
    }

    fn connects(&self, first: VertexId<'id>, second: VertexId<'id>) -> (r: bool) {
        (self.1.id() == first.id() && self.2.id() == second.id()) || (self.1.id() == second.id()
            && self.2.id() == first.id())
    }
}

} // verus!
