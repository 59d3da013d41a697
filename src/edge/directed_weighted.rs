use crate::edge::EdgeTrait;
use crate::id::{EdgeId, VertexId};
use core::convert::Infallible;
use vstd::prelude::*;

verus! {

/// A directed edge from a sender to a receiver, with a weight.
pub struct DirectedWeightedEdge<'id, Weight>(pub Weight, VertexId<'id>, VertexId<'id>);

impl<'id, Weight> DirectedWeightedEdge<'id, Weight> {
    /// The sender of the edge.
    pub fn sender(&self) -> (r: VertexId<'id>)
        ensures
            r@ == self.first(),
    {
        self.1
    }

    /// The receiver of the edge.
    pub fn receiver(&self) -> (r: VertexId<'id>)
        ensures
            r@ == self.second(),
    {
        self.2
    }
}

impl<'id, Weight> EdgeTrait<'id, Weight> for DirectedWeightedEdge<'id, Weight> {
    type Error = Infallible;

    closed spec fn first(&self) -> usize {
        self.1@
    }

    closed spec fn second(&self) -> usize {
        self.2@
    }

    closed spec fn weight(&self) -> Weight {
        self.0
    }

    /// Every edge is accepted.
    open spec fn admits(weight: Weight, first: usize, second: usize, id: usize) -> bool {
        true
    }

    fn add_edge(
        weight: Weight,
        first: VertexId<'id>,
        second: VertexId<'id>,
        _id: EdgeId<'id>,
    ) -> (r: Result<Self, Self::Error>) {
        Ok(DirectedWeightedEdge(weight, first, second))
    }

    fn other(&self, id: VertexId<'id>) -> (r: Option<VertexId<'id>>) {
        if id.id() == self.1.id() {
            Some(self.2)
        } else if id.id() == self.2.id() {
            Some(self.1)
        } else {
            None
        }
    }

    fn get_weight(&self) -> (r: &Weight) {
        &self.0
    }

    fn get_weight_mut(&mut self) -> (r: &mut Weight) {
        &mut self.0
    }

    fn connects(&self, first: VertexId<'id>, second: VertexId<'id>) -> (r: bool) {
        (self.1.id() == first.id() && self.2.id() == second.id()) || (self.1.id() == second.id()
            && self.2.id() == first.id())
    }
}

} // verus!
