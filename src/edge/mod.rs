use crate::id::{EdgeId, VertexId};
use vstd::prelude::*;

mod directed_weighted;
mod undirected_weighted;

pub use directed_weighted::DirectedWeightedEdge;
pub use undirected_weighted::UnDirectedWeightedEdge;

verus! {

/// An undirected edge between two vertices, with no weight.
pub type UnDirectedUnWeightedEdge<'id> = UnDirectedWeightedEdge<'id, ()>;

/// What a [`Graph`](crate::Graph) asks of the edges it holds. An edge has
/// two ends and a weight; the graph enters it into the adjacency tables of
/// both ends once it has been made.
pub trait EdgeTrait<'id, Weight>: Sized {
    /// Why making an edge failed.
    type Error;

    /// The first end: the sender, for a directed edge.
    spec fn first(&self) -> usize;

    /// The second end: the receiver, for a directed edge.
    spec fn second(&self) -> usize;

    /// The weight of the edge.
    spec fn weight(&self) -> Weight;

    /// Whether the edge type accepts the edge `id` from `first` to `second`
    /// with this weight.
    spec fn admits(weight: Weight, first: usize, second: usize, id: usize) -> bool;

    /// Makes the edge `id` from `first` to `second` with the given weight,
    /// or says why it cannot be made.
    fn add_edge(
        weight: Weight,
        first: VertexId<'id>,
        second: VertexId<'id>,
        id: EdgeId<'id>,
    ) -> (r: Result<Self, Self::Error>)
        ensures
            r is Ok <==> Self::admits(weight, first@, second@, id@),
            r matches Ok(e) ==> e.first() == first@ && e.second() == second@ && e.weight()
                == weight,
    ;

    /// The end that is not `id`, or `None` where `id` is neither end.
    fn other(&self, id: VertexId<'id>) -> (r: Option<VertexId<'id>>)
        ensures
            id@ == self.first() ==> (r matches Some(v) && v@ == self.second()),
            id@ != self.first() && id@ == self.second() ==> (r matches Some(v) && v@
                == self.first()),
            id@ != self.first() && id@ != self.second() ==> r is None,
    ;

    /// The weight of the edge.
    fn get_weight(&self) -> (r: &Weight)
        ensures
            *r == self.weight(),
    ;

    /// The weight of the edge, for writing; the ends stay.
    fn get_weight_mut(&mut self) -> (r: &mut Weight)
        ensures
            *r == old(self).weight(),
            final(self).weight() == *final(r),
            final(self).first() == old(self).first(),
            final(self).second() == old(self).second(),
    ;

    /// Whether the two ends of the edge are `first` and `second`, in
    /// either order.
    fn connects(&self, first: VertexId<'id>, second: VertexId<'id>) -> (r: bool)
        ensures
            r == ((self.first() == first@ && self.second() == second@) || (self.first()
                == second@ && self.second() == first@)),
    ;
}

} // verus!
