use crate::ghost::InvariantLifetime;
use vstd::prelude::*;

verus! {

/// The id of a [`Vertex`](crate::Vertex) within a [`Graph`](crate::Graph).
///
/// Ids are handed out in increasing order and never reused: removing a
/// vertex leaves a gap, and the next vertex gets the next unused id.
#[derive(Clone, Copy, Debug, Hash)]
pub struct VertexId<'id> {
    id: usize,
    _marker: InvariantLifetime<'id>,
}

impl<'id> View for VertexId<'id> {
    type V = usize;

    closed spec fn view(&self) -> usize {
        self.id
    }
}

impl<'id> VertexId<'id> {
    /// Makes the id with the given number.
    pub fn new(id: usize) -> (r: Self)
        ensures
            r@ == id,
    {
        VertexId { id, _marker: InvariantLifetime::new() }
    }

    /// The number of this id.
    pub fn id(self) -> (r: usize)
        ensures
            r == self@,
    {
        self.id
    }
}

impl<'id> PartialEq for VertexId<'id> {
    fn eq(&self, other: &Self) -> (r: bool) {
        self.id == other.id
    }
}

impl<'id> vstd::std_specs::cmp::PartialEqSpecImpl for VertexId<'id> {
    open spec fn obeys_eq_spec() -> bool {
        true
    }

    open spec fn eq_spec(&self, other: &Self) -> bool {
        self@ == other@
    }
}

impl<'id> Eq for VertexId<'id> {
}

/// The id of an edge within a [`Graph`](crate::Graph), counted apart from
/// the vertex ids.
#[derive(Clone, Copy, Debug, Hash)]
pub struct EdgeId<'id> {
    pub id: usize,
    _marker: InvariantLifetime<'id>,
}

impl<'id> View for EdgeId<'id> {
    type V = usize;

    closed spec fn view(&self) -> usize {
        self.id
    }
}

impl<'id> EdgeId<'id> {
    /// Makes the id with the given number.
    pub fn new(id: usize) -> (r: Self)
        ensures
            r@ == id,
    {
        EdgeId { id, _marker: InvariantLifetime::new() }
    }

    /// The number of this id.
    pub fn id(self) -> (r: usize)
        ensures
            r == self@,
    {
        self.id
    }
}

impl<'id> PartialEq for EdgeId<'id> {
    fn eq(&self, other: &Self) -> (r: bool) {
        self.id == other.id
    }
}

impl<'id> vstd::std_specs::cmp::PartialEqSpecImpl for EdgeId<'id> {
    open spec fn obeys_eq_spec() -> bool {
        true
    }

    open spec fn eq_spec(&self, other: &Self) -> bool {
        self@ == other@
    }
}

impl<'id> Eq for EdgeId<'id> {
}

} // verus!
