//! A graph whose vertices and edges live in arenas owned by the graph and
//! are reached through session-branded ids. Reads and writes go through a
//! single capability, the [`ghost::GhostToken`] of the session.
use vstd::prelude::*;

pub mod ghost;
mod adjacency;
pub mod edge;
mod graph;
mod id;
mod shared;
mod vertex;

pub use id::{EdgeId, VertexId};
pub use graph::Graph;
pub use shared::Shared;
pub use vertex::Vertex;

verus! {

/// Why an operation on a [`Graph`] failed.
#[derive(Debug)]
pub enum GraphError<'id, Fail> {
    /// An edge that should be in an adjacency table is not: the graph's own
    /// bookkeeping has gone wrong.
    EdgeNotFound(EdgeId<'id>),
    /// No vertex of the graph has this id.
    VertexNotFound(VertexId<'id>),
    /// The two ends of an edge were asked to be the same vertex.
    IdenticalVertex(VertexId<'id>),
    /// The edge type refused to make the edge, for this reason.
    AddEdgeError(Fail),
    /// There is no edge between the two vertices.
    NoEdgeBetween,
    /// There already is an edge between the two vertices.
    AlreadyEdgeBetween,
}

} // verus!
