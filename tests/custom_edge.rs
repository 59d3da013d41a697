use ghost_graph::edge::EdgeTrait;
use ghost_graph::ghost::GhostToken;
use ghost_graph::{EdgeId, Graph, GraphError, Vertex, VertexId};

/// An edge type that refuses any edge whose id is 1 or more: a graph of it
/// holds one edge at most.
struct FirstOnly<'id>(u32, VertexId<'id>, VertexId<'id>);

#[derive(Debug, PartialEq)]
struct Full(usize);

impl<'id> EdgeTrait<'id, u32> for FirstOnly<'id> {
    type Error = Full;

    fn first(&self) -> usize {
        self.1.id()
    }

    fn second(&self) -> usize {
        self.2.id()
    }

    fn weight(&self) -> u32 {
        self.0
    }

    fn admits(_weight: u32, _first: usize, _second: usize, id: usize) -> bool {
        id < 1
    }

    fn add_edge(
        weight: u32,
        first: VertexId<'id>,
        second: VertexId<'id>,
        id: EdgeId<'id>,
    ) -> Result<Self, Full> {
        if id.id() >= 1 {
            Err(Full(id.id()))
        } else {
            Ok(FirstOnly(weight, first, second))
        }
    }

    fn other(&self, id: VertexId<'id>) -> Option<VertexId<'id>> {
        if id == self.1 {
            Some(self.2)
        } else if id == self.2 {
            Some(self.1)
        } else {
            None
        }
    }

    fn get_weight(&self) -> &u32 {
        &self.0
    }

    fn get_weight_mut(&mut self) -> &mut u32 {
        &mut self.0
    }

    fn connects(&self, first: VertexId<'id>, second: VertexId<'id>) -> bool {
        (self.1 == first && self.2 == second) || (self.1 == second && self.2 == first)
    }
}

fn keep<'id, Item>(w: u32, _: &Vertex<'id, Item>, _: &Vertex<'id, Item>) -> u32 {
    w
}

#[test]
fn refused_edge_leaves_no_trace() {
    GhostToken::new(|mut t| {
        let mut graph: Graph<(), u32, FirstOnly> = Graph::new();
        let a = graph.add_vertex(());
        let b = graph.add_vertex(());
        let c = graph.add_vertex(());
        graph.add_edge(a, b, 1, keep, &mut t).unwrap();
        let r = graph.add_edge(b, c, 2, keep, &mut t);
        assert!(matches!(r, Err(GraphError::AddEdgeError(Full(1)))));
        assert_eq!(graph.edge_len(), 1);
        assert_eq!(graph.get_vertex(b).unwrap().g_borrow(&t).degree(), 1);
        assert_eq!(graph.get_vertex(c).unwrap().g_borrow(&t).degree(), 0);
    });
}
