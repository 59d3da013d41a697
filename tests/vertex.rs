use ghost_graph::edge::UnDirectedWeightedEdge;
use ghost_graph::ghost::GhostToken;
use ghost_graph::Graph;

#[test]
fn can_get() {
    GhostToken::new(|t| {
        let mut graph: Graph<f64, (), UnDirectedWeightedEdge<()>> = Graph::new();

        let first_item = 15.7;

        let token = graph.add_vertex(first_item);

        let item = graph.get_vertex(token).unwrap();

        assert_eq!(*item.g_borrow(&t).get_item(), first_item);
    });
}
