use ghost_graph::edge::{EdgeTrait, UnDirectedUnWeightedEdge, UnDirectedWeightedEdge};
use ghost_graph::ghost::GhostToken;
use ghost_graph::{EdgeId, Graph, GraphError, Vertex, VertexId};
use std::cell::Cell;

fn keep<'id, Item>(w: f64, _: &Vertex<'id, Item>, _: &Vertex<'id, Item>) -> f64 {
    w
}

fn degree<'id>(
    g: &Graph<'id, (), (), UnDirectedUnWeightedEdge<'id>>,
    v: VertexId<'id>,
    t: &GhostToken<'id>,
) -> usize {
    g.get_vertex(v).unwrap().g_borrow(t).degree()
}

fn unit<'id, Item>(_: (), _: &Vertex<'id, Item>, _: &Vertex<'id, Item>) {}

#[test]
fn vertex_ids_count_up_from_zero() {
    let mut graph: Graph<u32, (), UnDirectedUnWeightedEdge> = Graph::new();
    for i in 0..50usize {
        let id = graph.add_vertex(i as u32);
        assert_eq!(id.id(), i);
        assert_eq!(graph.vertex_len(), i + 1);
    }
    assert!(!graph.is_empty());
}

#[test]
fn self_loop_is_refused_and_changes_nothing() {
    GhostToken::new(|mut t| {
        let mut graph: Graph<(), f64, UnDirectedWeightedEdge<f64>> = Graph::new();
        let a = graph.add_vertex(());
        let b = graph.add_vertex(());
        graph.add_edge(a, b, 2.0, keep, &mut t).unwrap();
        let r = graph.add_edge(a, a, 3.0, keep, &mut t);
        assert!(matches!(r, Err(GraphError::IdenticalVertex(v)) if v == a));
        assert_eq!(graph.vertex_len(), 2);
        assert_eq!(graph.edge_len(), 1);
        assert_eq!(graph.get_vertex(a).unwrap().g_borrow(&t).degree(), 1);
        assert_eq!(graph.get_vertex(b).unwrap().g_borrow(&t).degree(), 1);
    });
}

#[test]
fn edge_to_missing_vertex_is_refused() {
    GhostToken::new(|mut t| {
        let mut graph: Graph<(), f64, UnDirectedWeightedEdge<f64>> = Graph::new();
        let a = graph.add_vertex(());
        let missing = VertexId::new(9);
        let r = graph.add_edge(a, missing, 1.0, keep, &mut t);
        assert!(matches!(r, Err(GraphError::VertexNotFound(v)) if v == missing));
        assert_eq!(graph.get_vertex(a).unwrap().g_borrow(&t).degree(), 0);
        let r = graph.add_edge(missing, a, 1.0, keep, &mut t);
        assert!(matches!(r, Err(GraphError::VertexNotFound(v)) if v == missing));
        assert_eq!(graph.edge_len(), 0);
    });
}

#[test]
fn added_edge_is_seen_from_both_ends() {
    GhostToken::new(|mut t| {
        let mut graph: Graph<(), f64, UnDirectedWeightedEdge<f64>> = Graph::new();
        let a = graph.add_vertex(());
        let b = graph.add_vertex(());
        let c = graph.add_vertex(());
        graph.add_edge(a, c, 1.0, keep, &mut t).unwrap();
        let e = graph.add_edge(a, b, 4.0, keep, &mut t).unwrap();
        assert!(graph.adjacent(a, b, &t).unwrap());
        assert!(graph.adjacent(b, a, &t).unwrap());
        assert!(!graph.adjacent(b, c, &t).unwrap());
        assert_eq!(graph.get_vertex(a).unwrap().g_borrow(&t).degree(), 2);
        assert_eq!(graph.get_vertex(b).unwrap().g_borrow(&t).degree(), 1);

        // Write through `a`'s entry, read through `b`'s.
        let from_a = graph.get_vertex(a).unwrap().g_borrow(&t).iter();
        let (edge_a, _) = *from_a.iter().find(|(_, n)| *n == b).unwrap();
        assert!(edge_a == e);
        *graph.get_weight_mut(edge_a, &mut t).unwrap() = 9.5;
        let from_b = graph.get_vertex(b).unwrap().g_borrow(&t).iter();
        assert_eq!(from_b.len(), 1);
        let (edge_b, other) = from_b[0];
        assert!(edge_b == e);
        assert!(other == a);
        assert_eq!(*graph.get_edge(edge_b).unwrap().get_weight(), 9.5);
    });
}

#[test]
fn second_edge_between_same_pair_is_refused() {
    GhostToken::new(|mut t| {
        let mut graph: Graph<(), f64, UnDirectedWeightedEdge<f64>> = Graph::new();
        let a = graph.add_vertex(());
        let b = graph.add_vertex(());
        graph.add_edge(a, b, 1.0, keep, &mut t).unwrap();
        let r = graph.add_edge(a, b, 2.0, keep, &mut t);
        assert!(matches!(r, Err(GraphError::AlreadyEdgeBetween)));
        let r = graph.add_edge(b, a, 2.0, keep, &mut t);
        assert!(matches!(r, Err(GraphError::AlreadyEdgeBetween)));
        assert_eq!(graph.edge_len(), 1);
        assert_eq!(graph.get_vertex(a).unwrap().g_borrow(&t).degree(), 1);
        assert_eq!(graph.get_vertex(b).unwrap().g_borrow(&t).degree(), 1);
    });
}

#[test]
fn failed_add_uses_no_edge_id() {
    GhostToken::new(|mut t| {
        let mut graph: Graph<(), f64, UnDirectedWeightedEdge<f64>> = Graph::new();
        let a = graph.add_vertex(());
        let b = graph.add_vertex(());
        let c = graph.add_vertex(());
        let e0 = graph.add_edge(a, b, 1.0, keep, &mut t).unwrap();
        assert!(graph.add_edge(a, a, 1.0, keep, &mut t).is_err());
        assert!(graph.add_edge(a, b, 1.0, keep, &mut t).is_err());
        let e1 = graph.add_edge(b, c, 1.0, keep, &mut t).unwrap();
        assert_eq!(e0.id(), 0);
        assert_eq!(e1.id(), 1);
    });
}

#[test]
fn removing_a_vertex_drops_its_edges() {
    GhostToken::new(|mut t| {
        let mut graph: Graph<(), f64, UnDirectedWeightedEdge<f64>> = Graph::new();
        let hub = graph.add_vertex(());
        let a = graph.add_vertex(());
        let b = graph.add_vertex(());
        let c = graph.add_vertex(());
        let e_ha = graph.add_edge(hub, a, 1.0, keep, &mut t).unwrap();
        graph.add_edge(b, hub, 1.0, keep, &mut t).unwrap();
        let e_ab = graph.add_edge(a, b, 1.0, keep, &mut t).unwrap();
        graph.add_edge(c, a, 1.0, keep, &mut t).unwrap();
        graph.remove(hub, &mut t).unwrap();
        assert_eq!(graph.vertex_len(), 3);
        assert_eq!(graph.edge_len(), 2);
        assert!(graph.get_vertex(hub).is_none());
        assert!(graph.get_edge(e_ha).is_none());
        assert!(graph.get_edge(e_ab).is_some());
        assert_eq!(graph.get_vertex(a).unwrap().g_borrow(&t).degree(), 2);
        assert_eq!(graph.get_vertex(b).unwrap().g_borrow(&t).degree(), 1);
        assert_eq!(graph.get_vertex(c).unwrap().g_borrow(&t).degree(), 1);
        let r = graph.remove(hub, &mut t);
        assert!(matches!(r, Err(GraphError::VertexNotFound(v)) if v == hub));
        assert!(matches!(graph.adjacent(hub, a, &t), Err(GraphError::VertexNotFound(v)) if v == hub));
        assert!(matches!(graph.adjacent(a, hub, &t), Err(GraphError::VertexNotFound(v)) if v == hub));
    });
}

#[test]
fn removing_a_missing_edge_changes_nothing() {
    GhostToken::new(|mut t| {
        let mut graph: Graph<(), f64, UnDirectedWeightedEdge<f64>> = Graph::new();
        let a = graph.add_vertex(());
        let b = graph.add_vertex(());
        let c = graph.add_vertex(());
        graph.add_edge(a, b, 1.0, keep, &mut t).unwrap();
        let r = graph.remove_edge_between(a, c, &mut t);
        assert!(matches!(r, Err(GraphError::NoEdgeBetween)));
        let r = graph.remove_edge_between(a, a, &mut t);
        assert!(matches!(r, Err(GraphError::NoEdgeBetween)));
        let r = graph.remove_edge_between(a, VertexId::new(7), &mut t);
        assert!(matches!(r, Err(GraphError::VertexNotFound(v)) if v.id() == 7));
        assert_eq!(graph.edge_len(), 1);
        assert_eq!(graph.get_vertex(a).unwrap().g_borrow(&t).degree(), 1);
        assert_eq!(graph.get_vertex(b).unwrap().g_borrow(&t).degree(), 1);
        assert_eq!(graph.get_vertex(c).unwrap().g_borrow(&t).degree(), 0);
        graph.remove_edge_between(b, a, &mut t).unwrap();
        assert_eq!(graph.edge_len(), 0);
        assert!(!graph.adjacent(a, b, &t).unwrap());
    });
}

#[test]
fn vertex_ids_are_not_reused() {
    GhostToken::new(|mut t| {
        let mut graph: Graph<(), (), UnDirectedUnWeightedEdge> = Graph::new();
        let v0 = graph.add_vertex(());
        let v1 = graph.add_vertex(());
        let v2 = graph.add_vertex(());
        assert_eq!((v0.id(), v1.id(), v2.id()), (0, 1, 2));
        graph.remove(v1, &mut t).unwrap();
        let v3 = graph.add_vertex(());
        assert_eq!(v3.id(), 3);
        assert!(graph.get_vertex(v1).is_none());
        let live: Vec<usize> = graph.vertices().iter().map(|v| v.id()).collect();
        assert_eq!(live, vec![0, 2, 3]);
    });
}

#[test]
fn clear_empties_the_graph() {
    GhostToken::new(|mut t| {
        let mut graph: Graph<(), (), UnDirectedUnWeightedEdge> = Graph::new();
        let a = graph.add_vertex(());
        let b = graph.add_vertex(());
        let e = graph.add_edge(a, b, (), unit, &mut t).unwrap();
        graph.clear();
        assert_eq!(graph.vertex_len(), 0);
        assert_eq!(graph.edge_len(), 0);
        assert!(graph.is_empty());
        assert!(graph.get_vertex(a).is_none());
        assert!(graph.get_vertex(b).is_none());
        assert!(graph.get_edge(e).is_none());
        graph.clear();
        assert!(graph.is_empty());
        assert_eq!(graph.add_vertex(()).id(), 0);
    });
}

#[test]
fn path_of_three_then_remove_middle() {
    GhostToken::new(|mut t| {
        let mut graph: Graph<(), (), UnDirectedUnWeightedEdge> = Graph::new();
        let v0 = graph.add_vertex(());
        let v1 = graph.add_vertex(());
        let v2 = graph.add_vertex(());
        graph.add_edge(v0, v1, (), unit, &mut t).unwrap();
        graph.add_edge(v1, v2, (), unit, &mut t).unwrap();
        assert_eq!(
            (degree(&graph, v0, &t), degree(&graph, v1, &t), degree(&graph, v2, &t)),
            (1, 2, 1)
        );
        graph.remove(v1, &mut t).unwrap();
        assert_eq!((degree(&graph, v0, &t), degree(&graph, v2, &t)), (0, 0));
        assert!(graph.get_vertex(v1).is_none());
    });
}

#[test]
fn upsert_updates_the_shared_edge_once() {
    GhostToken::new(|mut t| {
        let mut graph: Graph<i32, i32, UnDirectedWeightedEdge<i32>> = Graph::new();
        let a = graph.add_vertex(10);
        let b = graph.add_vertex(32);
        let calls = Cell::new(0);
        let sum = |k: i32, x: &Vertex<i32>, y: &Vertex<i32>| {
            calls.set(calls.get() + 1);
            k * (x.get_item() + y.get_item())
        };
        let e = graph.create_or_update_edge_between(a, b, 1, &sum, &mut t).unwrap();
        assert_eq!(calls.get(), 1);
        assert_eq!(*graph.get_edge(e).unwrap().get_weight(), 42);
        let again = graph.create_or_update_edge_between(b, a, 2, &sum, &mut t).unwrap();
        assert_eq!(calls.get(), 2);
        assert!(again == e);
        assert_eq!(graph.edge_len(), 1);
        assert_eq!(*graph.get_edge(e).unwrap().get_weight(), 84);
        assert_eq!(graph.get_vertex(a).unwrap().g_borrow(&t).degree(), 1);
        let r = graph.create_or_update_edge_between(a, a, 1, &sum, &mut t);
        assert!(matches!(r, Err(GraphError::IdenticalVertex(_))));
        let r = graph.create_or_update_edge_between(a, VertexId::new(5), 1, &sum, &mut t);
        assert!(matches!(r, Err(GraphError::VertexNotFound(v)) if v.id() == 5));
        assert_eq!(calls.get(), 2);
    });
}

#[test]
fn items_can_be_rewritten() {
    GhostToken::new(|mut t| {
        let mut graph: Graph<u64, (), UnDirectedUnWeightedEdge> = Graph::new();
        let a = graph.add_vertex(5);
        *graph.get_item_mut(a, &mut t).unwrap() += 10;
        assert_eq!(*graph.get_vertex(a).unwrap().g_borrow(&t).get_item(), 15);
        assert!(graph.get_item_mut(VertexId::new(3), &mut t).is_none());
        assert!(graph.get_weight_mut(EdgeId::new(0), &mut t).is_none());
    });
}

#[test]
fn edge_ids_compare_by_number() {
    assert!(EdgeId::new(3) == EdgeId::new(3));
    assert!(EdgeId::new(3) != EdgeId::new(4));
    assert!(VertexId::new(1) != VertexId::new(2));
    assert_eq!(EdgeId::new(8).id(), 8);
    let default_graph: Graph<(), (), UnDirectedUnWeightedEdge> = Graph::default();
    assert!(default_graph.is_empty());
}
