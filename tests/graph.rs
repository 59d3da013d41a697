use ghost_graph::edge::{EdgeTrait, UnDirectedUnWeightedEdge, UnDirectedWeightedEdge};
use ghost_graph::ghost::GhostToken;
use ghost_graph::{Graph, Vertex};

fn keep<'id, Item>(w: f64, _: &Vertex<'id, Item>, _: &Vertex<'id, Item>) -> f64 {
    w
}

#[test]
fn make_empty() {
    let graph: Graph<(), (), UnDirectedUnWeightedEdge> = Graph::new();

    assert!(graph.is_empty());
}

#[test]
fn add_one() {
    let mut graph: Graph<(), (), UnDirectedUnWeightedEdge> = Graph::new();

    let id = graph.add_vertex(());

    assert_eq!(id.id(), 0);
    assert_eq!(graph.vertex_len(), 1);
}

#[test]
fn add_many() {
    let mut graph: Graph<(), (), UnDirectedUnWeightedEdge> = Graph::new();

    let x = 999_999;

    for _ in 0..x {
        graph.add_vertex(());
    }

    let id = graph.add_vertex(());

    assert_eq!(id.id(), x);
    assert_eq!(graph.vertex_len(), x + 1);
}

#[test]
fn add_edge() {
    GhostToken::new(|mut t| {
        let mut graph: Graph<usize, f64, UnDirectedWeightedEdge<f64>> = Graph::new();

        let first = graph.add_vertex(1);

        let second = graph.add_vertex(2);

        let third = graph.add_vertex(3);

        let weight = 1.;

        graph.add_edge(first, second, weight, keep, &mut t).unwrap();

        graph.add_edge(second, third, weight, keep, &mut t).unwrap();

        assert_eq!(graph.get_vertex(first).unwrap().g_borrow(&t).degree(), 1);
        assert_eq!(graph.get_vertex(second).unwrap().g_borrow(&t).degree(), 2);
        assert_eq!(graph.get_vertex(third).unwrap().g_borrow(&t).degree(), 1);
    });
}

#[test]
fn remove_edge_between() {
    GhostToken::new(|mut t| {
        let mut graph: Graph<(), f64, UnDirectedWeightedEdge<f64>> = Graph::new();

        let first = graph.add_vertex(());

        let second = graph.add_vertex(());

        let third = graph.add_vertex(());

        let weight = 1.;

        graph.add_edge(first, second, weight, keep, &mut t).unwrap();

        graph.add_edge(second, third, weight, keep, &mut t).unwrap();

        graph.remove_edge_between(first, second, &mut t).unwrap();

        assert_eq!(graph.get_vertex(first).unwrap().g_borrow(&t).degree(), 0);
        assert_eq!(graph.get_vertex(second).unwrap().g_borrow(&t).degree(), 1);
        assert_eq!(graph.get_vertex(third).unwrap().g_borrow(&t).degree(), 1);
    })
}

#[test]
fn remove() {
    GhostToken::new(|mut t| {
        let mut graph: Graph<(), f64, UnDirectedWeightedEdge<f64>> = Graph::new();

        let first = graph.add_vertex(());

        let second = graph.add_vertex(());

        let third = graph.add_vertex(());

        let weight = 1.;

        graph.add_edge(first, second, weight, keep, &mut t).unwrap();

        graph.add_edge(second, third, weight, keep, &mut t).unwrap();

        graph.remove(second, &mut t).unwrap();

        assert!(graph.get_vertex(second).is_none());
        assert_eq!(graph.get_vertex(first).unwrap().g_borrow(&t).degree(), 0);
        assert_eq!(graph.get_vertex(third).unwrap().g_borrow(&t).degree(), 0);
    })
}

// Vertex ids and edge ids are counted apart.
#[test]
fn id_out_of_order() {
    GhostToken::new(|mut t| {
        let mut graph: Graph<(), f64, UnDirectedWeightedEdge<f64>> = Graph::new();

        let weight = 1.;

        let first = graph.add_vertex(());

        let second = graph.add_vertex(());

        graph.add_edge(first, second, weight, keep, &mut t).unwrap();

        graph.remove(second, &mut t).unwrap();

        let third = graph.add_vertex(());

        assert!(graph.get_vertex(second).is_none());
        assert_eq!(third.id(), 2);
    });
}

#[test]
fn adjacent() {
    GhostToken::new(|mut f| {
        let mut graph: Graph<(), f64, UnDirectedWeightedEdge<f64>> = Graph::new();

        let one = graph.add_vertex(());

        let two = graph.add_vertex(());

        graph.add_edge(one, two, 1., keep, &mut f).unwrap();

        assert!(graph.adjacent(one, two, &f).unwrap());
    });
}

#[test]
fn edges_mut() {
    GhostToken::new(|mut t| {
        let mut graph: Graph<(), f64, UnDirectedWeightedEdge<f64>> = Graph::new();

        let x = 7.;

        let one = graph.add_vertex(());

        let two = graph.add_vertex(());

        graph.add_edge(one, two, x, keep, &mut t).unwrap();

        let entries = graph.get_vertex(one).unwrap().g_borrow(&t).iter();
        for (edge, _) in entries {
            *graph.get_weight_mut(edge, &mut t).unwrap() *= 5.;
        }

        for (edge, _) in graph.get_vertex(one).unwrap().g_borrow(&t).iter() {
            assert_eq!(x * 5., *graph.get_edge(edge).unwrap().get_weight());
        }
    });
}

#[test]
fn distance() {
    GhostToken::new(|mut t| {
        let mut graph: Graph<(f64, f64), f64, UnDirectedWeightedEdge<f64>> = Graph::new();

        let one = graph.add_vertex((0., 0.));

        let two = graph.add_vertex((1., 0.));

        let euclid = |_: (), a: &Vertex<(f64, f64)>, b: &Vertex<(f64, f64)>| {
            let (a, b) = (a.get_item(), b.get_item());
            ((a.0 - b.0) * (a.0 - b.0) + (a.1 - b.1) * (a.1 - b.1)).sqrt()
        };

        graph.add_edge(one, two, (), euclid, &mut t).unwrap();

        let (edge, _) = graph.get_vertex(one).unwrap().g_borrow(&t).iter()[0];
        let distance = graph.get_edge(edge).unwrap().get_weight();

        assert_eq!(1., *distance);
    });
}
