use crate::edge::EdgeTrait;
use crate::ghost::{GhostCell, GhostToken};
use crate::id::{EdgeId, VertexId};
use crate::vertex::Vertex;
use crate::GraphError;
use core::marker::PhantomData;
use vstd::prelude::*;

verus! {

/// A graph that owns its vertices and edges. Both live in arenas indexed by
/// their ids; removing one leaves its slot empty, so an id is never given out
/// twice until the graph is cleared.
pub struct Graph<'id, Item, Weight, Edge: EdgeTrait<'id, Weight>> {
    vertices: Vec<Option<GhostCell<'id, Vertex<'id, Item>>>>,
    edges: Vec<Option<Edge>>,
    vertex_len: usize,
    edge_len: usize,
    _weight: PhantomData<Weight>,
}

impl<'id, Item, Weight, Edge: EdgeTrait<'id, Weight>> Graph<'id, Item, Weight, Edge> {
    /// The live vertices, by id.
    pub closed spec fn vertex_map(&self) -> Map<usize, Vertex<'id, Item>> {
        Map::new(
            |i: usize| i < self.vertices.len() && self.vertices@[i as int] is Some,
            |i: usize| self.vertices@[i as int]->Some_0@,
        )
    }

    /// The live edges, by id.
    pub closed spec fn edge_map(&self) -> Map<usize, Edge> {
        Map::new(
            |i: usize| i < self.edges.len() && self.edges@[i as int] is Some,
            |i: usize| self.edges@[i as int]->Some_0,
        )
    }

    /// The id that the next vertex will get.
    pub closed spec fn next_vertex(&self) -> nat {
        self.vertices.len() as nat
    }

    /// The id that the next edge will get.
    pub closed spec fn next_edge(&self) -> nat {
        self.edges.len() as nat
    }

    /// The adjacency table of vertex `v`.
    pub open spec fn adjacency(&self, v: usize) -> Map<usize, usize> {
        self.vertex_map()[v].adjacency()
    }

    /// The item of each live vertex.
    pub open spec fn items(&self) -> Map<usize, Item> {
        Map::new(|v: usize| self.vertex_map().contains_key(v), |v: usize| self.vertex_map()[v].spec_item())
    }

    /// The adjacency table of each live vertex.
    pub open spec fn adjacencies(&self) -> Map<usize, Map<usize, usize>> {
        Map::new(|v: usize| self.vertex_map().contains_key(v), |v: usize| self.vertex_map()[v].adjacency())
    }

    /// `self` and `other` hold the same vertices, with the same ids and
    /// items, and the same edges; adjacency tables may differ.
    pub closed spec fn same_but_adjacency(&self, other: &Self) -> bool {
        &&& self.vertex_map().dom() == other.vertex_map().dom()
        &&& forall|u: usize| #[trigger]
            self.vertex_map().contains_key(u) ==> other.vertex_map()[u].spec_id()
                == self.vertex_map()[u].spec_id() && other.vertex_map()[u].spec_item()
                == self.vertex_map()[u].spec_item() && (self.vertex_map()[u].wf()
                ==> other.vertex_map()[u].wf())
        &&& self.edges == other.edges
        &&& self.vertex_len == other.vertex_len
        &&& self.edge_len == other.edge_len
        &&& self.vertices.len() == other.vertices.len()
    }

    /// `new` is `old` with a vertex `v` added that holds `item` and has no
    /// edges; `v` is the id that `old` had next to give.
    pub open spec fn vertex_added(&self, new: &Self, v: usize, item: Item) -> bool {
        &&& v == self.next_vertex()
        &&& !self.vertex_map().contains_key(v)
        &&& new.next_vertex() == self.next_vertex() + 1
        &&& new.next_edge() == self.next_edge()
        &&& new.edge_map() == self.edge_map()
        &&& new.vertex_map().dom() == self.vertex_map().dom().insert(v)
        &&& forall|u: usize| #[trigger]
            self.vertex_map().contains_key(u) ==> new.vertex_map()[u] == self.vertex_map()[u]
        &&& new.vertex_map()[v].spec_item() == item
        &&& new.adjacency(v) == Map::<usize, usize>::empty()
    }

    /// `new` is `old` with edge `e` from `a` to `b` added and entered into
    /// both ends' adjacency tables.
    pub open spec fn edge_added(&self, new: &Self, e: usize, a: usize, b: usize) -> bool {
        &&& e == self.next_edge()
        &&& new.next_edge() == self.next_edge() + 1
        &&& new.next_vertex() == self.next_vertex()
        &&& new.items() == self.items()
        &&& new.adjacencies() == self.adjacencies().insert(a, self.adjacency(a).insert(e, b)).insert(
            b,
            self.adjacency(b).insert(e, a),
        )
        &&& new.edge_map() == self.edge_map().insert(e, new.edge_map()[e])
        &&& new.edge_map()[e].first() == a
        &&& new.edge_map()[e].second() == b
    }

    /// `new` is `old` with edge `e` between `a` and `b` removed from the
    /// edges and from both ends' adjacency tables.
    pub open spec fn edge_removed(&self, new: &Self, e: usize, a: usize, b: usize) -> bool {
        &&& new.next_edge() == self.next_edge()
        &&& new.next_vertex() == self.next_vertex()
        &&& new.items() == self.items()
        &&& new.adjacencies() == self.adjacencies().insert(a, self.adjacency(a).remove(e)).insert(
            b,
            self.adjacency(b).remove(e),
        )
        &&& new.edge_map() == self.edge_map().remove(e)
    }

    /// `new` is `old` without vertex `v`: every edge at `v` is gone, from the
    /// edges and from the adjacency tables of its other ends.
    pub open spec fn vertex_removed(&self, new: &Self, v: usize) -> bool {
        &&& new.next_vertex() == self.next_vertex()
        &&& new.next_edge() == self.next_edge()
        &&& new.items() == self.items().remove(v)
        &&& new.adjacencies().dom() == self.adjacencies().dom().remove(v)
        &&& forall|u: usize| #[trigger]
            new.adjacencies().contains_key(u) ==> new.adjacencies()[u] == self.adjacency(
                u,
            ).remove_keys(self.adjacency(v).dom())
        &&& new.edge_map() == self.edge_map().remove_keys(self.adjacency(v).dom())
    }

    /// `new` is `old` with the weight of edge `e` changed, and nothing else.
    pub open spec fn weight_changed(&self, new: &Self, e: usize) -> bool {
        &&& new.next_vertex() == self.next_vertex()
        &&& new.next_edge() == self.next_edge()
        &&& new.items() == self.items()
        &&& new.adjacencies() == self.adjacencies()
        &&& new.edge_map() == self.edge_map().insert(e, new.edge_map()[e])
        &&& new.edge_map()[e].first() == self.edge_map()[e].first()
        &&& new.edge_map()[e].second() == self.edge_map()[e].second()
    }

    /// Partway through removing vertex `v` from `self`: `v` is out of the
    /// arena, and the edges in `done` are out of the graph and out of every
    /// remaining table.
    closed spec fn detached(&self, cur: &Self, v: usize, done: Set<usize>) -> bool {
        &&& cur.vertex_map().dom() == self.vertex_map().dom().remove(v)
        &&& forall|u: usize| #[trigger]
            cur.vertex_map().contains_key(u) ==> cur.vertex_map()[u].spec_id()
                == self.vertex_map()[u].spec_id() && cur.vertex_map()[u].spec_item()
                == self.vertex_map()[u].spec_item() && cur.vertex_map()[u].wf() && cur.adjacency(u)
                == self.adjacency(u).remove_keys(done)
        &&& cur.edge_map() == self.edge_map().remove_keys(done)
        &&& cur.vertex_len == self.vertex_len - 1
        &&& cur.edge_len == cur.edge_map().dom().len()
        &&& cur.edge_len <= self.edge_len
        &&& cur.edge_map().dom().finite()
        &&& cur.vertices.len() == self.vertices.len()
        &&& cur.edges.len() == self.edges.len()
        &&& done.subset_of(self.adjacency(v).dom())
    }

    /// An edge id in the adjacency tables of both `a` and `b`: where the two
    /// are adjacent and distinct, the one edge that joins them.
    pub open spec fn edge_between(&self, a: usize, b: usize) -> usize {
        choose|e: usize| #[trigger]
            self.adjacency(a).contains_key(e) && self.adjacency(b).contains_key(e)
    }

    /// Whether the adjacency tables of `a` and `b` share an edge id.
    pub open spec fn spec_adjacent(&self, a: usize, b: usize) -> bool {
        exists|e: usize| #[trigger]
            self.adjacency(a).contains_key(e) && self.adjacency(b).contains_key(e)
    }

    /// Edge `e` links two distinct live vertices, and each of them lists it
    /// as leading to the other.
    pub open spec fn edge_linked(&self, e: usize) -> bool {
        let x = self.edge_map()[e].first();
        let y = self.edge_map()[e].second();
        &&& x != y
        &&& self.vertex_map().contains_key(x)
        &&& self.vertex_map().contains_key(y)
        &&& self.adjacency(x).contains_key(e)
        &&& self.adjacency(x)[e] == y
        &&& self.adjacency(y).contains_key(e)
        &&& self.adjacency(y)[e] == x
    }

    /// The entry `e` of `v`'s adjacency table is a live edge between `v` and
    /// the vertex the entry leads to.
    pub open spec fn entry_backed(&self, v: usize, e: usize) -> bool {
        &&& self.edge_map().contains_key(e)
        &&& {
            ||| self.edge_map()[e].first() == v && self.edge_map()[e].second()
                == self.adjacency(v)[e]
            ||| self.edge_map()[e].second() == v && self.edge_map()[e].first()
                == self.adjacency(v)[e]
        }
    }

    /// Edges `e` and `f` have the same two ends, in either order.
    pub open spec fn parallel(&self, e: usize, f: usize) -> bool {
        let x = self.edge_map()[e];
        let y = self.edge_map()[f];
        (x.first() == y.first() && x.second() == y.second()) || (x.first() == y.second()
            && x.second() == y.first())
    }

    /// The graph's invariant: counts match the arenas, every vertex knows its
    /// id, edges and adjacency entries match one for one, and no two edges
    /// join the same two vertices.
    pub closed spec fn wf(&self) -> bool {
        &&& self.vertex_len as nat == self.vertex_map().dom().len()
        &&& self.edge_len as nat == self.edge_map().dom().len()
        &&& self.vertex_len <= self.vertices.len()
        &&& self.edge_len <= self.edges.len()
        &&& self.vertex_map().dom().finite()
        &&& self.edge_map().dom().finite()
        &&& forall|v: usize| #[trigger]
            self.vertex_map().contains_key(v) ==> self.vertex_map()[v].spec_id() == v
                && self.vertex_map()[v].wf()
        &&& forall|e: usize| #[trigger] self.edge_map().contains_key(e) ==> self.edge_linked(e)
        &&& forall|v: usize, e: usize|
            self.vertex_map().contains_key(v) && #[trigger] self.adjacency(v).contains_key(e)
                ==> self.entry_backed(v, e)
        &&& forall|e: usize, f: usize|
            #[trigger] self.edge_map().contains_key(e) && #[trigger] self.edge_map().contains_key(f)
                && e != f ==> !self.parallel(e, f)
    }

    /// An empty graph, whose first vertex and first edge get id 0.
    pub fn new() -> (r: Self)
        ensures
            r.wf(),
            r.vertex_map() == Map::<usize, Vertex<'id, Item>>::empty(),
            r.edge_map() == Map::<usize, Edge>::empty(),
            r.next_vertex() == 0,
            r.next_edge() == 0,
    {
        let r = Graph {
            vertices: Vec::new(),
            edges: Vec::new(),
            vertex_len: 0,
            edge_len: 0,
            _weight: PhantomData,
        };
        assert(r.vertex_map() =~= Map::<usize, Vertex<'id, Item>>::empty());
        assert(r.edge_map() =~= Map::<usize, Edge>::empty());
        r
    }

    /// Adds a vertex holding `item`, with no edges, and returns its id.
    pub fn add_vertex(&mut self, item: Item) -> (r: VertexId<'id>)
        requires
            old(self).wf(),
        ensures
            final(self).wf(),
            old(self).vertex_added(&*final(self), r@, item),
    {
        let index = self.vertices.len();
        let vertex = Vertex::new(index, item);
        let ghost old_self = *self;
        self.vertices.push(Some(GhostCell::new(vertex)));
        // The arena's length is a `usize`, and the count stays below it.
        let _ = self.vertices.len();
        self.vertex_len = self.vertex_len + 1;
        proof {
            assert(self.vertex_map() =~= old_self.vertex_map().insert(index, vertex));
            assert(self.edge_map() =~= old_self.edge_map());
            assert forall|v: usize, e: usize|
                self.vertex_map().contains_key(v) && #[trigger] self.adjacency(v).contains_key(e)
                    implies self.entry_backed(v, e) by {
                if v != index {
                    assert(old_self.adjacency(v).contains_key(e));
                }
            }
        }
        VertexId::new(index)
    }

    /// The vertex with id `id`, if the graph has one.
    pub fn get_vertex(&self, id: VertexId<'id>) -> (r: Option<&GhostCell<'id, Vertex<'id, Item>>>)
        ensures
            r is Some <==> self.vertex_map().contains_key(id@),
            r matches Some(c) ==> c@ == self.vertex_map()[id@],
    {
        let i = id.id();
        if i < self.vertices.len() {
            self.vertices[i].as_ref()
        } else {
            None
        }
    }

    /// The edge with id `id`, if the graph has one.
    pub fn get_edge(&self, id: EdgeId<'id>) -> (r: Option<&Edge>)
        ensures
            r is Some <==> self.edge_map().contains_key(id@),
            r matches Some(e) ==> *e == self.edge_map()[id@],
    {
        let i = id.id();
        if i < self.edges.len() {
            self.edges[i].as_ref()
        } else {
            None
        }
    }

    /// The weight of edge `id`, for writing through the session's token,
    /// if the graph has that edge. Both ends see the new weight: they share
    /// the one edge record.
    pub fn get_weight_mut<'a>(&'a mut self, id: EdgeId<'id>, _token: &'a mut GhostToken<'id>) -> (r:
        Option<&'a mut Weight>)
        requires
            old(self).wf(),
        ensures
            r is Some <==> old(self).edge_map().contains_key(id@),
            r is None ==> *final(self) == *old(self),
            r matches Some(w) ==> *w == old(self).edge_map()[id@].weight() && final(self).edge_map()[id@].weight()
                == *final(w) && final(self).wf() && old(self).weight_changed(&*final(self), id@),
    {
        let ghost old_self = *self;
        let i = id.id();
        if i < self.edges.len() && self.edges[i].is_some() {
            proof {
                Self::lemma_weight_change_keeps_wf(old_self, i);
            }
            match &mut self.edges[i] {
                Some(edge) => Some(edge.get_weight_mut()),
                None => None,
            }
        } else {
            None
        }
    }

    /// Changing the weight of a live edge keeps the invariant, whatever the
    /// new weight is.
    proof fn lemma_weight_change_keeps_wf(old: Self, e: usize)
        requires
            old.wf(),
            old.edge_map().contains_key(e),
        ensures
            forall|new: Self|
                new.vertices == old.vertices && new.vertex_len == old.vertex_len && new.edge_len
                    == old.edge_len && new.edges.len() == old.edges.len() && (forall|i: int|
                    0 <= i < old.edges.len() && i != e ==> new.edges@[i] == old.edges@[i])
                    && #[trigger] new.edges@[e as int] is Some && new.edges@[e as int]->Some_0.first()
                    == old.edge_map()[e].first() && new.edges@[e as int]->Some_0.second()
                    == old.edge_map()[e].second() ==> new.wf() && old.weight_changed(&new, e),
    {
        assert forall|new: Self|
            new.vertices == old.vertices && new.vertex_len == old.vertex_len && new.edge_len
                == old.edge_len && new.edges.len() == old.edges.len() && (forall|i: int|
                0 <= i < old.edges.len() && i != e ==> new.edges@[i] == old.edges@[i])
                && #[trigger] new.edges@[e as int] is Some && new.edges@[e as int]->Some_0.first()
                == old.edge_map()[e].first() && new.edges@[e as int]->Some_0.second()
                == old.edge_map()[e].second() implies new.wf() && old.weight_changed(&new, e) by {
            assert(new.vertex_map() =~= old.vertex_map());
            assert(new.edge_map() =~= old.edge_map().insert(e, new.edge_map()[e]));
            assert forall|f: usize| #[trigger] new.edge_map().contains_key(f) implies new.edge_linked(f) by {
                assert(old.edge_linked(f));
            }
            assert forall|v: usize, f: usize|
                new.vertex_map().contains_key(v) && #[trigger] new.adjacency(v).contains_key(f) implies new.entry_backed(
                v,
                f,
            ) by {
                assert(old.adjacency(v).contains_key(f));
                assert(old.entry_backed(v, f));
            }
            assert forall|f: usize, g: usize|
                #[trigger] new.edge_map().contains_key(f) && #[trigger] new.edge_map().contains_key(g)
                    && f != g implies !new.parallel(f, g) by {
                assert(!old.parallel(f, g));
            }
            assert(new.items() =~= old.items());
            assert(new.adjacencies() =~= old.adjacencies());
        }
    }

    /// The item of vertex `id`, for writing through the session's token, if
    /// the graph has that vertex.
    pub fn get_item_mut<'a>(&'a mut self, id: VertexId<'id>, token: &'a mut GhostToken<'id>) -> (r:
        Option<&'a mut Item>)
        requires
            old(self).wf(),
        ensures
            r is Some <==> old(self).vertex_map().contains_key(id@),
            r is None ==> *final(self) == *old(self),
            r matches Some(x) ==> *x == old(self).items()[id@] && final(self).wf() && final(self).items()
                == old(self).items().insert(id@, *final(x)) && final(self).adjacencies() == old(
                self,
            ).adjacencies() && final(self).edge_map() == old(self).edge_map() && final(self).next_vertex()
                == old(self).next_vertex() && final(self).next_edge() == old(self).next_edge(),
    {
        let ghost old_self = *self;
        let i = id.id();
        if i < self.vertices.len() && self.vertices[i].is_some() {
            proof {
                Self::lemma_item_change_keeps_wf(old_self, i);
            }
            match &mut self.vertices[i] {
                Some(cell) => Some(cell.g_borrow_mut(token).get_item_mut()),
                None => None,
            }
        } else {
            None
        }
    }

    /// Changing the item of a live vertex keeps the invariant, whatever the
    /// new item is.
    proof fn lemma_item_change_keeps_wf(old: Self, v: usize)
        requires
            old.wf(),
            old.vertex_map().contains_key(v),
        ensures
            forall|new: Self|
                new.edges == old.edges && new.vertex_len == old.vertex_len && new.edge_len == old.edge_len
                    && new.vertices.len() == old.vertices.len() && (forall|i: int|
                    0 <= i < old.vertices.len() && i != v ==> new.vertices@[i] == old.vertices@[i])
                    && #[trigger] new.vertices@[v as int] is Some
                    && new.vertices@[v as int]->Some_0@.spec_id() == v
                    && new.vertices@[v as int]->Some_0@.wf()
                    && new.vertices@[v as int]->Some_0@.adjacency() == old.adjacency(v) ==> new.wf()
                    && new.items() == old.items().insert(v, new.vertices@[v as int]->Some_0@.spec_item())
                    && new.adjacencies() == old.adjacencies() && new.edge_map() == old.edge_map(),
    {
        assert forall|new: Self|
            new.edges == old.edges && new.vertex_len == old.vertex_len && new.edge_len == old.edge_len
                && new.vertices.len() == old.vertices.len() && (forall|i: int|
                0 <= i < old.vertices.len() && i != v ==> new.vertices@[i] == old.vertices@[i])
                && #[trigger] new.vertices@[v as int] is Some
                && new.vertices@[v as int]->Some_0@.spec_id() == v
                && new.vertices@[v as int]->Some_0@.wf()
                && new.vertices@[v as int]->Some_0@.adjacency() == old.adjacency(v) implies new.wf()
                && new.items() == old.items().insert(v, new.vertices@[v as int]->Some_0@.spec_item())
                && new.adjacencies() == old.adjacencies() && new.edge_map() == old.edge_map() by {
            assert(new.vertex_map().dom() =~= old.vertex_map().dom());
            assert(new.edge_map() =~= old.edge_map());
            assert forall|u: usize| #[trigger] new.vertex_map().contains_key(u) implies new.adjacency(u)
                == old.adjacency(u) by {
                if u != v {
                    assert(new.vertices@[u as int] == old.vertices@[u as int]);
                }
            }
            assert forall|u: usize| #[trigger] new.vertex_map().contains_key(u) implies new.vertex_map()[u].spec_id()
                == u && new.vertex_map()[u].wf() by {
                if u != v {
                    assert(new.vertices@[u as int] == old.vertices@[u as int]);
                }
            }
            assert forall|f: usize| #[trigger] new.edge_map().contains_key(f) implies new.edge_linked(f) by {
                assert(old.edge_linked(f));
            }
            assert forall|u: usize, f: usize|
                new.vertex_map().contains_key(u) && #[trigger] new.adjacency(u).contains_key(f) implies new.entry_backed(
                u,
                f,
            ) by {
                assert(old.adjacency(u).contains_key(f));
                assert(old.entry_backed(u, f));
            }
            assert forall|f: usize, g: usize|
                #[trigger] new.edge_map().contains_key(f) && #[trigger] new.edge_map().contains_key(g)
                    && f != g implies !new.parallel(f, g) by {
                assert(!old.parallel(f, g));
            }
            assert forall|u: usize| #[trigger] new.vertex_map().contains_key(u) && u != v implies new.vertex_map()[u].spec_item()
                == old.vertex_map()[u].spec_item() by {
                assert(new.vertices@[u as int] == old.vertices@[u as int]);
            }
            assert(new.items() =~= old.items().insert(v, new.vertices@[v as int]->Some_0@.spec_item()));
            assert(new.adjacencies() =~= old.adjacencies());
        }
    }

    /// The ids of the live vertices, in increasing order.
    pub fn vertices(&self) -> (r: Vec<VertexId<'id>>)
        ensures
            forall|i: int| 0 <= i < r.len() ==> self.vertex_map().contains_key(#[trigger] r@[i]@),
            forall|v: usize| self.vertex_map().contains_key(v) ==> exists|i: int|
                0 <= i < r.len() && #[trigger] r@[i]@ == v,
            forall|i: int, j: int| 0 <= i < j < r.len() ==> r@[i]@ < r@[j]@,
    {
        let mut out: Vec<VertexId<'id>> = Vec::new();
        let mut i: usize = 0;
        while i < self.vertices.len()
            invariant
                i <= self.vertices.len(),
                forall|k: int| 0 <= k < out.len() ==> self.vertex_map().contains_key(#[trigger] out@[k]@),
                forall|k: int| 0 <= k < out.len() ==> #[trigger] out@[k]@ < i,
                forall|v: usize| v < i && self.vertex_map().contains_key(v) ==> exists|k: int|
                    0 <= k < out.len() && #[trigger] out@[k]@ == v,
                forall|k: int, j: int| 0 <= k < j < out.len() ==> out@[k]@ < out@[j]@,
            decreases self.vertices.len() - i,
        {
            if self.vertices[i].is_some() {
                let ghost before = out@;
                out.push(VertexId::new(i));
                proof {
                    assert forall|v: usize| v < i + 1 && self.vertex_map().contains_key(v) implies exists|k: int|
                        0 <= k < out.len() && #[trigger] out@[k]@ == v by {
                        if v < i {
                            let k = choose|k: int| 0 <= k < before.len() && #[trigger] before[k]@ == v;
                            assert(out@[k]@ == v);
                        } else {
                            assert(out@[out.len() - 1]@ == v);
                        }
                    }
                }
            } else {
                proof {
                    assert forall|v: usize| v < i + 1 && self.vertex_map().contains_key(v) implies exists|k: int|
                        0 <= k < out.len() && #[trigger] out@[k]@ == v by {
                        assert(v < i);
                    }
                }
            }
            i = i + 1;
        }
        out
    }

    /// The vertex `v`, read with the session's token.
    fn vertex_ref<'a>(&'a self, v: usize, token: &'a GhostToken<'id>) -> (r: &'a Vertex<'id, Item>)
        requires
            self.vertex_map().contains_key(v),
        ensures
            *r == self.vertex_map()[v],
    {
        match &self.vertices[v] {
            Some(cell) => cell.g_borrow(token),
            None => unreached(),
        }
    }

    /// Whether `a` and `b` are joined by an edge.
    ///
    /// Fails with `VertexNotFound` for the first of the two ids that names no
    /// vertex of the graph.
    pub fn adjacent(&self, id_one: VertexId<'id>, id_two: VertexId<'id>, token: &GhostToken<'id>) -> (r:
        Result<bool, GraphError<'id, Edge::Error>>)
        requires
            self.wf(),
        ensures
            !self.vertex_map().contains_key(id_one@) ==> r == Err::<bool, GraphError<'id, Edge::Error>>(
                GraphError::VertexNotFound(id_one),
            ),
            self.vertex_map().contains_key(id_one@) && !self.vertex_map().contains_key(id_two@) ==> r
                == Err::<bool, GraphError<'id, Edge::Error>>(GraphError::VertexNotFound(id_two)),
            self.vertex_map().contains_key(id_one@) && self.vertex_map().contains_key(id_two@) ==> r
                == Ok::<bool, GraphError<'id, Edge::Error>>(self.spec_adjacent(id_one@, id_two@)),
    {
        match self.shared_edge(id_one, id_two, token) {
            Err(e) => Err(e),
            Ok(found) => Ok(found.is_some()),
        }
    }

    /// The edge id that the tables of `id_one` and `id_two` share, if any.
    fn shared_edge(&self, id_one: VertexId<'id>, id_two: VertexId<'id>, token: &GhostToken<'id>) -> (r:
        Result<Option<usize>, GraphError<'id, Edge::Error>>)
        ensures
            !self.vertex_map().contains_key(id_one@) ==> r == Err::<Option<usize>, GraphError<'id, Edge::Error>>(
                GraphError::VertexNotFound(id_one),
            ),
            self.vertex_map().contains_key(id_one@) && !self.vertex_map().contains_key(id_two@) ==> r
                == Err::<Option<usize>, GraphError<'id, Edge::Error>>(GraphError::VertexNotFound(id_two)),
            self.vertex_map().contains_key(id_one@) && self.vertex_map().contains_key(id_two@) ==> r is Ok,
            r matches Ok(Some(e)) ==> self.adjacency(id_one@).contains_key(e) && self.adjacency(
                id_two@,
            ).contains_key(e),
            r matches Ok(None) ==> !self.spec_adjacent(id_one@, id_two@),
    {
        let a = id_one.id();
        let b = id_two.id();
        if !(a < self.vertices.len() && self.vertices[a].is_some()) {
            return Err(GraphError::VertexNotFound(id_one));
        }
        if !(b < self.vertices.len() && self.vertices[b].is_some()) {
            return Err(GraphError::VertexNotFound(id_two));
        }
        let va = self.vertex_ref(a, token);
        let vb = self.vertex_ref(b, token);
        Ok(va.shared_edge(vb))
    }

    /// Enters edge `e` into the table of vertex `v`, leading to `n`.
    fn link_at(&mut self, v: usize, e: usize, n: usize, token: &mut GhostToken<'id>)
        requires
            old(self).vertex_map().contains_key(v),
        ensures
            old(self).same_but_adjacency(&*final(self)),
            forall|u: usize| #[trigger]
                final(self).vertex_map().contains_key(u) ==> final(self).adjacency(u) == if u == v {
                    old(self).adjacency(v).insert(e, n)
                } else {
                    old(self).adjacency(u)
                },
    {
        match &mut self.vertices[v] {
            Some(cell) => cell.g_borrow_mut(token).link(e, n),
            None => {},
        }
        assert(self.vertex_map().dom() =~= old(self).vertex_map().dom());
    }

    /// Takes edge `e` out of the table of vertex `v`.
    fn unlink_at(&mut self, v: usize, e: usize, token: &mut GhostToken<'id>)
        requires
            old(self).vertex_map().contains_key(v),
        ensures
            old(self).same_but_adjacency(&*final(self)),
            forall|u: usize| #[trigger]
                final(self).vertex_map().contains_key(u) ==> final(self).adjacency(u) == if u == v {
                    old(self).adjacency(v).remove(e)
                } else {
                    old(self).adjacency(u)
                },
    {
        match &mut self.vertices[v] {
            Some(cell) => {
                cell.g_borrow_mut(token).unlink(e);
            },
            None => {},
        }
        assert(self.vertex_map().dom() =~= old(self).vertex_map().dom());
    }

    /// Adds an edge from `id_one` to `id_two` and returns its id. Its
    /// weight is what `weight` makes of `item` and the two vertices.
    ///
    /// Fails, leaving the graph as it was, with `IdenticalVertex` where the
    /// two ids are equal; with `VertexNotFound` for the first id that names no
    /// vertex; with `AlreadyEdgeBetween` where the two are already joined;
    /// with `AddEdgeError` where the edge type refuses the edge. An edge id is
    /// used up only by an edge that was added.
    pub fn add_edge<T, F>(
        &mut self,
        id_one: VertexId<'id>,
        id_two: VertexId<'id>,
        item: T,
        weight: F,
        token: &mut GhostToken<'id>,
    ) -> (r: Result<EdgeId<'id>, GraphError<'id, Edge::Error>>) where
        F: Fn(T, &Vertex<'id, Item>, &Vertex<'id, Item>) -> Weight,

        requires
            old(self).wf(),
            forall|x: Vertex<'id, Item>, y: Vertex<'id, Item>| #[trigger]
                weight.requires((item, &x, &y)),
        ensures
            final(self).wf(),
            id_one@ == id_two@ ==> r == Err::<EdgeId<'id>, GraphError<'id, Edge::Error>>(
                GraphError::IdenticalVertex(id_one),
            ),
            id_one@ != id_two@ && !old(self).vertex_map().contains_key(id_one@) ==> r == Err::<
                EdgeId<'id>,
                GraphError<'id, Edge::Error>,
            >(GraphError::VertexNotFound(id_one)),
            id_one@ != id_two@ && old(self).vertex_map().contains_key(id_one@) && !old(
                self,
            ).vertex_map().contains_key(id_two@) ==> r == Err::<
                EdgeId<'id>,
                GraphError<'id, Edge::Error>,
            >(GraphError::VertexNotFound(id_two)),
            id_one@ != id_two@ && old(self).vertex_map().contains_key(id_one@) && old(
                self,
            ).vertex_map().contains_key(id_two@) && old(self).spec_adjacent(id_one@, id_two@) ==> r
                == Err::<EdgeId<'id>, GraphError<'id, Edge::Error>>(GraphError::AlreadyEdgeBetween),
            id_one@ != id_two@ && old(self).vertex_map().contains_key(id_one@) && old(
                self,
            ).vertex_map().contains_key(id_two@) && !old(self).spec_adjacent(id_one@, id_two@) ==> (
            r is Ok || r matches Err(GraphError::AddEdgeError(_))),
            r matches Err(GraphError::AddEdgeError(_)) ==> exists|w: Weight|
                #[trigger] weight.ensures(
                    (item, &old(self).vertex_map()[id_one@], &old(self).vertex_map()[id_two@]),
                    w,
                ) && !Edge::admits(w, id_one@, id_two@, old(self).next_edge() as usize),
            r is Err ==> *final(self) == *old(self),
            r matches Ok(id) ==> old(self).edge_added(&*final(self), id@, id_one@, id_two@)
                && weight.ensures(
                (item, &old(self).vertex_map()[id_one@], &old(self).vertex_map()[id_two@]),
                final(self).edge_map()[id@].weight(),
            ),
    {
        if id_one.id() == id_two.id() {
            return Err(GraphError::IdenticalVertex(id_one));
        }
        match self.shared_edge(id_one, id_two, &*token) {
            Err(err) => { return Err(err); },
            Ok(Some(_)) => { return Err(GraphError::AlreadyEdgeBetween); },
            Ok(None) => {},
        }
        let e = self.edges.len();
        let w = weight(item, self.vertex_ref(id_one.id(), &*token), self.vertex_ref(id_two.id(), &*token));
        self.link_new_edge(w, id_one, id_two, e, token)
    }

    /// Sets the weight of the edge between `id_one` and `id_two` to what
    /// `weight` makes of `item` and the two vertices, adding the edge where
    /// there is none, and returns its id. `weight` is called once, and the
    /// one edge record that both ends share takes the new weight.
    ///
    /// Fails, leaving the graph as it was, with `IdenticalVertex` where the
    /// two ids are equal, with `VertexNotFound` for the first id that names no
    /// vertex, and with `AddEdgeError` where a new edge is refused.
    pub fn create_or_update_edge_between<T, F>(
        &mut self,
        id_one: VertexId<'id>,
        id_two: VertexId<'id>,
        item: T,
        weight: F,
        token: &mut GhostToken<'id>,
    ) -> (r: Result<EdgeId<'id>, GraphError<'id, Edge::Error>>) where
        F: Fn(T, &Vertex<'id, Item>, &Vertex<'id, Item>) -> Weight,

        requires
            old(self).wf(),
            forall|x: Vertex<'id, Item>, y: Vertex<'id, Item>| #[trigger]
                weight.requires((item, &x, &y)),
        ensures
            final(self).wf(),
            id_one@ == id_two@ ==> r == Err::<EdgeId<'id>, GraphError<'id, Edge::Error>>(
                GraphError::IdenticalVertex(id_one),
            ),
            id_one@ != id_two@ && !old(self).vertex_map().contains_key(id_one@) ==> r == Err::<
                EdgeId<'id>,
                GraphError<'id, Edge::Error>,
            >(GraphError::VertexNotFound(id_one)),
            id_one@ != id_two@ && old(self).vertex_map().contains_key(id_one@) && !old(
                self,
            ).vertex_map().contains_key(id_two@) ==> r == Err::<
                EdgeId<'id>,
                GraphError<'id, Edge::Error>,
            >(GraphError::VertexNotFound(id_two)),
            id_one@ != id_two@ && old(self).vertex_map().contains_key(id_one@) && old(
                self,
            ).vertex_map().contains_key(id_two@) && old(self).spec_adjacent(id_one@, id_two@) ==> (
            r matches Ok(id) && id@ == old(self).edge_between(id_one@, id_two@) && old(
                self,
            ).weight_changed(&*final(self), id@)),
            id_one@ != id_two@ && old(self).vertex_map().contains_key(id_one@) && old(
                self,
            ).vertex_map().contains_key(id_two@) && !old(self).spec_adjacent(id_one@, id_two@) ==> (
            r is Ok || r matches Err(GraphError::AddEdgeError(_))) && (r matches Ok(id)
                ==> old(self).edge_added(&*final(self), id@, id_one@, id_two@)),
            r matches Err(GraphError::AddEdgeError(_)) ==> exists|w: Weight|
                #[trigger] weight.ensures(
                    (item, &old(self).vertex_map()[id_one@], &old(self).vertex_map()[id_two@]),
                    w,
                ) && !Edge::admits(w, id_one@, id_two@, old(self).next_edge() as usize),
            r is Err ==> *final(self) == *old(self),
            r matches Ok(id) ==> weight.ensures(
                (item, &old(self).vertex_map()[id_one@], &old(self).vertex_map()[id_two@]),
                final(self).edge_map()[id@].weight(),
            ),
    {
        if id_one.id() == id_two.id() {
            return Err(GraphError::IdenticalVertex(id_one));
        }
        let found = match self.shared_edge(id_one, id_two, &*token) {
            Err(err) => { return Err(err); },
            Ok(found) => found,
        };
        let w = weight(item, self.vertex_ref(id_one.id(), &*token), self.vertex_ref(id_two.id(), &*token));
        match found {
            Some(e) => {
                proof {
                    self.lemma_edge_between_unique(id_one@, id_two@, e);
                }
                self.set_weight(e, w);
                Ok(EdgeId::new(e))
            },
            None => {
                let e = self.edges.len();
                self.link_new_edge(w, id_one, id_two, e, token)
            },
        }
    }

    /// Writes `w` as the weight of the live edge `e`.
    fn set_weight(&mut self, e: usize, w: Weight)
        requires
            old(self).wf(),
            old(self).edge_map().contains_key(e),
        ensures
            final(self).wf(),
            old(self).weight_changed(&*final(self), e),
            final(self).edge_map()[e].weight() == w,
    {
        let ghost old_self = *self;
        match &mut self.edges[e] {
            Some(edge) => {
                *edge.get_weight_mut() = w;
            },
            None => {},
        }
        proof {
            assert(self.vertex_map() =~= old_self.vertex_map());
            assert(self.edge_map() =~= old_self.edge_map().insert(e, self.edge_map()[e]));
            assert forall|f: usize| #[trigger] self.edge_map().contains_key(f) implies self.edge_linked(f) by {
                assert(old_self.edge_linked(f));
            }
            assert forall|v: usize, f: usize|
                self.vertex_map().contains_key(v) && #[trigger] self.adjacency(v).contains_key(f) implies self.entry_backed(
                v,
                f,
            ) by {
                assert(old_self.adjacency(v).contains_key(f));
                assert(old_self.entry_backed(v, f));
            }
            assert forall|f: usize, g: usize|
                #[trigger] self.edge_map().contains_key(f) && #[trigger] self.edge_map().contains_key(g)
                    && f != g implies !self.parallel(f, g) by {
                assert(!old_self.parallel(f, g));
            }
            assert(self.items() =~= old_self.items());
            assert(self.adjacencies() =~= old_self.adjacencies());
        }
    }

    /// Removes every vertex and edge and starts the ids again from 0.
    pub fn clear(&mut self)
        ensures
            final(self).wf(),
            final(self).vertex_map() == Map::<usize, Vertex<'id, Item>>::empty(),
            final(self).edge_map() == Map::<usize, Edge>::empty(),
            final(self).next_vertex() == 0,
            final(self).next_edge() == 0,
    {
        self.vertices = Vec::new();
        self.edges = Vec::new();
        self.vertex_len = 0;
        self.edge_len = 0;
        assert(self.vertex_map() =~= Map::<usize, Vertex<'id, Item>>::empty());
        assert(self.edge_map() =~= Map::<usize, Edge>::empty());
    }

    /// Makes edge `e` with weight `w` between two vertices that are not yet
    /// adjacent, and enters it into both adjacency tables.
    fn link_new_edge(
        &mut self,
        w: Weight,
        id_one: VertexId<'id>,
        id_two: VertexId<'id>,
        e: usize,
        token: &mut GhostToken<'id>,
    ) -> (r: Result<EdgeId<'id>, GraphError<'id, Edge::Error>>)
        requires
            old(self).wf(),
            e == old(self).next_edge(),
            id_one@ != id_two@,
            old(self).vertex_map().contains_key(id_one@),
            old(self).vertex_map().contains_key(id_two@),
            !old(self).spec_adjacent(id_one@, id_two@),
        ensures
            final(self).wf(),
            r is Ok || r matches Err(GraphError::AddEdgeError(_)),
            r is Ok <==> Edge::admits(w, id_one@, id_two@, e),
            r is Err ==> *final(self) == *old(self),
            r matches Ok(id) ==> id@ == e && old(self).edge_added(&*final(self), e, id_one@, id_two@)
                && final(self).edge_map()[e].weight() == w,
    {
        match Edge::add_edge(w, id_one, id_two, EdgeId::new(e)) {
            Err(err) => Err(GraphError::AddEdgeError(err)),
            Ok(edge) => {
                let ghost old_self = *self;
                let a = id_one.id();
                let b = id_two.id();
                self.link_at(a, e, b, token);
                let ghost mid = *self;
                self.link_at(b, e, a, token);
                let ghost mid2 = *self;
                self.edges.push(Some(edge));
                // The arena's length is a `usize`, and the count stays below it.
                let _ = self.edges.len();
                self.edge_len = self.edge_len + 1;
                proof {
                    assert(self.edge_map() =~= old_self.edge_map().insert(e, edge));
                    assert(self.vertex_map() == mid2.vertex_map());
                    Self::lemma_edge_added(old_self, mid, mid2, *self, e, a, b);
                }
                Ok(EdgeId::new(e))
            },
        }
    }

    proof fn lemma_edge_added(old: Self, mid: Self, mid2: Self, new: Self, e: usize, a: usize, b: usize)
        requires
            old.wf(),
            e == old.next_edge(),
            a != b,
            old.vertex_map().contains_key(a),
            old.vertex_map().contains_key(b),
            !old.spec_adjacent(a, b),
            old.same_but_adjacency(&mid),
            mid.same_but_adjacency(&mid2),
            forall|u: usize| #[trigger]
                mid.vertex_map().contains_key(u) ==> mid.adjacency(u) == if u == a {
                    old.adjacency(a).insert(e, b)
                } else {
                    old.adjacency(u)
                },
            forall|u: usize| #[trigger]
                mid2.vertex_map().contains_key(u) ==> mid2.adjacency(u) == if u == b {
                    mid.adjacency(b).insert(e, a)
                } else {
                    mid.adjacency(u)
                },
            new.vertex_map() == mid2.vertex_map(),
            new.vertices.len() == old.vertices.len(),
            new.vertex_len == old.vertex_len,
            new.edge_len == old.edge_len + 1,
            new.edges.len() == old.edges.len() + 1,
            new.edge_map().contains_key(e),
            new.edge_map() == old.edge_map().insert(e, new.edge_map()[e]),
            new.edge_map()[e].first() == a,
            new.edge_map()[e].second() == b,
        ensures
            new.wf(),
            old.edge_added(&new, e, a, b),
    {
        let edge = new.edge_map()[e];
        assert(!old.edge_map().contains_key(e));
        assert(new.edge_map().dom() =~= old.edge_map().dom().insert(e));
        assert forall|u: usize| #[trigger] new.vertex_map().contains_key(u) implies new.adjacency(u)
            == if u == a {
            old.adjacency(a).insert(e, b)
        } else if u == b {
            old.adjacency(b).insert(e, a)
        } else {
            old.adjacency(u)
        } by {
            assert(mid.vertex_map().contains_key(u));
        }
        assert forall|v: usize, f: usize| old.vertex_map().contains_key(v) && #[trigger] old.adjacency(
            v,
        ).contains_key(f) implies f != e by {
            assert(old.entry_backed(v, f));
        }
        assert forall|f: usize| #[trigger] new.edge_map().contains_key(f) implies new.edge_linked(f) by {
            if f != e {
                assert(old.edge_map().contains_key(f));
                assert(old.edge_linked(f));
                let x = old.edge_map()[f].first();
                let y = old.edge_map()[f].second();
                assert(new.vertex_map().contains_key(x));
                assert(new.vertex_map().contains_key(y));
            }
        }
        assert forall|v: usize, f: usize|
            new.vertex_map().contains_key(v) && #[trigger] new.adjacency(v).contains_key(f) implies new.entry_backed(
            v,
            f,
        ) by {
            if f != e {
                assert(old.adjacency(v).contains_key(f));
                assert(old.entry_backed(v, f));
            } else if v != a && v != b {
                assert(old.adjacency(v).contains_key(f));
            }
        }
        assert forall|f: usize, g: usize|
            #[trigger] new.edge_map().contains_key(f) && #[trigger] new.edge_map().contains_key(g) && f
                != g implies !new.parallel(f, g) by {
            if f == e {
                assert(old.edge_linked(g));
                if new.parallel(f, g) {
                    assert(old.adjacency(a).contains_key(g) && old.adjacency(b).contains_key(g));
                }
            } else if g == e {
                assert(old.edge_linked(f));
                if new.parallel(f, g) {
                    assert(old.adjacency(a).contains_key(f) && old.adjacency(b).contains_key(f));
                }
            } else {
                assert(!old.parallel(f, g));
            }
        }
        assert(new.items() =~= old.items());
        assert(new.adjacencies() =~= old.adjacencies().insert(a, old.adjacency(a).insert(e, b)).insert(
            b,
            old.adjacency(b).insert(e, a),
        ));
    }

    /// Between two distinct vertices there is at most one edge: an edge id
    /// in both of their tables is the one that `edge_between` names, and it
    /// joins the two.
    pub proof fn lemma_edge_between_unique(&self, a: usize, b: usize, e: usize)
        requires
            self.wf(),
            a != b,
            self.vertex_map().contains_key(a),
            self.vertex_map().contains_key(b),
            self.adjacency(a).contains_key(e),
            self.adjacency(b).contains_key(e),
        ensures
            e == self.edge_between(a, b),
            self.edge_map().contains_key(e),
            (self.edge_map()[e].first() == a && self.edge_map()[e].second() == b) || (
            self.edge_map()[e].first() == b && self.edge_map()[e].second() == a),
            self.adjacency(a)[e] == b,
            self.adjacency(b)[e] == a,
    {
        let f = self.edge_between(a, b);
        assert(self.entry_backed(a, e));
        assert(self.entry_backed(b, e));
        assert(self.entry_backed(a, f));
        assert(self.entry_backed(b, f));
        assert(self.edge_linked(e));
        assert(self.edge_linked(f));
        if e != f {
            assert(self.parallel(e, f));
        }
    }

    /// Removes the edge between `id_one` and `id_two`.
    ///
    /// Fails, leaving the graph as it was, with `VertexNotFound` for the first
    /// id that names no vertex, and with `NoEdgeBetween` where no edge joins
    /// the two (as for two equal ids).
    pub fn remove_edge_between(
        &mut self,
        id_one: VertexId<'id>,
        id_two: VertexId<'id>,
        token: &mut GhostToken<'id>,
    ) -> (r: Result<(), GraphError<'id, Edge::Error>>)
        requires
            old(self).wf(),
        ensures
            final(self).wf(),
            !old(self).vertex_map().contains_key(id_one@) ==> r == Err::<(), GraphError<'id, Edge::Error>>(
                GraphError::VertexNotFound(id_one),
            ),
            old(self).vertex_map().contains_key(id_one@) && !old(self).vertex_map().contains_key(id_two@)
                ==> r == Err::<(), GraphError<'id, Edge::Error>>(GraphError::VertexNotFound(id_two)),
            old(self).vertex_map().contains_key(id_one@) && old(self).vertex_map().contains_key(id_two@)
                && (id_one@ == id_two@ || !old(self).spec_adjacent(id_one@, id_two@)) ==> r == Err::<
                (),
                GraphError<'id, Edge::Error>,
            >(GraphError::NoEdgeBetween),
            old(self).vertex_map().contains_key(id_one@) && old(self).vertex_map().contains_key(id_two@)
                && id_one@ != id_two@ && old(self).spec_adjacent(id_one@, id_two@) ==> r is Ok,
            r is Err ==> *final(self) == *old(self),
            r is Ok ==> old(self).edge_removed(
                &*final(self),
                old(self).edge_between(id_one@, id_two@),
                id_one@,
                id_two@,
            ),
    {
        let a = id_one.id();
        let b = id_two.id();
        let e = match self.shared_edge(id_one, id_two, &*token) {
            Err(err) => { return Err(err); },
            Ok(None) => { return Err(GraphError::NoEdgeBetween); },
            Ok(Some(e)) => e,
        };
        if a == b {
            return Err(GraphError::NoEdgeBetween);
        }
        self.unlink_edge(e, a, b, token);
        Ok(())
    }

    /// Takes edge `e`, which joins the distinct vertices `a` and `b`, out of
    /// both adjacency tables and out of the graph.
    fn unlink_edge(&mut self, e: usize, a: usize, b: usize, token: &mut GhostToken<'id>)
        requires
            old(self).wf(),
            a != b,
            old(self).vertex_map().contains_key(a),
            old(self).vertex_map().contains_key(b),
            old(self).adjacency(a).contains_key(e),
            old(self).adjacency(b).contains_key(e),
        ensures
            final(self).wf(),
            e == old(self).edge_between(a, b),
            old(self).edge_removed(&*final(self), e, a, b),
    {
        proof {
            self.lemma_edge_between_unique(a, b, e);
        }
        let ghost old_self = *self;
        self.unlink_at(a, e, token);
        let ghost mid = *self;
        self.unlink_at(b, e, token);
        let ghost mid2 = *self;
        self.edges.set(e, None);
        proof {
            assert(old_self.edge_map().dom().remove(e).len() == old_self.edge_map().dom().len() - 1);
        }
        self.edge_len = self.edge_len - 1;
        proof {
            assert(self.edge_map() =~= old_self.edge_map().remove(e));
            assert(self.vertex_map() == mid2.vertex_map());
            Self::lemma_edge_removed(old_self, mid, mid2, *self, e, a, b);
        }
    }

    proof fn lemma_edge_removed(old: Self, mid: Self, mid2: Self, new: Self, e: usize, a: usize, b: usize)
        requires
            old.wf(),
            a != b,
            old.vertex_map().contains_key(a),
            old.vertex_map().contains_key(b),
            old.edge_map().contains_key(e),
            (old.edge_map()[e].first() == a && old.edge_map()[e].second() == b) || (
            old.edge_map()[e].first() == b && old.edge_map()[e].second() == a),
            old.same_but_adjacency(&mid),
            mid.same_but_adjacency(&mid2),
            forall|u: usize| #[trigger]
                mid.vertex_map().contains_key(u) ==> mid.adjacency(u) == if u == a {
                    old.adjacency(a).remove(e)
                } else {
                    old.adjacency(u)
                },
            forall|u: usize| #[trigger]
                mid2.vertex_map().contains_key(u) ==> mid2.adjacency(u) == if u == b {
                    mid.adjacency(b).remove(e)
                } else {
                    mid.adjacency(u)
                },
            new.vertex_map() == mid2.vertex_map(),
            new.vertices.len() == old.vertices.len(),
            new.vertex_len == old.vertex_len,
            new.edge_len == old.edge_len - 1,
            new.edges.len() == old.edges.len(),
            new.edge_map() == old.edge_map().remove(e),
        ensures
            new.wf(),
            old.edge_removed(&new, e, a, b),
    {
        assert forall|u: usize| #[trigger] new.vertex_map().contains_key(u) implies new.adjacency(u)
            == if u == a {
            old.adjacency(a).remove(e)
        } else if u == b {
            old.adjacency(b).remove(e)
        } else {
            old.adjacency(u)
        } by {
            assert(mid.vertex_map().contains_key(u));
        }
        assert forall|f: usize| #[trigger] new.edge_map().contains_key(f) implies new.edge_linked(f) by {
            assert(old.edge_linked(f));
            let x = old.edge_map()[f].first();
            let y = old.edge_map()[f].second();
            assert(new.vertex_map().contains_key(x));
            assert(new.vertex_map().contains_key(y));
        }
        assert forall|v: usize, f: usize|
            new.vertex_map().contains_key(v) && #[trigger] new.adjacency(v).contains_key(f) implies new.entry_backed(
            v,
            f,
        ) by {
            assert(old.adjacency(v).contains_key(f));
            assert(old.entry_backed(v, f));
            if f == e {
                assert(old.edge_linked(e));
            }
        }
        assert forall|f: usize, g: usize|
            #[trigger] new.edge_map().contains_key(f) && #[trigger] new.edge_map().contains_key(g) && f
                != g implies !new.parallel(f, g) by {
            assert(!old.parallel(f, g));
        }
        assert(new.items() =~= old.items());
        assert(new.adjacencies() =~= old.adjacencies().insert(a, old.adjacency(a).remove(e)).insert(
            b,
            old.adjacency(b).remove(e),
        ));
    }

    /// Whether vertex `n` is live and has edge `e` in its table.
    fn vertex_has_edge(&self, n: usize, e: usize, token: &GhostToken<'id>) -> (r: bool)
        ensures
            r == (self.vertex_map().contains_key(n) && self.adjacency(n).contains_key(e)),
    {
        if n < self.vertices.len() {
            match &self.vertices[n] {
                Some(cell) => cell.g_borrow(token).has_edge(e),
                None => false,
            }
        } else {
            false
        }
    }

    /// Removes vertex `id` and every edge at it, from the edges and from the
    /// adjacency tables of their other ends. The id is not given out again.
    ///
    /// Fails with `VertexNotFound`, leaving the graph as it was, where `id`
    /// names no vertex. Looking up each edge in its other end's table
    /// fails with `EdgeNotFound` only on a graph whose bookkeeping is broken,
    /// which the invariant rules out.
    pub fn remove(&mut self, id: VertexId<'id>, token: &mut GhostToken<'id>) -> (r: Result<
        (),
        GraphError<'id, Edge::Error>,
    >)
        requires
            old(self).wf(),
        ensures
            final(self).wf(),
            !old(self).vertex_map().contains_key(id@) ==> r == Err::<(), GraphError<'id, Edge::Error>>(
                GraphError::VertexNotFound(id),
            ) && *final(self) == *old(self),
            old(self).vertex_map().contains_key(id@) ==> r is Ok && old(self).vertex_removed(
                &*final(self),
                id@,
            ),
    {
        let v = id.id();
        if !(v < self.vertices.len() && self.vertices[v].is_some()) {
            return Err(GraphError::VertexNotFound(id));
        }
        let ghost old_self = *self;
        let taken = self.vertices[v].take();
        let mut vertex = match taken {
            Some(cell) => cell.into_inner(),
            None => unreached(),
        };
        proof {
            assert(old_self.vertex_map().dom().remove(v).len() == old_self.vertex_map().dom().len() - 1);
        }
        self.vertex_len = self.vertex_len - 1;
        proof {
            assert(self.vertex_map() =~= old_self.vertex_map().remove(v));
            assert(self.edge_map() =~= old_self.edge_map().remove_keys(Set::empty()));
            assert forall|u: usize| #[trigger] self.vertex_map().contains_key(u) implies self.adjacency(u)
                == old_self.adjacency(u).remove_keys(Set::empty()) by {
                assert(self.adjacency(u) =~= old_self.adjacency(u).remove_keys(Set::empty()));
            }
        }
        // Take the edge ids first: the table is drained below.
        let keys = vertex.edge_ids();
        let ghost mut done: Set<usize> = Set::empty();
        let mut k: usize = 0;
        while k < keys.len()
            invariant
                old_self.wf(),
                old_self.vertex_map().contains_key(v),
                id@ == v,
                k <= keys.len(),
                keys@.no_duplicates(),
                forall|x: usize| keys@.contains(x) <==> old_self.adjacency(v).contains_key(x),
                forall|j: int| 0 <= j < k ==> done.contains(#[trigger] keys@[j]),
                forall|x: usize| done.contains(x) ==> exists|j: int| 0 <= j < k && keys@[j] == x,
                old_self.detached(&*self, v, done),
            decreases keys.len() - k,
        {
            let e = keys[k];
            proof {
                assert(keys@.contains(e));
                if done.contains(e) {
                    let j = choose|j: int| 0 <= j < k && keys@[j] == e;
                    assert(keys@[j] == keys@[k as int]);
                }
                assert(old_self.entry_backed(v, e));
                assert(old_self.edge_linked(e));
                assert(self.edge_map().contains_key(e));
                assert(self.edge_map()[e] == old_self.edge_map()[e]);
            }
            vertex.unlink(e);
            let other = match &self.edges[e] {
                Some(edge) => edge.other(id),
                None => { return Err(GraphError::EdgeNotFound(EdgeId::new(e))); },
            };
            let n = match other {
                Some(n) => n.id(),
                None => { return Err(GraphError::EdgeNotFound(EdgeId::new(e))); },
            };
            if !self.vertex_has_edge(n, e, &*token) {
                return Err(GraphError::EdgeNotFound(EdgeId::new(e)));
            }
            let ghost cur = *self;
            self.unlink_at(n, e, token);
            let ghost mid = *self;
            self.edges.set(e, None);
            proof {
                assert(cur.edge_map().dom().remove(e).len() == cur.edge_map().dom().len() - 1);
            }
            self.edge_len = self.edge_len - 1;
            proof {
                assert(self.edge_map() =~= cur.edge_map().remove(e));
                assert(self.vertex_map() == mid.vertex_map());
                Self::lemma_detach_step(old_self, cur, mid, *self, v, e, n, done);
                done = done.insert(e);
            }
            k = k + 1;
        }
        proof {
            assert(done =~= old_self.adjacency(v).dom()) by {
                assert forall|x: usize| old_self.adjacency(v).contains_key(x) implies done.contains(x) by {
                    assert(keys@.contains(x));
                }
            }
            Self::lemma_detached_wf(old_self, *self, v);
        }
        Ok(())
    }

    proof fn lemma_detach_step(
        old: Self,
        cur: Self,
        mid: Self,
        next: Self,
        v: usize,
        e: usize,
        n: usize,
        done: Set<usize>,
    )
        requires
            old.wf(),
            old.vertex_map().contains_key(v),
            old.detached(&cur, v, done),
            old.adjacency(v).contains_key(e),
            !done.contains(e),
            old.edge_map().contains_key(e),
            (old.edge_map()[e].first() == v && old.edge_map()[e].second() == n) || (
            old.edge_map()[e].second() == v && old.edge_map()[e].first() == n),
            cur.same_but_adjacency(&mid),
            forall|u: usize| #[trigger]
                mid.vertex_map().contains_key(u) ==> mid.adjacency(u) == if u == n {
                    cur.adjacency(n).remove(e)
                } else {
                    cur.adjacency(u)
                },
            next.vertex_map() == mid.vertex_map(),
            next.edge_map() == cur.edge_map().remove(e),
            next.edge_len == cur.edge_len - 1,
            next.vertex_len == cur.vertex_len,
            next.vertices.len() == cur.vertices.len(),
            next.edges.len() == cur.edges.len(),
        ensures
            old.detached(&next, v, done.insert(e)),
    {
        let done2 = done.insert(e);
        assert(old.edge_linked(e));
        assert forall|u: usize| #[trigger] next.vertex_map().contains_key(u) implies next.adjacency(u)
            == old.adjacency(u).remove_keys(done2) by {
            assert(cur.vertex_map().contains_key(u));
            if u != n && old.adjacency(u).contains_key(e) {
                assert(old.entry_backed(u, e));
            }
            assert(next.adjacency(u) =~= old.adjacency(u).remove_keys(done2));
        }
        assert(next.edge_map() =~= old.edge_map().remove_keys(done2));
        assert(next.vertex_map().dom() =~= old.vertex_map().dom().remove(v));
    }

    proof fn lemma_detached_wf(old: Self, new: Self, v: usize)
        requires
            old.wf(),
            old.vertex_map().contains_key(v),
            old.detached(&new, v, old.adjacency(v).dom()),
        ensures
            new.wf(),
            old.vertex_removed(&new, v),
    {
        let done = old.adjacency(v).dom();
        assert(new.vertex_map().dom().len() == old.vertex_map().dom().len() - 1);
        assert forall|f: usize| #[trigger] new.edge_map().contains_key(f) implies new.edge_linked(f) by {
            assert(old.edge_linked(f));
            let x = old.edge_map()[f].first();
            let y = old.edge_map()[f].second();
            assert(x != v);
            assert(y != v);
            assert(new.vertex_map().contains_key(x));
            assert(new.vertex_map().contains_key(y));
        }
        assert forall|u: usize, f: usize|
            new.vertex_map().contains_key(u) && #[trigger] new.adjacency(u).contains_key(f) implies new.entry_backed(
            u,
            f,
        ) by {
            assert(old.adjacency(u).contains_key(f));
            assert(old.entry_backed(u, f));
        }
        assert forall|f: usize, g: usize|
            #[trigger] new.edge_map().contains_key(f) && #[trigger] new.edge_map().contains_key(g) && f
                != g implies !new.parallel(f, g) by {
            assert(!old.parallel(f, g));
        }
        assert(new.items() =~= old.items().remove(v));
        assert(new.adjacencies().dom() =~= old.adjacencies().dom().remove(v));
    }

    /// Vertices added one after another to a new graph get the ids 0, 1,
    /// 2, ... in that order, and the graph then holds exactly that many
    /// vertices.
    pub proof fn lemma_add_vertex_ids(graphs: Seq<Self>, items: Seq<Item>, ids: Seq<usize>)
        requires
            graphs.len() == ids.len() + 1,
            items.len() == ids.len(),
            graphs[0].wf(),
            graphs[0].next_vertex() == 0,
            forall|i: int| 0 <= i < graphs.len() ==> #[trigger] graphs[i].wf(),
            forall|i: int|
                0 <= i < ids.len() ==> graphs[i].vertex_added(&graphs[i + 1], #[trigger] ids[i], items[i]),
        ensures
            forall|i: int| 0 <= i < ids.len() ==> #[trigger] ids[i] == i,
            forall|i: int, j: int| 0 <= i < j < ids.len() ==> ids[i] < ids[j],
            graphs.last().vertex_map().len() == ids.len(),
        decreases ids.len(),
    {
        if ids.len() > 0 {
            let n = ids.len() - 1;
            Self::lemma_add_vertex_ids(graphs.drop_last(), items.drop_last(), ids.drop_last());
            assert(graphs.drop_last().last() == graphs[n]);
            assert(graphs[n].vertex_added(&graphs[n + 1], ids[n], items[n]));
            assert(graphs[n].next_vertex() == n) by {
                Self::lemma_next_vertex_counts(graphs, items, ids, n);
            }
            assert forall|i: int| 0 <= i <= n implies #[trigger] ids[i] == i by {
                if i < n {
                    assert(ids.drop_last()[i] == i);
                }
            }
            assert(graphs[n].wf());
            assert(graphs.last().vertex_map().dom() == graphs[n].vertex_map().dom().insert(ids[n]));
        } else {
            assert(graphs[0].vertex_map().dom() =~= Set::empty()) by {
                assert forall|v: usize| !graphs[0].vertex_map().contains_key(v) by {}
            }
        }
    }

    proof fn lemma_next_vertex_counts(graphs: Seq<Self>, items: Seq<Item>, ids: Seq<usize>, k: int)
        requires
            graphs.len() == ids.len() + 1,
            items.len() == ids.len(),
            0 <= k < graphs.len(),
            graphs[0].next_vertex() == 0,
            forall|i: int|
                0 <= i < ids.len() ==> graphs[i].vertex_added(&graphs[i + 1], #[trigger] ids[i], items[i]),
        ensures
            graphs[k].next_vertex() == k,
        decreases k,
    {
        if k > 0 {
            Self::lemma_next_vertex_counts(graphs, items, ids, k - 1);
            assert(graphs[k - 1].vertex_added(&graphs[k], ids[k - 1], items[k - 1]));
        }
    }

    /// Once an edge from `a` to `b` is added, each of the two is adjacent to
    /// the other, and each of their tables holds one entry more, the new
    /// edge, leading to the other end.
    pub proof fn lemma_added_edge_links(old: Self, new: Self, e: usize, a: usize, b: usize)
        requires
            old.wf(),
            new.wf(),
            old.vertex_map().contains_key(a),
            old.vertex_map().contains_key(b),
            a != b,
            old.edge_added(&new, e, a, b),
        ensures
            new.spec_adjacent(a, b),
            new.spec_adjacent(b, a),
            new.adjacency(a).len() == old.adjacency(a).len() + 1,
            new.adjacency(b).len() == old.adjacency(b).len() + 1,
            new.adjacency(a)[e] == b,
            new.adjacency(b)[e] == a,
            new.edge_between(a, b) == e,
            new.edge_between(b, a) == e,
    {
        assert(new.adjacencies().contains_key(a));
        assert(new.adjacencies().contains_key(b));
        assert(new.adjacencies()[a] == new.adjacency(a));
        assert(new.adjacencies()[b] == new.adjacency(b));
        assert(old.adjacencies()[a] == old.adjacency(a));
        assert(old.adjacencies()[b] == old.adjacency(b));
        assert(new.adjacency(a) == old.adjacency(a).insert(e, b));
        assert(new.adjacency(b) == old.adjacency(b).insert(e, a));
        assert(!old.edge_map().contains_key(e));
        assert(!old.adjacency(a).contains_key(e)) by {
            if old.adjacency(a).contains_key(e) {
                assert(old.entry_backed(a, e));
            }
        }
        assert(!old.adjacency(b).contains_key(e)) by {
            if old.adjacency(b).contains_key(e) {
                assert(old.entry_backed(b, e));
            }
        }
        assert(new.vertex_map().contains_key(a));
        assert(new.vertex_map().contains_key(b));
        assert(new.adjacency(a).contains_key(e) && new.adjacency(b).contains_key(e));
        assert(new.adjacency(b).contains_key(e) && new.adjacency(a).contains_key(e));
        new.lemma_edge_between_unique(a, b, e);
        new.lemma_edge_between_unique(b, a, e);
        assert(old.vertex_map()[a].wf());
        assert(old.vertex_map()[b].wf());
        assert(new.adjacency(a).dom() =~= old.adjacency(a).dom().insert(e));
        assert(new.adjacency(b).dom() =~= old.adjacency(b).dom().insert(e));
    }

    /// After an edge from `a` to `b` is added, the two are adjacent, so
    /// adding it again fails with `AlreadyEdgeBetween`; and `a`'s table holds
    /// exactly one entry that leads to `b`.
    pub proof fn lemma_added_edge_not_doubled(old: Self, new: Self, e: usize, a: usize, b: usize)
        requires
            old.wf(),
            new.wf(),
            old.vertex_map().contains_key(a),
            old.vertex_map().contains_key(b),
            a != b,
            old.edge_added(&new, e, a, b),
        ensures
            new.spec_adjacent(a, b),
            new.adjacency(a).dom().filter(|f: usize| new.adjacency(a)[f] == b) == set![e],
            new.adjacency(b).dom().filter(|f: usize| new.adjacency(b)[f] == a) == set![e],
    {
        Self::lemma_added_edge_links(old, new, e, a, b);
        assert(new.adjacencies().contains_key(a));
        assert(new.adjacencies().contains_key(b));
        assert(new.vertex_map().contains_key(a));
        assert(new.vertex_map().contains_key(b));
        assert forall|f: usize| #[trigger] new.adjacency(a).contains_key(f) && new.adjacency(a)[f] == b implies f
            == e by {
            assert(new.entry_backed(a, f));
            assert(new.edge_linked(f));
            new.lemma_edge_between_unique(a, b, f);
        }
        assert forall|f: usize| #[trigger] new.adjacency(b).contains_key(f) && new.adjacency(b)[f] == a implies f
            == e by {
            assert(new.entry_backed(b, f));
            assert(new.edge_linked(f));
            new.lemma_edge_between_unique(b, a, f);
        }
        assert(new.adjacency(a).dom().filter(|f: usize| new.adjacency(a)[f] == b) =~= set![e]);
        assert(new.adjacency(b).dom().filter(|f: usize| new.adjacency(b)[f] == a) =~= set![e]);
    }

    /// The entry of `a`'s table that leads to `b` and the entry of `b`'s
    /// table that leads to `a` are the one edge; so a weight written through
    /// one end is the weight read through the other.
    pub proof fn lemma_one_record_for_both_ends(
        old: Self,
        new: Self,
        a: usize,
        b: usize,
        e1: usize,
        e2: usize,
    )
        requires
            old.wf(),
            old.vertex_map().contains_key(a),
            old.vertex_map().contains_key(b),
            old.adjacency(a).contains_key(e1),
            old.adjacency(a)[e1] == b,
            old.adjacency(b).contains_key(e2),
            old.adjacency(b)[e2] == a,
            old.weight_changed(&new, e1),
        ensures
            e1 == e2,
            new.adjacency(a) == old.adjacency(a),
            new.adjacency(b) == old.adjacency(b),
            new.edge_map()[e2].weight() == new.edge_map()[e1].weight(),
    {
        assert(old.entry_backed(a, e1));
        assert(old.edge_linked(e1));
        assert(old.entry_backed(b, e2));
        assert(old.edge_linked(e2));
        if e1 != e2 {
            assert(old.parallel(e1, e2));
        }
        assert(old.adjacencies()[a] == old.adjacency(a));
        assert(old.adjacencies()[b] == old.adjacency(b));
        assert(new.adjacencies().contains_key(a));
        assert(new.adjacencies().contains_key(b));
    }

    /// Removing vertex `v` leaves one vertex fewer, none with id `v`, and
    /// takes out of each other vertex's table exactly the entries that led
    /// to `v`.
    pub proof fn lemma_removed_vertex_degrees(old: Self, new: Self, v: usize, u: usize)
        requires
            old.wf(),
            old.vertex_map().contains_key(v),
            old.vertex_removed(&new, v),
            old.vertex_map().contains_key(u),
            u != v,
        ensures
            new.vertex_map().len() + 1 == old.vertex_map().len(),
            !new.vertex_map().contains_key(v),
            new.vertex_map().contains_key(u),
            new.adjacency(u).len() + old.adjacency(u).dom().filter(|f: usize| old.adjacency(u)[f] == v).len()
                == old.adjacency(u).len(),
    {
        assert(new.items().dom() == old.items().dom().remove(v));
        assert(new.items().dom() =~= new.vertex_map().dom());
        assert(old.items().dom() =~= old.vertex_map().dom());
        assert(new.adjacencies().contains_key(u));
        assert(new.adjacencies()[u] == new.adjacency(u));
        let a = old.adjacency(u).dom();
        let d = old.adjacency(v).dom();
        let near = a.filter(|f: usize| old.adjacency(u)[f] == v);
        assert(old.vertex_map()[u].wf());
        assert(old.vertex_map()[v].wf());
        assert(a.intersect(d) =~= near) by {
            assert forall|f: usize| a.contains(f) implies (d.contains(f) <==> old.adjacency(u)[f] == v) by {
                assert(old.entry_backed(u, f));
                assert(old.edge_linked(f));
            }
        }
        assert(new.adjacency(u).dom() =~= a.difference(d));
        vstd::set_lib::lemma_set_difference_len(a, d);
    }

    /// A vertex added after vertex `v` was removed does not get `v`'s id:
    /// it gets the next id never given out.
    pub proof fn lemma_ids_not_reused(g0: Self, g1: Self, g2: Self, v: usize, w: usize, item: Item)
        requires
            g0.wf(),
            g0.vertex_map().contains_key(v),
            g0.vertex_removed(&g1, v),
            g1.vertex_added(&g2, w, item),
        ensures
            w != v,
            w == g0.next_vertex(),
            v < w,
    {
    }

    /// After `clear`, the graph counts no vertex and no edge, and no id that
    /// named one before names one now.
    pub proof fn lemma_cleared_forgets_ids(old: Self, new: Self, v: usize, e: usize)
        requires
            new.wf(),
            new.vertex_map() == Map::<usize, Vertex<'id, Item>>::empty(),
            new.edge_map() == Map::<usize, Edge>::empty(),
        ensures
            new.vertex_map().len() == 0,
            new.edge_map().len() == 0,
            old.vertex_map().contains_key(v) ==> !new.vertex_map().contains_key(v),
            old.edge_map().contains_key(e) ==> !new.edge_map().contains_key(e),
    {
        assert(new.vertex_map().dom() =~= Set::empty());
        assert(new.edge_map().dom() =~= Set::empty());
    }

    /// The number of vertices in the graph.
    pub fn vertex_len(&self) -> (r: usize)
        requires
            self.wf(),
        ensures
            r == self.vertex_map().len(),
    {
        self.vertex_len
    }

    /// The number of edges in the graph.
    pub fn edge_len(&self) -> (r: usize)
        requires
            self.wf(),
        ensures
            r == self.edge_map().len(),
    {
        self.edge_len
    }

    /// Whether the graph has no vertex.
    pub fn is_empty(&self) -> (r: bool)
        requires
            self.wf(),
        ensures
            r == (self.vertex_map().len() == 0),
    {
        self.vertex_len == 0
    }
}

impl<'id, Item, Weight, Edge: EdgeTrait<'id, Weight>> Default for Graph<'id, Item, Weight, Edge> {
    /// An empty graph, as [`Graph::new`] makes it.
    fn default() -> (r: Self)
        ensures
            r.wf(),
            r.vertex_map() == Map::<usize, Vertex<'id, Item>>::empty(),
            r.edge_map() == Map::<usize, Edge>::empty(),
            r.next_vertex() == 0,
            r.next_edge() == 0,
    {
        Self::new()
    }
}

} // verus!
