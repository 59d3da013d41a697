use crate::adjacency::AdjacencyMap;
use crate::id::{EdgeId, VertexId};
use vstd::prelude::*;

verus! {

/// A vertex of a graph: its id, the item it holds, and its adjacency table,
/// which maps the id of each incident edge to the vertex at its other end.
pub struct Vertex<'id, Item> {
    id: VertexId<'id>,
    edges: AdjacencyMap,
    item: Item,
}

impl<'id, Item> Vertex<'id, Item> {
    /// The number of this vertex's id.
    pub closed spec fn spec_id(&self) -> usize {
        self.id@
    }

    /// The adjacency table: incident edge id to neighbouring vertex id.
    pub closed spec fn adjacency(&self) -> Map<usize, usize> {
        self.edges@
    }

    /// The item held by the vertex.
    pub closed spec fn spec_item(&self) -> Item {
        self.item
    }

    /// The adjacency table is finite.
    pub open spec fn wf(&self) -> bool {
        self.adjacency().dom().finite()
    }

    /// A vertex with the given id and item and no edges.
    pub(crate) fn new(id: usize, item: Item) -> (r: Self)
        ensures
            r.spec_id() == id,
            r.adjacency() == Map::<usize, usize>::empty(),
            r.spec_item() == item,
            r.wf(),
    {
        let edges = AdjacencyMap::new();
        assert(edges@ =~= Map::<usize, usize>::empty());
        Vertex { id: VertexId::new(id), edges, item }
    }

    /// The id of this vertex.
    pub fn id(&self) -> (r: VertexId<'id>)
        ensures
            r@ == self.spec_id(),
    {
        self.id
    }

    /// The item held by the vertex.
    pub fn get_item(&self) -> (r: &Item)
        ensures
            *r == self.spec_item(),
    {
        &self.item
    }

    /// The item held by the vertex, for writing.
    pub fn get_item_mut(&mut self) -> (r: &mut Item)
        ensures
            *r == old(self).spec_item(),
            final(self).spec_item() == *final(r),
            final(self).spec_id() == old(self).spec_id(),
            final(self).adjacency() == old(self).adjacency(),
            final(self).wf() == old(self).wf(),
    {
        &mut self.item
    }

    /// The number of edges incident to this vertex.
    pub fn degree(&self) -> (r: usize)
        requires
            self.wf(),
        ensures
            r == self.adjacency().len(),
    {
        self.edges.len()
    }

    /// Each incident edge once, with the vertex at its other end, in no
    /// particular order.
    pub fn iter(&self) -> (r: Vec<(EdgeId<'id>, VertexId<'id>)>)
        requires
            self.wf(),
        ensures
            r.len() == self.adjacency().len(),
            forall|i: int|
                0 <= i < r.len() ==> #[trigger] self.adjacency().contains_key(r@[i].0@)
                    && self.adjacency()[r@[i].0@] == r@[i].1@,
            forall|e: usize|
                self.adjacency().contains_key(e) ==> exists|i: int|
                    0 <= i < r.len() && #[trigger] r@[i].0@ == e,
            forall|i: int, j: int| 0 <= i < j < r.len() ==> r@[i].0@ != r@[j].0@,
    {
        let keys = self.edges.keys();
        let mut out: Vec<(EdgeId<'id>, VertexId<'id>)> = Vec::new();
        let mut i: usize = 0;
        while i < keys.len()
            invariant
                i <= keys.len(),
                out.len() == i,
                keys@.no_duplicates(),
                forall|k: usize| keys@.contains(k) <==> self.edges@.contains_key(k),
                forall|j: int| 0 <= j < i ==> #[trigger] out@[j].0@ == keys@[j],
                forall|j: int| 0 <= j < i ==> self.edges@[#[trigger] keys@[j]] == out@[j].1@,
            decreases keys.len() - i,
        {
            let e = keys[i];
            assert(keys@.contains(e));
            let n = self.edges.get(e);
            let n = match n {
                Some(n) => n,
                None => 0,
            };
            out.push((EdgeId::new(e), VertexId::new(n)));
            i = i + 1;
        }
        proof {
            assert forall|j: int| 0 <= j < out.len() implies #[trigger] self.adjacency().contains_key(out@[j].0@)
                && self.adjacency()[out@[j].0@] == out@[j].1@ by {
                assert(keys@.contains(keys@[j]));
            }
            assert forall|e: usize| self.adjacency().contains_key(e) implies exists|i: int|
                0 <= i < out.len() && #[trigger] out@[i].0@ == e by {
                assert(keys@.contains(e));
                let i = choose|i: int| 0 <= i < keys.len() && keys@[i] == e;
                assert(out@[i].0@ == e);
            }
            keys@.unique_seq_to_set();
            assert(keys@.to_set() =~= self.edges@.dom());
        }
        out
    }

    /// Enters `edge` into the adjacency table, leading to `neighbour`.
    pub(crate) fn link(&mut self, edge: usize, neighbour: usize)
        ensures
            final(self).adjacency() == old(self).adjacency().insert(edge, neighbour),
            final(self).spec_id() == old(self).spec_id(),
            final(self).spec_item() == old(self).spec_item(),
            old(self).wf() ==> final(self).wf(),
    {
        self.edges.insert(edge, neighbour);
    }

    /// Takes `edge` out of the adjacency table and returns where it led.
    pub(crate) fn unlink(&mut self, edge: usize) -> (r: Option<usize>)
        ensures
            final(self).adjacency() == old(self).adjacency().remove(edge),
            r == (if old(self).adjacency().contains_key(edge) {
                Some(old(self).adjacency()[edge])
            } else {
                None::<usize>
            }),
            final(self).spec_id() == old(self).spec_id(),
            final(self).spec_item() == old(self).spec_item(),
            old(self).wf() ==> final(self).wf(),
    {
        self.edges.remove(edge)
    }

    /// Whether `edge` is in the adjacency table.
    pub(crate) fn has_edge(&self, edge: usize) -> (r: bool)
        ensures
            r == self.adjacency().contains_key(edge),
    {
        self.edges.contains_key(edge)
    }

    /// An edge id found in the adjacency tables of both `self` and `other`,
    /// where there is one. The smaller table is walked and each of its ids
    /// looked up in the larger.
    pub(crate) fn shared_edge(&self, other: &Self) -> (r: Option<usize>)
        ensures
            r matches Some(e) ==> self.adjacency().contains_key(e) && other.adjacency().contains_key(
                e,
            ),
            r is None ==> forall|e: usize| #[trigger]
                self.adjacency().contains_key(e) ==> !other.adjacency().contains_key(e),
    {
        if self.edges.len() <= other.edges.len() {
            Self::first_common(self, other)
        } else {
            Self::first_common(other, self)
        }
    }

    /// The first id of `walked`'s table, in its own order, that `probed`'s
    /// table also holds.
    fn first_common(walked: &Self, probed: &Self) -> (r: Option<usize>)
        ensures
            r matches Some(e) ==> walked.adjacency().contains_key(e)
                && probed.adjacency().contains_key(e),
            r is None ==> forall|e: usize| #[trigger]
                walked.adjacency().contains_key(e) ==> !probed.adjacency().contains_key(e),
    {
        let keys = walked.edges.keys();
        let mut i: usize = 0;
        while i < keys.len()
            invariant
                i <= keys.len(),
                forall|k: usize| keys@.contains(k) <==> walked.edges@.contains_key(k),
                forall|j: int| 0 <= j < i ==> !probed.edges@.contains_key(#[trigger] keys@[j]),
            decreases keys.len() - i,
        {
            let e = keys[i];
            if probed.edges.contains_key(e) {
                assert(keys@.contains(e));
                return Some(e);
            }
            i = i + 1;
        }
        proof {
            assert forall|e: usize| #[trigger]
                walked.adjacency().contains_key(e) implies !probed.adjacency().contains_key(e) by {
                assert(keys@.contains(e));
            }
        }
        None
    }

    /// The ids of the incident edges, each once.
    pub(crate) fn edge_ids(&self) -> (r: Vec<usize>)
        ensures
            r@.no_duplicates(),
            forall|k: usize| r@.contains(k) <==> self.adjacency().contains_key(k),
    {
        self.edges.keys()
    }
}

} // verus!
