use vstd::prelude::*;

verus! {

/// What an adjacency table holds: edge id to the id of the vertex at the
/// other end of that edge.
pub uninterp spec fn adjacency_entries(m: AdjacencyMap) -> Map<usize, usize>;

/// A vertex's adjacency table, kept in a hashbrown `HashMap` from edge id to
/// the neighbouring vertex id.
#[verifier::external_body]
pub struct AdjacencyMap {
    table: hashbrown::HashMap<usize, usize>,
}

impl View for AdjacencyMap {
    type V = Map<usize, usize>;

    open spec fn view(&self) -> Map<usize, usize> {
        adjacency_entries(*self)
    }
}

impl AdjacencyMap {
    /// Relies on hashbrown's `HashMap::new`: the map starts empty.
    #[verifier::external_body]
    pub fn new() -> (r: AdjacencyMap)
        ensures
            adjacency_entries(r).dom().len() == 0,
            adjacency_entries(r).dom().finite(),
    {
        AdjacencyMap { table: hashbrown::HashMap::new() }
    }

    /// Relies on hashbrown's `HashMap::insert`: afterwards `key` maps to
    /// `value` and every other entry stays.
    #[verifier::external_body]
    pub fn insert(&mut self, key: usize, value: usize)
        ensures
            adjacency_entries(*final(self)) == adjacency_entries(*old(self)).insert(key, value),
    {
        self.table.insert(key, value);
    }

    /// Relies on hashbrown's `HashMap::remove`: the entry of `key` leaves
    /// and its value comes back, if there was one.
    #[verifier::external_body]
    pub fn remove(&mut self, key: usize) -> (r: Option<usize>)
        ensures
            adjacency_entries(*final(self)) == adjacency_entries(*old(self)).remove(key),
            r == (if adjacency_entries(*old(self)).contains_key(key) {
                Some(adjacency_entries(*old(self))[key])
            } else {
                None::<usize>
            }),
    {
        self.table.remove(&key)
    }

    /// Relies on hashbrown's `HashMap::get`: the value of `key`, if any.
    #[verifier::external_body]
    pub fn get(&self, key: usize) -> (r: Option<usize>)
        ensures
            r == (if adjacency_entries(*self).contains_key(key) {
                Some(adjacency_entries(*self)[key])
            } else {
                None::<usize>
            }),
    {
        self.table.get(&key).copied()
    }

    /// Relies on hashbrown's `HashMap::contains_key`.
    #[verifier::external_body]
    pub fn contains_key(&self, key: usize) -> (r: bool)
        ensures
            r == adjacency_entries(*self).contains_key(key),
    {
        self.table.contains_key(&key)
    }

    /// Relies on hashbrown's `HashMap::len`: the number of entries.
    #[verifier::external_body]
    pub fn len(&self) -> (r: usize)
        ensures
            r == adjacency_entries(*self).len(),
    {
        self.table.len()
    }

    /// Relies on hashbrown's `HashMap::keys`: every key once, in an order
    /// that the map does not promise.
    #[verifier::external_body]
    pub fn keys(&self) -> (r: Vec<usize>)
        ensures
            r@.no_duplicates(),
            forall|k: usize| r@.contains(k) <==> adjacency_entries(*self).contains_key(k),
    {
        self.table.keys().copied().collect()
    }
}

} // verus!
