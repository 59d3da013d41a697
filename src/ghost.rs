use core::marker::PhantomData;
use vstd::prelude::*;

verus! {

/// A marker that ties a value to one session. The lifetime is invariant, so a
/// value made in one session cannot be used with the token of another.
#[derive(Clone, Copy, Debug, Hash, Default)]
pub(crate) struct InvariantLifetime<'id>(PhantomData<&'id mut &'id ()>);

impl<'id> InvariantLifetime<'id> {
    pub fn new() -> Self {
        InvariantLifetime(PhantomData)
    }
}

/// The capability of a session: a shared borrow of it reads any
/// [`GhostCell`] of the session, an exclusive borrow writes one.
pub struct GhostToken<'id> {
    _marker: InvariantLifetime<'id>,
}

impl<'id> GhostToken<'id> {
    /// Runs `f` with the one token of a fresh session and returns its result.
    pub fn new<R, F>(f: F) -> (r: R)
        where
            F: for<'new_id> FnOnce(GhostToken<'new_id>) -> R,
        requires
            forall|t: GhostToken<'id>| f.requires((t,)),
        ensures
            exists|t: GhostToken<'id>| f.ensures((t,), r),
    {
        let token = GhostToken { _marker: InvariantLifetime::new() };
        f(token)
    }
}

/// A cell whose contents are read with a shared borrow of the session's
/// [`GhostToken`], and written with an exclusive borrow of both the token
/// and the cell.
pub struct GhostCell<'id, T> {
    value: T,
    _marker: InvariantLifetime<'id>,
}

impl<'id, T> View for GhostCell<'id, T> {
    type V = T;

    closed spec fn view(&self) -> T {
        self.value
    }
}

impl<'id, T> GhostCell<'id, T> {
    /// Makes a cell that holds `value`.
    pub fn new(value: T) -> (r: Self)
        ensures
            r@ == value,
    {
        GhostCell { value, _marker: InvariantLifetime::new() }
    }

    /// The contents, through an exclusive borrow of the cell itself.
    pub fn get_mut(&mut self) -> (r: &mut T)
        ensures
            *r == old(self)@,
            final(self)@ == *final(r),
    {
        &mut self.value
    }

    /// Takes the contents out of the cell.
    pub fn into_inner(self) -> (r: T)
        ensures
            r == self@,
    {
        self.value
    }

    /// Reads the contents; the token stays borrowed as long as the result.
    pub fn g_borrow<'a>(&'a self, _token: &'a GhostToken<'id>) -> (r: &'a T)
        ensures
            *r == self@,
    {
        &self.value
    }

    /// Writes the contents; the token stays exclusively borrowed as long as
    /// the result, so nothing else of the session is read or written
    /// meanwhile.
    pub fn g_borrow_mut<'a>(&'a mut self, _token: &'a mut GhostToken<'id>) -> (r: &'a mut T)
        ensures
            *r == old(self)@,
            final(self)@ == *final(r),
    {
        &mut self.value
    }
}

} // verus!
