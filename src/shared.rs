use crate::ghost::{GhostCell, GhostToken};
use std::rc::Rc;
use vstd::prelude::*;

verus! {

/// A handle to a [`GhostCell`] on the heap that many owners can hold.
/// Cloning the handle copies the pointer, never the contents; the cell is
/// freed when the last handle goes, so no handle can outlive it.
pub struct Shared<'id, T>(Rc<GhostCell<'id, T>>);

impl<'id, T> View for Shared<'id, T> {
    type V = T;

    closed spec fn view(&self) -> T {
        (*self.0)@
    }
}

/// Relies on `Rc::clone`: the new pointer is to the same allocation, so it
/// reaches the same value.
#[verifier::external_body]
fn rc_clone<'id, T>(rc: &Rc<GhostCell<'id, T>>) -> (r: Rc<GhostCell<'id, T>>)
    ensures
        r == *rc,
{
    Rc::clone(rc)
}

/// Relies on `Rc::ptr_eq`: true only where both point to one allocation,
/// which then holds one value.
#[verifier::external_body]
fn rc_ptr_eq<'id, T>(a: &Rc<GhostCell<'id, T>>, b: &Rc<GhostCell<'id, T>>) -> (r: bool)
    ensures
        r ==> *a == *b,
{
    Rc::ptr_eq(a, b)
}

impl<'id, T> Shared<'id, T> {
    /// Puts `item` in a new cell on the heap and returns a handle to it.
    pub fn new(item: T) -> (r: Self)
        ensures
            r@ == item,
    {
        Shared(Rc::new(GhostCell::new(item)))
    }

    /// The cell this handle points to.
    pub fn ghost(&self) -> (r: &GhostCell<'id, T>)
        ensures
            r@ == self@,
    {
        &*self.0
    }

    /// Reads the contents with the session's token.
    pub fn borrow<'a>(&'a self, token: &'a GhostToken<'id>) -> (r: &'a T)
        ensures
            *r == self@,
    {
        self.0.g_borrow(token)
    }

    /// Another handle to the same cell.
    pub fn clone(&self) -> (r: Self)
        ensures
            r@ == self@,
    {
        Shared(rc_clone(&self.0))
    }

    /// Whether the two handles point to the same cell.
    pub fn ptr_eq(&self, other: &Self) -> (r: bool)
        ensures
            r ==> self@ == other@,
    {
        rc_ptr_eq(&self.0, &other.0)
    }
}

} // verus!
