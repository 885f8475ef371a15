use std::rc::Rc;
use vstd::prelude::*;

verus! {

/// Another handle to the value behind `r`.
///
/// Calls `Rc::clone`, which makes a new pointer to the same allocation; the
/// contract claims that the new handle points to a value equal to the old one.
#[verifier::external_body]
pub fn share<T>(r: &Rc<T>) -> (res: Rc<T>)
    ensures
        res == *r,
{
    Rc::clone(r)
}

} // verus!
