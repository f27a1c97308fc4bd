//! Values that several holders share.

use std::rc::Rc;
use std::sync::Arc;
use vstd::prelude::*;

verus! {

/// `Rc::clone` of std: another pointer to the same value.
#[verifier::external_body]
pub(crate) fn share_rc<T>(rc: &Rc<T>) -> (r: Rc<T>)
    ensures
        r == *rc,
{
    Rc::clone(rc)
}

/// `Arc::clone` of std: another pointer to the same value.
#[verifier::external_body]
pub(crate) fn share_arc<T>(arc: &Arc<T>) -> (r: Arc<T>)
    ensures
        r == *arc,
{
    Arc::clone(arc)
}

} // verus!
