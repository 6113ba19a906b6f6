//! The kernel-object trait: what a typed pool needs to know of the objects
//! it stores.

use vstd::prelude::*;

verus! {

/// A kernel object stored in a typed pool.
///
/// `inv` is the object's own internal consistency, which the owning pool
/// maintains for every live slot.
pub trait NucleusObject: Sized {
    spec fn inv(&self) -> bool;
}

} // verus!
