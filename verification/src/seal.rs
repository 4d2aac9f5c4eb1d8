//! The seal on the states of an identity.

use vstd::prelude::*;

verus! {

/// Only the types of this library implement this trait, so no other type can be a
/// state of an identity.
pub trait Sealed {

}

} // verus!
