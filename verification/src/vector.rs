use vstd::prelude::*;

verus! {

/// A vector on the integer lattice. It carries no coordinates of its own;
/// it only marks values that live on the pixel grid.
#[derive(Clone, Copy, Debug, PartialEq, Eq, Structural)]
pub struct IVector {}

} // verus!
