use vstd::prelude::*;

mod grid;
mod spin;

pub use grid::Grid;
pub use grid::GridModel;
pub use grid::lemma_dims_bounded;
pub use grid::lemma_index_in_range;
pub use grid::lemma_periodic;
pub use grid::lemma_set_get;
pub use spin::Spin;
pub use spin::lemma_flip_involution;

verus! {

} // verus!
