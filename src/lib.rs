use vstd::prelude::*;

pub mod geometry;
pub mod guarantees;
pub mod ordering;
pub mod packer;

pub use geometry::{URect, UVec2};
pub use packer::{Packer, PackerError};

verus! {

} // verus!
