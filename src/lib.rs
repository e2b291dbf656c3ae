use vstd::prelude::*;

pub mod classify;
pub mod edges;
pub mod explore;
pub mod flow;
pub mod graph;
pub mod hexdump;
pub mod image;
pub mod insn;
pub mod resolve;
pub mod smallflows;
pub mod workspace;

verus! {

/// A virtual address in the loaded image.
pub type VA = u64;

} // verus!
