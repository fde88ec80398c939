use vstd::prelude::*;

pub mod color;
pub mod phase;
pub mod sequencer;
pub mod value_map;
pub mod window;

verus! {

} // verus!
