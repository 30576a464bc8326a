use vstd::prelude::*;

pub mod cli;
pub mod counter;
pub mod extension_laws;
pub mod language;
pub mod output;
pub mod stats;
pub mod text;
pub mod walker;

verus! {

} // verus!
