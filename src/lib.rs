use vstd::prelude::*;

pub mod commands;
pub mod fuzzy;
pub mod history;
pub mod ranking;
pub mod score;
pub mod suggestions;
pub mod temporal;
pub mod voice;

verus! {

} // verus!
