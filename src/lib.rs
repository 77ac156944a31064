use vstd::prelude::*;

pub mod colors;
pub mod dirent;
pub mod display;
pub mod error;
pub mod flags;
pub mod ledger;
pub mod order;
pub mod pattern;
pub mod text;
pub mod tree;

verus! {

} // verus!
