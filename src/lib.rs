use vstd::prelude::*;

pub mod paths;
pub mod pattern;
pub mod record;
pub mod index;
pub mod crawl;
pub mod store;
pub mod laws;

verus! {

} // verus!
