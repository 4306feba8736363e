use vstd::prelude::*;

pub mod audio;
pub mod channels;
pub mod text;
pub mod numbers;
pub mod assets;
pub mod bridge;
pub mod diagnostics;
pub mod response;
pub mod project;
pub mod startup;

pub use startup::run;

verus! {

} // verus!
