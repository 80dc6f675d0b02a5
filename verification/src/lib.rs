//! Runtime core of a text-expansion engine.
//!
//! The library watches an ordered stream of keyboard events, incrementally
//! recognizes configured abbreviation triggers as they are typed, resolves
//! which expansion applies in the focused application's context, and plans
//! the output actions (delete the typed trigger, insert the replacement)
//! that an executor then performs.

use vstd::prelude::*;

pub mod chars;
pub mod dispatch;
pub mod engine;
pub mod event;
pub mod funnel;
pub mod rolling;
pub mod process;
pub mod select;
pub mod worker;
pub mod triggers;

verus! {

} // verus!
