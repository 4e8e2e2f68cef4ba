//! What every function of the language can say about itself.

use vstd::prelude::*;

verus! {

/// A guide to a function: what it does, and how it is used.
pub trait Guide {
    fn description(&self) -> &'static str;

    fn help(&self) -> &'static str;
}

} // verus!
