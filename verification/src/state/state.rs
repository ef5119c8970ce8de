//! The global counter record.

use vstd::prelude::*;

verus! {

/// The singleton counter state: the counter itself and how often it was
/// incremented and reset.
#[derive(Clone, Copy, Debug, PartialEq, Eq, Structural)]
pub struct State {
    pub count: i32,
    pub count_increment_count: i32,
    pub count_reset_count: i32,
}

} // verus!
