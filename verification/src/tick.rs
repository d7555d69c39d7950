//! Simulation ticks.
//!
//! They stand for the ticks of `lightyear_core`, which is a member of the same workspace and not
//! linked. Two of their conventions are taken as given:
//!
//! - ticks are ordered by their number and do not wrap around;
//! - a difference that `i32` cannot hold saturates.
//!
//! So between keyframes more than `i32::MAX` ticks apart a difference can stand for a longer one.

use vstd::prelude::*;

verus! {

/// A tick of the simulation shared by server and clients.
///
/// Ticks are ordered by their number and do not wrap around.
#[derive(Clone, Copy, Debug, PartialEq, Eq, PartialOrd, Ord, Hash, Default, Structural)]
pub struct Tick(pub u32);

/// `later - earlier`, held inside the range of `i32`.
pub open spec fn saturating_difference(later: Tick, earlier: Tick) -> i32 {
    let difference = later.0 - earlier.0;
    if difference < i32::MIN {
        i32::MIN
    } else if difference > i32::MAX {
        i32::MAX
    } else {
        difference as i32
    }
}

impl vstd::std_specs::ops::SubSpecImpl for Tick {
    open spec fn obeys_sub_spec() -> bool {
        true
    }

    open spec fn sub_req(self, rhs: Tick) -> bool {
        true
    }

    open spec fn sub_spec(self, rhs: Tick) -> i32 {
        saturating_difference(self, rhs)
    }
}

/// The signed number of ticks between two ticks; a distance that `i32` cannot hold saturates.
impl core::ops::Sub for Tick {
    type Output = i32;

    fn sub(self, rhs: Tick) -> (difference: i32) {
        let exact: i64 = self.0 as i64 - rhs.0 as i64;
        if exact < i32::MIN as i64 {
            i32::MIN
        } else if exact > i32::MAX as i64 {
            i32::MAX
        } else {
            exact as i32
        }
    }
}

} // verus!
