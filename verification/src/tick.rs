//! Change ticks: deciding whether a component was mutated since the previous
//! observation.

use bevy::ecs::component::Tick;
use vstd::prelude::*;

verus! {

/// The largest age a change tick can be told apart by. Older ticks are clamped
/// to this age, so a tick that old always counts as unchanged.
pub const MAX_CHANGE_AGE: u32 = 3_258_167_296u32;

/// How many ticks `later` lies after `earlier` on the wrapping 32-bit tick
/// counter.
pub open spec fn ticks_between(earlier: u32, later: u32) -> int {
    if later >= earlier {
        later - earlier
    } else {
        later - earlier + 0x1_0000_0000
    }
}

/// An age in ticks, cut off at [`MAX_CHANGE_AGE`].
pub open spec fn clamped_age(age: int) -> int {
    if age < MAX_CHANGE_AGE {
        age
    } else {
        MAX_CHANGE_AGE as int
    }
}

/// Whether a value last changed at `tick` was changed after the observation
/// made at `last_run`, as seen from the observation made at `this_run`.
pub open spec fn changed_since(tick: u32, last_run: u32, this_run: u32) -> bool {
    clamped_age(ticks_between(last_run, this_run)) > clamped_age(ticks_between(tick, this_run))
}

/// Asks `bevy::ecs::component::Tick::is_newer_than` whether `tick` is newer
/// than `last_run` relative to `this_run`.
///
/// Trusted: the contract restates the body of that method, which compares the
/// two wrapping differences `this_run - last_run` and `this_run - tick` after
/// clamping each to `MAX_CHANGE_AGE`.
#[verifier::external_body]
pub(crate) fn tick_is_newer_than(tick: u32, last_run: u32, this_run: u32) -> (newer: bool)
    ensures
        newer == changed_since(tick, last_run, this_run),
{
    Tick::new(tick).is_newer_than(Tick::new(last_run), Tick::new(this_run))
}

} // verus!
