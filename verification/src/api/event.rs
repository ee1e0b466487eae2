//! Event kinds and the answers a plugin gives to an event.
use vstd::prelude::*;

verus! {

pub const PLAYER_JOIN: u32 = 1u32;
pub const PLAYER_LEAVE: u32 = 2u32;
pub const TICK: u32 = 3u32;
pub const PLAYER_TICK: u32 = 4u32;
pub const BREAK_BLOCK: u32 = 5u32;
pub const PLACE_BLOCK: u32 = 6u32;

/// The plugin leaves the decision to others.
pub const RESULT_DEFAULT: i32 = 0i32;
/// The plugin allows what the event is about.
pub const RESULT_ALLOW: i32 = 1i32;
/// The plugin denies what the event is about.
pub const RESULT_DENY: i32 = -1i32;

} // verus!
