//! A reactive automation core: trigger sources emit events, a dispatcher
//! matches each event against action bindings and plans handler calls, and
//! every handler outcome becomes a new event.

use vstd::prelude::*;

pub mod actions;
pub mod bot;
pub mod config;
pub mod decode;
pub mod entries;
pub mod errors;
pub mod events;
pub mod handlers;
pub mod triggers;
pub mod values;

pub use bot::{Bot, BotBuilder};
pub use config::Config;

verus! {

/// Sum of two counters.
pub fn add(left: u64, right: u64) -> (sum: u64)
    requires
        left + right <= u64::MAX,
    ensures
        sum == left + right,
{
    left + right
}

} // verus!
