//! The timer of the refresh: a refresh every quarter of an hour, until the
//! server shuts down.

use vstd::prelude::*;

verus! {

/// The seconds between two refreshes.
pub const REFRESH_INTERVAL: u64 = 900;

/// What the timer does after a wait.
#[derive(Clone, Copy, Debug, PartialEq, Eq, Structural)]
pub enum Tick {
    /// The wait ran its full time: the data is refreshed, then the timer
    /// waits again.
    Refresh,
    /// The wait was ended by the signal to shut down: the timer stops.
    Stop,
}

/// Decides what follows a wait: a signal to shut down ends the timer before
/// the next refresh.
pub fn after_wait(shutdown_received: bool) -> (r: Tick)
    ensures
        r == (if shutdown_received {
            Tick::Stop
        } else {
            Tick::Refresh
        }),
{
    if shutdown_received {
        Tick::Stop
    } else {
        Tick::Refresh
    }
}

} // verus!
