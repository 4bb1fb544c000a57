//! Error taxonomy for the telemetry subsystem.

use vstd::prelude::*;

verus! {

/// What can go wrong while collecting or reporting statistics.
///
/// - `DecodeError`: a malformed event record; recovered locally by dropping
///   the record and continuing.
/// - `IndexError`: a CPU or callback id outside the configured bounds; a
///   configuration invariant violation, never silently clamped.
/// - `ChannelError`: the event channel was closed or broke; triggers an
///   orderly drain.
/// - `MapLookupError`: a counter-table entry was unavailable; fatal, since
///   the table's shape is fixed when the program is loaded.
/// - `ExternalExit`: the observed scheduling program terminated.
#[derive(Clone, Copy, Debug, PartialEq, Eq, Structural)]
pub enum StatsError {
    DecodeError,
    IndexError,
    ChannelError,
    MapLookupError,
    ExternalExit,
}

} // verus!
