use vstd::prelude::*;

verus! {

/// The failures that the core reports.
#[derive(Clone, Copy, Debug, PartialEq, Eq, Structural)]
pub enum CoreError {
    /// A provider entry is malformed; it is skipped.
    ConfigurationInvalid,
    /// The client at this index could not list its bots.
    DiscoveryFailed(usize),
    /// No client currently serves the addressed bot.
    UnknownBot,
    /// The backend failed while serving a turn.
    DispatchFailed,
    /// A session could not be written to or read from storage.
    PersistenceFailed,
}

} // verus!
