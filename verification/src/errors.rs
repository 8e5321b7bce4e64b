use vstd::prelude::*;

verus! {

/// The error taxonomy of the bridge.
///
/// Startup-phase errors (`Configuration`, `StorageUnavailable`, `Connection`)
/// are fatal and abort the process; steady-state errors (`Publish`,
/// `StorageWrite`, `Validation`) are contained to the operation that raised
/// them and never crash the ingestion loop or other in-flight requests.
#[derive(Clone, Copy, Debug, PartialEq, Eq, Structural)]
pub enum ServiceError {
    /// The credential file exists but is unreadable or malformed; never
    /// raised when the file is merely absent.
    Configuration,
    /// The local event database cannot be opened, or a read against it
    /// failed.
    StorageUnavailable,
    /// The relay transport could not be established.
    Connection,
    /// The transport rejected or timed out an outbound note.
    Publish,
    /// A single event failed to persist during ingestion; ingestion goes on
    /// with the next notification.
    StorageWrite,
    /// A malformed request body or query parameter.
    Validation,
}

} // verus!
