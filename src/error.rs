//! Errors of the availability store.
use vstd::prelude::*;

verus! {

/// What can go wrong while serving a request or handling a signal.
#[derive(Clone, Copy, Debug, PartialEq, Eq, Structural)]
pub enum Error {
    /// A runtime API request failed.
    RuntimeApi,
    /// A chain API request failed.
    ChainApi,
    /// Erasure coding the available data failed.
    Erasure,
    /// The key-value store failed.
    Io,
    /// A one-shot reply channel was closed before the answer came.
    Oneshot,
    /// The message bus failed.
    Subsystem,
    /// The clock is before the epoch, or a deadline does not fit.
    Time,
    /// The configured database is not one that this store can open.
    CustomDatabase,
}

impl Error {
    /// Whether the error is routine enough to be reported at debug level;
    /// every other error is worth a warning.
    pub fn is_low_signal(&self) -> (r: bool)
        ensures
            r <==> (*self == Error::RuntimeApi || *self == Error::Oneshot),
    {
        match self {
            Error::RuntimeApi | Error::Oneshot => true,
            _ => false,
        }
    }
}

} // verus!
