//! Errors reported by the driver.

use vstd::prelude::*;

verus! {

/// Result of a driver operation whose pin errors have type `E`.
pub type Result<T, E> = core::result::Result<T, DHT11Error<E>>;

/// Why an exchange with the sensor did not produce its result.
#[derive(Debug, Clone, Copy, PartialEq, Eq)]
pub enum DHT11Error<E> {
    /// The sensor did not answer the start signal (its acknowledgment wait
    /// ran out of time, or the exchange never ran to its end).
    NoResponse,
    /// A frame was received, but its checksum byte does not match its data.
    ChecksumMismatch,
    /// The pin reported an error of its own.
    PinError(E),
    /// After the acknowledgment, the line stayed away from an awaited level
    /// for too long.
    Timeout,
}

} // verus!
