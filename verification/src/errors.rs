use vstd::prelude::*;

verus! {

/// Decoding failure: the bytes handed to a decoder were shorter than the
/// format requires, or held a field no valid encoder produces. Decoders
/// fail with this error instead of silently returning default values.
#[derive(Clone, Copy, Debug, PartialEq, Eq, Structural)]
pub enum CodecError {
    /// The input ended before the format did.
    Truncated,
    /// A field held bytes that no valid value encodes to.
    Malformed,
}

/// Failure of a time-series store operation. A namespace that was never
/// written is not an error: reads answer `None` or an empty sequence there.
#[derive(Debug)]
pub enum StorageError {
    /// The storage backend failed (I/O, lock, or transaction trouble).
    Backend(String),
    /// Stored bytes did not decode: the data on disk is corrupt.
    Corrupt(CodecError),
}

/// Rejection of a compact date string.
#[derive(Clone, Copy, Debug, PartialEq, Eq, Structural)]
pub enum DateError {
    /// The text has none of the accepted lengths.
    Format,
    /// The digits name no real calendar instant.
    Parse,
}

/// Rejection of a proposed ledger or order-book mutation. A rejected
/// mutation leaves the state exactly as it was.
#[derive(Clone, Copy, Debug, PartialEq, Eq, Structural)]
pub enum LedgerError {
    /// An exact-arithmetic update would leave the representable range.
    Overflow,
    /// The proposal breaks an invariant of the ledger, a position or the
    /// order status machine.
    Invariant,
}

/// Failure of engine construction or of the lifecycle configuration.
#[derive(Clone, Copy, Debug, PartialEq, Eq, Structural)]
pub enum EngineError {
    /// A second engine was started on a slot that already holds one.
    AlreadyInitialized,
    /// The strategy host supplies no `on_init` callback, which is mandatory.
    LifecycleConfig,
}

} // verus!
