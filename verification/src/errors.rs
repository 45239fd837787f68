use vstd::prelude::*;

verus! {

/// The error taxonomy of the toolkit.
///
/// Every fallible public operation returns one of these distinguishable
/// kinds; no operation substitutes a default value on failure.
#[derive(Clone, Copy, Debug, PartialEq, Eq, Structural)]
pub enum ToolkitError {
    /// The operating system could not create or enumerate a snapshot.
    SnapshotError,
    /// A snapshot was created but yielded no usable first entry.
    FirstEntryError,
    /// A fixed-width name buffer did not contain valid decodable text.
    DecodeError,
    /// Handle acquisition was denied or the target was not found.
    OpenError,
    /// An internal consistency assumption was broken, such as an address
    /// computation that would wrap; the operation terminates early with
    /// partial results instead of crashing.
    SystemInvariantViolation,
}

} // verus!
