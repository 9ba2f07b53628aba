use vstd::prelude::*;

verus! {

/// A hard failure while encoding one device image. Each variant carries the
/// values a caller needs to report the failure; none aborts the batch.
#[derive(Clone, Copy, Debug, PartialEq, Eq, Structural)]
pub enum EncodeError {
    /// An S-port declared an index outside 0..7.
    PortIndexOutOfBounds { index: usize },
    /// Appending one more mask RLE entry would exceed the fixed capacity.
    MaskCapacityExceeded { attempted: usize, capacity: usize },
    /// No file matched the ROM either by name or by content hash.
    RomNotFound,
}

} // verus!
