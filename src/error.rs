use vstd::prelude::*;

verus! {

/// Why a decode was abandoned. Every failure aborts the whole decode.
#[derive(Debug, Clone, Copy, PartialEq, Eq, Structural)]
pub enum DecodeError {
    /// The buffer is shorter than the fixed header.
    MalformedHeader,
    /// A region named by the header does not lie inside the buffer, or the
    /// span region is placed at offset zero or at/after the buffer's end.
    RegionOutOfBounds,
    /// The span region's size (carried) is zero or not a whole number of
    /// span records.
    InvalidSpanTable(u32),
    /// The span record at position `record` of the table breaks the bounds
    /// of the raster or of the pixel payload; `value` is the offending
    /// quantity (its row, start or end column, or the payload index that
    /// overruns).
    SpanBoundsViolation { record: usize, value: u64 },
    /// A palette could not be built from this many bytes, or a palette index
    /// (carried) is covered neither by the embedded nor the system palette.
    PaletteError(usize),
    /// The raster's row size, `4 * width`, or its byte size,
    /// `4 * width * height`, does not fit in memory addresses of this
    /// machine.
    RasterTooLarge,
}

} // verus!
