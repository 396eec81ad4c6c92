use vstd::prelude::*;
use crate::bytes::{le_u16, le_u32, read_u16_le, read_u32_le};
use crate::error::DecodeError;

verus! {

/// Bytes in the fixed header at the start of a PIC buffer.
pub const HEADER_SIZE: usize = 42;

/// Bytes in one span record.
pub const SPAN_RECORD_SIZE: usize = 10;

/// The fixed header: a format tag, the raster's size, and the byte range
/// (offset and size) of each of the four regions of the buffer.
#[derive(Debug, Clone, Copy, PartialEq, Eq, Structural)]
pub struct Header {
    pub format: u16,
    pub width: u32,
    pub height: u32,
    pub pixels_offset: u32,
    pub pixels_size: u32,
    pub palette_offset: u32,
    pub palette_size: u32,
    pub spans_offset: u32,
    pub spans_size: u32,
    pub rowheads_offset: u32,
    pub rowheads_size: u32,
}

/// One run of pixels: columns `start..=end` of row `row`, whose palette
/// indices start at byte `index` of the pixel payload.
#[derive(Debug, Clone, Copy, PartialEq, Eq, Structural)]
pub struct Span {
    pub row: u32,
    pub start: u32,
    pub end: u32,
    pub index: usize,
}

/// The header that the first `HEADER_SIZE` bytes of `d` encode.
pub open spec fn header_of(d: Seq<u8>) -> Header {
    Header {
        format: le_u16(d, 0) as u16,
        width: le_u32(d, 2) as u32,
        height: le_u32(d, 6) as u32,
        pixels_offset: le_u32(d, 10) as u32,
        pixels_size: le_u32(d, 14) as u32,
        palette_offset: le_u32(d, 18) as u32,
        palette_size: le_u32(d, 22) as u32,
        spans_offset: le_u32(d, 26) as u32,
        spans_size: le_u32(d, 30) as u32,
        rowheads_offset: le_u32(d, 34) as u32,
        rowheads_size: le_u32(d, 38) as u32,
    }
}

/// The span record that the bytes of `d` at `off` encode.
pub open spec fn span_at(d: Seq<u8>, off: int) -> Span {
    Span {
        row: le_u16(d, off) as u32,
        start: le_u16(d, off + 2) as u32,
        end: le_u16(d, off + 4) as u32,
        index: le_u32(d, off + 6) as usize,
    }
}

/// Every region lies inside a buffer of `len` bytes, and the span region
/// starts after byte zero and before the buffer's end.
pub open spec fn regions_fit(h: Header, len: int) -> bool {
    &&& h.pixels_offset + h.pixels_size <= len
    &&& h.palette_offset + h.palette_size <= len
    &&& h.spans_offset + h.spans_size <= len
    &&& h.rowheads_offset + h.rowheads_size <= len
    &&& 0 < h.spans_offset < len
}

/// The span region holds a whole, non-zero number of records: the runs and
/// the terminating record.
pub open spec fn span_table_whole(h: Header) -> bool {
    h.spans_size as int % SPAN_RECORD_SIZE as int == 0 && h.spans_size >= SPAN_RECORD_SIZE
}

/// The number of runs in the span table: every record but the last.
pub open spec fn span_count(h: Header) -> int {
    h.spans_size as int / SPAN_RECORD_SIZE as int - 1
}

/// The `i`-th record of the span table.
pub open spec fn span_record(d: Seq<u8>, h: Header, i: int) -> Span {
    span_at(d, h.spans_offset + SPAN_RECORD_SIZE * i)
}

/// The run lies on the raster and its indices inside the pixel payload.
pub open spec fn span_fits(s: Span, h: Header) -> bool {
    &&& s.row < h.height
    &&& s.start < h.width
    &&& s.end < h.width
    &&& s.start <= s.end
    &&& s.index < h.pixels_size
    &&& s.index + (s.end - s.start) < h.pixels_size
}

impl Header {
    /// Reads the header at the start of `data`; a buffer shorter than the
    /// header is rejected.
    pub fn parse(data: &[u8]) -> (r: Result<Header, DecodeError>)
        ensures
            data@.len() < HEADER_SIZE <==> r is Err,
            r matches Err(e) ==> e == DecodeError::MalformedHeader,
            r matches Ok(h) ==> h == header_of(data@),
    {
        if data.len() < HEADER_SIZE {
            return Err(DecodeError::MalformedHeader);
        }
        Ok(Header {
            format: read_u16_le(data, 0),
            width: read_u32_le(data, 2),
            height: read_u32_le(data, 6),
            pixels_offset: read_u32_le(data, 10),
            pixels_size: read_u32_le(data, 14),
            palette_offset: read_u32_le(data, 18),
            palette_size: read_u32_le(data, 22),
            spans_offset: read_u32_le(data, 26),
            spans_size: read_u32_le(data, 30),
            rowheads_offset: read_u32_le(data, 34),
            rowheads_size: read_u32_le(data, 38),
        })
    }

    /// Checks that the regions lie inside a buffer of `len` bytes and that
    /// the span region holds whole records.
    pub fn check_regions(&self, len: usize) -> (r: Result<(), DecodeError>)
        ensures
            !regions_fit(*self, len as int) ==> r == Err::<(), DecodeError>(DecodeError::RegionOutOfBounds),
            regions_fit(*self, len as int) && !span_table_whole(*self)
                ==> r == Err::<(), DecodeError>(DecodeError::InvalidSpanTable(self.spans_size)),
            regions_fit(*self, len as int) && span_table_whole(*self) ==> r is Ok,
    {
        let n = len as u64;
        if self.pixels_offset as u64 + self.pixels_size as u64 > n
            || self.palette_offset as u64 + self.palette_size as u64 > n
            || self.spans_offset as u64 + self.spans_size as u64 > n
            || self.rowheads_offset as u64 + self.rowheads_size as u64 > n
            || self.spans_offset == 0
            || self.spans_offset as u64 >= n
        {
            return Err(DecodeError::RegionOutOfBounds);
        }
        if self.spans_size % (SPAN_RECORD_SIZE as u32) != 0 || self.spans_size < SPAN_RECORD_SIZE as u32 {
            return Err(DecodeError::InvalidSpanTable(self.spans_size));
        }
        Ok(())
    }
}

/// Reads the span record at byte offset `off`.
pub fn read_span(data: &[u8], off: usize) -> (s: Span)
    requires
        off + SPAN_RECORD_SIZE <= data@.len(),
    ensures
        s == span_at(data@, off as int),
{
    let n = data.len();
    assert(off + 6 < n);
    Span {
        row: read_u16_le(data, off) as u32,
        start: read_u16_le(data, off + 2) as u32,
        end: read_u16_le(data, off + 4) as u32,
        index: read_u32_le(data, off + 6) as usize,
    }
}

/// The quantity by which a run that does not fit breaks its first bound:
/// its row, its start column, its end column, its start column again when it
/// lies past the end, its payload index, or the index of its last byte.
pub open spec fn span_violation(s: Span, h: Header) -> u64 {
    if s.row >= h.height {
        s.row as u64
    } else if s.start >= h.width {
        s.start as u64
    } else if s.end >= h.width {
        s.end as u64
    } else if s.start > s.end {
        s.start as u64
    } else if s.index >= h.pixels_size {
        s.index as u64
    } else {
        (s.index + (s.end - s.start)) as u64
    }
}

/// Checks a run against the raster's size and the pixel payload's size,
/// returning the offending quantity of a run that does not fit.
pub fn check_span(s: &Span, h: &Header) -> (r: Option<u64>)
    ensures
        r == (if span_fits(*s, *h) { None } else { Some(span_violation(*s, *h)) }),
{
    if s.row >= h.height {
        Some(s.row as u64)
    } else if s.start >= h.width {
        Some(s.start as u64)
    } else if s.end >= h.width {
        Some(s.end as u64)
    } else if s.start > s.end {
        Some(s.start as u64)
    } else if s.index as u64 >= h.pixels_size as u64 {
        Some(s.index as u64)
    } else {
        let last = (s.index as u64) + ((s.end - s.start) as u64);
        if last >= h.pixels_size as u64 {
            Some(last)
        } else {
            None
        }
    }
}

} // verus!
