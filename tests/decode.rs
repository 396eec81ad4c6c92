use pic::{decode_pic, read_u16_le, read_u32_le, resolve_color, DecodeError, Header, Palette};

const HEADER: usize = 42;

struct Layout {
    width: u32,
    height: u32,
    pixels: Vec<u8>,
    palette: Vec<u8>,
    spans: Vec<u8>,
}

fn push_u16(out: &mut Vec<u8>, v: u16) {
    out.extend_from_slice(&v.to_le_bytes());
}

fn push_u32(out: &mut Vec<u8>, v: u32) {
    out.extend_from_slice(&v.to_le_bytes());
}

fn span(row: u16, start: u16, end: u16, index: u32) -> Vec<u8> {
    let mut out = Vec::new();
    push_u16(&mut out, row);
    push_u16(&mut out, start);
    push_u16(&mut out, end);
    push_u32(&mut out, index);
    out
}

/// A span table: the given runs followed by the terminating record.
fn table(runs: &[Vec<u8>]) -> Vec<u8> {
    let mut out = Vec::new();
    for r in runs {
        out.extend_from_slice(r);
    }
    out.extend_from_slice(&span(0, 0, 0, 0));
    out
}

/// The local palette: colour `i` is `(10 + i, 20 + i, 30 + i)`.
fn local_palette_bytes(count: u8) -> Vec<u8> {
    let mut out = Vec::new();
    for i in 0..count {
        out.extend_from_slice(&[10 + i, 20 + i, 30 + i]);
    }
    out
}

/// The system palette: colour `i` is `(i, 255 - i, 7)`.
fn system_palette() -> Palette {
    let mut bytes = Vec::new();
    for i in 0..=255u8 {
        bytes.extend_from_slice(&[i, 255 - i, 7]);
    }
    Palette::from_bytes(&bytes).unwrap()
}

fn build(l: &Layout) -> Vec<u8> {
    let pixels_offset = HEADER as u32;
    let palette_offset = pixels_offset + l.pixels.len() as u32;
    let spans_offset = palette_offset + l.palette.len() as u32;
    let rowheads_offset = spans_offset + l.spans.len() as u32;
    let mut out = Vec::new();
    push_u16(&mut out, 1);
    push_u32(&mut out, l.width);
    push_u32(&mut out, l.height);
    push_u32(&mut out, pixels_offset);
    push_u32(&mut out, l.pixels.len() as u32);
    push_u32(&mut out, palette_offset);
    push_u32(&mut out, l.palette.len() as u32);
    push_u32(&mut out, spans_offset);
    push_u32(&mut out, l.spans.len() as u32);
    push_u32(&mut out, rowheads_offset);
    push_u32(&mut out, 0);
    assert_eq!(out.len(), HEADER);
    out.extend_from_slice(&l.pixels);
    out.extend_from_slice(&l.palette);
    out.extend_from_slice(&l.spans);
    out
}

fn local(i: u8) -> [u8; 4] {
    [10 + i, 20 + i, 30 + i, 255]
}

fn system(i: u8) -> [u8; 4] {
    [i, 255 - i, 7, 255]
}

const BACKGROUND: [u8; 4] = [0, 0, 0, 0];

#[test]
fn two_pixels_from_local_palette() {
    let data = build(&Layout {
        width: 2,
        height: 1,
        pixels: vec![5, 7],
        palette: local_palette_bytes(10),
        spans: table(&[span(0, 0, 1, 0)]),
    });
    let img = decode_pic(&system_palette(), &data).unwrap();
    assert_eq!(img.width(), 2);
    assert_eq!(img.height(), 1);
    assert_eq!(img.pixel(0, 0), local(5));
    assert_eq!(img.pixel(1, 0), local(7));
}

#[test]
fn index_above_local_count_uses_system_palette() {
    let data = build(&Layout {
        width: 2,
        height: 1,
        pixels: vec![12, 7],
        palette: local_palette_bytes(10),
        spans: table(&[span(0, 0, 1, 0)]),
    });
    let img = decode_pic(&system_palette(), &data).unwrap();
    assert_eq!(img.pixel(0, 0), system(12));
    assert_eq!(img.pixel(1, 0), local(7));
}

#[test]
fn index_equal_to_local_count_uses_system_palette() {
    let data = build(&Layout {
        width: 2,
        height: 1,
        pixels: vec![9, 10],
        palette: local_palette_bytes(10),
        spans: table(&[span(0, 0, 1, 0)]),
    });
    let img = decode_pic(&system_palette(), &data).unwrap();
    assert_eq!(img.pixel(0, 0), local(9));
    assert_eq!(img.pixel(1, 0), system(10));
}

#[test]
fn one_column_span_writes_one_pixel() {
    let data = build(&Layout {
        width: 3,
        height: 2,
        pixels: vec![4],
        palette: local_palette_bytes(10),
        spans: table(&[span(1, 1, 1, 0)]),
    });
    let img = decode_pic(&system_palette(), &data).unwrap();
    for y in 0..2 {
        for x in 0..3 {
            let want = if (x, y) == (1, 1) { local(4) } else { BACKGROUND };
            assert_eq!(img.pixel(x, y), want);
        }
    }
}

#[test]
fn uncovered_pixels_keep_background() {
    let data = build(&Layout {
        width: 4,
        height: 2,
        pixels: vec![1, 2, 3],
        palette: local_palette_bytes(10),
        spans: table(&[span(0, 1, 2, 1)]),
    });
    let img = decode_pic(&system_palette(), &data).unwrap();
    assert_eq!(img.pixel(0, 0), BACKGROUND);
    assert_eq!(img.pixel(1, 0), local(2));
    assert_eq!(img.pixel(2, 0), local(3));
    assert_eq!(img.pixel(3, 0), BACKGROUND);
    for x in 0..4 {
        assert_eq!(img.pixel(x, 1), BACKGROUND);
    }
}

#[test]
fn later_span_overwrites_earlier() {
    let data = build(&Layout {
        width: 3,
        height: 1,
        pixels: vec![1, 2, 3, 8],
        palette: local_palette_bytes(10),
        spans: table(&[span(0, 0, 2, 0), span(0, 1, 1, 3)]),
    });
    let img = decode_pic(&system_palette(), &data).unwrap();
    assert_eq!(img.pixel(0, 0), local(1));
    assert_eq!(img.pixel(1, 0), local(8));
    assert_eq!(img.pixel(2, 0), local(3));
}

#[test]
fn raster_bytes_are_row_major_rgba() {
    let data = build(&Layout {
        width: 2,
        height: 2,
        pixels: vec![3],
        palette: local_palette_bytes(10),
        spans: table(&[span(1, 0, 0, 0)]),
    });
    let img = decode_pic(&system_palette(), &data).unwrap();
    let raw = img.into_rgba_bytes();
    let mut want = vec![0u8; 16];
    want[8..12].copy_from_slice(&local(3));
    assert_eq!(raw, want);
}

#[test]
fn row_outside_raster_is_bounds_violation() {
    let data = build(&Layout {
        width: 2,
        height: 1,
        pixels: vec![5, 7],
        palette: local_palette_bytes(10),
        spans: table(&[span(0, 0, 1, 0), span(1, 0, 0, 0)]),
    });
    assert_eq!(decode_pic(&system_palette(), &data).unwrap_err(), DecodeError::SpanBoundsViolation { record: 1, value: 1 });
}

#[test]
fn reversed_columns_are_bounds_violation() {
    let data = build(&Layout {
        width: 4,
        height: 1,
        pixels: vec![5, 7],
        palette: local_palette_bytes(10),
        spans: table(&[span(0, 0, 1, 0), span(0, 3, 1, 0)]),
    });
    assert_eq!(decode_pic(&system_palette(), &data).unwrap_err(), DecodeError::SpanBoundsViolation { record: 1, value: 3 });
}

#[test]
fn column_outside_raster_is_bounds_violation() {
    let data = build(&Layout {
        width: 2,
        height: 1,
        pixels: vec![5, 7, 1],
        palette: local_palette_bytes(10),
        spans: table(&[span(0, 0, 2, 0)]),
    });
    assert_eq!(decode_pic(&system_palette(), &data).unwrap_err(), DecodeError::SpanBoundsViolation { record: 0, value: 2 });
}

#[test]
fn run_past_payload_is_bounds_violation() {
    let data = build(&Layout {
        width: 4,
        height: 1,
        pixels: vec![5, 7],
        palette: local_palette_bytes(10),
        spans: table(&[span(0, 0, 1, 1)]),
    });
    assert_eq!(decode_pic(&system_palette(), &data).unwrap_err(), DecodeError::SpanBoundsViolation { record: 0, value: 2 });
}

#[test]
fn partial_span_record_is_invalid_table() {
    let mut spans = table(&[span(0, 0, 1, 0)]);
    spans.extend_from_slice(&[0, 0, 0, 0, 0]);
    let data = build(&Layout {
        width: 2,
        height: 1,
        pixels: vec![5, 7],
        palette: local_palette_bytes(10),
        spans,
    });
    assert_eq!(decode_pic(&system_palette(), &data).unwrap_err(), DecodeError::InvalidSpanTable(25));
}

#[test]
fn empty_span_table_is_invalid() {
    let mut data = build(&Layout {
        width: 2,
        height: 1,
        pixels: vec![5, 7],
        palette: local_palette_bytes(10),
        spans: vec![],
    });
    // Keep the span region's offset inside the buffer.
    data.push(0);
    assert_eq!(decode_pic(&system_palette(), &data).unwrap_err(), DecodeError::InvalidSpanTable(0));
}

#[test]
fn short_buffer_is_malformed_header() {
    let data = vec![1u8; HEADER - 1];
    assert_eq!(decode_pic(&system_palette(), &data).unwrap_err(), DecodeError::MalformedHeader);
}

#[test]
fn region_past_end_is_out_of_bounds() {
    let mut data = build(&Layout {
        width: 2,
        height: 1,
        pixels: vec![5, 7],
        palette: local_palette_bytes(10),
        spans: table(&[span(0, 0, 1, 0)]),
    });
    data.truncate(data.len() - 1);
    assert_eq!(decode_pic(&system_palette(), &data).unwrap_err(), DecodeError::RegionOutOfBounds);
}

#[test]
fn span_region_at_zero_is_out_of_bounds() {
    let mut data = build(&Layout {
        width: 2,
        height: 1,
        pixels: vec![5, 7],
        palette: local_palette_bytes(10),
        spans: table(&[span(0, 0, 1, 0)]),
    });
    data[26..30].copy_from_slice(&0u32.to_le_bytes());
    assert_eq!(decode_pic(&system_palette(), &data).unwrap_err(), DecodeError::RegionOutOfBounds);
}

#[test]
fn malformed_local_palette_is_palette_error() {
    let mut pal = local_palette_bytes(10);
    pal.pop();
    let data = build(&Layout {
        width: 2,
        height: 1,
        pixels: vec![5, 7],
        palette: pal,
        spans: table(&[span(0, 0, 1, 0)]),
    });
    assert_eq!(decode_pic(&system_palette(), &data).unwrap_err(), DecodeError::PaletteError(29));
}

#[test]
fn index_outside_both_palettes_is_palette_error() {
    let data = build(&Layout {
        width: 3,
        height: 1,
        pixels: vec![5, 40, 50],
        palette: local_palette_bytes(10),
        spans: table(&[span(0, 0, 2, 0)]),
    });
    let small = Palette::from_bytes(&[0u8; 60]).unwrap();
    assert_eq!(decode_pic(&small, &data).unwrap_err(), DecodeError::PaletteError(40));
}

#[test]
fn huge_raster_is_rejected() {
    let data = build(&Layout {
        width: u32::MAX,
        height: u32::MAX,
        pixels: vec![5, 7],
        palette: local_palette_bytes(10),
        spans: table(&[span(0, 0, 1, 0)]),
    });
    assert_eq!(decode_pic(&system_palette(), &data).unwrap_err(), DecodeError::RasterTooLarge);
}

#[test]
fn header_fields_are_little_endian() {
    let data = build(&Layout {
        width: 0x0102_0304,
        height: 7,
        pixels: vec![5, 7],
        palette: local_palette_bytes(10),
        spans: table(&[]),
    });
    let h = Header::parse(&data).unwrap();
    assert_eq!(h.format, 1);
    assert_eq!(h.width, 0x0102_0304);
    assert_eq!(h.height, 7);
    assert_eq!(h.pixels_offset, 42);
    assert_eq!(h.pixels_size, 2);
    assert_eq!(h.palette_offset, 44);
    assert_eq!(h.palette_size, 30);
    assert_eq!(h.spans_offset, 74);
    assert_eq!(h.spans_size, 10);
    assert_eq!(h.rowheads_offset, 84);
    assert_eq!(h.rowheads_size, 0);
}

#[test]
fn byte_reads() {
    let b = [0x34u8, 0x12, 0x78, 0x56];
    assert_eq!(read_u16_le(&b, 0), 0x1234);
    assert_eq!(read_u32_le(&b, 0), 0x5678_1234);
}

#[test]
fn palette_lookup_and_errors() {
    let p = Palette::from_bytes(&[1, 2, 3, 4, 5, 6]).unwrap();
    assert_eq!(p.color_count(), 2);
    assert_eq!(p.rgba(1), Ok([4, 5, 6, 255]));
    assert_eq!(p.rgba(2), Err(DecodeError::PaletteError(2)));
    assert_eq!(Palette::from_bytes(&[1, 2]).err(), Some(DecodeError::PaletteError(2)));
}

#[test]
fn resolution_is_deterministic() {
    let l = Palette::from_bytes(&local_palette_bytes(10)).unwrap();
    let s = system_palette();
    for v in [0u8, 9, 10, 200] {
        assert_eq!(resolve_color(&l, &s, v), resolve_color(&l, &s, v));
    }
    assert_eq!(resolve_color(&l, &s, 10), Ok(system(10)));
    assert_eq!(resolve_color(&l, &s, 3), Ok(local(3)));
}
