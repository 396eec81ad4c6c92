use vstd::prelude::*;
use vstd::slice::slice_subrange;
use crate::error::DecodeError;
use crate::header::{
    header_of, read_span, regions_fit, span_count, span_fits, check_span, span_violation, span_record,
    span_table_whole, Header, Span, HEADER_SIZE, SPAN_RECORD_SIZE,
};
use crate::palette::{palette_colors, resolvable, resolve_color, resolved, Palette};
use crate::raster::{blank, set_pixel, Color, Raster};

verus! {

/// The palette indices of a run, one byte per column from `start` to `end`.
pub open spec fn run_indices(d: Seq<u8>, h: Header, s: Span) -> Seq<u8> {
    let base = h.pixels_offset + s.index;
    d.subrange(base, base + (s.end - s.start) + 1)
}

/// The first of `px[j..]` that neither palette covers, if any.
pub open spec fn first_unresolvable(px: Seq<u8>, local: Seq<Color>, system: Seq<Color>, j: int) -> Option<u8>
    decreases px.len() - j,
{
    if j < 0 || j >= px.len() {
        None
    } else if !resolvable(local, system, px[j] as int) {
        Some(px[j])
    } else {
        first_unresolvable(px, local, system, j + 1)
    }
}

/// The colours of a run of palette indices.
pub open spec fn run_colors(px: Seq<u8>, local: Seq<Color>, system: Seq<Color>) -> Seq<Color> {
    px.map_values(|v: u8| resolved(local, system, v as int))
}

/// The grid `g` with `colors` written on row `row` from column `start` on.
pub open spec fn paint_run(g: Seq<Seq<Color>>, row: int, start: int, colors: Seq<Color>) -> Seq<Seq<Color>> {
    g.update(
        row,
        Seq::new(
            g[row].len(),
            |x: int| if start <= x < start + colors.len() { colors[x - start] } else { g[row][x] },
        ),
    )
}

/// The outcome of drawing the first `n` runs of the span table onto a blank
/// raster, stopping at the first run that is out of bounds or holds an index
/// that neither palette covers.
pub open spec fn spans_outcome(d: Seq<u8>, h: Header, local: Seq<Color>, system: Seq<Color>, n: nat) -> Result<Seq<Seq<Color>>, DecodeError>
    decreases n,
{
    if n == 0 {
        Ok(blank(h.width as nat, h.height as nat))
    } else {
        match spans_outcome(d, h, local, system, (n - 1) as nat) {
            Err(e) => Err(e),
            Ok(g) => {
                let s = span_record(d, h, n - 1);
                if !span_fits(s, h) {
                    Err(DecodeError::SpanBoundsViolation { record: (n - 1) as usize, value: span_violation(s, h) })
                } else {
                    let px = run_indices(d, h, s);
                    match first_unresolvable(px, local, system, 0) {
                        Some(v) => Err(DecodeError::PaletteError(v as usize)),
                        None => Ok(paint_run(g, s.row as int, s.start as int, run_colors(px, local, system))),
                    }
                }
            },
        }
    }
}

/// The embedded palette of a buffer whose regions fit.
pub open spec fn local_colors(d: Seq<u8>, h: Header) -> Seq<Color> {
    palette_colors(d.subrange(h.palette_offset as int, h.palette_offset + h.palette_size))
}

/// The raster that a buffer decodes to against `system`, or the error that
/// stops its decoding.
pub open spec fn decode_outcome(d: Seq<u8>, system: Seq<Color>) -> Result<Seq<Seq<Color>>, DecodeError> {
    let h = header_of(d);
    if d.len() < HEADER_SIZE {
        Err(DecodeError::MalformedHeader)
    } else if !regions_fit(h, d.len() as int) {
        Err(DecodeError::RegionOutOfBounds)
    } else if !span_table_whole(h) {
        Err(DecodeError::InvalidSpanTable(h.spans_size))
    } else if h.palette_size as int % 3 != 0 {
        Err(DecodeError::PaletteError(h.palette_size as usize))
    } else if 4 * (h.width as int) > usize::MAX || 4 * (h.width as int) * (h.height as int) > usize::MAX {
        Err(DecodeError::RasterTooLarge)
    } else {
        spans_outcome(d, h, local_colors(d, h), system, span_count(h) as nat)
    }
}

/// Once a prefix of the span table fails, every longer prefix fails alike.
proof fn lemma_error_persists(d: Seq<u8>, h: Header, local: Seq<Color>, system: Seq<Color>, n: nat, m: nat)
    requires
        n <= m,
        spans_outcome(d, h, local, system, n) is Err,
    ensures
        spans_outcome(d, h, local, system, m) == spans_outcome(d, h, local, system, n),
    decreases m - n,
{
    if n < m {
        lemma_error_persists(d, h, local, system, n, (m - 1) as nat);
    }
}

/// Drawn runs keep the raster at `width x height`.
proof fn lemma_outcome_shape(d: Seq<u8>, h: Header, local: Seq<Color>, system: Seq<Color>, n: nat)
    requires
        spans_outcome(d, h, local, system, n) is Ok,
    ensures
        ({
            let g = spans_outcome(d, h, local, system, n)->Ok_0;
            &&& g.len() == h.height as int
            &&& forall|y: int| 0 <= y < g.len() ==> #[trigger] g[y].len() == h.width as int
        }),
    decreases n,
{
    if n > 0 {
        lemma_outcome_shape(d, h, local, system, (n - 1) as nat);
    }
}

/// Whether run `s` covers column `x` of row `y`.
pub open spec fn covers(s: Span, x: int, y: int) -> bool {
    s.row == y && s.start <= x <= s.end
}

/// The checks made before any run is drawn all pass.
pub open spec fn prelude_passes(d: Seq<u8>) -> bool {
    let h = header_of(d);
    &&& d.len() >= HEADER_SIZE
    &&& regions_fit(h, d.len() as int)
    &&& span_table_whole(h)
    &&& h.palette_size as int % 3 == 0
    &&& 4 * (h.width as int) <= usize::MAX
    &&& 4 * (h.width as int) * (h.height as int) <= usize::MAX
}

/// Every run is inside the raster and the payload, and each of its indices is
/// covered by one of the two palettes.
pub open spec fn run_decodable(d: Seq<u8>, h: Header, local: Seq<Color>, system: Seq<Color>, s: Span) -> bool {
    &&& span_fits(s, h)
    &&& forall|j: int| 0 <= j < run_indices(d, h, s).len()
        ==> resolvable(local, system, #[trigger] run_indices(d, h, s)[j] as int)
}

proof fn lemma_no_unresolvable(px: Seq<u8>, local: Seq<Color>, system: Seq<Color>, j: int)
    requires
        0 <= j,
        forall|k: int| j <= k < px.len() ==> resolvable(local, system, #[trigger] px[k] as int),
    ensures
        first_unresolvable(px, local, system, j) is None,
    decreases px.len() - j,
{
    if j < px.len() {
        lemma_no_unresolvable(px, local, system, j + 1);
    }
}

proof fn lemma_spans_decodable(d: Seq<u8>, h: Header, local: Seq<Color>, system: Seq<Color>, n: nat)
    requires
        forall|k: int| 0 <= k < n ==> run_decodable(d, h, local, system, #[trigger] span_record(d, h, k)),
    ensures
        spans_outcome(d, h, local, system, n) is Ok,
    decreases n,
{
    if n > 0 {
        lemma_spans_decodable(d, h, local, system, (n - 1) as nat);
        let s = span_record(d, h, n - 1);
        assert(run_decodable(d, h, local, system, s));
        lemma_no_unresolvable(run_indices(d, h, s), local, system, 0);
    }
}

/// A buffer whose header checks pass and whose every run lies inside the
/// raster and the payload, with indices that the palettes cover, decodes to
/// a raster of exactly `width x height` pixels.
pub proof fn lemma_valid_input_decodes(d: Seq<u8>, system: Seq<Color>)
    requires
        prelude_passes(d),
        forall|k: int| 0 <= k < span_count(header_of(d)) ==> run_decodable(
            d,
            header_of(d),
            local_colors(d, header_of(d)),
            system,
            #[trigger] span_record(d, header_of(d), k),
        ),
    ensures
        decode_outcome(d, system) is Ok,
        decode_outcome(d, system)->Ok_0.len() == header_of(d).height,
        forall|y: int| 0 <= y < header_of(d).height ==> #[trigger] decode_outcome(d, system)->Ok_0[y].len() == header_of(d).width,
{
    let h = header_of(d);
    lemma_spans_decodable(d, h, local_colors(d, h), system, span_count(h) as nat);
    lemma_outcome_shape(d, h, local_colors(d, h), system, span_count(h) as nat);
}

proof fn lemma_spans_uncovered(d: Seq<u8>, h: Header, local: Seq<Color>, system: Seq<Color>, n: nat, x: int, y: int)
    requires
        regions_fit(h, d.len() as int),
        spans_outcome(d, h, local, system, n) is Ok,
        0 <= y < h.height,
        0 <= x < h.width,
        forall|k: int| 0 <= k < n ==> !covers(#[trigger] span_record(d, h, k), x, y),
    ensures
        spans_outcome(d, h, local, system, n)->Ok_0[y][x] == crate::raster::background(),
    decreases n,
{
    if n > 0 {
        lemma_spans_uncovered(d, h, local, system, (n - 1) as nat, x, y);
        lemma_outcome_shape(d, h, local, system, (n - 1) as nat);
        let s = span_record(d, h, n - 1);
        assert(!covers(s, x, y));
        if span_fits(s, h) {
            assert(run_indices(d, h, s).len() == s.end - s.start + 1);
        }
    }
}

proof fn lemma_spans_covered(d: Seq<u8>, h: Header, local: Seq<Color>, system: Seq<Color>, n: nat, k: int, x: int, y: int)
    requires
        regions_fit(h, d.len() as int),
        spans_outcome(d, h, local, system, n) is Ok,
        0 <= k < n,
        covers(span_record(d, h, k), x, y),
        forall|m: int| k < m < n ==> !covers(#[trigger] span_record(d, h, m), x, y),
    ensures
        spans_outcome(d, h, local, system, n)->Ok_0[y][x] == resolved(
            local,
            system,
            run_indices(d, h, span_record(d, h, k))[x - span_record(d, h, k).start] as int,
        ),
    decreases n,
{
    lemma_outcome_shape(d, h, local, system, (n - 1) as nat);
    let s = span_record(d, h, n - 1);
    assert(run_indices(d, h, s).len() == s.end - s.start + 1);
    let g = spans_outcome(d, h, local, system, (n - 1) as nat)->Ok_0;
    assert(span_fits(s, h));
    if k == n - 1 {
        let px = run_indices(d, h, s);
        assert(run_colors(px, local, system).len() == px.len());
        assert(x < g[y].len());
    } else {
        lemma_spans_covered(d, h, local, system, (n - 1) as nat, k, x, y);
        assert(!covers(s, x, y));
        if spans_outcome(d, h, local, system, (k + 1) as nat) is Err {
            lemma_error_persists(d, h, local, system, (k + 1) as nat, n);
        }
        assert(span_fits(span_record(d, h, k), h));
        assert(x < g[y].len());
    }
}

/// Pixels that no run of the table covers keep the background colour.
pub proof fn lemma_uncovered_pixels_keep_background(d: Seq<u8>, system: Seq<Color>, x: int, y: int)
    requires
        decode_outcome(d, system) is Ok,
        0 <= y < header_of(d).height,
        0 <= x < header_of(d).width,
        forall|k: int| 0 <= k < span_count(header_of(d)) ==> !covers(#[trigger] span_record(d, header_of(d), k), x, y),
    ensures
        decode_outcome(d, system)->Ok_0[y][x] == crate::raster::background(),
{
    let h = header_of(d);
    lemma_spans_uncovered(d, h, local_colors(d, h), system, span_count(h) as nat, x, y);
}

/// Every column `start..=end` of a run is written on its row with the colour
/// of its palette index, unless a later run covers the same pixel.
pub proof fn lemma_run_columns_written(d: Seq<u8>, system: Seq<Color>, k: int, x: int, y: int)
    requires
        decode_outcome(d, system) is Ok,
        0 <= k < span_count(header_of(d)),
        covers(span_record(d, header_of(d), k), x, y),
        forall|m: int| k < m < span_count(header_of(d)) ==> !covers(#[trigger] span_record(d, header_of(d), m), x, y),
    ensures
        ({
            let h = header_of(d);
            let s = span_record(d, h, k);
            decode_outcome(d, system)->Ok_0[y][x] == resolved(local_colors(d, h), system, run_indices(d, h, s)[x - s.start] as int)
        }),
{
    let h = header_of(d);
    lemma_spans_covered(d, h, local_colors(d, h), system, span_count(h) as nat, k, x, y);
}

/// A run whose first and last column coincide changes exactly one pixel.
pub proof fn lemma_one_column_run_writes_one_pixel(g: Seq<Seq<Color>>, s: Span, colors: Seq<Color>)
    requires
        s.start == s.end,
        colors.len() == s.end - s.start + 1,
        (s.row as int) < g.len(),
        (s.start as int) < g[s.row as int].len(),
    ensures
        ({
            let p = paint_run(g, s.row as int, s.start as int, colors);
            &&& p.len() == g.len()
            &&& p[s.row as int][s.start as int] == colors[0]
            &&& forall|y: int, x: int| 0 <= y < g.len() && 0 <= x < g[y].len() && (y != s.row || x != s.start)
                ==> #[trigger] p[y][x] == g[y][x]
        }),
{
}

/// A run on a row at or below the raster's height makes the decode fail; when
/// the header checks pass and every earlier run is decodable, the failure is
/// a bounds violation naming that run and its row.
pub proof fn lemma_row_outside_raster_fails(d: Seq<u8>, system: Seq<Color>, i: int)
    requires
        0 <= i < span_count(header_of(d)),
        span_record(d, header_of(d), i).row >= header_of(d).height,
    ensures
        decode_outcome(d, system) is Err,
        prelude_passes(d) && (forall|k: int| 0 <= k < i ==> run_decodable(
            d,
            header_of(d),
            local_colors(d, header_of(d)),
            system,
            #[trigger] span_record(d, header_of(d), k),
        )) ==> decode_outcome(d, system) == Err::<Seq<Seq<Color>>, DecodeError>(
            DecodeError::SpanBoundsViolation {
                record: i as usize,
                value: span_record(d, header_of(d), i).row as u64,
            },
        ),
{
    let h = header_of(d);
    if prelude_passes(d) {
        let local = local_colors(d, h);
        if forall|k: int| 0 <= k < i ==> run_decodable(d, h, local, system, #[trigger] span_record(d, h, k)) {
            lemma_spans_decodable(d, h, local, system, i as nat);
        }
        assert(spans_outcome(d, h, local, system, (i + 1) as nat) is Err);
        lemma_error_persists(d, h, local, system, (i + 1) as nat, span_count(h) as nat);
    }
}

/// A span region that is not a whole number of records fails the decode with
/// `InvalidSpanTable`, whatever the records hold.
pub proof fn lemma_partial_span_table_fails(d: Seq<u8>, system: Seq<Color>)
    requires
        d.len() >= HEADER_SIZE,
        regions_fit(header_of(d), d.len() as int),
        header_of(d).spans_size as int % SPAN_RECORD_SIZE as int != 0,
    ensures
        decode_outcome(d, system) == Err::<Seq<Seq<Color>>, DecodeError>(DecodeError::InvalidSpanTable(header_of(d).spans_size)),
{
}

/// Resolves each palette index of `data[base..base + len]`, failing at the
/// first one that neither palette covers.
fn resolve_run(data: &[u8], base: usize, len: usize, local: &Palette, system: &Palette) -> (r: Result<Vec<Color>, DecodeError>)
    requires
        base + len <= data@.len(),
    ensures
        ({
            let px = data@.subrange(base as int, base + len);
            match first_unresolvable(px, local@, system@, 0) {
                Some(v) => r == Err::<Vec<Color>, DecodeError>(DecodeError::PaletteError(v as usize)),
                None => r matches Ok(cs) && cs@ == run_colors(px, local@, system@),
            }
        }),
{
    let ghost px = data@.subrange(base as int, base + len);
    let total = data.len();
    let mut colors: Vec<Color> = Vec::with_capacity(len);
    let mut j: usize = 0;
    while j < len
        invariant
            total == data@.len(),
            base + len <= data@.len(),
            px == data@.subrange(base as int, base + len),
            j <= len,
            colors@ == run_colors(px, local@, system@).take(j as int),
            first_unresolvable(px, local@, system@, 0) == first_unresolvable(px, local@, system@, j as int),
        decreases len - j,
    {
        let v = data[base + j];
        assert(v == px[j as int]);
        match resolve_color(local, system, v) {
            Ok(c) => {
                colors.push(c);
            },
            Err(e) => {
                return Err(e);
            },
        }
        j = j + 1;
        assert(colors@ =~= run_colors(px, local@, system@).take(j as int));
    }
    assert(colors@ =~= run_colors(px, local@, system@));
    Ok(colors)
}

/// Writes `colors` on row `row` of the raster, from column `start` on.
fn draw_run(raster: &mut Raster, row: u32, start: u32, colors: &Vec<Color>)
    requires
        (row as int) < old(raster).spec_height(),
        old(raster).rows()[row as int].len() == old(raster).spec_width(),
        start + colors@.len() <= old(raster).spec_width(),
        old(raster).spec_width() <= u32::MAX,
    ensures
        final(raster).spec_width() == old(raster).spec_width(),
        final(raster).rows() == paint_run(old(raster).rows(), row as int, start as int, colors@),
{
    let ghost g0 = raster.rows();
    let n = colors.len();
    let mut k: usize = 0;
    assert(g0 =~~= paint_run(g0, row as int, start as int, colors@.take(0)));
    while k < n
        invariant
            raster.spec_width() <= u32::MAX,
            n == colors@.len(),
            k <= n,
            (row as int) < g0.len(),
            g0[row as int].len() == raster.spec_width(),
            start + n <= raster.spec_width(),
            raster.rows() == paint_run(g0, row as int, start as int, colors@.take(k as int)),
        decreases n - k,
    {
        let x: u32 = start + k as u32;
        raster.store(x, row, colors[k]);
        k = k + 1;
        let ghost want = paint_run(g0, row as int, start as int, colors@.take(k as int));
        assert(raster.rows()[row as int] =~= want[row as int]);
        assert(raster.rows() =~= want);
    }
    assert(colors@.take(n as int) =~= colors@);
}

/// Decodes a PIC buffer into an RGBA raster, resolving palette indices
/// through the buffer's embedded palette and, above its colour count,
/// through `system_palette`.
#[verifier::rlimit(40)]
pub fn decode_pic(system_palette: &Palette, data: &[u8]) -> (r: Result<Raster, DecodeError>)
    ensures
        match r {
            Ok(img) => {
                &&& decode_outcome(data@, system_palette@) == Ok::<Seq<Seq<Color>>, DecodeError>(img.rows())
                &&& img.spec_width() == header_of(data@).width as nat
                &&& img.spec_height() == header_of(data@).height as nat
                &&& forall|y: int| 0 <= y < img.spec_height() ==> #[trigger] img.rows()[y].len() == img.spec_width()
            },
            Err(e) => decode_outcome(data@, system_palette@) == Err::<Seq<Seq<Color>>, DecodeError>(e),
        },
{
    let ghost d = data@;
    let h = match Header::parse(data) {
        Ok(h) => h,
        Err(e) => return Err(e),
    };
    match h.check_regions(data.len()) {
        Ok(()) => {},
        Err(e) => return Err(e),
    }
    let palette_start = h.palette_offset as usize;
    let palette_end = palette_start + h.palette_size as usize;
    let local = match Palette::from_bytes(slice_subrange(data, palette_start, palette_end)) {
        Ok(p) => p,
        Err(e) => return Err(e),
    };
    assert(local@ == local_colors(d, h));
    assert((h.width as int) * (h.height as int) <= u64::MAX) by (nonlinear_arith)
        requires h.width <= u32::MAX, h.height <= u32::MAX;
    if h.width as u64 > (usize::MAX / 4) as u64 {
        return Err(DecodeError::RasterTooLarge);
    }
    if (h.width as u64) * (h.height as u64) > (usize::MAX / 4) as u64 {
        assert(4 * (h.width as int) * (h.height as int) > usize::MAX) by (nonlinear_arith)
            requires (h.width as int) * (h.height as int) > usize::MAX as int / 4;
        return Err(DecodeError::RasterTooLarge);
    }
    assert(4 * (h.width as int) * (h.height as int) <= usize::MAX) by (nonlinear_arith)
        requires (h.width as int) * (h.height as int) <= usize::MAX as int / 4;
    let mut raster = Raster::with_size(h.width, h.height);
    let pixels_start = h.pixels_offset as usize;
    let spans_start = h.spans_offset as usize;
    let count = h.spans_size as usize / SPAN_RECORD_SIZE - 1;
    let total = data.len();
    let mut i: usize = 0;
    while i < count
        invariant
            total == d.len(),
            d == data@,
            h == header_of(d),
            regions_fit(h, d.len() as int),
            span_table_whole(h),
            count == span_count(h),
            pixels_start == h.pixels_offset,
            spans_start == h.spans_offset,
            local@ == local_colors(d, h),
            decode_outcome(d, system_palette@) == spans_outcome(d, h, local@, system_palette@, count as nat),
            i <= count,
            spans_outcome(d, h, local@, system_palette@, i as nat) == Ok::<Seq<Seq<Color>>, DecodeError>(raster.rows()),
            raster.spec_width() == h.width as nat,
        decreases count - i,
    {
        proof {
            lemma_outcome_shape(d, h, local@, system_palette@, i as nat);
        }
        assert(spans_start + i * 10 + 10 <= d.len()) by (nonlinear_arith)
            requires
                (i as int) < h.spans_size as int / 10 - 1,
                spans_start + h.spans_size <= d.len();
        let s = read_span(data, spans_start + i * SPAN_RECORD_SIZE);
        assert(s == span_record(d, h, i as int));
        match check_span(&s, &h) {
            Some(value) => {
                proof {
                    lemma_error_persists(d, h, local@, system_palette@, (i + 1) as nat, count as nat);
                }
                return Err(DecodeError::SpanBoundsViolation { record: i, value });
            },
            None => {},
        }
        let base = pixels_start + s.index;
        let len = (s.end - s.start) as usize + 1;
        let colors = match resolve_run(data, base, len, &local, system_palette) {
            Ok(cs) => cs,
            Err(e) => {
                proof {
                    lemma_error_persists(d, h, local@, system_palette@, (i + 1) as nat, count as nat);
                }
                return Err(e);
            },
        };
        draw_run(&mut raster, s.row, s.start, &colors);
        i = i + 1;
    }
    proof {
        lemma_outcome_shape(d, h, local@, system_palette@, count as nat);
    }
    Ok(raster)
}

} // verus!
