use vstd::prelude::*;
use crate::error::DecodeError;
use crate::raster::Color;

verus! {

/// Bytes per palette entry: red, green, blue.
pub const ENTRY_SIZE: usize = 3;

/// A table of colours looked up by index.
#[derive(Debug)]
pub struct Palette {
    colors: Vec<Color>,
}

/// The colours that a palette encoding holds: one opaque colour for each
/// three bytes (red, green, blue).
pub open spec fn palette_colors(b: Seq<u8>) -> Seq<Color> {
    Seq::new(b.len() / 3, |i: int| [b[3 * i], b[3 * i + 1], b[3 * i + 2], 255u8])
}

/// Whether index `v` is covered by the local palette or else by the system
/// palette.
pub open spec fn resolvable(local: Seq<Color>, system: Seq<Color>, v: int) -> bool {
    v < local.len() || v < system.len()
}

/// The colour of index `v`: the local palette's entry where it has one,
/// otherwise the system palette's.
pub open spec fn resolved(local: Seq<Color>, system: Seq<Color>, v: int) -> Color {
    if v < local.len() {
        local[v]
    } else {
        system[v]
    }
}

impl View for Palette {
    type V = Seq<Color>;

    closed spec fn view(&self) -> Seq<Color> {
        self.colors@
    }
}

impl Palette {
    /// Builds a palette from its encoding, three bytes per colour. A length
    /// that is not a multiple of three is rejected with that length.
    pub fn from_bytes(bytes: &[u8]) -> (r: Result<Palette, DecodeError>)
        ensures
            bytes@.len() % 3 != 0 <==> r is Err,
            r matches Err(e) ==> e == DecodeError::PaletteError(bytes@.len() as usize),
            r matches Ok(p) ==> p@ == palette_colors(bytes@),
    {
        let n = bytes.len();
        if n % ENTRY_SIZE != 0 {
            return Err(DecodeError::PaletteError(n));
        }
        let count = n / ENTRY_SIZE;
        let mut colors: Vec<Color> = Vec::with_capacity(count);
        let mut i: usize = 0;
        while i < count
            invariant
                n == bytes@.len(),
                count == n / 3,
                i <= count,
                colors@ == palette_colors(bytes@).take(i as int),
            decreases count - i,
        {
            let at = ENTRY_SIZE * i;
            colors.push([bytes[at], bytes[at + 1], bytes[at + 2], 255u8]);
            i = i + 1;
            assert(colors@ =~= palette_colors(bytes@).take(i as int));
        }
        assert(colors@ =~= palette_colors(bytes@));
        Ok(Palette { colors })
    }

    /// The number of colours.
    pub fn color_count(&self) -> (r: usize)
        ensures
            r == self@.len(),
    {
        self.colors.len()
    }

    /// The colour at `index`; an index past the end is an error carrying it.
    pub fn rgba(&self, index: usize) -> (r: Result<Color, DecodeError>)
        ensures
            (index as int) < self@.len() <==> r is Ok,
            r matches Ok(c) ==> c == self@[index as int],
            r matches Err(e) ==> e == DecodeError::PaletteError(index),
    {
        if index < self.colors.len() {
            Ok(self.colors[index])
        } else {
            Err(DecodeError::PaletteError(index))
        }
    }
}

/// Resolves a palette index: through `local` when it is below `local`'s
/// colour count, through `system` otherwise; an index that neither covers is
/// an error carrying it.
pub fn resolve_color(local: &Palette, system: &Palette, index: u8) -> (r: Result<Color, DecodeError>)
    ensures
        resolvable(local@, system@, index as int) <==> r is Ok,
        r matches Ok(c) ==> c == resolved(local@, system@, index as int),
        r matches Err(e) ==> e == DecodeError::PaletteError(index as usize),
{
    let v = index as usize;
    if v < local.color_count() {
        local.rgba(v)
    } else {
        system.rgba(v)
    }
}

/// Resolution depends on the index and the two palettes alone: equal inputs
/// give equal results.
pub proof fn lemma_resolution_deterministic(local1: Seq<Color>, system1: Seq<Color>, local2: Seq<Color>, system2: Seq<Color>, v: int)
    requires
        local1 == local2,
        system1 == system2,
    ensures
        resolvable(local1, system1, v) == resolvable(local2, system2, v),
        resolved(local1, system1, v) == resolved(local2, system2, v),
{
}

/// An index equal to the local palette's colour count is resolved through
/// the system palette.
pub proof fn lemma_count_goes_to_system(local: Seq<Color>, system: Seq<Color>)
    ensures
        resolvable(local, system, local.len() as int) == (local.len() < system.len()),
        resolved(local, system, local.len() as int) == system[local.len() as int],
{
}

} // verus!
