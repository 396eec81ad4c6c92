use vstd::prelude::*;

verus! {

/// An RGBA colour: red, green, blue, alpha.
pub type Color = [u8; 4];

/// The colour of every pixel that nothing has written.
pub open spec fn background() -> Color {
    [0u8, 0u8, 0u8, 0u8]
}

/// A `width x height` RGBA raster, stored in an `image::RgbaImage`.
#[verifier::external_body]
#[derive(Debug)]
pub struct Raster {
    image: image::RgbaImage,
}

/// The pixels of a raster: one sequence per row, top to bottom, each holding
/// that row's colours from left to right.
pub uninterp spec fn raster_rows(r: Raster) -> Seq<Seq<Color>>;

/// The number of columns of a raster.
pub uninterp spec fn raster_width(r: Raster) -> nat;

/// A `width x height` grid of the background colour.
pub open spec fn blank(width: nat, height: nat) -> Seq<Seq<Color>> {
    Seq::new(height, |_y: int| Seq::new(width, |_x: int| background()))
}

/// The grid `g` with the pixel at column `x` of row `y` set to `c`.
pub open spec fn set_pixel(g: Seq<Seq<Color>>, x: int, y: int, c: Color) -> Seq<Seq<Color>> {
    g.update(y, g[y].update(x, c))
}

impl Raster {
    /// The raster's contents as rows of colours.
    pub open spec fn rows(self) -> Seq<Seq<Color>> {
        raster_rows(self)
    }

    pub open spec fn spec_width(self) -> nat {
        raster_width(self)
    }

    pub open spec fn spec_height(self) -> nat {
        raster_rows(self).len()
    }

    /// Relies on `ImageBuffer::new`: a `width x height` buffer whose samples
    /// are all zero. It panics when `4 * width`, or that times `height`,
    /// overflows `usize`.
    #[verifier::external_body]
    pub(crate) fn with_size(width: u32, height: u32) -> (r: Raster)
        requires
            4 * (width as int) <= usize::MAX,
            4 * (width as int) * (height as int) <= usize::MAX,
        ensures
            raster_width(r) == width as nat,
            raster_rows(r) == blank(width as nat, height as nat),
    {
        Raster { image: image::RgbaImage::new(width, height) }
    }

    /// Relies on `ImageBuffer::put_pixel`: overwrites the pixel at `(x, y)`,
    /// panicking when it lies outside the buffer.
    #[verifier::external_body]
    pub(crate) fn store(&mut self, x: u32, y: u32, c: Color)
        requires
            (x as int) < old(self).spec_width(),
            (y as int) < old(self).spec_height(),
        ensures
            raster_width(*final(self)) == raster_width(*old(self)),
            raster_rows(*final(self)) == set_pixel(raster_rows(*old(self)), x as int, y as int, c),
    {
        self.image.put_pixel(x, y, image::Rgba(c));
    }

    /// Relies on `ImageBuffer::get_pixel`: the pixel at `(x, y)`, panicking
    /// when it lies outside the buffer.
    #[verifier::external_body]
    pub(crate) fn load(&self, x: u32, y: u32) -> (c: Color)
        requires
            (x as int) < self.spec_width(),
            (y as int) < self.spec_height(),
        ensures
            c == raster_rows(*self)[y as int][x as int],
    {
        self.image.get_pixel(x, y).0
    }

    /// Relies on `ImageBuffer::into_raw`: the samples, row-major, four per
    /// pixel.
    #[verifier::external_body]
    pub(crate) fn raw(self) -> (r: Vec<u8>)
        ensures
            r@ == raw_samples(raster_rows(self), raster_width(self)),
    {
        self.image.into_raw()
    }

    /// Relies on `ImageBuffer::width`.
    #[verifier::external_body]
    pub(crate) fn columns(&self) -> (r: u32)
        ensures
            r as nat == raster_width(*self),
    {
        self.image.width()
    }

    /// Relies on `ImageBuffer::height`.
    #[verifier::external_body]
    pub(crate) fn lines(&self) -> (r: u32)
        ensures
            r as nat == raster_rows(*self).len(),
    {
        self.image.height()
    }

    /// The number of columns.
    pub fn width(&self) -> (r: u32)
        ensures
            r as nat == self.spec_width(),
    {
        self.columns()
    }

    /// The number of rows.
    pub fn height(&self) -> (r: u32)
        ensures
            r as nat == self.spec_height(),
    {
        self.lines()
    }

    /// The colour at column `x` of row `y`.
    pub fn pixel(&self, x: u32, y: u32) -> (c: Color)
        requires
            (x as int) < self.spec_width(),
            (y as int) < self.spec_height(),
        ensures
            c == self.rows()[y as int][x as int],
    {
        self.load(x, y)
    }

    /// The samples, row after row and left to right, as red, green, blue and
    /// alpha bytes of each pixel.
    pub fn into_rgba_bytes(self) -> (r: Vec<u8>)
        ensures
            r@ == raw_samples(self.rows(), self.spec_width()),
    {
        self.raw()
    }
}

/// The row-major byte layout of a grid of colours with `width` columns.
pub open spec fn raw_samples(g: Seq<Seq<Color>>, width: nat) -> Seq<u8> {
    let stride = 4 * width as int;
    Seq::new(4 * width * g.len(), |i: int| g[i / stride][(i % stride) / 4][i % 4])
}

} // verus!
