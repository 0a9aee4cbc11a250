use vstd::prelude::*;
use crate::raster_image::{
    image_filled, image_get, image_into_raw, image_pixels, image_put, image_size,
    RgbCanvas,
};
use crate::validation::dimensions_ok;

verus! {

/// A width x height grid of RGB triples, row-major, top row first.
pub struct PixelBuffer {
    width: u32,
    height: u32,
    image: RgbCanvas,
}

/// 0 <= x < w and 0 <= y < h put the cell y * w + x inside a w x h grid.
pub proof fn lemma_cell_index(x: int, y: int, w: int, h: int)
    requires
        0 <= x < w <= 4096,
        0 <= y < h <= 4096,
    ensures
        0 <= y * w + x < w * h <= 4096 * 4096,
{
    assert(0 <= y * w + x < w * h) by (nonlinear_arith)
        requires 0 <= x < w, 0 <= y < h;
    lemma_area(w, h);
}

/// A grid of at most 4096 x 4096 has at most 4096 * 4096 cells.
pub proof fn lemma_area(w: int, h: int)
    requires
        0 <= w <= 4096,
        0 <= h <= 4096,
    ensures
        0 <= w * h <= 4096 * 4096,
{
    assert(0 <= w * h <= 4096 * 4096) by (nonlinear_arith)
        requires 0 <= w <= 4096, 0 <= h <= 4096;
}

/// Distinct on-canvas pixels have distinct cells.
pub proof fn lemma_cell_distinct(x1: int, y1: int, x2: int, y2: int, w: int)
    requires
        0 <= x1 < w,
        0 <= x2 < w,
        0 <= y1,
        0 <= y2,
        y1 * w + x1 == y2 * w + x2,
    ensures
        x1 == x2 && y1 == y2,
{
    if y1 < y2 {
        assert(y1 * w + x1 < y2 * w + x2) by (nonlinear_arith)
            requires 0 <= x1 < w, 0 <= x2, y1 < y2;
    } else if y2 < y1 {
        assert(y2 * w + x2 < y1 * w + x1) by (nonlinear_arith)
            requires 0 <= x2 < w, 0 <= x1, y2 < y1;
    }
}

impl PixelBuffer {
    pub closed spec fn spec_width(&self) -> nat {
        self.width as nat
    }

    pub closed spec fn spec_height(&self) -> nat {
        self.height as nat
    }

    /// The pixels, row-major.
    pub closed spec fn cells(&self) -> Seq<[u8; 3]> {
        image_pixels(self.image)
    }

    /// The image holds exactly width x height pixels.
    pub closed spec fn image_fits(&self) -> bool {
        image_size(self.image) == (self.width as nat, self.height as nat)
    }

    /// Dimensions in range and one cell per pixel.
    pub open spec fn wf(&self) -> bool {
        &&& dimensions_ok(self.spec_width() as u32, self.spec_height() as u32)
        &&& self.spec_width() <= 4096
        &&& self.spec_height() <= 4096
        &&& self.image_fits()
        &&& self.cells().len() == self.spec_width() * self.spec_height()
    }

    /// The cell of pixel (x, y).
    pub open spec fn index_of(&self, x: int, y: int) -> int {
        y * self.spec_width() + x
    }

    /// The colour of pixel (x, y).
    pub open spec fn at(&self, x: int, y: int) -> [u8; 3] {
        self.cells()[self.index_of(x, y)]
    }

    /// A buffer of the given size with every pixel set to `color`.
    pub fn filled(width: u32, height: u32, color: [u8; 3]) -> (r: PixelBuffer)
        requires
            dimensions_ok(width, height),
        ensures
            r.wf(),
            r.spec_width() == width,
            r.spec_height() == height,
            forall|k: int| 0 <= k < r.cells().len() ==> r.cells()[k] == color,
    {
        PixelBuffer { width, height, image: image_filled(width, height, color) }
    }

    /// Builds a buffer from its row-major cells.
    pub fn from_cells(width: u32, height: u32, pixels: Vec<[u8; 3]>) -> (r: PixelBuffer)
        requires
            dimensions_ok(width, height),
            pixels@.len() == width * height,
        ensures
            r.wf(),
            r.spec_width() == width,
            r.spec_height() == height,
            r.cells() == pixels@,
    {
        let mut b = PixelBuffer::filled(width, height, [0, 0, 0]);
        let mut y: u32 = 0;
        while y < height
            invariant
                pixels@.len() == width * height,
                dimensions_ok(width, height),
                b.wf(),
                b.spec_width() == width,
                b.spec_height() == height,
                y <= height,
                forall|j: int| 0 <= j < y * width ==> #[trigger] b.cells()[j] == pixels@[j],
            decreases height - y,
        {
            let mut x: u32 = 0;
            while x < width
                invariant
                    pixels@.len() == width * height,
                    dimensions_ok(width, height),
                    b.wf(),
                    b.spec_width() == width,
                    b.spec_height() == height,
                    y < height,
                    x <= width,
                    forall|j: int| 0 <= j < y * width + x ==> #[trigger] b.cells()[j] == pixels@[j],
                decreases width - x,
            {
                proof {
                    lemma_cell_index(x as int, y as int, width as int, height as int);
                }
                let k = y as usize * width as usize + x as usize;
                b.put_pixel(x, y, pixels[k]);
                x = x + 1;
            }
            proof {
                assert((y + 1) * width == y * width + width) by (nonlinear_arith);
            }
            y = y + 1;
        }
        assert(y * width == width * height) by (nonlinear_arith)
            requires y == height;
        assert(b.cells() =~= pixels@);
        b
    }

    pub fn width(&self) -> (r: u32)
        ensures
            r == self.spec_width(),
    {
        self.width
    }

    pub fn height(&self) -> (r: u32)
        ensures
            r == self.spec_height(),
    {
        self.height
    }

    /// The colour of pixel (x, y).
    pub fn pixel(&self, x: u32, y: u32) -> (r: [u8; 3])
        requires
            self.wf(),
            x < self.spec_width(),
            y < self.spec_height(),
        ensures
            r == self.at(x as int, y as int),
    {
        image_get(&self.image, x, y)
    }

    /// Sets pixel (x, y) to `color`, leaving every other pixel as it was.
    pub fn put_pixel(&mut self, x: u32, y: u32, color: [u8; 3])
        requires
            old(self).wf(),
            x < old(self).spec_width(),
            y < old(self).spec_height(),
        ensures
            final(self).wf(),
            final(self).spec_width() == old(self).spec_width(),
            final(self).spec_height() == old(self).spec_height(),
            final(self).cells() == old(self).cells().update(
                old(self).index_of(x as int, y as int),
                color,
            ),
    {
        proof {
            lemma_cell_index(x as int, y as int, self.width as int, self.height as int);
        }
        image_put(&mut self.image, x, y, color);
    }

    /// The bytes of the buffer, three per pixel (R, G, B), row-major.
    pub fn into_raw(self) -> (r: Vec<u8>)
        requires
            self.wf(),
        ensures
            r@.len() == 3 * self.cells().len(),
            forall|k: int, c: int|
                0 <= k < self.cells().len() && 0 <= c < 3 ==> #[trigger] r@[3 * k + c]
                    == self.cells()[k]@[c],
    {
        image_into_raw(self.image)
    }
}

} // verus!
