//! A grid of 8-bit RGB pixels, stored row by row.

use vstd::prelude::*;

verus! {

/// A grid of `width` by `height` pixels. The pixel in column `x` of row `y`
/// is cell `y * width + x`.
pub struct Canvas {
    width: u32,
    height: u32,
    pixels: Vec<[u8; 3]>,
}

impl View for Canvas {
    type V = Seq<[u8; 3]>;

    /// The pixels, row by row.
    closed spec fn view(&self) -> Seq<[u8; 3]> {
        self.pixels@
    }
}

/// The cell that holds column `x` of row `y` in a grid of `width` columns.
pub open spec fn cell(width: int, x: int, y: int) -> int {
    y * width + x
}

/// Every pixel of a grid lies in a cell of its own, below the number of
/// cells.
pub proof fn lemma_cells(width: int, height: int, x: int, y: int, a: int, b: int)
    requires
        0 <= x < width,
        0 <= y < height,
        0 <= a < width,
        0 <= b < height,
    ensures
        0 <= cell(width, x, y) < width * height,
        cell(width, x, y) == cell(width, a, b) ==> x == a && y == b,
{
    assert(0 <= y * width && y * width + width <= height * width && width * height == height
        * width) by (nonlinear_arith)
        requires
            0 <= y < height,
            0 < width,
    ;
    if y < b {
        assert(y * width + width <= b * width) by (nonlinear_arith)
            requires
                y < b,
                0 < width,
        ;
    }
    if b < y {
        assert(b * width + width <= y * width) by (nonlinear_arith)
            requires
                b < y,
                0 < width,
        ;
    }
}

impl Canvas {
    #[verifier::type_invariant]
    spec fn sized(self) -> bool {
        &&& self.width * self.height <= u32::MAX
        &&& self.pixels@.len() == self.width * self.height
    }

    /// The number of columns.
    pub closed spec fn columns(self) -> int {
        self.width as int
    }

    /// The number of rows.
    pub closed spec fn rows(self) -> int {
        self.height as int
    }

    /// The pixel in column `x` of row `y`.
    pub open spec fn pixel_at(self, x: int, y: int) -> [u8; 3] {
        self@[cell(self.columns(), x, y)]
    }

    /// A black canvas.
    pub fn new(width: u32, height: u32) -> (c: Canvas)
        requires
            width * height <= u32::MAX,
        ensures
            c.columns() == width,
            c.rows() == height,
            c@ == Seq::new((width * height) as nat, |i: int| [0u8, 0u8, 0u8]),
    {
        assert(width * height >= 0) by (nonlinear_arith);
        let n: u32 = width * height;
        let mut pixels: Vec<[u8; 3]> = Vec::new();
        let mut i: u32 = 0;
        while i < n
            invariant
                0 <= i <= n,
                pixels@ == Seq::new(i as nat, |k: int| [0u8, 0u8, 0u8]),
            decreases n - i,
        {
            pixels.push([0u8, 0u8, 0u8]);
            i = i + 1;
            assert(pixels@ =~= Seq::new(i as nat, |k: int| [0u8, 0u8, 0u8]));
        }
        Canvas { width, height, pixels }
    }

    pub fn width(&self) -> (w: u32)
        ensures
            w == self.columns(),
            self@.len() == self.columns() * self.rows(),
    {
        proof {
            use_type_invariant(self);
        }
        self.width
    }

    pub fn height(&self) -> (h: u32)
        ensures
            h == self.rows(),
            self@.len() == self.columns() * self.rows(),
    {
        proof {
            use_type_invariant(self);
        }
        self.height
    }

    /// Colours the pixel in column `x` of row `y`; every other pixel stays
    /// as it is.
    pub fn set_pixel(&mut self, x: u32, y: u32, rgb: [u8; 3])
        requires
            x < old(self).columns(),
            y < old(self).rows(),
        ensures
            final(self).columns() == old(self).columns(),
            final(self).rows() == old(self).rows(),
            final(self)@ == old(self)@.update(cell(old(self).columns(), x as int, y as int), rgb),
    {
        proof {
            use_type_invariant(&*self);
            lemma_cells(self.width as int, self.height as int, x as int, y as int, 0, 0);
        }
        assert(y * self.width >= 0) by (nonlinear_arith);
        let at: usize = (y * self.width + x) as usize;
        self.pixels[at] = rgb;
    }

    /// Reads the pixel in column `x` of row `y`.
    pub fn pixel(&self, x: u32, y: u32) -> (rgb: [u8; 3])
        requires
            x < self.columns(),
            y < self.rows(),
        ensures
            rgb == self.pixel_at(x as int, y as int),
    {
        proof {
            use_type_invariant(self);
            lemma_cells(self.width as int, self.height as int, x as int, y as int, 0, 0);
        }
        assert(y * self.width >= 0) by (nonlinear_arith);
        self.pixels[(y * self.width + x) as usize]
    }

    /// All pixels, row by row.
    pub fn pixels(&self) -> (v: &Vec<[u8; 3]>)
        ensures
            v@ == self@,
            v@.len() == self.columns() * self.rows(),
    {
        proof {
            use_type_invariant(self);
        }
        &self.pixels
    }
}

} // verus!
