use vstd::prelude::*;

use crate::color_utils::Color;

verus! {

/// An in-memory image: `width * height` pixels stored row by row.
pub struct Raster {
    width: u32,
    height: u32,
    pixels: Vec<Color>,
}

impl Raster {
    #[verifier::type_invariant]
    spec fn well_formed(&self) -> bool {
        self.pixels@.len() == self.width as int * self.height as int
    }

    pub closed spec fn width(&self) -> nat {
        self.width as nat
    }

    pub closed spec fn height(&self) -> nat {
        self.height as nat
    }

    /// The color at column `x` of row `y`; meaningful inside the bounds only.
    pub closed spec fn pixel(&self, x: int, y: int) -> Color {
        self.pixels@[y * self.width + x]
    }

    /// Both sides of a raster fit in a `u32`.
    pub proof fn lemma_dimensions_fit(&self)
        ensures
            self.width() <= u32::MAX,
            self.height() <= u32::MAX,
    {
    }

    pub open spec fn in_bounds(&self, x: int, y: int) -> bool {
        0 <= x < self.width() && 0 <= y < self.height()
    }

    /// A `width` by `height` raster with every pixel set to `fill`.
    pub fn from_pixel(width: u32, height: u32, fill: Color) -> (r: Raster)
        requires
            width as int * height as int <= usize::MAX,
        ensures
            r.width() == width,
            r.height() == height,
            forall|x: int, y: int| r.in_bounds(x, y) ==> r.pixel(x, y) == fill,
    {
        let n: usize = width as usize * height as usize;
        let mut pixels: Vec<Color> = Vec::new();
        while pixels.len() < n
            invariant
                pixels@.len() <= n,
                forall|i: int| 0 <= i < pixels@.len() ==> pixels@[i] == fill,
            decreases n - pixels@.len(),
        {
            pixels.push(fill);
        }
        let r = Raster { width, height, pixels };
        assert forall|x: int, y: int| r.in_bounds(x, y) implies r.pixel(x, y) == fill by {
            lemma_row_major_index(x, y, width as int, height as int);
        }
        r
    }

    /// A raster over the given row-major pixels, or `None` when their number is
    /// not `width * height`.
    pub fn from_pixels(width: u32, height: u32, pixels: Vec<Color>) -> (r: Option<Raster>)
        ensures
            r.is_some() <==> pixels@.len() == width as int * height as int,
            r matches Some(img) ==> {
                &&& img.width() == width
                &&& img.height() == height
                &&& forall|x: int, y: int|
                    img.in_bounds(x, y) ==> img.pixel(x, y) == pixels@[y * width + x]
            },
    {
        assert((width as int) * (height as int) <= u64::MAX) by (nonlinear_arith)
            requires
                width <= u32::MAX,
                height <= u32::MAX,
        ;
        let n: u64 = width as u64 * height as u64;
        if pixels.len() as u64 != n {
            return None;
        }
        let img = Raster { width, height, pixels };
        assert forall|x: int, y: int| img.in_bounds(x, y) implies img.pixel(x, y) == img.pixels@[y
            * width + x] by {
            lemma_row_major_index(x, y, width as int, height as int);
        }
        Some(img)
    }

    pub fn dimensions(&self) -> (r: (u32, u32))
        ensures
            r.0 == self.width(),
            r.1 == self.height(),
            self.width() * self.height() <= usize::MAX,
    {
        proof {
            use_type_invariant(self);
        }
        let _n: usize = self.pixels.len();
        (self.width, self.height)
    }

    pub fn get_pixel(&self, x: u32, y: u32) -> (c: Color)
        requires
            self.in_bounds(x as int, y as int),
        ensures
            c == self.pixel(x as int, y as int),
    {
        proof {
            use_type_invariant(self);
            lemma_row_major_index(x as int, y as int, self.width as int, self.height as int);
        }
        let n: usize = self.pixels.len();
        assert((y as int) * (self.width as int) + (x as int) < n);
        self.pixels[y as usize * self.width as usize + x as usize]
    }

    /// The color at `(x, y)`, or `None` outside the raster.
    pub fn get_pixel_checked(&self, x: u32, y: u32) -> (c: Option<Color>)
        ensures
            c == (if self.in_bounds(x as int, y as int) {
                Some(self.pixel(x as int, y as int))
            } else {
                None
            }),
    {
        if x < self.width && y < self.height {
            Some(self.get_pixel(x, y))
        } else {
            None
        }
    }

    pub fn put_pixel(&mut self, x: u32, y: u32, color: Color)
        requires
            old(self).in_bounds(x as int, y as int),
        ensures
            final(self).width() == old(self).width(),
            final(self).height() == old(self).height(),
            final(self).pixel(x as int, y as int) == color,
            forall|i: int, j: int|
                final(self).in_bounds(i, j) && (i != x || j != y) ==> final(self).pixel(i, j)
                    == old(self).pixel(i, j),
    no_unwind
    {
        proof {
            use_type_invariant(&*self);
            lemma_row_major_index(x as int, y as int, self.width as int, self.height as int);
        }
        let n: usize = self.pixels.len();
        assert((y as int) * (self.width as int) + (x as int) < n);
        let idx: usize = y as usize * self.width as usize + x as usize;
        self.pixels[idx] = color;
        proof {
            assert forall|i: int, j: int|
                self.in_bounds(i, j) && (i != x || j != y) implies self.pixel(i, j)
                == old(self).pixel(i, j) by {
                lemma_row_major_index(i, j, self.width as int, self.height as int);
                lemma_row_major_distinct(i, j, x as int, y as int, self.width as int);
            }
        }
    }

    /// Copies `top` onto this raster with its corner at `(x, y)`; `top` must
    /// fit inside.
    pub fn overlay(&mut self, top: &Raster, x: u32, y: u32)
        requires
            x + top.width() <= old(self).width(),
            y + top.height() <= old(self).height(),
        ensures
            final(self).width() == old(self).width(),
            final(self).height() == old(self).height(),
            forall|i: int, j: int|
                #![trigger final(self).pixel(i, j)]
                final(self).in_bounds(i, j) ==> final(self).pixel(i, j) == if top.in_bounds(
                    i - x,
                    j - y,
                ) {
                    top.pixel(i - x, j - y)
                } else {
                    old(self).pixel(i, j)
                },
    {
        let ghost orig = *self;
        let (top_width, top_height) = top.dimensions();
        let mut j: u32 = 0;
        while j < top_height
            invariant
                top_width == top.width(),
                top_height == top.height(),
                x + top.width() <= orig.width(),
                y + top.height() <= orig.height(),
                self.width() == orig.width(),
                self.height() == orig.height(),
                j <= top_height,
                forall|a: int, b: int|
                    #![trigger self.pixel(a, b)]
                    self.in_bounds(a, b) ==> self.pixel(a, b) == if top.in_bounds(a - x, b - y)
                        && b - y < j {
                        top.pixel(a - x, b - y)
                    } else {
                        orig.pixel(a, b)
                    },
            decreases top_height - j,
        {
            let mut i: u32 = 0;
            while i < top_width
                invariant
                    top_width == top.width(),
                    top_height == top.height(),
                    x + top.width() <= orig.width(),
                    y + top.height() <= orig.height(),
                    self.width() == orig.width(),
                    self.height() == orig.height(),
                    j < top_height,
                    i <= top_width,
                    forall|a: int, b: int|
                        #![trigger self.pixel(a, b)]
                        self.in_bounds(a, b) ==> self.pixel(a, b) == if top.in_bounds(a - x, b - y)
                            && (b - y < j || (b - y == j && a - x < i)) {
                            top.pixel(a - x, b - y)
                        } else {
                            orig.pixel(a, b)
                        },
                decreases top_width - i,
            {
                let c = top.get_pixel(i, j);
                self.put_pixel(x + i, y + j, c);
                i = i + 1;
            }
            j = j + 1;
        }
    }
}

proof fn lemma_row_major_index(x: int, y: int, w: int, h: int)
    requires
        0 <= x < w,
        0 <= y < h,
    ensures
        0 <= y * w + x < w * h,
        y * w + x <= (h - 1) * w + (w - 1),
{
    assert(y * w <= (h - 1) * w) by (nonlinear_arith)
        requires
            0 <= y <= h - 1,
            0 <= w,
    ;
    assert((h - 1) * w + (w - 1) < w * h) by (nonlinear_arith)
        requires
            w >= 1,
    ;
}

proof fn lemma_row_major_distinct(i: int, j: int, x: int, y: int, w: int)
    requires
        0 <= i < w,
        0 <= x < w,
        i != x || j != y,
    ensures
        j * w + i != y * w + x,
{
    if j == y {
    } else if j < y {
        assert(j * w + w <= y * w) by (nonlinear_arith)
            requires
                j + 1 <= y,
                0 <= w,
        ;
    } else {
        assert(y * w + w <= j * w) by (nonlinear_arith)
            requires
                y + 1 <= j,
                0 <= w,
        ;
    }
}

} // verus!
