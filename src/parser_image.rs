use vstd::prelude::*;

use crate::color_utils::Color;
use crate::raster::Raster;
use crate::record::{covers, lemma_covered_in_box, shape_box, Coordinate, Record};

verus! {

/// How far the canvas origin has moved right and down from where the records'
/// coordinate `(0, 0)` first was.
#[derive(Clone, Copy, Debug, PartialEq, Eq, Structural)]
pub struct ImageExpansionOffset {
    pub left: i64,
    pub top: i64,
}

/// Columns (or rows) to add before the canvas so that `low` lands on it.
pub open spec fn grow_before(low: int, offset: int) -> int {
    if low + offset < 0 {
        -(low + offset)
    } else {
        0
    }
}

/// Columns (or rows) to add after a canvas side of `size` so that `high` lands
/// on it.
pub open spec fn grow_after(high: int, offset: int, size: int) -> int {
    if high + offset >= size {
        high + offset - size + 1
    } else {
        0
    }
}

/// The color of canvas area that nothing has drawn on.
pub open spec fn white() -> Color {
    Color { r: 255, g: 255, b: 255, a: 255 }
}

/// `after` is `before` grown to take in the record's shape, with the shape
/// painted in the record's color and the new area white.
pub open spec fn record_applied(before: ParserImage, after: ParserImage, record: Record) -> bool {
    &&& after.canvas().width() == before.grown_width(record.coordinate)
    &&& after.canvas().height() == before.grown_height(record.coordinate)
    &&& forall|x: int, y: int|
        #![trigger after.covers_point(x, y)]
        covers(record.coordinate, x, y) || before.covers_point(x, y) ==> after.covers_point(x, y)
    &&& forall|x: int, y: int|
        #![trigger after.point_color(x, y)]
        after.covers_point(x, y) ==> after.point_color(x, y) == if covers(record.coordinate, x, y) {
            record.pixel_color
        } else if before.covers_point(x, y) {
            before.point_color(x, y)
        } else {
            white()
        }
}

/// A canvas that grows to take in every record drawn on it. A record point
/// `(x, y)` sits at canvas pixel `(x + left, y + top)`.
pub struct ParserImage {
    image: Raster,
    image_expansion_offset: ImageExpansionOffset,
}

impl ParserImage {
    #[verifier::type_invariant]
    spec fn well_formed(&self) -> bool {
        &&& 0 <= self.image_expansion_offset.left <= self.image.width()
        &&& 0 <= self.image_expansion_offset.top <= self.image.height()
    }

    pub closed spec fn canvas(&self) -> Raster {
        self.image
    }

    pub closed spec fn offset(&self) -> ImageExpansionOffset {
        self.image_expansion_offset
    }

    /// The record point `(x, y)` lies on the canvas.
    pub open spec fn covers_point(&self, x: int, y: int) -> bool {
        self.canvas().in_bounds(x + self.offset().left as int, y + self.offset().top as int)
    }

    /// The color of record point `(x, y)`, where it lies on the canvas.
    pub open spec fn point_color(&self, x: int, y: int) -> Color {
        self.canvas().pixel(x + self.offset().left as int, y + self.offset().top as int)
    }

    /// The canvas width once grown to take in `c`.
    pub open spec fn grown_width(&self, c: Coordinate) -> int {
        self.canvas().width() + grow_before(shape_box(c).0, self.offset().left as int) + grow_after(
            shape_box(c).2,
            self.offset().left as int,
            self.canvas().width() as int,
        )
    }

    /// The canvas height once grown to take in `c`.
    pub open spec fn grown_height(&self, c: Coordinate) -> int {
        self.canvas().height() + grow_before(shape_box(c).1, self.offset().top as int) + grow_after(
            shape_box(c).3,
            self.offset().top as int,
            self.canvas().height() as int,
        )
    }

    /// The grown canvas can still be held in memory.
    pub open spec fn growth_fits(&self, c: Coordinate) -> bool {
        &&& self.grown_width(c) <= u32::MAX
        &&& self.grown_height(c) <= u32::MAX
        &&& self.grown_width(c) * self.grown_height(c) <= usize::MAX
    }

    /// An empty canvas with its origin at record point `(0, 0)`.
    pub fn new() -> (r: ParserImage)
        ensures
            r.canvas().width() == 0,
            r.canvas().height() == 0,
            r.offset() == (ImageExpansionOffset { left: 0, top: 0 }),
    {
        ParserImage {
            image: Raster::from_pixel(0, 0, Color::rgb(255, 255, 255)),
            image_expansion_offset: ImageExpansionOffset { left: 0, top: 0 },
        }
    }

    /// Grows the canvas with white so that the box of `coordinate` lies on it,
    /// keeping every point already drawn where it was. Returns false, and
    /// changes nothing, when the grown canvas would be too large to hold.
    fn handle_image_expansion(&mut self, coordinate: &Coordinate) -> (r: bool)
        ensures
            r == old(self).growth_fits(*coordinate),
            !r ==> *final(self) == *old(self),
            r ==> {
                &&& final(self).canvas().width() == old(self).grown_width(*coordinate)
                &&& final(self).canvas().height() == old(self).grown_height(*coordinate)
                &&& forall|x: int, y: int|
                    #![trigger final(self).covers_point(x, y)]
                    shape_box(*coordinate).0 <= x <= shape_box(*coordinate).2 && shape_box(
                        *coordinate,
                    ).1 <= y <= shape_box(*coordinate).3 ==> final(self).covers_point(x, y)
                &&& forall|x: int, y: int|
                    #![trigger final(self).covers_point(x, y)]
                    old(self).covers_point(x, y) ==> final(self).covers_point(x, y)
                &&& forall|x: int, y: int|
                    #![trigger final(self).point_color(x, y)]
                    final(self).covers_point(x, y) ==> final(self).point_color(x, y) == if old(self).covers_point(x, y) {
                        old(self).point_color(x, y)
                    } else {
                        white()
                    }
            },
    {
        proof {
            use_type_invariant(&*self);
            self.image.lemma_dimensions_fit();
        }
        let (img_width, img_height) = self.image.dimensions();
        let (low_x, low_y, high_x, high_y) = coordinate.bounding_box();
        let offset_left = self.image_expansion_offset.left;
        let offset_top = self.image_expansion_offset.top;
        let width = img_width as i64;
        let height = img_height as i64;

        let expand_left: i64 = if low_x + offset_left < 0 {
            -(low_x + offset_left)
        } else {
            0
        };
        let expand_right: i64 = if high_x + offset_left >= width {
            high_x + offset_left - width + 1
        } else {
            0
        };
        let expand_top: i64 = if low_y + offset_top < 0 {
            -(low_y + offset_top)
        } else {
            0
        };
        let expand_bottom: i64 = if high_y + offset_top >= height {
            high_y + offset_top - height + 1
        } else {
            0
        };

        if expand_left == 0 && expand_right == 0 && expand_top == 0 && expand_bottom == 0 {
            return true;
        }
        let new_width: i64 = width + expand_left + expand_right;
        let new_height: i64 = height + expand_top + expand_bottom;
        if new_width > u32::MAX as i64 || new_height > u32::MAX as i64 {
            return false;
        }
        assert((new_width as int) * (new_height as int) <= u64::MAX) by (nonlinear_arith)
            requires
                0 <= new_width <= u32::MAX,
                0 <= new_height <= u32::MAX,
        ;
        if (new_width as u64) * (new_height as u64) > usize::MAX as u64 {
            return false;
        }
        let mut new_image = Raster::from_pixel(
            new_width as u32,
            new_height as u32,
            Color::rgb(255, 255, 255),
        );
        new_image.overlay(&self.image, expand_left as u32, expand_top as u32);
        self.image = new_image;
        self.image_expansion_offset = ImageExpansionOffset {
            left: offset_left + expand_left,
            top: offset_top + expand_top,
        };
        true
    }

    /// Paints every canvas point that the record's shape covers; the shape's
    /// box must already lie on the canvas.
    fn draw_from_record(&mut self, record: &Record)
        requires
            forall|x: int, y: int|
                shape_box(record.coordinate).0 <= x <= shape_box(record.coordinate).2 && shape_box(
                    record.coordinate,
                ).1 <= y <= shape_box(record.coordinate).3 ==> old(self).covers_point(x, y),
        ensures
            final(self).canvas().width() == old(self).canvas().width(),
            final(self).canvas().height() == old(self).canvas().height(),
            final(self).offset() == old(self).offset(),
            forall|x: int, y: int|
                #![trigger final(self).point_color(x, y)]
                final(self).covers_point(x, y) ==> final(self).point_color(x, y) == if covers(
                    record.coordinate,
                    x,
                    y,
                ) {
                    record.pixel_color
                } else {
                    old(self).point_color(x, y)
                },
        no_unwind
    {
        proof {
            use_type_invariant(&*self);
            self.image.lemma_dimensions_fit();
        }
        let ghost c = record.coordinate;
        let ghost orig = *self;
        proof {
            assert forall|x: int, y: int| covers(c, x, y) implies shape_box(c).0 <= x <= shape_box(
                c,
            ).2 && shape_box(c).1 <= y <= shape_box(c).3 by {
                lemma_covered_in_box(c, x, y);
            }
        }
        let offset_left = self.image_expansion_offset.left;
        let offset_top = self.image_expansion_offset.top;
        let (low_x, low_y, high_x, high_y) = record.coordinate.bounding_box();
        if low_x > high_x || low_y > high_y {
            return;
        }
        let mut y: i64 = low_y;
        while y <= high_y
            invariant
                c == record.coordinate,
                (low_x as int, low_y as int, high_x as int, high_y as int) == shape_box(c),
                offset_left == orig.offset().left,
                offset_top == orig.offset().top,
                self.offset() == orig.offset(),
                self.canvas().width() == orig.canvas().width(),
                self.canvas().height() == orig.canvas().height(),
                orig.canvas().width() <= u32::MAX,
                orig.canvas().height() <= u32::MAX,
                0 <= orig.offset().left <= orig.canvas().width(),
                0 <= orig.offset().top <= orig.canvas().height(),
                low_x <= high_x,
                low_y <= y <= high_y + 1,
                forall|x: int, y: int|
                    shape_box(c).0 <= x <= shape_box(c).2 && shape_box(c).1 <= y <= shape_box(c).3
                        ==> orig.covers_point(x, y),
                forall|x: int, y: int|
                    covers(c, x, y) ==> shape_box(c).0 <= x <= shape_box(c).2 && shape_box(c).1 <= y
                        <= shape_box(c).3,
                forall|a: int, b: int|
                    #![trigger self.point_color(a, b)]
                    self.covers_point(a, b) ==> self.point_color(a, b) == if covers(c, a, b) && b
                        < y {
                        record.pixel_color
                    } else {
                        orig.point_color(a, b)
                    },
            decreases high_y + 1 - y,
        {
            let mut x: i64 = low_x;
            while x <= high_x
                invariant
                    c == record.coordinate,
                    (low_x as int, low_y as int, high_x as int, high_y as int) == shape_box(c),
                    offset_left == orig.offset().left,
                    offset_top == orig.offset().top,
                    self.offset() == orig.offset(),
                    self.canvas().width() == orig.canvas().width(),
                    self.canvas().height() == orig.canvas().height(),
                    orig.canvas().width() <= u32::MAX,
                    orig.canvas().height() <= u32::MAX,
                    0 <= orig.offset().left <= orig.canvas().width(),
                    0 <= orig.offset().top <= orig.canvas().height(),
                    low_y <= y <= high_y,
                    low_x <= x <= high_x + 1,
                    forall|x: int, y: int|
                        shape_box(c).0 <= x <= shape_box(c).2 && shape_box(c).1 <= y <= shape_box(
                            c,
                        ).3 ==> orig.covers_point(x, y),
                    forall|x: int, y: int|
                        covers(c, x, y) ==> shape_box(c).0 <= x <= shape_box(c).2 && shape_box(c).1
                            <= y <= shape_box(c).3,
                    forall|a: int, b: int|
                        #![trigger self.point_color(a, b)]
                        self.covers_point(a, b) ==> self.point_color(a, b) == if covers(c, a, b) && (b
                            < y || (b == y && a < x)) {
                            record.pixel_color
                        } else {
                            orig.point_color(a, b)
                        },
                decreases high_x + 1 - x,
            {
                if record.coordinate.contains(x, y) {
                    assert(orig.covers_point(x as int, y as int));
                    let ghost before = *self;
                    self.image.put_pixel(
                        (x + offset_left) as u32,
                        (y + offset_top) as u32,
                        record.pixel_color,
                    );
                    assert forall|a: int, b: int| #[trigger]
                        self.covers_point(a, b) implies self.point_color(a, b) == if a == x && b
                        == y {
                        record.pixel_color
                    } else {
                        before.point_color(a, b)
                    } by {
                        assert(before.covers_point(a, b));
                    }
                }
                x = x + 1;
            }
            y = y + 1;
        }
    }

    /// Applies one record: grows the canvas with white until the record's
    /// shape lies on it, then paints the shape. Returns false, and changes
    /// nothing, when the grown canvas would be too large to hold.
    pub fn handle_record(&mut self, record: &Record) -> (r: bool)
        ensures
            r == old(self).growth_fits(record.coordinate),
            !r ==> *final(self) == *old(self),
            r ==> record_applied(*old(self), *final(self), *record),
    {
        if !self.handle_image_expansion(&record.coordinate) {
            return false;
        }
        proof {
            let c = record.coordinate;
            assert forall|x: int, y: int| covers(c, x, y) implies self.covers_point(x, y) by {
                lemma_covered_in_box(c, x, y);
            }
        }
        self.draw_from_record(record);
        true
    }

    pub fn image(&self) -> (r: &Raster)
        ensures
            *r == self.canvas(),
    {
        &self.image
    }

    pub fn expansion_offset(&self) -> (r: ImageExpansionOffset)
        ensures
            r == self.offset(),
    {
        self.image_expansion_offset
    }
}

} // verus!
