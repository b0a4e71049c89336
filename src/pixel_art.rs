use vstd::prelude::*;

use crate::color_utils::{equal_within, Color, ColorUtils};
use crate::config::Config;
use crate::raster::Raster;

verus! {

/// The matching pixels of row `y` among its first `n` columns, left to right.
pub open spec fn row_matches(img: Raster, color: Color, tolerance: u8, y: nat, n: nat) -> Seq<
    (u32, u32),
>
    decreases n,
{
    if n == 0 {
        seq![]
    } else {
        let prev = row_matches(img, color, tolerance, y, (n - 1) as nat);
        if equal_within(img.pixel(n - 1, y as int), color, tolerance) {
            prev.push(((n - 1) as u32, y as u32))
        } else {
            prev
        }
    }
}

/// The matching pixels of the first `m` rows, in row-major order.
pub open spec fn rows_matches(img: Raster, color: Color, tolerance: u8, m: nat) -> Seq<(u32, u32)>
    decreases m,
{
    if m == 0 {
        seq![]
    } else {
        rows_matches(img, color, tolerance, (m - 1) as nat) + row_matches(
            img,
            color,
            tolerance,
            (m - 1) as nat,
            img.width(),
        )
    }
}

/// Every pixel of `img` whose color is within `tolerance` of `color`, visited
/// top to bottom and left to right.
pub open spec fn extracted(img: Raster, color: Color, tolerance: u8) -> Seq<(u32, u32)> {
    rows_matches(img, color, tolerance, img.height())
}

/// A template coordinate as a point of the plane.
pub open spec fn as_point(c: (u32, u32)) -> (int, int) {
    (c.0 as int, c.1 as int)
}

/// A boundary coordinate as a point of the plane.
pub open spec fn as_signed_point(c: (i64, i64)) -> (int, int) {
    (c.0 as int, c.1 as int)
}

/// `q` is one of the eight grid neighbors of `p`.
pub open spec fn is_neighbor(p: (int, int), q: (int, int)) -> bool {
    &&& q != p
    &&& -1 <= q.0 - p.0 <= 1
    &&& -1 <= q.1 - p.1 <= 1
}

pub open spec fn in_template(coords: Seq<(u32, u32)>, q: (int, int)) -> bool {
    exists|i: int| 0 <= i < coords.len() && #[trigger] as_point(coords[i]) == q
}

/// `q` touches some template coordinate without being one itself.
pub open spec fn on_boundary(coords: Seq<(u32, u32)>, q: (int, int)) -> bool {
    &&& exists|i: int| 0 <= i < coords.len() && #[trigger] is_neighbor(as_point(coords[i]), q)
    &&& !in_template(coords, q)
}

/// `b` lists each boundary point of `coords` exactly once, and nothing else.
pub open spec fn is_boundary_of(b: Seq<(i64, i64)>, coords: Seq<(u32, u32)>) -> bool {
    &&& b.no_duplicates()
    &&& forall|k: int| 0 <= k < b.len() ==> on_boundary(coords, #[trigger] as_signed_point(b[k]))
    &&& forall|q: (int, int)|
        #[trigger] on_boundary(coords, q) ==> b.contains((q.0 as i64, q.1 as i64))
}

/// Why a template could not be built.
#[derive(Clone, Copy, Debug, PartialEq, Eq, Structural)]
pub enum PixelArtError {
    /// No pixel of the reference image has the searched color.
    EmptyCoordinates,
}

impl PixelArtError {
    /// A human-readable description of the error.
    pub fn message(&self) -> (s: &'static str)
        ensures
            s@ == "Failed to extract any coordinates with that specified color"@,
    {
        match self {
            PixelArtError::EmptyCoordinates => "Failed to extract any coordinates with that specified color",
        }
    }
}

fn get_coordinates(image: &Raster, searched_color: &Color, searching_tolerance: &u8) -> (r: Vec<
    (u32, u32),
>)
    ensures
        r@ == extracted(*image, *searched_color, *searching_tolerance),
{
    let (img_width, img_height) = image.dimensions();
    let mut coordinates: Vec<(u32, u32)> = Vec::new();
    let mut y: u32 = 0;
    while y < img_height
        invariant
            img_width == image.width(),
            img_height == image.height(),
            y <= img_height,
            coordinates@ == rows_matches(*image, *searched_color, *searching_tolerance, y as nat),
        decreases img_height - y,
    {
        let mut x: u32 = 0;
        while x < img_width
            invariant
                img_width == image.width(),
                img_height == image.height(),
                y < img_height,
                x <= img_width,
                coordinates@ == rows_matches(*image, *searched_color, *searching_tolerance, y as nat)
                    + row_matches(*image, *searched_color, *searching_tolerance, y as nat, x as nat),
            decreases img_width - x,
        {
            let pixel_color = image.get_pixel(x, y);
            let equal = ColorUtils::equal_with_tolerance(
                &pixel_color,
                searched_color,
                *searching_tolerance,
            );
            if equal {
                coordinates.push((x, y));
            }
            proof {
                let a = rows_matches(*image, *searched_color, *searching_tolerance, y as nat);
                let b = row_matches(*image, *searched_color, *searching_tolerance, y as nat, x as nat);
                assert((a + b).push((x, y)) =~= a + b.push((x, y)));
            }
            x = x + 1;
        }
        y = y + 1;
    }
    coordinates
}

fn template_contains(coordinates: &Vec<(u32, u32)>, q: (i64, i64)) -> (r: bool)
    ensures
        r == in_template(coordinates@, as_signed_point(q)),
{
    let mut i: usize = 0;
    while i < coordinates.len()
        invariant
            i <= coordinates@.len(),
            forall|j: int| 0 <= j < i ==> as_point(coordinates@[j]) != as_signed_point(q),
        decreases coordinates@.len() - i,
    {
        let (x, y) = coordinates[i];
        if x as i64 == q.0 && y as i64 == q.1 {
            assert(as_point(coordinates@[i as int]) == as_signed_point(q));
            return true;
        }
        i = i + 1;
    }
    false
}

fn boundary_contains(boundary: &Vec<(i64, i64)>, q: (i64, i64)) -> (r: bool)
    ensures
        r == boundary@.contains(q),
{
    let mut i: usize = 0;
    while i < boundary.len()
        invariant
            i <= boundary@.len(),
            forall|j: int| 0 <= j < i ==> boundary@[j] != q,
        decreases boundary@.len() - i,
    {
        let (bx, by) = boundary[i];
        if bx == q.0 && by == q.1 {
            return true;
        }
        i = i + 1;
    }
    false
}

/// The points around the template, each once: the eight neighbors of every
/// coordinate, less the coordinates themselves. Points left or above the
/// origin are kept.
fn get_coordinates_of_adjacent_pixels(coordinates: &Vec<(u32, u32)>) -> (r: Vec<(i64, i64)>)
    ensures
        is_boundary_of(r@, coordinates@),
{
    let ghost c = coordinates@;
    let mut adjacent: Vec<(i64, i64)> = Vec::new();
    let mut i: usize = 0;
    while i < coordinates.len()
        invariant
            c == coordinates@,
            i <= c.len(),
            adjacent@.no_duplicates(),
            forall|k: int|
                0 <= k < adjacent@.len() ==> on_boundary(c, #[trigger] as_signed_point(adjacent@[k])),
            forall|j: int, q: (int, int)|
                0 <= j < i && #[trigger] is_neighbor(as_point(c[j]), q) && !in_template(c, q)
                    ==> adjacent@.contains((q.0 as i64, q.1 as i64)),
        decreases c.len() - i,
    {
        let (x, y) = coordinates[i];
        let mut dy: i64 = -1;
        while dy <= 1
            invariant
                c == coordinates@,
                i < c.len(),
                (x, y) == c[i as int],
                -1 <= dy <= 2,
                adjacent@.no_duplicates(),
                forall|k: int|
                    0 <= k < adjacent@.len() ==> on_boundary(c, #[trigger] as_signed_point(adjacent@[k])),
                forall|j: int, q: (int, int)|
                    0 <= j < i && #[trigger] is_neighbor(as_point(c[j]), q) && !in_template(c, q)
                        ==> adjacent@.contains((q.0 as i64, q.1 as i64)),
                forall|q: (int, int)|
                    #[trigger] is_neighbor(as_point(c[i as int]), q) && q.1 - y < dy && !in_template(c, q)
                        ==> adjacent@.contains((q.0 as i64, q.1 as i64)),
            decreases 2 - dy,
        {
            let mut dx: i64 = -1;
            while dx <= 1
                invariant
                    c == coordinates@,
                    i < c.len(),
                    (x, y) == c[i as int],
                    -1 <= dy <= 1,
                    -1 <= dx <= 2,
                    adjacent@.no_duplicates(),
                    forall|k: int|
                        0 <= k < adjacent@.len() ==> on_boundary(c, #[trigger] as_signed_point(adjacent@[k])),
                    forall|j: int, q: (int, int)|
                        0 <= j < i && #[trigger] is_neighbor(as_point(c[j]), q) && !in_template(c, q)
                            ==> adjacent@.contains((q.0 as i64, q.1 as i64)),
                    forall|q: (int, int)|
                        #[trigger] is_neighbor(as_point(c[i as int]), q) && (q.1 - y < dy || (q.1 - y
                            == dy && q.0 - x < dx)) && !in_template(c, q)
                            ==> adjacent@.contains((q.0 as i64, q.1 as i64)),
                decreases 2 - dx,
            {
                if dx != 0 || dy != 0 {
                    let q: (i64, i64) = (x as i64 + dx, y as i64 + dy);
                    let ghost qp = as_signed_point(q);
                    assert(is_neighbor(as_point(c[i as int]), qp));
                    if !template_contains(coordinates, q) && !boundary_contains(&adjacent, q) {
                        let ghost before = adjacent@;
                        adjacent.push(q);
                        proof {
                            assert(on_boundary(c, qp));
                            assert forall|k: int| 0 <= k < adjacent@.len() implies on_boundary(
                                c,
                                #[trigger] as_signed_point(adjacent@[k]),
                            ) by {
                                if k < before.len() {
                                    assert(adjacent@[k] == before[k]);
                                }
                            }
                            assert forall|p: (i64, i64)| before.contains(p) implies adjacent@.contains(p) by {
                                let k = choose|k: int| 0 <= k < before.len() && before[k] == p;
                                assert(adjacent@[k] == p);
                            }
                            assert(adjacent@[before.len() as int] == q);
                        }
                    }
                }
                dx = dx + 1;
            }
            dy = dy + 1;
        }
        i = i + 1;
    }
    adjacent
}

/// The largest column among `s`, 0 for none.
pub open spec fn max_x(s: Seq<(u32, u32)>) -> nat
    decreases s.len(),
{
    if s.len() == 0 {
        0
    } else {
        let m = max_x(s.drop_last());
        if s.last().0 > m {
            s.last().0 as nat
        } else {
            m
        }
    }
}

/// The largest row among `s`, 0 for none.
pub open spec fn max_y(s: Seq<(u32, u32)>) -> nat
    decreases s.len(),
{
    if s.len() == 0 {
        0
    } else {
        let m = max_y(s.drop_last());
        if s.last().1 > m {
            s.last().1 as nat
        } else {
            m
        }
    }
}

/// The template coordinates moved by `(ox, oy)`, in their order.
pub open spec fn placed(coords: Seq<(u32, u32)>, ox: int, oy: int) -> Seq<(u32, u32)> {
    Seq::new(coords.len(), |i: int| ((coords[i].0 + ox) as u32, (coords[i].1 + oy) as u32))
}

/// The window at `(ox, oy)` is a match: every template pixel is within the
/// similarity tolerance of the first one, and no boundary pixel that lies in
/// the image is within the contrast tolerance of it.
pub open spec fn window_accepted(
    coords: Seq<(u32, u32)>,
    config: Config,
    img: Raster,
    ox: int,
    oy: int,
) -> bool {
    let reference = img.pixel(coords[0].0 + ox, coords[0].1 + oy);
    &&& forall|i: int|
        0 <= i < coords.len() ==> equal_within(
            reference,
            #[trigger] img.pixel(coords[i].0 + ox, coords[i].1 + oy),
            config.searching_similarity_tolerance,
        )
    &&& forall|q: (int, int)|
        #[trigger] on_boundary(coords, q) && img.in_bounds(q.0 + ox, q.1 + oy) ==> !equal_within(
            reference,
            img.pixel(q.0 + ox, q.1 + oy),
            config.searching_contrast_tolerance,
        )
}

/// The number of offsets tried along one axis: offsets run from 0 up to, but
/// not including, `image_size - window_size`. The offset that puts the window
/// flush against the far edge is not tried, and an image no larger than the
/// window is not searched at all.
pub open spec fn offset_limit(image_size: nat, window_size: nat) -> nat {
    if image_size > window_size {
        (image_size - window_size) as nat
    } else {
        0
    }
}

pub open spec fn views_of(v: Seq<Vec<(u32, u32)>>) -> Seq<Seq<(u32, u32)>> {
    v.map_values(|w: Vec<(u32, u32)>| w@)
}

/// A template extracted from a reference image, with the boundary around it
/// and the configuration used to search for it.
pub struct PixelArt {
    config: Config,
    coordinates: Vec<(u32, u32)>,
    coordinates_of_adjacent_pixels: Vec<(i64, i64)>,
}

impl PixelArt {
    #[verifier::type_invariant]
    spec fn well_formed(&self) -> bool {
        &&& self.coordinates@.len() > 0
        &&& forall|i: int|
            0 <= i < self.coordinates@.len() ==> #[trigger] self.coordinates@[i].0 < u32::MAX
                && self.coordinates@[i].1 < u32::MAX
        &&& is_boundary_of(self.coordinates_of_adjacent_pixels@, self.coordinates@)
    }

    pub closed spec fn config(&self) -> Config {
        self.config
    }

    /// The template pixels, in row-major order of the reference image.
    pub closed spec fn coordinates(&self) -> Seq<(u32, u32)> {
        self.coordinates@
    }

    /// The boundary points, each once, in no particular order.
    pub closed spec fn boundary(&self) -> Seq<(i64, i64)> {
        self.coordinates_of_adjacent_pixels@
    }

    pub open spec fn window_width(&self) -> nat {
        max_x(self.coordinates()) + 1
    }

    pub open spec fn window_height(&self) -> nat {
        max_y(self.coordinates()) + 1
    }

    /// The matches among the first `n` offsets of row offset `oy`.
    pub open spec fn row_found(&self, img: Raster, oy: int, n: nat) -> Seq<Seq<(u32, u32)>>
        decreases n,
    {
        if n == 0 {
            seq![]
        } else {
            let prev = self.row_found(img, oy, (n - 1) as nat);
            if window_accepted(self.coordinates(), self.config(), img, n - 1, oy) {
                prev.push(placed(self.coordinates(), n - 1, oy))
            } else {
                prev
            }
        }
    }

    /// The matches among the first `m` row offsets, row by row.
    pub open spec fn rows_found(&self, img: Raster, m: nat) -> Seq<Seq<(u32, u32)>>
        decreases m,
    {
        if m == 0 {
            seq![]
        } else {
            self.rows_found(img, (m - 1) as nat) + self.row_found(
                img,
                m - 1,
                offset_limit(img.width(), self.window_width()),
            )
        }
    }

    /// Every match of the template in `img`.
    pub open spec fn found(&self, img: Raster) -> Seq<Seq<(u32, u32)>> {
        self.rows_found(img, offset_limit(img.height(), self.window_height()))
    }

    /// The template coordinates, in row-major order of the reference image.
    pub fn pixel_coordinates(&self) -> (r: &Vec<(u32, u32)>)
        ensures
            r@ == self.coordinates(),
    {
        &self.coordinates
    }

    /// The boundary points, each once.
    pub fn boundary_coordinates(&self) -> (r: &Vec<(i64, i64)>)
        ensures
            r@ == self.boundary(),
    {
        &self.coordinates_of_adjacent_pixels
    }

    pub fn get_config(&self) -> (r: Config)
        ensures
            r == self.config(),
    {
        self.config
    }

    /// The template's tight bounding box from the origin: one more than its
    /// largest column and one more than its largest row.
    pub fn get_window_size(&self) -> (r: (u32, u32))
        ensures
            r.0 == self.window_width(),
            r.1 == self.window_height(),
    {
        proof {
            use_type_invariant(self);
            lemma_max_bounds(self.coordinates@);
        }
        let ghost c = self.coordinates@;
        let mut highest_x: u32 = 0;
        let mut highest_y: u32 = 0;
        let mut i: usize = 0;
        while i < self.coordinates.len()
            invariant
                c == self.coordinates@,
                i <= c.len(),
                highest_x == max_x(c.take(i as int)),
                highest_y == max_y(c.take(i as int)),
            decreases c.len() - i,
        {
            let (x, y) = self.coordinates[i];
            assert(c.take(i + 1).drop_last() =~= c.take(i as int));
            if x > highest_x {
                highest_x = x;
            }
            if y > highest_y {
                highest_y = y;
            }
            i = i + 1;
        }
        assert(c.take(c.len() as int) =~= c);
        (highest_x + 1, highest_y + 1)
    }

    /// The template placed at `(offset_x, offset_y)`, when that window is a
    /// match. The window must fit inside the image.
    pub fn pixel_art_instance_in_window(
        &self,
        offset_x: u32,
        offset_y: u32,
        searched_image: &Raster,
    ) -> (r: Option<Vec<(u32, u32)>>)
        requires
            offset_x + self.window_width() <= searched_image.width(),
            offset_y + self.window_height() <= searched_image.height(),
        ensures
            r.is_some() == window_accepted(
                self.coordinates(),
                self.config(),
                *searched_image,
                offset_x as int,
                offset_y as int,
            ),
            r matches Some(v) ==> v@ == placed(self.coordinates(), offset_x as int, offset_y as int),
    {
        proof {
            use_type_invariant(self);
            lemma_max_bounds(self.coordinates@);
            searched_image.lemma_dimensions_fit();
        }
        let ghost c = self.coordinates@;
        let ghost ox = offset_x as int;
        let ghost oy = offset_y as int;
        let mut coordinates_with_offset: Vec<(u32, u32)> = Vec::new();
        let mut i: usize = 0;
        while i < self.coordinates.len()
            invariant
                c == self.coordinates@,
                ox == offset_x,
                oy == offset_y,
                i <= c.len(),
                forall|j: int| 0 <= j < c.len() ==> c[j].0 <= max_x(c) && c[j].1 <= max_y(c),
                offset_x + max_x(c) < searched_image.width() <= u32::MAX,
                offset_y + max_y(c) < searched_image.height() <= u32::MAX,
                coordinates_with_offset@ =~= placed(c, ox, oy).take(i as int),
            decreases c.len() - i,
        {
            let (x, y) = self.coordinates[i];
            assert(x <= max_x(c) && y <= max_y(c));
            coordinates_with_offset.push((x + offset_x, y + offset_y));
            assert(placed(c, ox, oy)[i as int] == coordinates_with_offset@[i as int]);
            assert(placed(c, ox, oy).take(i + 1) =~= placed(c, ox, oy).take(i as int).push(
                placed(c, ox, oy)[i as int],
            ));
            i = i + 1;
        }
        assert(coordinates_with_offset@ =~= placed(c, ox, oy));
        let ghost img = *searched_image;
        let (fx, fy) = coordinates_with_offset[0];
        let first_pixel_color = searched_image.get_pixel(fx, fy);
        let mut i: usize = 0;
        while i < coordinates_with_offset.len()
            invariant
                c == self.coordinates@,
                ox == offset_x,
                oy == offset_y,
                c.len() > 0,
                coordinates_with_offset@ == placed(c, ox, oy),
                forall|j: int| 0 <= j < c.len() ==> c[j].0 <= max_x(c) && c[j].1 <= max_y(c),
                offset_x + max_x(c) < searched_image.width() <= u32::MAX,
                offset_y + max_y(c) < searched_image.height() <= u32::MAX,
                first_pixel_color == img.pixel(c[0].0 + ox, c[0].1 + oy),
                img == *searched_image,
                i <= c.len(),
                forall|j: int|
                    0 <= j < i ==> equal_within(
                        first_pixel_color,
                        #[trigger] img.pixel(c[j].0 + ox, c[j].1 + oy),
                        self.config.searching_similarity_tolerance,
                    ),
            decreases c.len() - i,
        {
            let (x, y) = coordinates_with_offset[i];
            assert(c[i as int].0 <= max_x(c) && c[i as int].1 <= max_y(c));
            assert(placed(c, ox, oy)[i as int] == ((c[i as int].0 + ox) as u32, (c[i as int].1
                + oy) as u32));
            assert(x == c[i as int].0 + ox && y == c[i as int].1 + oy);
            let pixel_color = searched_image.get_pixel(x, y);
            assert(pixel_color == img.pixel(c[i as int].0 + ox, c[i as int].1 + oy));
            if !ColorUtils::equal_with_tolerance(
                &first_pixel_color,
                &pixel_color,
                self.config.searching_similarity_tolerance,
            ) {
                return None;
            }
            i = i + 1;
        }
        let ghost b = self.coordinates_of_adjacent_pixels@;
        let mut k: usize = 0;
        while k < self.coordinates_of_adjacent_pixels.len()
            invariant
                c == self.coordinates@,
                ox == offset_x,
                oy == offset_y,
                b == self.coordinates_of_adjacent_pixels@,
                is_boundary_of(b, c),
                forall|j: int| 0 <= j < c.len() ==> #[trigger] c[j].0 < u32::MAX && c[j].1 < u32::MAX,
                img == *searched_image,
                img.width() <= u32::MAX,
                img.height() <= u32::MAX,
                c.len() > 0,
                first_pixel_color == img.pixel(c[0].0 + ox, c[0].1 + oy),
                forall|j: int|
                    0 <= j < c.len() ==> equal_within(
                        first_pixel_color,
                        #[trigger] img.pixel(c[j].0 + ox, c[j].1 + oy),
                        self.config.searching_similarity_tolerance,
                    ),
                k <= b.len(),
                forall|j: int|
                    0 <= j < k && img.in_bounds(b[j].0 + ox, b[j].1 + oy) ==> !equal_within(
                        first_pixel_color,
                        #[trigger] img.pixel(b[j].0 + ox, b[j].1 + oy),
                        self.config.searching_contrast_tolerance,
                    ),
            decreases b.len() - k,
        {
            let (bx, by) = self.coordinates_of_adjacent_pixels[k];
            assert(on_boundary(c, as_signed_point(b[k as int])));
            let x: i64 = bx + offset_x as i64;
            let y: i64 = by + offset_y as i64;
            if x >= 0 && y >= 0 && x <= u32::MAX as i64 && y <= u32::MAX as i64 {
                let ux = x as u32;
                let uy = y as u32;
                assert(ux == b[k as int].0 + ox && uy == b[k as int].1 + oy);
                let checked = searched_image.get_pixel_checked(ux, uy);
                assert(checked is Some ==> checked->0 == img.pixel(b[k as int].0 + ox, b[k as int].1
                    + oy));
                if let Some(adjacent_pixel_color) = checked {
                    if ColorUtils::equal_with_tolerance(
                        &first_pixel_color,
                        &adjacent_pixel_color,
                        self.config.searching_contrast_tolerance,
                    ) {
                        assert(on_boundary(c, as_signed_point(b[k as int])));
                        return None;
                    }
                }
            }
            k = k + 1;
        }
        proof {
            assert forall|q: (int, int)|
                #[trigger] on_boundary(c, q) && img.in_bounds(q.0 + ox, q.1 + oy) implies !equal_within(
                first_pixel_color,
                img.pixel(q.0 + ox, q.1 + oy),
                self.config.searching_contrast_tolerance,
            ) by {
                let p = (q.0 as i64, q.1 as i64);
                assert(b.contains(p));
                let j = choose|j: int| 0 <= j < b.len() && b[j] == p;
                assert(b[j].0 + ox == q.0 + ox);
                assert(img.in_bounds(b[j].0 + ox, b[j].1 + oy));
            }
        }
        Some(coordinates_with_offset)
    }

    /// The matches in one row of offsets, left to right. `offset_y` must be
    /// one of the row offsets that a search tries.
    pub fn search_row(&self, searched_image: &Raster, offset_y: u32) -> (r: Vec<Vec<(u32, u32)>>)
        requires
            (offset_y as int) < offset_limit(searched_image.height(), self.window_height()),
        ensures
            views_of(r@) == self.row_found(
                *searched_image,
                offset_y as int,
                offset_limit(searched_image.width(), self.window_width()),
            ),
    {
        let (img_width, _img_height) = searched_image.dimensions();
        let (window_width, _window_height) = self.get_window_size();
        let columns: u32 = if img_width > window_width {
            img_width - window_width
        } else {
            0
        };
        let mut found: Vec<Vec<(u32, u32)>> = Vec::new();
        let mut offset_x: u32 = 0;
        while offset_x < columns
            invariant
                columns == offset_limit(searched_image.width(), self.window_width()),
                (offset_y as int) < offset_limit(searched_image.height(), self.window_height()),
                offset_x <= columns,
                views_of(found@) == self.row_found(*searched_image, offset_y as int, offset_x as nat),
            decreases columns - offset_x,
        {
            let window = self.pixel_art_instance_in_window(offset_x, offset_y, searched_image);
            let ghost before = found@;
            match window {
                Some(instance) => {
                    found.push(instance);
                    assert(views_of(found@) =~= views_of(before).push(found@.last()@));
                },
                None => {},
            }
            offset_x = offset_x + 1;
        }
        found
    }

    /// Every match of the template in `searched_image`, row offset by row
    /// offset. Offsets start at 0 and stop one short of the window touching the
    /// far edge of the image; see `offset_limit`.
    pub fn search_in_image(&self, searched_image: &Raster) -> (r: Vec<Vec<(u32, u32)>>)
        ensures
            views_of(r@) == self.found(*searched_image),
    {
        let (_img_width, img_height) = searched_image.dimensions();
        let (_window_width, window_height) = self.get_window_size();
        let rows: u32 = if img_height > window_height {
            img_height - window_height
        } else {
            0
        };
        let mut found: Vec<Vec<(u32, u32)>> = Vec::new();
        let mut offset_y: u32 = 0;
        while offset_y < rows
            invariant
                rows == offset_limit(searched_image.height(), self.window_height()),
                offset_y <= rows,
                views_of(found@) == self.rows_found(*searched_image, offset_y as nat),
            decreases rows - offset_y,
        {
            let mut row = self.search_row(searched_image, offset_y);
            let ghost before = found@;
            let ghost row_view = row@;
            found.append(&mut row);
            assert(views_of(found@) =~= views_of(before) + views_of(row_view));
            offset_y = offset_y + 1;
        }
        found
    }

    /// Builds the template of the pixels of `image` that have the configured
    /// color, and the boundary around it. Fails when no pixel has that color.
    pub fn new(image: Raster, config: Config) -> (r: Result<PixelArt, PixelArtError>)
        ensures
            r.is_err() <==> extracted(image, config.searched_color, config.extracting_tolerance).len()
                == 0,
            r matches Err(e) ==> e == PixelArtError::EmptyCoordinates,
            r matches Ok(art) ==> {
                &&& art.coordinates() == extracted(
                    image,
                    config.searched_color,
                    config.extracting_tolerance,
                )
                &&& is_boundary_of(art.boundary(), art.coordinates())
                &&& art.config() == config
            },
    {
        let coordinates = get_coordinates(&image, &config.searched_color, &config.extracting_tolerance);
        if coordinates.len() == 0 {
            return Err(PixelArtError::EmptyCoordinates);
        }
        proof {
            lemma_extracted_in_bounds(image, config.searched_color, config.extracting_tolerance);
        }
        proof {
            image.lemma_dimensions_fit();
            assert forall|i: int| 0 <= i < coordinates@.len() implies #[trigger] coordinates@[i].0
                < u32::MAX && coordinates@[i].1 < u32::MAX by {
                assert(image.in_bounds(coordinates@[i].0 as int, coordinates@[i].1 as int));
            }
        }
        let coordinates_of_adjacent_pixels = get_coordinates_of_adjacent_pixels(&coordinates);
        Ok(PixelArt { config, coordinates, coordinates_of_adjacent_pixels })
    }
}

proof fn lemma_max_bounds(s: Seq<(u32, u32)>)
    ensures
        forall|j: int| 0 <= j < s.len() ==> #[trigger] s[j].0 <= max_x(s) && s[j].1 <= max_y(s),
        (forall|j: int| 0 <= j < s.len() ==> #[trigger] s[j].0 < u32::MAX && s[j].1 < u32::MAX)
            ==> max_x(s) < u32::MAX && max_y(s) < u32::MAX,
    decreases s.len(),
{
    if s.len() > 0 {
        let t = s.drop_last();
        lemma_max_bounds(t);
        assert forall|j: int| 0 <= j < s.len() implies #[trigger] s[j].0 <= max_x(s) && s[j].1
            <= max_y(s) by {
            if j < t.len() {
                assert(s[j] == t[j]);
            }
        }
        if forall|j: int| 0 <= j < s.len() ==> #[trigger] s[j].0 < u32::MAX && s[j].1 < u32::MAX {
            assert forall|j: int| 0 <= j < t.len() implies #[trigger] t[j].0 < u32::MAX && t[j].1
                < u32::MAX by {
                assert(s[j] == t[j]);
            }
            assert(s[s.len() - 1] == s.last());
        }
    }
}

proof fn lemma_row_matches_in_bounds(img: Raster, color: Color, tolerance: u8, y: nat, n: nat)
    requires
        y < img.height(),
        n <= img.width(),
    ensures
        forall|k: int|
            0 <= k < row_matches(img, color, tolerance, y, n).len() ==> img.in_bounds(
                #[trigger] row_matches(img, color, tolerance, y, n)[k].0 as int,
                row_matches(img, color, tolerance, y, n)[k].1 as int,
            ) && row_matches(img, color, tolerance, y, n)[k].1 == y,
    decreases n,
{
    img.lemma_dimensions_fit();
    if n > 0 {
        let prev = row_matches(img, color, tolerance, y, (n - 1) as nat);
        lemma_row_matches_in_bounds(img, color, tolerance, y, (n - 1) as nat);
        let cur = row_matches(img, color, tolerance, y, n);
        assert forall|k: int| 0 <= k < cur.len() implies img.in_bounds(
            #[trigger] cur[k].0 as int,
            cur[k].1 as int,
        ) && cur[k].1 == y by {
            if k < prev.len() {
                assert(cur[k] == prev[k]);
            }
        }
    }
}

proof fn lemma_rows_matches_in_bounds(img: Raster, color: Color, tolerance: u8, m: nat)
    requires
        m <= img.height(),
    ensures
        forall|k: int|
            0 <= k < rows_matches(img, color, tolerance, m).len() ==> img.in_bounds(
                #[trigger] rows_matches(img, color, tolerance, m)[k].0 as int,
                rows_matches(img, color, tolerance, m)[k].1 as int,
            ),
    decreases m,
{
    if m > 0 {
        let a = rows_matches(img, color, tolerance, (m - 1) as nat);
        let b = row_matches(img, color, tolerance, (m - 1) as nat, img.width());
        lemma_rows_matches_in_bounds(img, color, tolerance, (m - 1) as nat);
        lemma_row_matches_in_bounds(img, color, tolerance, (m - 1) as nat, img.width());
        assert forall|k: int| 0 <= k < (a + b).len() implies img.in_bounds(
            #[trigger] (a + b)[k].0 as int,
            (a + b)[k].1 as int,
        ) by {
            if k >= a.len() {
                assert((a + b)[k] == b[k - a.len()]);
            }
        }
    }
}

/// Every extracted coordinate addresses a pixel of the image it came from.
pub proof fn lemma_extracted_in_bounds(img: Raster, color: Color, tolerance: u8)
    ensures
        forall|k: int|
            0 <= k < extracted(img, color, tolerance).len() ==> img.in_bounds(
                #[trigger] extracted(img, color, tolerance)[k].0 as int,
                extracted(img, color, tolerance)[k].1 as int,
            ),
{
    lemma_rows_matches_in_bounds(img, color, tolerance, img.height());
}

/// Extraction depends on nothing but the image's size and pixels, the color
/// and the tolerance: two images that agree on those give the same
/// coordinates, in the same order.
pub proof fn lemma_extraction_deterministic(a: Raster, b: Raster, color: Color, tolerance: u8)
    requires
        a.width() == b.width(),
        a.height() == b.height(),
        forall|x: int, y: int| a.in_bounds(x, y) ==> a.pixel(x, y) == b.pixel(x, y),
    ensures
        extracted(a, color, tolerance) == extracted(b, color, tolerance),
{
    assert forall|y: nat, n: nat| y < a.height() && n <= a.width() implies row_matches(
        a,
        color,
        tolerance,
        y,
        n,
    ) == row_matches(b, color, tolerance, y, n) by {
        lemma_row_matches_agree(a, b, color, tolerance, y, n);
    }
    lemma_rows_matches_agree(a, b, color, tolerance, a.height());
}

proof fn lemma_row_matches_agree(a: Raster, b: Raster, color: Color, tolerance: u8, y: nat, n: nat)
    requires
        a.width() == b.width(),
        y < a.height(),
        n <= a.width(),
        forall|x: int, y: int| a.in_bounds(x, y) ==> a.pixel(x, y) == b.pixel(x, y),
    ensures
        row_matches(a, color, tolerance, y, n) == row_matches(b, color, tolerance, y, n),
    decreases n,
{
    if n > 0 {
        lemma_row_matches_agree(a, b, color, tolerance, y, (n - 1) as nat);
        assert(a.in_bounds(n - 1, y as int));
    }
}

proof fn lemma_rows_matches_agree(a: Raster, b: Raster, color: Color, tolerance: u8, m: nat)
    requires
        a.width() == b.width(),
        m <= a.height(),
        forall|y: nat, n: nat|
            y < a.height() && n <= a.width() ==> #[trigger] row_matches(a, color, tolerance, y, n)
                == row_matches(b, color, tolerance, y, n),
    ensures
        rows_matches(a, color, tolerance, m) == rows_matches(b, color, tolerance, m),
    decreases m,
{
    if m > 0 {
        lemma_rows_matches_agree(a, b, color, tolerance, (m - 1) as nat);
        assert(row_matches(a, color, tolerance, (m - 1) as nat, a.width()) == row_matches(
            b,
            color,
            tolerance,
            (m - 1) as nat,
            a.width(),
        ));
    }
}

/// When every pixel of the image has the searched color, extraction keeps
/// all `width * height` of them.
pub proof fn lemma_all_pixels_extracted(img: Raster, color: Color, tolerance: u8)
    requires
        forall|x: int, y: int| img.in_bounds(x, y) ==> equal_within(img.pixel(x, y), color, tolerance),
    ensures
        extracted(img, color, tolerance).len() == img.width() * img.height(),
{
    lemma_rows_matches_len(img, color, tolerance, img.height());
}

proof fn lemma_row_matches_len(img: Raster, color: Color, tolerance: u8, y: nat, n: nat)
    requires
        y < img.height(),
        n <= img.width(),
        forall|x: int, y: int| img.in_bounds(x, y) ==> equal_within(img.pixel(x, y), color, tolerance),
    ensures
        row_matches(img, color, tolerance, y, n).len() == n,
    decreases n,
{
    if n > 0 {
        lemma_row_matches_len(img, color, tolerance, y, (n - 1) as nat);
        assert(img.in_bounds(n - 1, y as int));
    }
}

proof fn lemma_rows_matches_len(img: Raster, color: Color, tolerance: u8, m: nat)
    requires
        m <= img.height(),
        forall|x: int, y: int| img.in_bounds(x, y) ==> equal_within(img.pixel(x, y), color, tolerance),
    ensures
        rows_matches(img, color, tolerance, m).len() == m * img.width(),
    decreases m,
{
    if m > 0 {
        lemma_rows_matches_len(img, color, tolerance, (m - 1) as nat);
        lemma_row_matches_len(img, color, tolerance, (m - 1) as nat, img.width());
        let w = img.width() as int;
        let mm = (m - 1) as nat;
        assert((mm + 1) * w == mm * w + w) by (nonlinear_arith);
        assert(rows_matches(img, color, tolerance, m).len() == mm * w + w);
    } else {
        assert(0 * img.width() == 0);
    }
}

/// No boundary point is a template coordinate.
pub proof fn lemma_boundary_disjoint(b: Seq<(i64, i64)>, coords: Seq<(u32, u32)>)
    requires
        is_boundary_of(b, coords),
    ensures
        forall|k: int, i: int|
            0 <= k < b.len() && 0 <= i < coords.len() ==> as_signed_point(b[k]) != as_point(
                coords[i],
            ),
{
    assert forall|k: int, i: int| 0 <= k < b.len() && 0 <= i < coords.len() implies as_signed_point(
        b[k],
    ) != as_point(coords[i]) by {
        assert(on_boundary(coords, as_signed_point(b[k])));
    }
}

/// The eight grid neighbors of `(x, y)`, negative ones included.
pub open spec fn neighbors_of(x: u32, y: u32) -> Set<(i64, i64)> {
    let (x, y) = (x as int, y as int);
    set![
        ((x - 1) as i64, (y - 1) as i64),
        (x as i64, (y - 1) as i64),
        ((x + 1) as i64, (y - 1) as i64),
        ((x - 1) as i64, y as i64),
        ((x + 1) as i64, y as i64),
        ((x - 1) as i64, (y + 1) as i64),
        (x as i64, (y + 1) as i64),
        ((x + 1) as i64, (y + 1) as i64),
    ]
}

/// A template of the single pixel `(x, y)` is fenced by exactly its eight
/// grid neighbors, each listed once.
pub proof fn lemma_single_pixel_boundary(x: u32, y: u32, b: Seq<(i64, i64)>)
    requires
        is_boundary_of(b, seq![(x, y)]),
    ensures
        b.to_set() == neighbors_of(x, y),
        b.len() == 8,
{
    let c = seq![(x, y)];
    assert(c[0] == (x, y));
    assert forall|p: (i64, i64)| b.to_set().contains(p) implies neighbors_of(x, y).contains(p) by {
        let k = choose|k: int| 0 <= k < b.len() && b[k] == p;
        assert(on_boundary(c, as_signed_point(b[k])));
    }
    assert forall|p: (i64, i64)| neighbors_of(x, y).contains(p) implies b.to_set().contains(p) by {
        let q = as_signed_point(p);
        assert(is_neighbor(as_point(c[0]), q));
        assert(on_boundary(c, q));
    }
    assert(b.to_set() =~= neighbors_of(x, y));
    b.unique_seq_to_set();
}

} // verus!
