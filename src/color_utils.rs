use vstd::prelude::*;

verus! {

/// A pixel color: three compared channels and an alpha channel that is carried
/// along but never compared.
#[derive(Clone, Copy, Debug, PartialEq, Eq, Structural)]
pub struct Color {
    pub r: u8,
    pub g: u8,
    pub b: u8,
    pub a: u8,
}

impl Color {
    /// An opaque color.
    pub fn rgb(r: u8, g: u8, b: u8) -> (c: Color)
        ensures
            c == (Color { r, g, b, a: 255 }),
    {
        Color { r, g, b, a: 255 }
    }

    pub fn rgba(r: u8, g: u8, b: u8, a: u8) -> (c: Color)
        ensures
            c == (Color { r, g, b, a }),
    {
        Color { r, g, b, a }
    }
}

/// The distance between two channel values.
pub open spec fn channel_distance(a: u8, b: u8) -> int {
    if a < b {
        b - a
    } else {
        a - b
    }
}

/// Two colors are equal within `tolerance` when no compared channel differs by
/// more than `tolerance`; alpha is ignored.
pub open spec fn equal_within(c1: Color, c2: Color, tolerance: u8) -> bool {
    &&& channel_distance(c1.r, c2.r) <= tolerance
    &&& channel_distance(c1.g, c2.g) <= tolerance
    &&& channel_distance(c1.b, c2.b) <= tolerance
}

/// Two colors agree on every compared channel.
pub open spec fn same_channels(c1: Color, c2: Color) -> bool {
    c1.r == c2.r && c1.g == c2.g && c1.b == c2.b
}

/// The absolute difference of two channel values, computed without wrapping.
pub fn safe_abs(num1: &u8, num2: &u8) -> (d: u8)
    ensures
        d == channel_distance(*num1, *num2),
{
    if *num1 < *num2 {
        return *num2 - *num1;
    }
    *num1 - *num2
}

pub struct ColorUtils;

impl ColorUtils {
    /// Whether the two colors agree within `tolerance` on red, green and blue.
    pub fn equal_with_tolerance(color1: &Color, color2: &Color, tolerance: u8) -> (r: bool)
        ensures
            r == equal_within(*color1, *color2, tolerance),
    {
        let diff_r = safe_abs(&color1.r, &color2.r);
        let diff_g = safe_abs(&color1.g, &color2.g);
        let diff_b = safe_abs(&color1.b, &color2.b);

        diff_r <= tolerance && diff_g <= tolerance && diff_b <= tolerance
    }
}

/// Tolerant color equality does not depend on the order of its arguments.
pub proof fn lemma_equal_symmetric(a: Color, b: Color, tolerance: u8)
    ensures
        equal_within(a, b, tolerance) == equal_within(b, a, tolerance),
{
}

/// With no tolerance, two colors are equal exactly when their red, green and
/// blue channels are.
pub proof fn lemma_zero_tolerance_is_exact(a: Color, b: Color)
    ensures
        equal_within(a, b, 0) <==> same_channels(a, b),
{
}

} // verus!
