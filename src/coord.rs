//! Fixed-point points of the square `[-1, 1]²` and their mapping to pixels.
use rand::rngs::StdRng;
use rand::Rng;
use vstd::prelude::*;

verus! {

/// Fixed-point scale: a coordinate of `ONE` stands for 1.0.
pub const ONE: i32 = 1_000_000;

/// A point of the simulation plane, in units of `1 / ONE`.
#[derive(Clone, Copy, Debug, PartialEq, Eq, Structural)]
pub struct Coord {
    pub x: i32,
    pub y: i32,
}

/// The point lies in the closed square `[-ONE, ONE]²`.
pub open spec fn in_domain(c: Coord) -> bool {
    -ONE <= c.x <= ONE && -ONE <= c.y <= ONE
}

/// Pixel column (or row) of a coordinate on an axis of `n` pixels: the affine
/// map of `[-ONE, ONE]` onto `[0, n - 1]`, rounded half up.
pub open spec fn axis_pixel(v: int, n: int) -> int {
    ((v + ONE) * (n - 1) + ONE) / (2 * ONE)
}

/// Row-major index `y * width + x` of the pixel under a point.
pub open spec fn pixel_index(c: Coord, width: int, height: int) -> int {
    axis_pixel(c.y as int, height) * width + axis_pixel(c.x as int, width)
}

/// rand's `StdRng`, carried opaque: the source of respawn points.
#[verifier::external_type_specification]
#[verifier::external_body]
pub struct ExStdRng(StdRng);

/// Relies on rand's `Rng::gen_range`: a draw from the half-open range
/// `lo..hi` (it panics on an empty range, which `requires` leaves out).
#[verifier::external_body]
fn draw_in(rng: &mut StdRng, lo: i32, hi: i32) -> (r: i32)
    requires
        lo < hi,
    ensures
        lo <= r < hi,
{
    rng.gen_range(lo..hi)
}

impl Coord {
    /// The point `(x, y)`.
    pub fn new(x: i32, y: i32) -> (c: Coord)
        ensures
            c.x == x,
            c.y == y,
    {
        Coord { x, y }
    }

    /// A point drawn from `rng`, each axis on `[-ONE, ONE)`.
    pub fn rand(rng: &mut StdRng) -> (c: Coord)
        ensures
            -ONE <= c.x < ONE,
            -ONE <= c.y < ONE,
            in_domain(c),
    {
        let x = draw_in(rng, -ONE, ONE);
        let y = draw_in(rng, -ONE, ONE);
        Coord { x, y }
    }

    /// Whether the point lies in the closed square `[-ONE, ONE]²`.
    pub fn is_in_domain(&self) -> (r: bool)
        ensures
            r == in_domain(*self),
    {
        -ONE <= self.x && self.x <= ONE && -ONE <= self.y && self.y <= ONE
    }
}

proof fn lemma_axis_pixel_bounds(v: int, n: int)
    requires
        -ONE <= v <= ONE,
        n >= 1,
    ensures
        0 <= axis_pixel(v, n) < n,
{
    let a = v + ONE;
    let t = a * (n - 1);
    assert(0 <= t <= 2 * ONE * (n - 1)) by (nonlinear_arith)
        requires
            0 <= a <= 2 * ONE,
            n >= 1,
            t == a * (n - 1),
    ;
    assert(axis_pixel(v, n) == (t + ONE) / (2 * ONE));
    assert(t + ONE < 2 * ONE * n) by (nonlinear_arith)
        requires
            t <= 2 * ONE * (n - 1),
            ONE > 0,
    ;
}

/// Every point of the square maps to an index inside a `width × height`
/// buffer.
pub proof fn lemma_pixel_index_in_bounds(c: Coord, width: int, height: int)
    requires
        in_domain(c),
        width >= 1,
        height >= 1,
    ensures
        0 <= axis_pixel(c.x as int, width) < width,
        0 <= axis_pixel(c.y as int, height) < height,
        0 <= pixel_index(c, width, height) < width * height,
{
    lemma_axis_pixel_bounds(c.x as int, width);
    lemma_axis_pixel_bounds(c.y as int, height);
    let (px, py) = (axis_pixel(c.x as int, width), axis_pixel(c.y as int, height));
    assert(0 <= py * width + px < width * height) by (nonlinear_arith)
        requires
            0 <= px < width,
            0 <= py < height,
    ;
}

fn axis_to_pixel(v: i32, n: usize) -> (p: usize)
    requires
        -ONE <= v <= ONE,
        n >= 1,
    ensures
        p == axis_pixel(v as int, n as int),
        p < n,
{
    proof {
        lemma_axis_pixel_bounds(v as int, n as int);
    }
    let a: u128 = (v + ONE) as u128;
    let m: u128 = (n - 1) as u128;
    assert(a * m <= 2_000_000 * 0x1_0000_0000_0000_0000) by (nonlinear_arith)
        requires
            a <= 2_000_000,
            m <= 0x1_0000_0000_0000_0000,
    ;
    let scaled: u128 = (a * m + ONE as u128) / (2 * ONE as u128);
    scaled as usize
}

/// Index of the pixel under `c` in a row-major `width × height` buffer.
pub fn to_pixel_index(c: Coord, width: usize, height: usize) -> (r: usize)
    requires
        in_domain(c),
        width >= 1,
        height >= 1,
        width * height <= usize::MAX,
    ensures
        r == pixel_index(c, width as int, height as int),
        r < width * height,
{
    proof {
        lemma_pixel_index_in_bounds(c, width as int, height as int);
    }
    let px = axis_to_pixel(c.x, width);
    let py = axis_to_pixel(c.y, height);
    py * width + px
}

} // verus!
