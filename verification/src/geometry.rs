//! Plain geometric values: authored vectors, computed boxes and the
//! transform from logical units to backend pixels.

use vstd::prelude::*;

verus! {

/// A pair of whole logical units, as written by the author of an interface.
#[derive(Clone, Copy, Debug, PartialEq, Eq, Structural)]
pub struct Vector2 {
    pub x: i32,
    pub y: i32,
}

impl Vector2 {
    pub fn new(x: i32, y: i32) -> (v: Vector2)
        ensures
            v == (Vector2 { x, y }),
    {
        Vector2 { x, y }
    }

    /// The origin.
    pub fn zero() -> (v: Vector2)
        ensures
            v == (Vector2 { x: 0, y: 0 }),
    {
        Vector2 { x: 0, y: 0 }
    }
}

/// A computed box: where a node sits and how large it is, in logical units.
#[derive(Clone, Copy, Debug, PartialEq, Eq, Structural)]
pub struct Geometry {
    pub x: i64,
    pub y: i64,
    pub width: u32,
    pub height: u32,
}

/// A box in backend pixels.
#[derive(Clone, Copy, Debug, PartialEq, Eq, Structural)]
pub struct PixelGeometry {
    pub x: i64,
    pub y: i64,
    pub width: u64,
    pub height: u64,
}

/// The number of backend pixels per logical unit, in thousandths.
#[derive(Clone, Copy, Debug, PartialEq, Eq, Structural)]
pub struct ScaleFactor {
    pub per_mille: u32,
}

/// The nearest value to `v` that an `i64` can hold.
pub open spec fn clamp_i64(v: int) -> int {
    if v < i64::MIN {
        i64::MIN as int
    } else if v > i64::MAX {
        i64::MAX as int
    } else {
        v
    }
}

/// A negative authored length counts as zero.
pub open spec fn clamp_length(v: int) -> int {
    if v < 0 {
        0
    } else {
        v
    }
}

/// A length in pixels: the logical length times the factor, rounded down.
pub open spec fn scaled_length(length: int, per_mille: int) -> int {
    (length * per_mille) / 1000
}

/// A coordinate in pixels: the logical coordinate times the factor, rounded
/// down and kept within the range of a 64-bit coordinate.
pub open spec fn scaled_coordinate(v: int, per_mille: int) -> int {
    clamp_i64((v * per_mille) / 1000)
}

/// The box `g` in pixels under the factor `per_mille`.
pub open spec fn scaled_geometry(g: Geometry, per_mille: int) -> PixelGeometry {
    PixelGeometry {
        x: scaled_coordinate(g.x as int, per_mille) as i64,
        y: scaled_coordinate(g.y as int, per_mille) as i64,
        width: scaled_length(g.width as int, per_mille) as u64,
        height: scaled_length(g.height as int, per_mille) as u64,
    }
}

/// `value` brought into the range of an `i64`.
pub fn saturate(value: i128) -> (r: i64)
    ensures
        r == clamp_i64(value as int),
{
    if value < -0x8000_0000_0000_0000i128 {
        i64::MIN
    } else if value > 0x7fff_ffff_ffff_ffffi128 {
        i64::MAX
    } else {
        value as i64
    }
}

/// An authored length as the layout uses it.
pub fn clamp_authored(v: i32) -> (r: u32)
    ensures
        r == clamp_length(v as int),
{
    if v < 0 {
        0
    } else {
        v as u32
    }
}

impl ScaleFactor {
    /// One pixel per logical unit.
    pub fn identity() -> (f: ScaleFactor)
        ensures
            f.per_mille == 1000,
    {
        ScaleFactor { per_mille: 1000 }
    }

    pub fn from_per_mille(per_mille: u32) -> (f: ScaleFactor)
        ensures
            f.per_mille == per_mille,
    {
        ScaleFactor { per_mille }
    }

    /// A logical length in pixels.
    pub fn scale_length(&self, length: u32) -> (px: u64)
        ensures
            px == scaled_length(length as int, self.per_mille as int),
    {
        let product: u64 = mul_u32(length, self.per_mille);
        product / 1000
    }

    /// A logical coordinate in pixels.
    pub fn scale_coordinate(&self, v: i64) -> (px: i64)
        ensures
            px == scaled_coordinate(v as int, self.per_mille as int),
    {
        let f: u128 = self.per_mille as u128;
        if v >= 0 {
            let magnitude: u128 = v as u128;
            assert(magnitude * f <= 0x7fff_ffff_ffff_ffff * 0xffff_ffff) by (nonlinear_arith)
                requires
                    magnitude <= 0x7fff_ffff_ffff_ffff,
                    f <= 0xffff_ffff,
            ;
            let q: u128 = (magnitude * f) / 1000;
            saturate(q as i128)
        } else {
            let magnitude: u128 = (-(v as i128)) as u128;
            assert(magnitude * f <= 0x8000_0000_0000_0000 * 0xffff_ffff) by (nonlinear_arith)
                requires
                    magnitude <= 0x8000_0000_0000_0000,
                    f <= 0xffff_ffff,
            ;
            let product: u128 = magnitude * f;
            // The floor of a negative quotient is minus the ceiling of its magnitude.
            let q: u128 = (product + 999) / 1000;
            assert(v * f == -(product as int)) by (nonlinear_arith)
                requires
                    product == magnitude * f,
                    magnitude == -v,
            ;
            assert((v * f) / 1000 == -(q as int));
            saturate(-(q as i128))
        }
    }

    /// A logical box in pixels.
    pub fn scale_geometry(&self, g: Geometry) -> (px: PixelGeometry)
        ensures
            px == scaled_geometry(g, self.per_mille as int),
    {
        PixelGeometry {
            x: self.scale_coordinate(g.x),
            y: self.scale_coordinate(g.y),
            width: self.scale_length(g.width),
            height: self.scale_length(g.height),
        }
    }
}

/// The product of two 32-bit numbers fits in 64 bits.
pub fn mul_u32(a: u32, b: u32) -> (r: u64)
    ensures
        r == a * b,
{
    assert(a * b <= 0xffff_ffff * 0xffff_ffff) by (nonlinear_arith)
        requires
            a <= 0xffff_ffff,
            b <= 0xffff_ffff,
    ;
    (a as u64) * (b as u64)
}

/// Scaling a length by one pixel per unit changes nothing.
pub proof fn lemma_identity_scale_length(length: int)
    ensures
        scaled_length(length, 1000) == length,
{
}

/// Scaling a box by one pixel per unit gives the same position and size.
pub proof fn lemma_identity_scale(g: Geometry)
    ensures
        scaled_geometry(g, 1000).x == g.x,
        scaled_geometry(g, 1000).y == g.y,
        scaled_geometry(g, 1000).width == g.width,
        scaled_geometry(g, 1000).height == g.height,
{
    lemma_identity_scale_length(g.x as int);
    lemma_identity_scale_length(g.y as int);
    lemma_identity_scale_length(g.width as int);
    lemma_identity_scale_length(g.height as int);
}

} // verus!
