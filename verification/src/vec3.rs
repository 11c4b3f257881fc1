//! Three-component fixed-point vectors, used for points, directions and
//! linear-light colors alike.

use vstd::prelude::*;
use crate::fixed::{SCALE, HALF, VMAX, NMAX, MAG2_MAX, tdiv, sqrt_floor, tdiv_i128, isqrt};
use crate::fixed::{lemma_tdiv_abs, lemma_tdiv_neg, lemma_tdiv_quotient_bound, lemma_sqrt_upper};
use crate::rng::RenderRng;

verus! {

/// A point, direction or color: three fixed-point scalars.
#[derive(Clone, Copy, Debug, PartialEq, Eq, Structural)]
pub struct Vec3 {
    pub x: i64,
    pub y: i64,
    pub z: i64,
}

/// A position in space; same representation as any other vector.
pub type Loc3 = Vec3;

/// A linear-light color; same representation as any other vector.
pub type Colour = Vec3;

/// Bound on the components a dot product accepts without overflowing.
pub const DOT_CMAX: i64 = 2_000_000_000_000_000_000;

/// Every component within the supported world volume.
pub open spec fn in_bounds(v: Vec3) -> bool {
    &&& -VMAX <= v.x <= VMAX
    &&& -VMAX <= v.y <= VMAX
    &&& -VMAX <= v.z <= VMAX
}

/// Every component within the range a surface normal can take.
pub open spec fn norm_bounded(v: Vec3) -> bool {
    &&& -NMAX <= v.x <= NMAX
    &&& -NMAX <= v.y <= NMAX
    &&& -NMAX <= v.z <= NMAX
}

/// The unscaled sum of componentwise products.
pub open spec fn dot_raw_spec(a: Vec3, b: Vec3) -> int {
    (a.x as int) * (b.x as int) + (a.y as int) * (b.y as int) + (a.z as int) * (b.z as int)
}

/// The fixed-point dot product.
pub open spec fn dot_spec(a: Vec3, b: Vec3) -> int {
    tdiv(dot_raw_spec(a, b), SCALE as int)
}

/// The fixed-point squared magnitude.
pub open spec fn mag2_spec(v: Vec3) -> int {
    dot_spec(v, v)
}

/// The fixed-point magnitude: `sqrt(m2 / SCALE)` rescaled is `sqrt(m2 * SCALE)`.
pub open spec fn mag_spec(v: Vec3) -> int {
    sqrt_floor(mag2_spec(v) * (SCALE as int))
}

/// One component of the normalized vector: `c * SCALE / |v|`.
pub open spec fn unit_comp_spec(c: int, m: int) -> int {
    tdiv(c * (SCALE as int), m)
}

/// Two scalars within a common bound multiply to within the squared bound.
pub proof fn lemma_products_bounded(p: int, q: int, m: int)
    requires
        0 <= m,
        -m <= p <= m,
        -m <= q <= m,
    ensures
        -(m * m) <= p * q <= m * m,
{
    assert(-(m * m) <= p * q <= m * m) by (nonlinear_arith)
        requires
            0 <= m,
            -m <= p <= m,
            -m <= q <= m,
    ;
}

/// Evaluations of the constant products the bound proofs lean on.
proof fn lemma_const_squares()
    ensures
        (VMAX as int) * (VMAX as int) == 1152921504606846976,
        (DOT_CMAX as int) * (DOT_CMAX as int) == 4000000000000000000000000000000000000,
        (SCALE as int) * (SCALE as int) == 1000000000000,
        MAG2_MAX == 3 * ((VMAX as int) * (VMAX as int)),
{
    assert(1073741824int * 1073741824int == 1152921504606846976int) by (nonlinear_arith);
    assert(2000000000000000000int * 2000000000000000000int
        == 4000000000000000000000000000000000000int) by (nonlinear_arith);
    assert(1000000int * 1000000int == 1000000000000int) by (nonlinear_arith);
    assert(VMAX == 1073741824i64);
    assert(DOT_CMAX == 2000000000000000000i64);
    assert(SCALE == 1000000i64);
}

impl Vec3 {
    /// Build a vector from its raw fixed-point components.
    pub fn new(x: i64, y: i64, z: i64) -> (r: Vec3)
        ensures
            r.x == x && r.y == y && r.z == z,
    {
        Vec3 { x, y, z }
    }

    /// The zero vector (also black, as a color).
    pub fn zero() -> (r: Vec3)
        ensures
            r.x == 0 && r.y == 0 && r.z == 0,
    {
        Vec3 { x: 0, y: 0, z: 0 }
    }

    /// The all-ones vector (white, as a color).
    pub fn ones() -> (r: Vec3)
        ensures
            r.x == SCALE && r.y == SCALE && r.z == SCALE,
    {
        Vec3 { x: SCALE, y: SCALE, z: SCALE }
    }

    /// Componentwise sum.
    pub fn add(self, rhs: Vec3) -> (r: Vec3)
        requires
            i64::MIN <= self.x + rhs.x <= i64::MAX,
            i64::MIN <= self.y + rhs.y <= i64::MAX,
            i64::MIN <= self.z + rhs.z <= i64::MAX,
        ensures
            r.x == self.x + rhs.x,
            r.y == self.y + rhs.y,
            r.z == self.z + rhs.z,
    {
        Vec3 { x: self.x + rhs.x, y: self.y + rhs.y, z: self.z + rhs.z }
    }

    /// Componentwise difference.
    pub fn sub(self, rhs: Vec3) -> (r: Vec3)
        requires
            i64::MIN <= self.x - rhs.x <= i64::MAX,
            i64::MIN <= self.y - rhs.y <= i64::MAX,
            i64::MIN <= self.z - rhs.z <= i64::MAX,
        ensures
            r.x == self.x - rhs.x,
            r.y == self.y - rhs.y,
            r.z == self.z - rhs.z,
    {
        Vec3 { x: self.x - rhs.x, y: self.y - rhs.y, z: self.z - rhs.z }
    }

    /// Componentwise negation.
    pub fn neg(self) -> (r: Vec3)
        requires
            self.x != i64::MIN,
            self.y != i64::MIN,
            self.z != i64::MIN,
        ensures
            r.x == -self.x,
            r.y == -self.y,
            r.z == -self.z,
    {
        Vec3 { x: -self.x, y: -self.y, z: -self.z }
    }

    /// Hadamard (componentwise) product, used for tinting color by color.
    pub fn mul(self, rhs: Vec3) -> (r: Vec3)
        requires
            -(i64::MAX as int) <= (self.x as int) * (rhs.x as int) <= i64::MAX as int,
            -(i64::MAX as int) <= (self.y as int) * (rhs.y as int) <= i64::MAX as int,
            -(i64::MAX as int) <= (self.z as int) * (rhs.z as int) <= i64::MAX as int,
        ensures
            r.x == tdiv((self.x as int) * (rhs.x as int), SCALE as int),
            r.y == tdiv((self.y as int) * (rhs.y as int), SCALE as int),
            r.z == tdiv((self.z as int) * (rhs.z as int), SCALE as int),
    {
        Vec3 {
            x: crate::fixed::fx_mul(self.x, rhs.x),
            y: crate::fixed::fx_mul(self.y, rhs.y),
            z: crate::fixed::fx_mul(self.z, rhs.z),
        }
    }

    /// Scalar product.
    pub fn scale(self, s: i64) -> (r: Vec3)
        requires
            -(i64::MAX as int) <= (self.x as int) * (s as int) <= i64::MAX as int,
            -(i64::MAX as int) <= (self.y as int) * (s as int) <= i64::MAX as int,
            -(i64::MAX as int) <= (self.z as int) * (s as int) <= i64::MAX as int,
        ensures
            r.x == tdiv((self.x as int) * (s as int), SCALE as int),
            r.y == tdiv((self.y as int) * (s as int), SCALE as int),
            r.z == tdiv((self.z as int) * (s as int), SCALE as int),
    {
        Vec3 {
            x: crate::fixed::fx_mul(self.x, s),
            y: crate::fixed::fx_mul(self.y, s),
            z: crate::fixed::fx_mul(self.z, s),
        }
    }

    /// Fixed-point dot product.
    pub fn dot(a: Vec3, b: Vec3) -> (r: i64)
        requires
            -DOT_CMAX <= a.x <= DOT_CMAX,
            -DOT_CMAX <= a.y <= DOT_CMAX,
            -DOT_CMAX <= a.z <= DOT_CMAX,
            -DOT_CMAX <= b.x <= DOT_CMAX,
            -DOT_CMAX <= b.y <= DOT_CMAX,
            -DOT_CMAX <= b.z <= DOT_CMAX,
            -(i64::MAX as int) <= dot_spec(a, b) <= i64::MAX as int,
        ensures
            r == dot_spec(a, b),
    {
        proof {
            lemma_const_squares();
            lemma_products_bounded(a.x as int, b.x as int, DOT_CMAX as int);
            lemma_products_bounded(a.y as int, b.y as int, DOT_CMAX as int);
            lemma_products_bounded(a.z as int, b.z as int, DOT_CMAX as int);
        }
        let px: i128 = (a.x as i128) * (b.x as i128);
        let py: i128 = (a.y as i128) * (b.y as i128);
        let pz: i128 = (a.z as i128) * (b.z as i128);
        let s: i128 = px + py + pz;
        let q: i128 = tdiv_i128(s, SCALE as i128);
        q as i64
    }

    /// Cross product.
    pub fn cross(a: Vec3, b: Vec3) -> (r: Vec3)
        requires
            in_bounds(a),
            in_bounds(b),
        ensures
            r.x == tdiv((a.y as int) * (b.z as int), SCALE as int) - tdiv(
                (a.z as int) * (b.y as int),
                SCALE as int,
            ),
            r.y == tdiv((a.z as int) * (b.x as int), SCALE as int) - tdiv(
                (a.x as int) * (b.z as int),
                SCALE as int,
            ),
            r.z == tdiv((a.x as int) * (b.y as int), SCALE as int) - tdiv(
                (a.y as int) * (b.x as int),
                SCALE as int,
            ),
    {
        proof {
            lemma_const_squares();
            lemma_products_bounded(a.y as int, b.z as int, VMAX as int);
            lemma_products_bounded(a.z as int, b.y as int, VMAX as int);
            lemma_products_bounded(a.z as int, b.x as int, VMAX as int);
            lemma_products_bounded(a.x as int, b.z as int, VMAX as int);
            lemma_products_bounded(a.x as int, b.y as int, VMAX as int);
            lemma_products_bounded(a.y as int, b.x as int, VMAX as int);
            lemma_tdiv_abs((a.y as int) * (b.z as int), SCALE as int, 1152921504606846976);
            lemma_tdiv_abs((a.z as int) * (b.y as int), SCALE as int, 1152921504606846976);
            lemma_tdiv_abs((a.z as int) * (b.x as int), SCALE as int, 1152921504606846976);
            lemma_tdiv_abs((a.x as int) * (b.z as int), SCALE as int, 1152921504606846976);
            lemma_tdiv_abs((a.x as int) * (b.y as int), SCALE as int, 1152921504606846976);
            lemma_tdiv_abs((a.y as int) * (b.x as int), SCALE as int, 1152921504606846976);
        }
        let xx: i64 = crate::fixed::fx_mul(a.y, b.z) - crate::fixed::fx_mul(a.z, b.y);
        let yy: i64 = crate::fixed::fx_mul(a.z, b.x) - crate::fixed::fx_mul(a.x, b.z);
        let zz: i64 = crate::fixed::fx_mul(a.x, b.y) - crate::fixed::fx_mul(a.y, b.x);
        Vec3 { x: xx, y: yy, z: zz }
    }

    /// Fixed-point squared magnitude.
    pub fn magnitude_squared(&self) -> (r: i64)
        requires
            in_bounds(*self),
        ensures
            r == mag2_spec(*self),
            0 <= r <= MAG2_MAX,
    {
        proof {
            lemma_mag2_bounds(*self);
        }
        Vec3::dot(*self, *self)
    }

    /// Fixed-point magnitude: the floor square root of the rescaled
    /// squared magnitude.
    pub fn magnitude(&self) -> (r: i64)
        requires
            in_bounds(*self),
        ensures
            r == mag_spec(*self),
            r >= 0,
    {
        let m2: i64 = self.magnitude_squared();
        proof {
            lemma_rescale_fits(m2 as int);
        }
        let m: u64 = isqrt((m2 as u128) * (SCALE as u128));
        proof {
            assert(2000000000000int * 2000000000000int == 4000000000000000000000000int)
                by (nonlinear_arith);
            lemma_sqrt_upper(m as int, (m2 as int) * (SCALE as int), 2000000000000);
        }
        m as i64
    }

    /// Normalize to (approximately) unit length.
    ///
    /// A vector of zero fixed-point squared magnitude has no defined
    /// direction; such inputs are left to the caller, as the quotient
    /// would be meaningless.
    pub fn normalise(&self) -> (r: Vec3)
        requires
            in_bounds(*self),
            mag2_spec(*self) >= 1,
        ensures
            r.x == unit_comp_spec(self.x as int, mag_spec(*self)),
            r.y == unit_comp_spec(self.y as int, mag_spec(*self)),
            r.z == unit_comp_spec(self.z as int, mag_spec(*self)),
            mag_spec(*self) >= 1000,
    {
        let m2: i64 = self.magnitude_squared();
        proof {
            lemma_rescale_fits(m2 as int);
        }
        let m: u64 = isqrt((m2 as u128) * (SCALE as u128));
        proof {
            if m < 1000 {
                assert((m as int + 1) * (m as int + 1) <= 1000000) by (nonlinear_arith)
                    requires
                        0 <= m as int + 1 <= 1000,
                ;
                assert(false);
            }
            lemma_comp_rescale_fits(self.x as int);
            lemma_comp_rescale_fits(self.y as int);
            lemma_comp_rescale_fits(self.z as int);
        }
        let mx: i128 = tdiv_i128((self.x as i128) * (SCALE as i128), m as i128);
        let my: i128 = tdiv_i128((self.y as i128) * (SCALE as i128), m as i128);
        let mz: i128 = tdiv_i128((self.z as i128) * (SCALE as i128), m as i128);
        Vec3 { x: mx as i64, y: my as i64, z: mz as i64 }
    }
}

/// Squares are non-negative, so the raw dot product of a vector with
/// itself lies within three squared component bounds.
proof fn lemma_mag2_bounds(v: Vec3)
    requires
        in_bounds(v),
    ensures
        0 <= dot_raw_spec(v, v) <= MAG2_MAX,
        0 <= mag2_spec(v) <= MAG2_MAX,
{
    lemma_const_squares();
    assert(0 <= (v.x as int) * (v.x as int) <= (VMAX as int) * (VMAX as int)) by (nonlinear_arith)
        requires
            0 <= VMAX,
            -VMAX <= v.x <= VMAX,
    ;
    assert(0 <= (v.y as int) * (v.y as int) <= (VMAX as int) * (VMAX as int)) by (nonlinear_arith)
        requires
            0 <= VMAX,
            -VMAX <= v.y <= VMAX,
    ;
    assert(0 <= (v.z as int) * (v.z as int) <= (VMAX as int) * (VMAX as int)) by (nonlinear_arith)
        requires
            0 <= VMAX,
            -VMAX <= v.z <= VMAX,
    ;
    lemma_tdiv_abs(dot_raw_spec(v, v), SCALE as int, MAG2_MAX as int);
}

/// A squared magnitude rescaled by `SCALE` stays below the square-root cap.
proof fn lemma_rescale_fits(m2: int)
    requires
        0 <= m2 <= MAG2_MAX,
    ensures
        0 <= m2 * (SCALE as int) <= 3458764513820540928000000,
        m2 * (SCALE as int) < (1u128 << 126) as int,
{
    assert(0 <= m2 * 1000000 <= 3458764513820540928000000int) by (nonlinear_arith)
        requires
            0 <= m2 <= 3458764513820540928,
    ;
    assert(MAG2_MAX == 3458764513820540928i64);
    assert(SCALE == 1000000i64);
    assert((1u128 << 126) == 85070591730234615865843651857942052864u128) by (bit_vector);
}

/// A component rescaled by `SCALE` stays well within `i64`.
proof fn lemma_comp_rescale_fits(c: int)
    requires
        -(VMAX as int) <= c <= VMAX as int,
    ensures
        -1073741824000000 <= c * (SCALE as int) <= 1073741824000000,
{
    assert(-1073741824000000 <= c * 1000000 <= 1073741824000000int) by (nonlinear_arith)
        requires
            -1073741824 <= c <= 1073741824,
    ;
    assert(VMAX == 1073741824i64);
    assert(SCALE == 1000000i64);
}

/// One draw of the approximately normal scalar used for sphere sampling:
/// `(1.5 - (u1 + u2 + u3)) * 1.88` over three independent uniforms in `[0, 1)`.
pub fn get_normal_dist_random(rng: &mut RenderRng) -> (r: i64)
    ensures
        -2820000 <= r <= 2820000,
{
    let a: i64 = rng.uniform_unit();
    let b: i64 = rng.uniform_unit();
    let c: i64 = rng.uniform_unit();
    let centered: i64 = SCALE + HALF - (a + b + c);
    proof {
        assert(2820000int * 1000000int == 2820000000000int) by (nonlinear_arith);
        assert(SCALE == 1000000i64);
        lemma_tdiv_quotient_bound((centered as int) * 1880000, SCALE as int, 2820000);
    }
    crate::fixed::fx_mul(centered, 1880000)
}

impl Vec3 {
    /// A stochastic direction approximately uniform on the unit sphere:
    /// three approximately normal draws, normalized. The rare draw whose
    /// fixed-point magnitude vanishes (or whose normalization rounds far
    /// from unit length) falls back to a fixed unit axis, so that every
    /// result is usable as a shading direction.
    pub fn random_on_unit_sphere(rng: &mut RenderRng) -> (r: Vec3)
        ensures
            -2 * (SCALE as int) <= r.x <= 2 * (SCALE as int),
            -2 * (SCALE as int) <= r.y <= 2 * (SCALE as int),
            -2 * (SCALE as int) <= r.z <= 2 * (SCALE as int),
            mag2_spec(r) >= 1,
    {
        let v = Vec3::new(
            get_normal_dist_random(rng),
            get_normal_dist_random(rng),
            get_normal_dist_random(rng),
        );
        let m2: i64 = v.magnitude_squared();
        if m2 >= 1 {
            let u = v.normalise();
            let two_units: i64 = 2 * SCALE;
            if -two_units <= u.x && u.x <= two_units && -two_units <= u.y && u.y <= two_units
                && -two_units <= u.z && u.z <= two_units {
                let um2: i64 = u.magnitude_squared();
                if um2 >= 1 {
                    return u;
                }
            }
        }
        let up = Vec3::new(0, SCALE, 0);
        proof {
            lemma_up_unit(up);
        }
        up
    }

    /// A stochastic direction on the hemisphere around `normal`: a unit
    /// sphere sample, flipped when it points against the normal.
    pub fn random_on_unit_hemisphere(rng: &mut RenderRng, normal: Vec3) -> (r: Vec3)
        requires
            norm_bounded(normal),
        ensures
            -2 * (SCALE as int) <= r.x <= 2 * (SCALE as int),
            -2 * (SCALE as int) <= r.y <= 2 * (SCALE as int),
            -2 * (SCALE as int) <= r.z <= 2 * (SCALE as int),
            mag2_spec(r) >= 1,
            dot_spec(r, normal) >= 0,
    {
        let v = Vec3::random_on_unit_sphere(rng);
        proof {
            lemma_hemisphere_dot_fits(v, normal);
        }
        let d: i64 = Vec3::dot(v, normal);
        if d > 0 {
            v
        } else {
            let w = v.neg();
            proof {
                lemma_neg_preserves(v, normal);
                assert(w == Vec3 {
                    x: (-(v.x as int)) as i64,
                    y: (-(v.y as int)) as i64,
                    z: (-(v.z as int)) as i64,
                });
                lemma_tdiv_neg(dot_raw_spec(v, normal), SCALE as int);
                lemma_tdiv_neg(dot_raw_spec(v, v), SCALE as int);
            }
            w
        }
    }
}

/// The fixed unit axis used as a fallback sample has unit squared magnitude.
proof fn lemma_up_unit(up: Vec3)
    requires
        up.x == 0,
        up.y == SCALE,
        up.z == 0,
    ensures
        mag2_spec(up) >= 1,
{
    lemma_const_squares();
    assert(dot_raw_spec(up, up) == 1000000000000);
    assert(SCALE == 1000000i64);
    assert(tdiv(1000000000000, 1000000) == 1000000);
}

/// A sphere sample against a bounded normal: the rescaled dot product
/// stays within range.
proof fn lemma_hemisphere_dot_fits(v: Vec3, n: Vec3)
    requires
        -2 * (SCALE as int) <= v.x <= 2 * (SCALE as int),
        -2 * (SCALE as int) <= v.y <= 2 * (SCALE as int),
        -2 * (SCALE as int) <= v.z <= 2 * (SCALE as int),
        norm_bounded(n),
    ensures
        -(i64::MAX as int) <= dot_spec(v, n) <= i64::MAX as int,
        -DOT_CMAX <= v.x <= DOT_CMAX,
        -DOT_CMAX <= v.y <= DOT_CMAX,
        -DOT_CMAX <= v.z <= DOT_CMAX,
        -DOT_CMAX <= n.x <= DOT_CMAX,
        -DOT_CMAX <= n.y <= DOT_CMAX,
        -DOT_CMAX <= n.z <= DOT_CMAX,
{
    assert(NMAX == 2251799813685248i64);
    assert(SCALE == 1000000i64);
    assert(-4503599627370496000000 <= (v.x as int) * (n.x as int) <= 4503599627370496000000int)
        by (nonlinear_arith)
        requires
            -2000000 <= v.x <= 2000000,
            -2251799813685248 <= n.x <= 2251799813685248,
    ;
    assert(-4503599627370496000000 <= (v.y as int) * (n.y as int) <= 4503599627370496000000int)
        by (nonlinear_arith)
        requires
            -2000000 <= v.y <= 2000000,
            -2251799813685248 <= n.y <= 2251799813685248,
    ;
    assert(-4503599627370496000000 <= (v.z as int) * (n.z as int) <= 4503599627370496000000int)
        by (nonlinear_arith)
        requires
            -2000000 <= v.z <= 2000000,
            -2251799813685248 <= n.z <= 2251799813685248,
    ;
    assert(13510798882111488int * 1000000int == 13510798882111488000000int) by (nonlinear_arith);
    lemma_tdiv_quotient_bound(dot_raw_spec(v, n), SCALE as int, 13510798882111488);
}

/// Negation flips the raw dot product's sign and keeps the squared magnitude.
proof fn lemma_neg_preserves(v: Vec3, n: Vec3)
    requires
        v.x != i64::MIN,
        v.y != i64::MIN,
        v.z != i64::MIN,
    ensures
        ({
            let w = Vec3 { x: (-(v.x as int)) as i64, y: (-(v.y as int)) as i64, z: (-(v.z as int)) as i64 };
            dot_raw_spec(w, n) == -dot_raw_spec(v, n) && dot_raw_spec(w, w) == dot_raw_spec(v, v)
        }),
{
    assert((-(v.x as int)) * (n.x as int) == -((v.x as int) * (n.x as int))) by (nonlinear_arith);
    assert((-(v.y as int)) * (n.y as int) == -((v.y as int) * (n.y as int))) by (nonlinear_arith);
    assert((-(v.z as int)) * (n.z as int) == -((v.z as int) * (n.z as int))) by (nonlinear_arith);
    assert((-(v.x as int)) * (-(v.x as int)) == (v.x as int) * (v.x as int)) by (nonlinear_arith);
    assert((-(v.y as int)) * (-(v.y as int)) == (v.y as int) * (v.y as int)) by (nonlinear_arith);
    assert((-(v.z as int)) * (-(v.z as int)) == (v.z as int) * (v.z as int)) by (nonlinear_arith);
}

} // verus!
