//! Scene objects: intersection records, distance intervals, spheres and
//! the scene-level nearest-hit scan.

use vstd::prelude::*;
use crate::fixed::{SCALE, VMAX, NMAX, tdiv, sqrt_floor, tdiv_i128, isqrt, fx_div};
use crate::fixed::{lemma_tdiv_abs, lemma_tdiv_quotient_bound, lemma_sqrt_upper};
use crate::vec3::lemma_products_bounded;
use crate::vec3::{Vec3, Loc3, in_bounds, norm_bounded, dot_spec, dot_raw_spec};
use crate::ray::{Ray, at_comp_spec};

verus! {

/// A successful intersection: where, how far along the ray, the unit-ish
/// normal already flipped to oppose the ray, and which side was struck.
#[derive(Clone, Copy, Debug, PartialEq, Eq, Structural)]
pub struct Hit {
    pub loc: Loc3,
    pub distance: i64,
    pub normal: Vec3,
    pub front_face: bool,
}

/// The half-open band of acceptable hit distances `[lo, hi)`.
#[derive(Clone, Copy, Debug, PartialEq, Eq, Structural)]
pub struct Interval {
    pub lo: i64,
    pub hi: i64,
}

/// Membership in the half-open band.
pub open spec fn contains_spec(itv: Interval, t: int) -> bool {
    itv.lo as int <= t < itv.hi as int
}

impl Interval {
    /// Every representable forward distance: `[0, i64::MAX)`.
    pub fn all_forward() -> (r: Interval)
        ensures
            r.lo == 0,
            r.hi == i64::MAX,
    {
        Interval { lo: 0, hi: i64::MAX }
    }

    /// Whether `t` lies in the band.
    pub fn contains(&self, t: i64) -> (r: bool)
        ensures
            r == contains_spec(*self, t as int),
    {
        self.lo <= t && t < self.hi
    }
}

/// The front-face convention: a hit is front-facing when the ray
/// direction opposes the outward normal.
pub open spec fn front_face_spec(dir: Vec3, outward: Vec3) -> bool {
    dot_spec(dir, outward) < 0
}

impl Hit {
    /// Store the face flag and flip the normal so it always opposes the
    /// incoming ray.
    pub fn correct_face_normal(&mut self, ray: Ray, outward_normal: Vec3)
        requires
            in_bounds(ray.dir),
            norm_bounded(outward_normal),
        ensures
            final(self).front_face == front_face_spec(ray.dir, outward_normal),
            final(self).normal == if front_face_spec(ray.dir, outward_normal) {
                outward_normal
            } else {
                Vec3 {
                    x: (-(outward_normal.x as int)) as i64,
                    y: (-(outward_normal.y as int)) as i64,
                    z: (-(outward_normal.z as int)) as i64,
                }
            },
            final(self).loc == old(self).loc,
            final(self).distance == old(self).distance,
    {
        proof {
            lemma_face_dot_fits(ray.dir, outward_normal);
        }
        let d: i64 = Vec3::dot(ray.dir, outward_normal);
        self.front_face = d < 0;
        self.normal = if self.front_face {
            outward_normal
        } else {
            outward_normal.neg()
        };
    }
}

/// An in-bounds direction against a bounded normal: the rescaled dot
/// product fits `i64`.
proof fn lemma_face_dot_fits(v: Vec3, n: Vec3)
    requires
        in_bounds(v),
        norm_bounded(n),
    ensures
        -(i64::MAX as int) <= dot_spec(v, n) <= i64::MAX as int,
        -crate::vec3::DOT_CMAX <= v.x <= crate::vec3::DOT_CMAX,
        -crate::vec3::DOT_CMAX <= v.y <= crate::vec3::DOT_CMAX,
        -crate::vec3::DOT_CMAX <= v.z <= crate::vec3::DOT_CMAX,
        -crate::vec3::DOT_CMAX <= n.x <= crate::vec3::DOT_CMAX,
        -crate::vec3::DOT_CMAX <= n.y <= crate::vec3::DOT_CMAX,
        -crate::vec3::DOT_CMAX <= n.z <= crate::vec3::DOT_CMAX,
{
    assert(NMAX == 2251799813685248i64);
    assert(VMAX == 1073741824i64);
    assert(SCALE == 1000000i64);
    assert(-2418925581262485504000000 <= (v.x as int) * (n.x as int)
        <= 2418925581262485504000000int) by (nonlinear_arith)
        requires
            -1073741824 <= v.x <= 1073741824,
            -2251799813685248 <= n.x <= 2251799813685248,
    ;
    assert(-2418925581262485504000000 <= (v.y as int) * (n.y as int)
        <= 2418925581262485504000000int) by (nonlinear_arith)
        requires
            -1073741824 <= v.y <= 1073741824,
            -2251799813685248 <= n.y <= 2251799813685248,
    ;
    assert(-2418925581262485504000000 <= (v.z as int) * (n.z as int)
        <= 2418925581262485504000000int) by (nonlinear_arith)
        requires
            -1073741824 <= v.z <= 1073741824,
            -2251799813685248 <= n.z <= 2251799813685248,
    ;
    assert(7256776743787456512int * 1000000int == 7256776743787456512000000int)
        by (nonlinear_arith);
    lemma_tdiv_quotient_bound(dot_raw_spec(v, n), SCALE as int, 7256776743787456512);
}

/// A sphere: a center and a radius.
#[derive(Clone, Copy, Debug, PartialEq, Eq, Structural)]
pub struct Sphere {
    pub loc: Loc3,
    pub radius: i64,
}

impl Sphere {
    /// A well-formed sphere sits in the world volume with a positive radius.
    pub open spec fn wf(self) -> bool {
        &&& in_bounds(self.loc)
        &&& 1 <= self.radius <= VMAX
    }

    /// Build a sphere from center and radius.
    pub fn new(loc: Loc3, radius: i64) -> (r: Sphere)
        ensures
            r.loc == loc,
            r.radius == radius,
    {
        Sphere { loc, radius }
    }
}

/// `|dir|^2`, unscaled: the quadratic's leading coefficient.
pub open spec fn quad_a(ray: Ray) -> int {
    dot_raw_spec(ray.dir, ray.dir)
}

/// `dir . (loc - center)`, unscaled: half the quadratic's middle coefficient.
pub open spec fn quad_half_b(s: Sphere, ray: Ray) -> int {
    (ray.dir.x as int) * (ray.loc.x - s.loc.x) + (ray.dir.y as int) * (ray.loc.y - s.loc.y) + (
    ray.dir.z as int) * (ray.loc.z - s.loc.z)
}

/// `|loc - center|^2 - r^2`, unscaled: the quadratic's constant coefficient.
pub open spec fn quad_c(s: Sphere, ray: Ray) -> int {
    (ray.loc.x - s.loc.x) * (ray.loc.x - s.loc.x) + (ray.loc.y - s.loc.y) * (ray.loc.y - s.loc.y)
        + (ray.loc.z - s.loc.z) * (ray.loc.z - s.loc.z) - (s.radius as int) * (s.radius as int)
}

/// The discriminant `half_b^2 - a * c` of the intersection quadratic.
pub open spec fn quad_disc(s: Sphere, ray: Ray) -> int {
    quad_half_b(s, ray) * quad_half_b(s, ray) - quad_a(ray) * quad_c(s, ray)
}

/// The nearer root `(-half_b - sqrt(disc)) / a`, in fixed point.
pub open spec fn root_near_spec(s: Sphere, ray: Ray) -> int {
    tdiv((-quad_half_b(s, ray) - sqrt_floor(quad_disc(s, ray))) * (SCALE as int), quad_a(ray))
}

/// The farther root `(-half_b + sqrt(disc)) / a`, in fixed point.
///
/// The whole numerator `-half_b + sqrt(disc)` is divided by the leading
/// coefficient, by the same full division as the nearer root: falling
/// back to this root never re-derives it by a shortcut that would divide
/// only the square-root term.
pub open spec fn root_far_spec(s: Sphere, ray: Ray) -> int {
    tdiv((-quad_half_b(s, ray) + sqrt_floor(quad_disc(s, ray))) * (SCALE as int), quad_a(ray))
}

/// The root the intersection reports: the nearer one when acceptable,
/// else the farther one when acceptable, else nothing.
pub open spec fn chosen_root_spec(s: Sphere, ray: Ray, itv: Interval) -> Option<int> {
    if quad_disc(s, ray) <= 0 || quad_a(ray) <= 0 {
        None
    } else if contains_spec(itv, root_near_spec(s, ray)) {
        Some(root_near_spec(s, ray))
    } else if contains_spec(itv, root_far_spec(s, ray)) {
        Some(root_far_spec(s, ray))
    } else {
        None
    }
}

/// Whether the hit point stays inside the supported world volume; a hit
/// whose point leaves it is not reported, so every reported hit can seed
/// a further bounce.
pub open spec fn point_ok_spec(s: Sphere, ray: Ray, t: int) -> bool {
    &&& -VMAX <= at_comp_spec(ray.loc.x as int, ray.dir.x as int, t) <= VMAX
    &&& -VMAX <= at_comp_spec(ray.loc.y as int, ray.dir.y as int, t) <= VMAX
    &&& -VMAX <= at_comp_spec(ray.loc.z as int, ray.dir.z as int, t) <= VMAX
}

/// One component of the outward unit normal `(point - center) / radius`.
pub open spec fn outward_comp_spec(p: int, c: int, r: int) -> int {
    tdiv((p - c) * (SCALE as int), r)
}

/// The outward normal at the hit point of root `t`.
pub open spec fn outward_normal_spec(s: Sphere, ray: Ray, t: int) -> Vec3 {
    Vec3 {
        x: outward_comp_spec(at_comp_spec(ray.loc.x as int, ray.dir.x as int, t), s.loc.x as int, s.radius as int) as i64,
        y: outward_comp_spec(at_comp_spec(ray.loc.y as int, ray.dir.y as int, t), s.loc.y as int, s.radius as int) as i64,
        z: outward_comp_spec(at_comp_spec(ray.loc.z as int, ray.dir.z as int, t), s.loc.z as int, s.radius as int) as i64,
    }
}

/// What `Sphere::hit_test` returns, in full.
pub open spec fn sphere_hit_spec(s: Sphere, ray: Ray, itv: Interval) -> Option<Hit> {
    match chosen_root_spec(s, ray, itv) {
        None => None,
        Some(t) => if !point_ok_spec(s, ray, t) {
            None
        } else {
            let outward = outward_normal_spec(s, ray, t);
            let ff = front_face_spec(ray.dir, outward);
            Some(
                Hit {
                    loc: Vec3 {
                        x: at_comp_spec(ray.loc.x as int, ray.dir.x as int, t) as i64,
                        y: at_comp_spec(ray.loc.y as int, ray.dir.y as int, t) as i64,
                        z: at_comp_spec(ray.loc.z as int, ray.dir.z as int, t) as i64,
                    },
                    distance: t as i64,
                    normal: if ff {
                        outward
                    } else {
                        Vec3 {
                            x: (-(outward.x as int)) as i64,
                            y: (-(outward.y as int)) as i64,
                            z: (-(outward.z as int)) as i64,
                        }
                    },
                    front_face: ff,
                },
            )
        },
    }
}

/// Bounds on the quadratic's coefficients for well-formed geometry:
/// every intermediate of the intersection computation fits `i128`.
proof fn lemma_quad_bounds(s: Sphere, ray: Ray)
    requires
        s.wf(),
        in_bounds(ray.loc),
        in_bounds(ray.dir),
    ensures
        0 <= (ray.dir.x as int) * (ray.dir.x as int) <= 1152921504606846976,
        0 <= (ray.dir.y as int) * (ray.dir.y as int) <= 1152921504606846976,
        0 <= (ray.dir.z as int) * (ray.dir.z as int) <= 1152921504606846976,
        -2305843009213693952 <= (ray.dir.x as int) * (ray.loc.x - s.loc.x) <= 2305843009213693952,
        -2305843009213693952 <= (ray.dir.y as int) * (ray.loc.y - s.loc.y) <= 2305843009213693952,
        -2305843009213693952 <= (ray.dir.z as int) * (ray.loc.z - s.loc.z) <= 2305843009213693952,
        0 <= (ray.loc.x - s.loc.x) * (ray.loc.x - s.loc.x) <= 4611686018427387904,
        0 <= (ray.loc.y - s.loc.y) * (ray.loc.y - s.loc.y) <= 4611686018427387904,
        0 <= (ray.loc.z - s.loc.z) * (ray.loc.z - s.loc.z) <= 4611686018427387904,
        0 <= (s.radius as int) * (s.radius as int) <= 1152921504606846976,
        0 <= quad_a(ray) <= 3458764513820540928,
        -6917529027641081856 <= quad_half_b(s, ray) <= 6917529027641081856,
        -1152921504606846976 <= quad_c(s, ray) <= 13835058055282163712,
        0 <= quad_half_b(s, ray) * quad_half_b(s, ray)
            <= 47852207848256971424537054170092404736,
        -3987683987354747618711421180841033728 <= quad_a(ray) * quad_c(s, ray)
            <= 47852207848256971424537054170092404736,
        -47852207848256971424537054170092404736 <= quad_disc(s, ray)
            <= 51839891835611719043248475350933438464,
{
    assert(VMAX == 1073741824i64);
    let dx = ray.dir.x as int;
    let dy = ray.dir.y as int;
    let dz = ray.dir.z as int;
    let ox = ray.loc.x - s.loc.x;
    let oy = ray.loc.y - s.loc.y;
    let oz = ray.loc.z - s.loc.z;
    assert(0 <= dx * dx <= 1152921504606846976 && 0 <= dy * dy <= 1152921504606846976 && 0 <= dz
        * dz <= 1152921504606846976) by (nonlinear_arith)
        requires
            -1073741824 <= dx <= 1073741824,
            -1073741824 <= dy <= 1073741824,
            -1073741824 <= dz <= 1073741824,
    ;
    assert(-2305843009213693952 <= dx * ox <= 2305843009213693952 && -2305843009213693952 <= dy
        * oy <= 2305843009213693952 && -2305843009213693952 <= dz * oz <= 2305843009213693952)
        by (nonlinear_arith)
        requires
            -1073741824 <= dx <= 1073741824,
            -1073741824 <= dy <= 1073741824,
            -1073741824 <= dz <= 1073741824,
            -2147483648 <= ox <= 2147483648,
            -2147483648 <= oy <= 2147483648,
            -2147483648 <= oz <= 2147483648,
    ;
    assert(0 <= ox * ox <= 4611686018427387904 && 0 <= oy * oy <= 4611686018427387904 && 0 <= oz
        * oz <= 4611686018427387904) by (nonlinear_arith)
        requires
            -2147483648 <= ox <= 2147483648,
            -2147483648 <= oy <= 2147483648,
            -2147483648 <= oz <= 2147483648,
    ;
    assert(0 <= (s.radius as int) * (s.radius as int) <= 1152921504606846976) by (nonlinear_arith)
        requires
            1 <= s.radius <= 1073741824,
    ;
    let hb = quad_half_b(s, ray);
    let a = quad_a(ray);
    let c = quad_c(s, ray);
    assert(0 <= hb * hb <= 47852207848256971424537054170092404736int) by (nonlinear_arith)
        requires
            -6917529027641081856 <= hb <= 6917529027641081856,
    ;
    if c >= 0 {
        assert(0 <= a * c <= 47852207848256971424537054170092404736int) by (nonlinear_arith)
            requires
                0 <= a <= 3458764513820540928,
                0 <= c <= 13835058055282163712,
        ;
    } else {
        vstd::arithmetic::mul::lemma_mul_upper_bound(a, 3458764513820540928, -c, 1152921504606846976);
        assert(3458764513820540928int * 1152921504606846976int
            == 3987683987354747618711421180841033728int) by (nonlinear_arith);
        assert(a * (-c) == -(a * c)) by (nonlinear_arith);
        assert(0 <= a * (-c)) by (nonlinear_arith)
            requires
                0 <= a,
                0 <= -c,
        ;
    }
}

/// The square root of the discriminant and the root numerators fit the
/// machine arithmetic.
proof fn lemma_root_bounds(s: Sphere, ray: Ray)
    requires
        s.wf(),
        in_bounds(ray.loc),
        in_bounds(ray.dir),
        quad_disc(s, ray) > 0,
    ensures
        quad_disc(s, ray) < (1u128 << 126) as int,
        0 <= sqrt_floor(quad_disc(s, ray)) <= 7300000000000000000,
        ({
            let num_near = -quad_half_b(s, ray) - sqrt_floor(quad_disc(s, ray));
            let num_far = -quad_half_b(s, ray) + sqrt_floor(quad_disc(s, ray));
            &&& -15000000000000000000 <= num_near <= 15000000000000000000
            &&& -15000000000000000000 <= num_far <= 15000000000000000000
        }),
{
    lemma_quad_bounds(s, ray);
    assert((1u128 << 126) == 85070591730234615865843651857942052864u128) by (bit_vector);
    let disc = quad_disc(s, ray);
    let sd = sqrt_floor(disc);
    assert(0 <= sd && sd * sd <= disc && disc < (sd + 1) * (sd + 1)) by {
        crate::fixed::lemma_sqrt_floor_exists(disc);
    }
    assert(7300000000000000000int * 7300000000000000000int
        == 53290000000000000000000000000000000000int) by (nonlinear_arith);
    lemma_sqrt_upper(sd, disc, 7300000000000000000);
}

impl Sphere {
    /// Intersection test: report the nearest acceptable root of the
    /// ray/sphere quadratic, or nothing.
    pub fn hit_test(&self, ray: Ray, acceptable: Interval) -> (r: Option<Hit>)
        requires
            self.wf(),
            in_bounds(ray.loc),
            in_bounds(ray.dir),
        ensures
            r == sphere_hit_spec(*self, ray, acceptable),
    {
        proof {
            lemma_quad_bounds(*self, ray);
        }
        let ocx: i64 = ray.loc.x - self.loc.x;
        let ocy: i64 = ray.loc.y - self.loc.y;
        let ocz: i64 = ray.loc.z - self.loc.z;
        let a: i128 = (ray.dir.x as i128) * (ray.dir.x as i128) + (ray.dir.y as i128) * (
        ray.dir.y as i128) + (ray.dir.z as i128) * (ray.dir.z as i128);
        let half_b: i128 = (ray.dir.x as i128) * (ocx as i128) + (ray.dir.y as i128) * (
        ocy as i128) + (ray.dir.z as i128) * (ocz as i128);
        let c: i128 = (ocx as i128) * (ocx as i128) + (ocy as i128) * (ocy as i128) + (
        ocz as i128) * (ocz as i128) - (self.radius as i128) * (self.radius as i128);
        let discriminant: i128 = half_b * half_b - a * c;
        assert(a == quad_a(ray));
        assert(half_b == quad_half_b(*self, ray));
        assert(c == quad_c(*self, ray));
        assert(discriminant == quad_disc(*self, ray));
        if discriminant > 0 && a > 0 {
            proof {
                lemma_root_bounds(*self, ray);
            }
            let sd: u64 = isqrt(discriminant as u128);
            let num_near: i128 = -half_b - (sd as i128);
            let num_far: i128 = -half_b + (sd as i128);
            proof {
                assert(SCALE == 1000000i64);
                assert(-15000000000000000000000000 <= (num_near as int) * (SCALE as int)
                    <= 15000000000000000000000000int) by (nonlinear_arith)
                    requires
                        -15000000000000000000 <= num_near <= 15000000000000000000,
                        (SCALE as int) == 1000000,
                ;
                assert(-15000000000000000000000000 <= (num_far as int) * (SCALE as int)
                    <= 15000000000000000000000000int) by (nonlinear_arith)
                    requires
                        -15000000000000000000 <= num_far <= 15000000000000000000,
                        (SCALE as int) == 1000000,
                ;
            }
            let t_near: i128 = tdiv_i128(num_near * (SCALE as i128), a);
            let t_far: i128 = tdiv_i128(num_far * (SCALE as i128), a);
            assert(t_near == root_near_spec(*self, ray));
            assert(t_far == root_far_spec(*self, ray));
            let lo: i128 = acceptable.lo as i128;
            let hi: i128 = acceptable.hi as i128;
            let root128: i128 = if lo <= t_near && t_near < hi {
                t_near
            } else if lo <= t_far && t_far < hi {
                t_far
            } else {
                return None;
            };
            assert(chosen_root_spec(*self, ray, acceptable) == Some(root128 as int));
            let root: i64 = root128 as i64;
            proof {
                assert(9223372036854775808int * 9223372036854775808int
                    == 85070591730234615865843651857942052864int) by (nonlinear_arith);
                lemma_products_bounded(ray.dir.x as int, root as int, 9223372036854775808);
                lemma_products_bounded(ray.dir.y as int, root as int, 9223372036854775808);
                lemma_products_bounded(ray.dir.z as int, root as int, 9223372036854775808);
            }
            let px128: i128 = (ray.loc.x as i128) + tdiv_i128(
                (ray.dir.x as i128) * (root as i128),
                SCALE as i128,
            );
            let py128: i128 = (ray.loc.y as i128) + tdiv_i128(
                (ray.dir.y as i128) * (root as i128),
                SCALE as i128,
            );
            let pz128: i128 = (ray.loc.z as i128) + tdiv_i128(
                (ray.dir.z as i128) * (root as i128),
                SCALE as i128,
            );
            let vb: i128 = VMAX as i128;
            if !(-vb <= px128 && px128 <= vb && -vb <= py128 && py128 <= vb && -vb <= pz128
                && pz128 <= vb) {
                assert(!point_ok_spec(*self, ray, root128 as int));
                return None;
            }
            assert(point_ok_spec(*self, ray, root128 as int));
            let point = Vec3::new(px128 as i64, py128 as i64, pz128 as i64);
            proof {
                lemma_outward_fits(point.x as int, self.loc.x as int, self.radius as int);
                lemma_outward_fits(point.y as int, self.loc.y as int, self.radius as int);
                lemma_outward_fits(point.z as int, self.loc.z as int, self.radius as int);
            }
            let normal = Vec3::new(
                fx_div(point.x - self.loc.x, self.radius),
                fx_div(point.y - self.loc.y, self.radius),
                fx_div(point.z - self.loc.z, self.radius),
            );
            assert(normal == outward_normal_spec(*self, ray, root128 as int));
            let mut hit = Hit { loc: point, distance: root, normal, front_face: false };
            proof {
                lemma_outward_norm_bounded(*self, ray, root128 as int);
            }
            hit.correct_face_normal(ray, normal);
            Some(hit)
        } else {
            None
        }
    }
}

/// The outward-normal quotient fits `i64` for in-volume points and
/// well-formed radii.
proof fn lemma_outward_fits(p: int, c: int, r: int)
    requires
        -(VMAX as int) <= p <= VMAX as int,
        -(VMAX as int) <= c <= VMAX as int,
        1 <= r <= VMAX as int,
    ensures
        -2147483648000000 <= (p - c) * (SCALE as int) <= 2147483648000000,
        -2147483648000000 <= tdiv((p - c) * (SCALE as int), r) <= 2147483648000000,
        -(i64::MAX as int) <= tdiv((p - c) * (SCALE as int), r) <= i64::MAX as int,
{
    assert(VMAX == 1073741824i64);
    assert(SCALE == 1000000i64);
    assert(-2147483648000000 <= (p - c) * 1000000 <= 2147483648000000int) by (nonlinear_arith)
        requires
            -2147483648 <= p - c <= 2147483648,
    ;
    lemma_tdiv_abs((p - c) * (SCALE as int), r, 2147483648000000);
}

/// The outward normal of a reported hit is bounded as normals must be.
pub proof fn lemma_outward_norm_bounded(s: Sphere, ray: Ray, t: int)
    requires
        s.wf(),
        in_bounds(ray.loc),
        in_bounds(ray.dir),
        point_ok_spec(s, ray, t),
    ensures
        norm_bounded(outward_normal_spec(s, ray, t)),
{
    lemma_outward_fits(at_comp_spec(ray.loc.x as int, ray.dir.x as int, t), s.loc.x as int, s.radius as int);
    lemma_outward_fits(at_comp_spec(ray.loc.y as int, ray.dir.y as int, t), s.loc.y as int, s.radius as int);
    lemma_outward_fits(at_comp_spec(ray.loc.z as int, ray.dir.z as int, t), s.loc.z as int, s.radius as int);
    assert(NMAX == 2251799813685248i64);
}

/// A scene object, as a closed set of shapes; only spheres exist today.
#[derive(Clone, Copy, Debug, PartialEq, Eq, Structural)]
pub enum Object {
    Sphere(Sphere),
}

impl Object {
    /// Well-formedness of the underlying shape.
    pub open spec fn wf(self) -> bool {
        match self {
            Object::Sphere(s) => s.wf(),
        }
    }
}

/// What an object's intersection test returns.
pub open spec fn object_hit_spec(o: Object, ray: Ray, itv: Interval) -> Option<Hit> {
    match o {
        Object::Sphere(s) => sphere_hit_spec(s, ray, itv),
    }
}

impl Object {
    /// Intersection test, dispatched over the shape.
    pub fn hit_test(&self, ray: Ray, acceptable: Interval) -> (r: Option<Hit>)
        requires
            self.wf(),
            in_bounds(ray.loc),
            in_bounds(ray.dir),
        ensures
            r == object_hit_spec(*self, ray, acceptable),
    {
        match self {
            Object::Sphere(s) => s.hit_test(ray, acceptable),
        }
    }
}

/// Keep the nearer of a running best hit and a candidate; the running
/// best wins ties, so the earlier object in the scene order prevails.
pub open spec fn better_hit(cur: Option<Hit>, cand: Option<Hit>) -> Option<Hit> {
    match cand {
        None => cur,
        Some(h) => match cur {
            None => Some(h),
            Some(b) => if h.distance < b.distance {
                Some(h)
            } else {
                Some(b)
            },
        },
    }
}

/// The nearest hit among the first `n` objects.
pub open spec fn scene_hit_prefix(objs: Seq<Object>, ray: Ray, itv: Interval, n: int) -> Option<
    Hit,
>
    decreases n,
{
    if n <= 0 {
        None
    } else {
        better_hit(scene_hit_prefix(objs, ray, itv, n - 1), object_hit_spec(objs[n - 1], ray, itv))
    }
}

/// The nearest acceptable hit over the whole scene.
pub open spec fn scene_hit_spec(objs: Seq<Object>, ray: Ray, itv: Interval) -> Option<Hit> {
    scene_hit_prefix(objs, ray, itv, objs.len() as int)
}

/// Scan every object and keep the nearest acceptable hit.
pub fn nearest_hit(objects: &Vec<Object>, ray: Ray, acceptable: Interval) -> (r: Option<Hit>)
    requires
        forall|i: int| 0 <= i < objects@.len() ==> (#[trigger] objects@[i]).wf(),
        in_bounds(ray.loc),
        in_bounds(ray.dir),
    ensures
        r == scene_hit_spec(objects@, ray, acceptable),
{
    let mut best: Option<Hit> = None;
    let mut i: usize = 0;
    while i < objects.len()
        invariant
            0 <= i <= objects@.len(),
            forall|k: int| 0 <= k < objects@.len() ==> (#[trigger] objects@[k]).wf(),
            in_bounds(ray.loc),
            in_bounds(ray.dir),
            best == scene_hit_prefix(objects@, ray, acceptable, i as int),
        decreases objects@.len() - i,
    {
        let cand = objects[i].hit_test(ray, acceptable);
        best = match (cand, best) {
            (Option::None, b) => b,
            (Option::Some(h), Option::None) => Some(h),
            (Option::Some(h), Option::Some(b)) => if h.distance < b.distance {
                Some(h)
            } else {
                Some(b)
            },
        };
        i = i + 1;
    }
    best
}

/// Every reported intersection lies on the ray: the hit location is
/// exactly the ray evaluated at the reported distance.
pub proof fn lemma_hit_point_on_ray(s: Sphere, ray: Ray, itv: Interval)
    requires
        s.wf(),
        in_bounds(ray.loc),
        in_bounds(ray.dir),
    ensures
        sphere_hit_spec(s, ray, itv).is_some() ==> ({
            let h = sphere_hit_spec(s, ray, itv).unwrap();
            &&& h.loc.x == at_comp_spec(ray.loc.x as int, ray.dir.x as int, h.distance as int)
            &&& h.loc.y == at_comp_spec(ray.loc.y as int, ray.dir.y as int, h.distance as int)
            &&& h.loc.z == at_comp_spec(ray.loc.z as int, ray.dir.z as int, h.distance as int)
        }),
{
    if sphere_hit_spec(s, ray, itv).is_some() {
        let t = chosen_root_spec(s, ray, itv).unwrap();
        let h = sphere_hit_spec(s, ray, itv).unwrap();
        assert(point_ok_spec(s, ray, t));
        assert(contains_spec(itv, t));
        assert(h.distance as int == t);
    }
}

/// A ray that starts strictly inside a sphere still reports the forward
/// intersection, the exit point: with the forward band, a nearer root
/// behind the origin, and a representable farther root, the farther root
/// is the one chosen. (Fixed-point rounding can lift a nearer root that
/// is a fraction of a step behind the origin to exactly zero; the
/// hypothesis on the nearer root excludes those origins.)
pub proof fn lemma_inside_sphere_exits(s: Sphere, ray: Ray, itv: Interval)
    requires
        s.wf(),
        in_bounds(ray.loc),
        in_bounds(ray.dir),
        quad_a(ray) > 0,
        quad_c(s, ray) < 0,
        itv.lo == 0,
        itv.hi == i64::MAX,
        root_near_spec(s, ray) < 0,
        root_far_spec(s, ray) < i64::MAX,
    ensures
        quad_disc(s, ray) > 0,
        0 <= root_far_spec(s, ray),
        chosen_root_spec(s, ray, itv) == Some(root_far_spec(s, ray)),
{
    let a = quad_a(ray);
    let c = quad_c(s, ray);
    let hb = quad_half_b(s, ray);
    assert(a * c <= -1) by (nonlinear_arith)
        requires
            a >= 1,
            c <= -1,
    ;
    assert(0 <= hb * hb) by (nonlinear_arith);
    let disc = quad_disc(s, ray);
    assert(disc >= hb * hb + 1);
    crate::fixed::lemma_sqrt_floor_exists(disc);
    let sd = sqrt_floor(disc);
    let habs = if hb >= 0 { hb } else { -hb };
    assert(habs * habs == hb * hb) by (nonlinear_arith)
        requires
            habs == hb || habs == -hb,
    ;
    if sd < habs {
        assert((sd + 1) * (sd + 1) <= habs * habs) by (nonlinear_arith)
            requires
                0 <= sd + 1 <= habs,
        ;
        assert(false);
    }
    let num_far = -hb + sd;
    assert(num_far >= 0);
    assert(num_far * (SCALE as int) >= 0) by (nonlinear_arith)
        requires
            num_far >= 0,
            (SCALE as int) >= 1,
    ;
    lemma_tdiv_abs(num_far * (SCALE as int), a, num_far * (SCALE as int));
    assert(0 <= root_far_spec(s, ray));
    assert(!contains_spec(itv, root_near_spec(s, ray)));
    assert(contains_spec(itv, root_far_spec(s, ray)));
}

/// Induction step for the nearest-hit law over scene prefixes.
proof fn lemma_scene_hit_nearest_prefix(objs: Seq<Object>, ray: Ray, itv: Interval, n: int)
    requires
        0 <= n <= objs.len(),
    ensures
        forall|i: int|
            0 <= i < n && (#[trigger] object_hit_spec(objs[i], ray, itv)).is_some()
                ==> scene_hit_prefix(objs, ray, itv, n).is_some() && scene_hit_prefix(
                objs,
                ray,
                itv,
                n,
            ).unwrap().distance <= object_hit_spec(objs[i], ray, itv).unwrap().distance,
        scene_hit_prefix(objs, ray, itv, n).is_some() ==> exists|i: int|
            0 <= i < n && #[trigger] object_hit_spec(objs[i], ray, itv) == Some(
                scene_hit_prefix(objs, ray, itv, n).unwrap(),
            ),
    decreases n,
{
    if n > 0 {
        lemma_scene_hit_nearest_prefix(objs, ray, itv, n - 1);
        let prev = scene_hit_prefix(objs, ray, itv, n - 1);
        let cand = object_hit_spec(objs[n - 1], ray, itv);
        let best = scene_hit_prefix(objs, ray, itv, n);
        assert(best == better_hit(prev, cand));
        if best.is_some() {
            if cand == Some(best.unwrap()) {
                assert(object_hit_spec(objs[n - 1], ray, itv) == Some(best.unwrap()));
            } else {
                assert(prev == Some(best.unwrap()));
                let w = choose|i: int|
                    0 <= i < n - 1 && #[trigger] object_hit_spec(objs[i], ray, itv) == Some(
                        prev.unwrap(),
                    );
                assert(object_hit_spec(objs[w], ray, itv) == Some(best.unwrap()));
            }
        }
    }
}

/// The scene scan reports the nearest acceptable hit: no object reports
/// a strictly closer one, and the reported hit is one object's own.
pub proof fn lemma_scene_hit_nearest(objs: Seq<Object>, ray: Ray, itv: Interval)
    ensures
        forall|i: int|
            0 <= i < objs.len() && (#[trigger] object_hit_spec(objs[i], ray, itv)).is_some()
                ==> scene_hit_spec(objs, ray, itv).is_some() && scene_hit_spec(
                objs,
                ray,
                itv,
            ).unwrap().distance <= object_hit_spec(objs[i], ray, itv).unwrap().distance,
        scene_hit_spec(objs, ray, itv).is_some() ==> exists|i: int|
            0 <= i < objs.len() && #[trigger] object_hit_spec(objs[i], ray, itv) == Some(
                scene_hit_spec(objs, ray, itv).unwrap(),
            ),
{
    lemma_scene_hit_nearest_prefix(objs, ray, itv, objs.len() as int);
}

/// The reported outward normal is the radial direction `point - center`
/// rescaled to unit length, exactly up to the division's truncation: its
/// components differ from `(point - center) * SCALE / radius` by less
/// than one part in `radius`, so for radii large against one raw step
/// the normal's length is within rounding of one unit. (A bound tying
/// `|point - center|` itself to the radius would need error propagation
/// through the discriminant's square root and is not stated here.)
pub proof fn lemma_normal_is_radial(s: Sphere, ray: Ray, t: int)
    requires
        s.wf(),
        in_bounds(ray.loc),
        in_bounds(ray.dir),
        point_ok_spec(s, ray, t),
    ensures
        ({
            let o = outward_normal_spec(s, ray, t);
            let px = at_comp_spec(ray.loc.x as int, ray.dir.x as int, t);
            let py = at_comp_spec(ray.loc.y as int, ray.dir.y as int, t);
            let pz = at_comp_spec(ray.loc.z as int, ray.dir.z as int, t);
            let r = s.radius as int;
            &&& -r < (o.x as int) * r - (px - s.loc.x) * (SCALE as int) < r
            &&& -r < (o.y as int) * r - (py - s.loc.y) * (SCALE as int) < r
            &&& -r < (o.z as int) * r - (pz - s.loc.z) * (SCALE as int) < r
        }),
{
    let px = at_comp_spec(ray.loc.x as int, ray.dir.x as int, t);
    let py = at_comp_spec(ray.loc.y as int, ray.dir.y as int, t);
    let pz = at_comp_spec(ray.loc.z as int, ray.dir.z as int, t);
    let r = s.radius as int;
    lemma_outward_fits(px, s.loc.x as int, r);
    lemma_outward_fits(py, s.loc.y as int, r);
    lemma_outward_fits(pz, s.loc.z as int, r);
    crate::fixed::lemma_tdiv_mul_back((px - s.loc.x) * (SCALE as int), r);
    crate::fixed::lemma_tdiv_mul_back((py - s.loc.y) * (SCALE as int), r);
    crate::fixed::lemma_tdiv_mul_back((pz - s.loc.z) * (SCALE as int), r);
}

} // verus!
