//! Rays and the recursive trace.

use vstd::prelude::*;
use crate::fixed::{SCALE, HALF, VMAX, NMAX, tdiv, clamp_spec, tdiv_i128};
use crate::fixed::{lemma_tdiv_quotient_bound, lemma_tdiv_exact};
use crate::vec3::{Vec3, Loc3, Colour, in_bounds, norm_bounded, mag2_spec, mag_spec, unit_comp_spec};
use crate::vec3::lemma_products_bounded;
use crate::obj::{Object, Interval, scene_hit_spec, scene_hit_prefix, sphere_hit_spec, point_ok_spec, nearest_hit};
use crate::rng::RenderRng;

verus! {

/// A parametric line: origin plus direction, evaluated as
/// `loc + dir * t`.
#[derive(Clone, Copy, Debug, PartialEq, Eq, Structural)]
pub struct Ray {
    pub loc: Loc3,
    pub dir: Vec3,
}

/// One component of `loc + dir * t` in fixed point.
pub open spec fn at_comp_spec(o: int, d: int, t: int) -> int {
    o + tdiv(d * t, SCALE as int)
}

impl Ray {
    /// The point at parameter `t` along the ray.
    pub fn at(&self, t: i64) -> (r: Loc3)
        requires
            i64::MIN <= at_comp_spec(self.loc.x as int, self.dir.x as int, t as int) <= i64::MAX,
            i64::MIN <= at_comp_spec(self.loc.y as int, self.dir.y as int, t as int) <= i64::MAX,
            i64::MIN <= at_comp_spec(self.loc.z as int, self.dir.z as int, t as int) <= i64::MAX,
        ensures
            r.x == at_comp_spec(self.loc.x as int, self.dir.x as int, t as int),
            r.y == at_comp_spec(self.loc.y as int, self.dir.y as int, t as int),
            r.z == at_comp_spec(self.loc.z as int, self.dir.z as int, t as int),
    {
        proof {
            assert(9223372036854775808int * 9223372036854775808int
                == 85070591730234615865843651857942052864int) by (nonlinear_arith);
            lemma_products_bounded(self.dir.x as int, t as int, 9223372036854775808);
            lemma_products_bounded(self.dir.y as int, t as int, 9223372036854775808);
            lemma_products_bounded(self.dir.z as int, t as int, 9223372036854775808);
        }
        let px: i128 = (self.loc.x as i128) + tdiv_i128(
            (self.dir.x as i128) * (t as i128),
            SCALE as i128,
        );
        let py: i128 = (self.loc.y as i128) + tdiv_i128(
            (self.dir.y as i128) * (t as i128),
            SCALE as i128,
        );
        let pz: i128 = (self.loc.z as i128) + tdiv_i128(
            (self.dir.z as i128) * (t as i128),
            SCALE as i128,
        );
        Vec3 { x: px as i64, y: py as i64, z: pz as i64 }
    }
}

/// The vertical component of the normalized ray direction.
pub open spec fn unit_y_spec(ray: Ray) -> int {
    unit_comp_spec(ray.dir.y as int, mag_spec(ray.dir))
}

/// The sky-gradient blend factor `0.5 * unit_y + 0.5`, clamped into the
/// unit interval to absorb fixed-point rounding of the normalization.
pub open spec fn background_t_spec(ray: Ray) -> int {
    clamp_spec(tdiv(unit_y_spec(ray) * (HALF as int), SCALE as int) + HALF, 0, SCALE as int)
}

/// The blend of white `(1,1,1)` and sky blue `(0.5,0.7,1.0)` by factor `t`.
pub open spec fn sky_blend_spec(t: int) -> Vec3 {
    Vec3 {
        x: ((SCALE as int) - t + tdiv((HALF as int) * t, SCALE as int)) as i64,
        y: ((SCALE as int) - t + tdiv(700000 * t, SCALE as int)) as i64,
        z: ((SCALE as int) - t + t) as i64,
    }
}

/// The procedural sky a missed ray shades to: the only light source.
pub open spec fn background_spec(ray: Ray) -> Vec3 {
    sky_blend_spec(background_t_spec(ray))
}

/// Every color channel within linear-light `[0, 1]`.
pub open spec fn color_in_range(c: Vec3) -> bool {
    &&& 0 <= c.x <= SCALE
    &&& 0 <= c.y <= SCALE
    &&& 0 <= c.z <= SCALE
}

/// The background blend lies on the segment between white and sky blue:
/// the blend factor stays in the unit interval, the two endpoints are
/// exactly white and sky blue, and every blend is a valid color.
pub proof fn lemma_background_on_segment(ray: Ray)
    ensures
        0 <= background_t_spec(ray) <= SCALE as int,
        background_spec(ray) == sky_blend_spec(background_t_spec(ray)),
        sky_blend_spec(0) == (Vec3 { x: SCALE, y: SCALE, z: SCALE }),
        sky_blend_spec(SCALE as int) == (Vec3 { x: HALF, y: 700000i64, z: SCALE }),
        color_in_range(sky_blend_spec(background_t_spec(ray))),
{
    assert(SCALE == 1000000i64);
    assert(HALF == 500000i64);
    assert(tdiv((HALF as int) * 0, SCALE as int) == 0);
    assert((HALF as int) * (SCALE as int) == 500000000000) by (nonlinear_arith)
        requires
            (HALF as int) == 500000,
            (SCALE as int) == 1000000,
    ;
    assert(700000 * (SCALE as int) == 700000000000) by (nonlinear_arith)
        requires
            (SCALE as int) == 1000000,
    ;
    assert(tdiv(500000000000, 1000000) == 500000);
    assert(tdiv(700000000000, 1000000) == 700000);
    lemma_sky_blend_range(background_t_spec(ray));
}

/// For a blend factor in the unit interval the blend is a valid color.
proof fn lemma_sky_blend_range(t: int)
    requires
        0 <= t <= SCALE as int,
    ensures
        color_in_range(sky_blend_spec(t)),
{
    assert(SCALE == 1000000i64);
    assert(HALF == 500000i64);
    lemma_tdiv_quotient_bound((HALF as int) * t, SCALE as int, t);
    lemma_tdiv_quotient_bound(700000 * t, SCALE as int, t);
    assert((HALF as int) * t <= t * (SCALE as int) && 0 <= (HALF as int) * t)
        by (nonlinear_arith)
        requires
            0 <= t,
            (HALF as int) == 500000,
            (SCALE as int) == 1000000,
    ;
    assert(700000 * t <= t * (SCALE as int) && 0 <= 700000 * t) by (nonlinear_arith)
        requires
            0 <= t,
            (SCALE as int) == 1000000,
    ;
    assert(0 <= tdiv((HALF as int) * t, SCALE as int) <= t);
    assert(0 <= tdiv(700000 * t, SCALE as int) <= t);
}

/// A reported scene hit lies in the world volume and carries a bounded
/// normal, so it can seed the next bounce.
proof fn lemma_sphere_hit_wf(s: crate::obj::Sphere, ray: Ray, itv: Interval)
    requires
        s.wf(),
        in_bounds(ray.loc),
        in_bounds(ray.dir),
    ensures
        sphere_hit_spec(s, ray, itv).is_some() ==> in_bounds(sphere_hit_spec(s, ray, itv).unwrap().loc)
            && norm_bounded(sphere_hit_spec(s, ray, itv).unwrap().normal),
{
    if sphere_hit_spec(s, ray, itv).is_some() {
        let t = crate::obj::chosen_root_spec(s, ray, itv).unwrap();
        assert(point_ok_spec(s, ray, t));
        crate::obj::lemma_outward_norm_bounded(s, ray, t);
        assert(NMAX == 2251799813685248i64);
    }
}

/// The nearest-hit fold keeps hits in the world volume with bounded
/// normals, over any prefix of the scene.
proof fn lemma_scene_hit_wf(objs: Seq<Object>, ray: Ray, itv: Interval, n: int)
    requires
        0 <= n <= objs.len(),
        forall|i: int| 0 <= i < objs.len() ==> (#[trigger] objs[i]).wf(),
        in_bounds(ray.loc),
        in_bounds(ray.dir),
    ensures
        scene_hit_prefix(objs, ray, itv, n).is_some() ==> in_bounds(
            scene_hit_prefix(objs, ray, itv, n).unwrap().loc,
        ) && norm_bounded(scene_hit_prefix(objs, ray, itv, n).unwrap().normal),
    decreases n,
{
    if n > 0 {
        lemma_scene_hit_wf(objs, ray, itv, n - 1);
        let o = objs[n - 1];
        match o {
            Object::Sphere(s) => {
                lemma_sphere_hit_wf(s, ray, itv);
            },
        }
    }
}

impl Ray {
    /// Recursive Monte-Carlo shading, bounded by the bounce budget.
    ///
    /// A zero budget absorbs all energy (black). A hit scatters a
    /// stochastic hemisphere ray from the hit point and halves the
    /// recursive radiance. A miss shades to the sky gradient, the scene's
    /// only light.
    pub fn trace(&self, rng: &mut RenderRng, objects: &Vec<Object>, depth: u16) -> (c: Colour)
        requires
            forall|i: int| 0 <= i < objects@.len() ==> (#[trigger] objects@[i]).wf(),
            in_bounds(self.loc),
            in_bounds(self.dir),
            mag2_spec(self.dir) >= 1,
        ensures
            color_in_range(c),
            depth == 0 ==> c == (Vec3 { x: 0i64, y: 0i64, z: 0i64 }),
            depth > 0 && scene_hit_spec(
                objects@,
                *self,
                Interval { lo: 0, hi: i64::MAX },
            ).is_none() ==> c == background_spec(*self),
            depth > 0 && scene_hit_spec(
                objects@,
                *self,
                Interval { lo: 0, hi: i64::MAX },
            ).is_some() ==> 0 <= c.x <= HALF && 0 <= c.y <= HALF && 0 <= c.z <= HALF,
        decreases depth,
    {
        if depth == 0 {
            return Vec3::zero();
        }
        let band = Interval::all_forward();
        let hit_opt = nearest_hit(objects, *self, band);
        proof {
            lemma_scene_hit_wf(objects@, *self, band, objects@.len() as int);
        }
        match hit_opt {
            Option::Some(hit) => {
                let new_dir = Vec3::random_on_unit_hemisphere(rng, hit.normal);
                let new_ray = Ray { loc: hit.loc, dir: new_dir };
                proof {
                    assert(VMAX == 1073741824i64);
                }
                let sub = new_ray.trace(rng, objects, depth - 1);
                proof {
                    assert(SCALE == 1000000i64);
                    assert(HALF == 500000i64);
                    assert((HALF as int) * (SCALE as int) == 500000000000) by (nonlinear_arith)
                        requires
                            (HALF as int) == 500000,
                            (SCALE as int) == 1000000,
                    ;
                    lemma_half_scale(sub.x as int);
                    lemma_half_scale(sub.y as int);
                    lemma_half_scale(sub.z as int);
                }
                sub.scale(HALF)
            },
            Option::None => {
                let unit = self.dir.normalise();
                proof {
                    assert(9223372036854775808int * 9223372036854775808int
                        == 85070591730234615865843651857942052864int) by (nonlinear_arith);
                    lemma_products_bounded(unit.y as int, HALF as int, 9223372036854775808);
                }
                let tt: i128 = tdiv_i128((unit.y as i128) * (HALF as i128), SCALE as i128) + (
                HALF as i128);
                let tcl: i128 = if tt < 0 {
                    0
                } else if tt > SCALE as i128 {
                    SCALE as i128
                } else {
                    tt
                };
                let t: i64 = tcl as i64;
                assert(t as int == background_t_spec(*self));
                let white_part: i64 = SCALE - t;
                proof {
                    lemma_sky_blend_range(t as int);
                    lemma_tdiv_exact(white_part as int, SCALE as int);
                    lemma_tdiv_exact(t as int, SCALE as int);
                    assert((SCALE as int) * (white_part as int) == (white_part as int) * (
                    SCALE as int)) by (nonlinear_arith);
                    assert((SCALE as int) * (t as int) == (t as int) * (SCALE as int))
                        by (nonlinear_arith);
                    lemma_tdiv_quotient_bound((HALF as int) * (t as int), SCALE as int, t as int);
                    lemma_tdiv_quotient_bound(700000 * (t as int), SCALE as int, t as int);
                    assert((HALF as int) * (t as int) <= (t as int) * (SCALE as int) && 0 <= (
                    HALF as int) * (t as int)) by (nonlinear_arith)
                        requires
                            0 <= t,
                            (HALF as int) == 500000,
                            (SCALE as int) == 1000000,
                    ;
                    assert(700000 * (t as int) <= (t as int) * (SCALE as int) && 0 <= 700000 * (
                    t as int)) by (nonlinear_arith)
                        requires
                            0 <= t,
                            (SCALE as int) == 1000000,
                    ;
                }
                let white = Vec3::ones().scale(white_part);
                let sky = Vec3::new(HALF, 700000, SCALE).scale(t);
                white.add(sky)
            },
        }
    }
}

/// Halving a channel in the unit range keeps it in the half range.
proof fn lemma_half_scale(c: int)
    requires
        0 <= c <= SCALE as int,
        (HALF as int) * (SCALE as int) == 500000000000,
    ensures
        -(i64::MAX as int) <= c * (HALF as int) <= i64::MAX as int,
        0 <= tdiv(c * (HALF as int), SCALE as int) <= HALF as int,
{
    assert(0 <= c * (HALF as int) <= 500000000000int) by (nonlinear_arith)
        requires
            0 <= c <= 1000000,
            (HALF as int) == 500000,
    ;
    assert(c * (HALF as int) <= (HALF as int) * (SCALE as int));
    lemma_tdiv_quotient_bound(c * (HALF as int), SCALE as int, HALF as int);
}

} // verus!
