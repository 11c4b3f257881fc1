//! The camera: viewport geometry, per-pixel stochastic sampling, and the
//! render pass that accumulates radiance into an image buffer.

use vstd::prelude::*;
use crate::fixed::{SCALE, HALF, VMAX, tdiv, tdiv_i128};
use crate::fixed::{lemma_tdiv_abs, lemma_tdiv_quotient_bound, lemma_tdiv_exact};
use crate::vec3::{Vec3, Loc3, Colour, in_bounds, mag2_spec, dot_raw_spec};
use crate::ray::{Ray, background_spec};
use crate::obj::{Object, Interval, scene_hit_spec};
use crate::rng::RenderRng;
use crate::image::Image;

verus! {

/// Bound on camera placement and viewport extents (raw steps): about
/// sixty-seven units, comfortably inside the world volume.
pub const CAM_MAX: i64 = 67_108_864;

/// Immutable render configuration.
pub struct Camera {
    pub loc: Loc3,
    pub img_width: usize,
    pub img_height: usize,
    pub viewport_width: i64,
    pub viewport_height: i64,
    pub focal_length: i64,
    pub samples_per_pixel: u16,
    pub max_bounces: u16,
}

/// One channel of an accumulation pixel: the sum of at most
/// `samples_per_pixel` unit-range samples.
pub open spec fn accum_in_range(c: Vec3, spp: int) -> bool {
    &&& 0 <= c.x <= spp * (SCALE as int)
    &&& 0 <= c.y <= spp * (SCALE as int)
    &&& 0 <= c.z <= spp * (SCALE as int)
}

/// The horizontal viewport edge vector, as a value.
pub open spec fn horizontal_spec(cam: Camera) -> Vec3 {
    Vec3 { x: (cam.loc.x + cam.viewport_width) as i64, y: cam.loc.y, z: cam.loc.z }
}

/// The vertical viewport edge vector, as a value.
pub open spec fn vertical_spec(cam: Camera) -> Vec3 {
    Vec3 { x: cam.loc.x, y: (cam.loc.y + cam.viewport_height) as i64, z: cam.loc.z }
}

/// The lower-left viewport corner, as a value.
pub open spec fn lower_left_corner_spec(cam: Camera) -> Vec3 {
    Vec3 {
        x: (cam.loc.x - tdiv((cam.loc.x + cam.viewport_width) * (HALF as int), SCALE as int)
            - tdiv((cam.loc.x as int) * (HALF as int), SCALE as int)) as i64,
        y: (cam.loc.y - tdiv((cam.loc.y as int) * (HALF as int), SCALE as int) - tdiv(
            (cam.loc.y + cam.viewport_height) * (HALF as int),
            SCALE as int,
        )) as i64,
        z: (cam.loc.z - tdiv((cam.loc.z as int) * (HALF as int), SCALE as int) - tdiv(
            (cam.loc.z as int) * (HALF as int),
            SCALE as int,
        ) - cam.focal_length) as i64,
    }
}

/// The horizontal viewport coordinate of a jittered sample at column
/// `x`: `(x + u_off) / (img_width - 1)` in fixed point.
pub open spec fn sample_u_spec(cam: Camera, x: int, u_off: int) -> int {
    tdiv(x * (SCALE as int) + u_off, cam.img_width - 1)
}

/// The vertical viewport coordinate of a jittered sample at film-plane
/// height `y`: `(y + v_off) / (img_height - 1)` in fixed point.
pub open spec fn sample_v_spec(cam: Camera, y: int, v_off: int) -> int {
    tdiv(y * (SCALE as int) + v_off, cam.img_height - 1)
}

/// The sample ray's direction:
/// `lower_left_corner + u * horizontal + v * vertical - loc`.
pub open spec fn sample_dir_spec(cam: Camera, x: int, y: int, u_off: int, v_off: int) -> Vec3 {
    let u = sample_u_spec(cam, x, u_off);
    let v = sample_v_spec(cam, y, v_off);
    let hor = horizontal_spec(cam);
    let ver = vertical_spec(cam);
    let llc = lower_left_corner_spec(cam);
    Vec3 {
        x: (llc.x + tdiv((hor.x as int) * u, SCALE as int) + tdiv((ver.x as int) * v, SCALE as int)
            - cam.loc.x) as i64,
        y: (llc.y + tdiv((hor.y as int) * u, SCALE as int) + tdiv((ver.y as int) * v, SCALE as int)
            - cam.loc.y) as i64,
        z: (llc.z + tdiv((hor.z as int) * u, SCALE as int) + tdiv((ver.z as int) * v, SCALE as int)
            - cam.loc.z) as i64,
    }
}

/// What the render pass guarantees of each accumulated pixel: channel
/// sums bounded by the sample count; with no objects and a bounce
/// budget, every sample is sky, whose blue channel is exactly one unit,
/// so blue accumulates to the full sample count; with a zero bounce
/// budget every sample is black.
pub open spec fn pixel_accum_ok(c: Vec3, cam: Camera, n_objects: int) -> bool {
    &&& accum_in_range(c, cam.samples_per_pixel as int)
    &&& n_objects == 0 && cam.max_bounces >= 1 ==> c.z == (cam.samples_per_pixel as int) * (
    SCALE as int)
    &&& cam.max_bounces == 0 ==> c == (Vec3 { x: 0i64, y: 0i64, z: 0i64 })
}

impl Camera {
    /// A configuration the render pass can drive without leaving the
    /// supported numeric ranges.
    pub open spec fn wf(self) -> bool {
        &&& -CAM_MAX <= self.loc.x <= CAM_MAX
        &&& -CAM_MAX <= self.loc.y <= CAM_MAX
        &&& -CAM_MAX <= self.loc.z <= CAM_MAX
        &&& 1 <= self.viewport_width <= CAM_MAX
        &&& 1 <= self.viewport_height <= CAM_MAX
        &&& 1 <= self.focal_length <= CAM_MAX
        &&& 2 <= self.img_width <= 10000
        &&& 2 <= self.img_height <= 10000
    }

    /// Sensible defaults: a 640 by 480 frame, a 2.0 by 1.5 viewport at
    /// focal length 1.0, 100 samples per pixel, 5 bounces.
    pub fn sensible() -> (r: Camera)
        ensures
            r.wf(),
            r.loc == (Vec3 { x: 0i64, y: 0i64, z: 0i64 }),
            r.img_width == 640,
            r.img_height == 480,
            r.viewport_width == 2 * SCALE,
            r.viewport_height == SCALE + HALF,
            r.focal_length == SCALE,
            r.samples_per_pixel == 100,
            r.max_bounces == 5,
    {
        Camera {
            loc: Vec3::zero(),
            img_width: 640,
            img_height: 480,
            viewport_width: 2 * SCALE,
            viewport_height: SCALE + HALF,
            focal_length: SCALE,
            samples_per_pixel: 100,
            max_bounces: 5,
        }
    }

    /// The horizontal viewport edge vector, `loc + (1,0,0) * viewport_width`.
    pub fn horizontal(&self) -> (r: Vec3)
        requires
            self.wf(),
        ensures
            r == horizontal_spec(*self),
            r.x == self.loc.x + self.viewport_width,
            r.y == self.loc.y,
            r.z == self.loc.z,
    {
        proof {
            lemma_axis_scale(self.viewport_width as int);
        }
        self.loc.add(Vec3::new(SCALE, 0, 0).scale(self.viewport_width))
    }

    /// The vertical viewport edge vector, `loc + (0,1,0) * viewport_height`.
    pub fn vertical(&self) -> (r: Vec3)
        requires
            self.wf(),
        ensures
            r == vertical_spec(*self),
            r.x == self.loc.x,
            r.y == self.loc.y + self.viewport_height,
            r.z == self.loc.z,
    {
        proof {
            lemma_axis_scale(self.viewport_height as int);
        }
        self.loc.add(Vec3::new(0, SCALE, 0).scale(self.viewport_height))
    }

    /// The lower-left corner of the viewport:
    /// `loc - horizontal/2 - vertical/2 - (0,0,1) * focal_length`.
    pub fn lower_left_corner(&self) -> (r: Loc3)
        requires
            self.wf(),
        ensures
            r == lower_left_corner_spec(*self),
            r.x == self.loc.x - tdiv((self.loc.x + self.viewport_width) * (HALF as int), SCALE as int)
                - tdiv((self.loc.x as int) * (HALF as int), SCALE as int),
            r.y == self.loc.y - tdiv((self.loc.y as int) * (HALF as int), SCALE as int) - tdiv(
                (self.loc.y + self.viewport_height) * (HALF as int),
                SCALE as int,
            ),
            r.z == self.loc.z - tdiv((self.loc.z as int) * (HALF as int), SCALE as int) - tdiv(
                (self.loc.z as int) * (HALF as int),
                SCALE as int,
            ) - self.focal_length,
            -268435456 <= r.x <= 268435456,
            -268435456 <= r.y <= 268435456,
            -268435456 <= r.z <= 268435456,
    {
        let h = self.horizontal();
        let v = self.vertical();
        proof {
            lemma_half_of(h.x as int);
            lemma_half_of(h.y as int);
            lemma_half_of(h.z as int);
            lemma_half_of(v.x as int);
            lemma_half_of(v.y as int);
            lemma_half_of(v.z as int);
            lemma_axis_scale(self.focal_length as int);
        }
        let f = Vec3::new(0, 0, SCALE).scale(self.focal_length);
        self.loc.sub(h.scale(HALF)).sub(v.scale(HALF)).sub(f)
    }
}

/// Scaling a unit axis by a camera extent is exact.
proof fn lemma_axis_scale(s: int)
    requires
        -(CAM_MAX as int) <= s <= CAM_MAX as int,
    ensures
        tdiv((SCALE as int) * s, SCALE as int) == s,
        tdiv(0 * s, SCALE as int) == 0,
        -(i64::MAX as int) <= (SCALE as int) * s <= i64::MAX as int,
{
    assert(SCALE == 1000000i64);
    assert(CAM_MAX == 67108864i64);
    lemma_tdiv_exact(s, SCALE as int);
    assert((SCALE as int) * s == s * (SCALE as int)) by (nonlinear_arith);
    assert(-67108864000000 <= s * 1000000 <= 67108864000000int) by (nonlinear_arith)
        requires
            -67108864 <= s <= 67108864,
    ;
}

/// Halving a viewport edge component stays within a quarter of the
/// corner budget.
proof fn lemma_half_of(c: int)
    requires
        -134217728 <= c <= 134217728,
    ensures
        -(i64::MAX as int) <= c * (HALF as int) <= i64::MAX as int,
        -67108864 <= tdiv(c * (HALF as int), SCALE as int) <= 67108864,
{
    assert(HALF == 500000i64);
    assert(SCALE == 1000000i64);
    assert(-67108864000000 <= c * 500000 <= 67108864000000int) by (nonlinear_arith)
        requires
            -134217728 <= c <= 134217728,
    ;
    assert(67108864int * 1000000int == 67108864000000int) by (nonlinear_arith);
    lemma_tdiv_quotient_bound(c * (HALF as int), SCALE as int, 67108864);
}

impl Camera {
    /// The jittered camera ray for film-plane cell `(x, y)`: `x` counts
    /// columns from the left, `y` is the film-plane height with y up,
    /// and the offsets are the sub-pixel jitter in `[0, 1)`.
    pub fn sample_ray(&self, x: usize, y: usize, u_off: i64, v_off: i64) -> (r: Ray)
        requires
            self.wf(),
            x < self.img_width,
            1 <= y <= self.img_height,
            0 <= u_off < SCALE,
            0 <= v_off < SCALE,
        ensures
            r.loc == self.loc,
            r.dir == sample_dir_spec(*self, x as int, y as int, u_off as int, v_off as int),
            in_bounds(r.loc),
            in_bounds(r.dir),
    {
        let hor = self.horizontal();
        let ver = self.vertical();
        let llc = self.lower_left_corner();
        let wm1: i64 = (self.img_width - 1) as i64;
        let hm1: i64 = (self.img_height - 1) as i64;
        let u_num: i64 = (x as i64) * SCALE + u_off;
        let v_num: i64 = (y as i64) * SCALE + v_off;
        proof {
            lemma_tdiv_quotient_bound(u_num as int, wm1 as int, 2 * (SCALE as int));
            lemma_tdiv_quotient_bound(v_num as int, hm1 as int, 3 * (SCALE as int));
            lemma_tdiv_abs(u_num as int, wm1 as int, u_num as int);
            lemma_tdiv_abs(v_num as int, hm1 as int, v_num as int);
        }
        let u: i64 = tdiv_i128(u_num as i128, wm1 as i128) as i64;
        let v: i64 = tdiv_i128(v_num as i128, hm1 as i128) as i64;
        proof {
            lemma_offset_scale(u as int, hor.x as int, 2000000);
            lemma_offset_scale(u as int, hor.y as int, 2000000);
            lemma_offset_scale(u as int, hor.z as int, 2000000);
            lemma_offset_scale(v as int, ver.x as int, 3000000);
            lemma_offset_scale(v as int, ver.y as int, 3000000);
            lemma_offset_scale(v as int, ver.z as int, 3000000);
            assert(VMAX == 1073741824i64);
            assert(CAM_MAX == 67108864i64);
        }
        let du = hor.scale(u);
        let dv = ver.scale(v);
        let dir = llc.add(du).add(dv).sub(self.loc);
        proof {
            assert(u as int == sample_u_spec(*self, x as int, u_off as int));
            assert(v as int == sample_v_spec(*self, y as int, v_off as int));
            assert(dir == sample_dir_spec(*self, x as int, y as int, u_off as int, v_off as int));
        }
        Ray { loc: self.loc, dir }
    }

    /// Accumulated radiance for one row of pixels: for each pixel,
    /// `samples_per_pixel` jittered rays are traced and summed. Pixel row
    /// `row` maps to film-plane height `img_height - row`, keeping the
    /// y-up convention with row zero at the top of the image.
    pub fn render_row(&self, rng: &mut RenderRng, objects: &Vec<Object>, row: usize) -> (r: Vec<
        Colour,
    >)
        requires
            self.wf(),
            row < self.img_height,
            forall|i: int| 0 <= i < objects@.len() ==> (#[trigger] objects@[i]).wf(),
        ensures
            r@.len() == self.img_width,
            forall|k: int|
                0 <= k < r@.len() ==> pixel_accum_ok(
                    #[trigger] r@[k],
                    *self,
                    objects@.len() as int,
                ),
    {
        let y: usize = self.img_height - row;
        let mut out: Vec<Colour> = Vec::new();
        let mut x: usize = 0;
        while x < self.img_width
            invariant
                self.wf(),
                row < self.img_height,
                y == self.img_height - row,
                forall|i: int| 0 <= i < objects@.len() ==> (#[trigger] objects@[i]).wf(),
                x <= self.img_width,
                out@.len() == x,
                forall|k: int|
                    0 <= k < out@.len() ==> pixel_accum_ok(
                        #[trigger] out@[k],
                        *self,
                        objects@.len() as int,
                    ),
            decreases self.img_width - x,
        {
            let mut colour: Colour = Vec3::zero();
            let mut sample: u16 = 0;
            while sample < self.samples_per_pixel
                invariant
                    self.wf(),
                    row < self.img_height,
                    y == self.img_height - row,
                    x < self.img_width,
                    forall|i: int| 0 <= i < objects@.len() ==> (#[trigger] objects@[i]).wf(),
                    sample <= self.samples_per_pixel,
                    0 <= colour.x <= (sample as int) * (SCALE as int),
                    0 <= colour.y <= (sample as int) * (SCALE as int),
                    0 <= colour.z <= (sample as int) * (SCALE as int),
                    objects@.len() == 0 && self.max_bounces >= 1 ==> colour.z == (sample as int)
                        * (SCALE as int),
                    self.max_bounces == 0 ==> colour == (Vec3 { x: 0i64, y: 0i64, z: 0i64 }),
                decreases self.samples_per_pixel - sample,
            {
                let u_off: i64 = rng.uniform_unit();
                let v_off: i64 = rng.uniform_unit();
                let ray = self.sample_ray(x, y, u_off, v_off);
                let m2: i64 = ray.dir.magnitude_squared();
                let contribution: Colour;
                if m2 >= 1 {
                    contribution = ray.trace(rng, objects, self.max_bounces);
                    proof {
                        if objects@.len() == 0 && self.max_bounces >= 1 {
                            assert(scene_hit_spec(
                                objects@,
                                ray,
                                Interval { lo: 0, hi: i64::MAX },
                            ).is_none());
                            assert(background_spec(ray).z == SCALE);
                        }
                    }
                } else {
                    // A direction shorter than one raw step cannot be
                    // normalized; such a sample falls back to the forward
                    // axis so that it still sees the scene.
                    let fallback = Ray { loc: self.loc, dir: Vec3::new(0, 0, -SCALE) };
                    proof {
                        lemma_forward_unit(fallback.dir);
                        assert(CAM_MAX == 67108864i64);
                        assert(VMAX == 1073741824i64);
                    }
                    contribution = fallback.trace(rng, objects, self.max_bounces);
                    proof {
                        if objects@.len() == 0 && self.max_bounces >= 1 {
                            assert(scene_hit_spec(
                                objects@,
                                fallback,
                                Interval { lo: 0, hi: i64::MAX },
                            ).is_none());
                            assert(background_spec(fallback).z == SCALE);
                        }
                    }
                }
                colour = colour.add(contribution);
                sample = sample + 1;
            }
            out.push(colour);
            x = x + 1;
        }
        out
    }

    /// The full render pass: every pixel of every row, row-major, as an
    /// accumulation buffer tagged with the sample count. Radiance is
    /// summed, never divided, during the pass; normalization is deferred
    /// to output time through the stored sample count.
    pub fn render(&self, rng: &mut RenderRng, objects: &Vec<Object>) -> (img: Image)
        requires
            self.wf(),
            forall|i: int| 0 <= i < objects@.len() ==> (#[trigger] objects@[i]).wf(),
        ensures
            img.w == self.img_width,
            img.h == self.img_height,
            img.samples_per_pixel_correction == self.samples_per_pixel,
            img.data@.len() == self.img_width * self.img_height,
            forall|k: int|
                0 <= k < img.data@.len() ==> pixel_accum_ok(
                    #[trigger] img.data@[k],
                    *self,
                    objects@.len() as int,
                ),
    {
        let mut data: Vec<Colour> = Vec::new();
        let mut row: usize = 0;
        proof {
            assert(self.img_width * self.img_height <= 100000000) by (nonlinear_arith)
                requires
                    self.img_width <= 10000,
                    self.img_height <= 10000,
            ;
            assert((0int) * (self.img_width as int) == 0) by (nonlinear_arith);
        }
        while row < self.img_height
            invariant
                self.wf(),
                forall|i: int| 0 <= i < objects@.len() ==> (#[trigger] objects@[i]).wf(),
                row <= self.img_height,
                data@.len() == (row as int) * (self.img_width as int),
                data@.len() <= 100000000,
                forall|k: int|
                    0 <= k < data@.len() ==> pixel_accum_ok(
                        #[trigger] data@[k],
                        *self,
                        objects@.len() as int,
                    ),
            decreases self.img_height - row,
        {
            let mut rowv = self.render_row(rng, objects, row);
            proof {
                assert((row as int + 1) * (self.img_width as int) == (row as int) * (
                self.img_width as int) + self.img_width) by (nonlinear_arith);
                assert((row as int + 1) * (self.img_width as int) <= 100000000)
                    by (nonlinear_arith)
                    requires
                        0 <= row as int + 1 <= self.img_height as int,
                        self.img_width <= 10000,
                        self.img_height <= 10000,
                ;
            }
            let ghost pre = data@;
            let ghost rv = rowv@;
            data.append(&mut rowv);
            proof {
                assert forall|k: int| 0 <= k < data@.len() implies pixel_accum_ok(
                    #[trigger] data@[k],
                    *self,
                    objects@.len() as int,
                ) by {
                    if k < pre.len() {
                        assert(data@[k] == pre[k]);
                    } else {
                        assert(data@[k] == rv[k - pre.len()]);
                    }
                }
            }
            row = row + 1;
        }
        proof {
            assert((self.img_height as int) * (self.img_width as int) == (
            self.img_width as int) * (self.img_height as int)) by (nonlinear_arith);
        }
        Image {
            w: self.img_width,
            h: self.img_height,
            data,
            samples_per_pixel_correction: self.samples_per_pixel,
        }
    }
}

/// The forward axis has unit squared magnitude and sits in the world
/// volume.
proof fn lemma_forward_unit(d: Vec3)
    requires
        d.x == 0,
        d.y == 0,
        d.z == -SCALE,
    ensures
        mag2_spec(d) >= 1,
        in_bounds(d),
{
    assert(SCALE == 1000000i64);
    assert(VMAX == 1073741824i64);
    assert((-1000000int) * (-1000000int) == 1000000000000int) by (nonlinear_arith);
    assert(dot_raw_spec(d, d) == 1000000000000);
    assert(tdiv(1000000000000, 1000000) == 1000000);
}

/// A viewport offset times an edge component stays within the direction
/// budget: the quotient is bounded by 135 units per million of offset.
proof fn lemma_offset_scale(u: int, e: int, ubound: int)
    requires
        0 <= u <= ubound,
        0 <= ubound <= 3000000,
        -134217728 <= e <= 134217728,
    ensures
        -(i64::MAX as int) <= u * e <= i64::MAX as int,
        -(i64::MAX as int) <= e * u <= i64::MAX as int,
        -(135 * ubound) <= tdiv(u * e, SCALE as int) <= 135 * ubound,
        -(135 * ubound) <= tdiv(e * u, SCALE as int) <= 135 * ubound,
{
    assert(SCALE == 1000000i64);
    assert(u * e == e * u) by (nonlinear_arith);
    assert(-(ubound * 135000000) <= u * e <= ubound * 135000000) by (nonlinear_arith)
        requires
            0 <= u <= ubound,
            -134217728 <= e <= 134217728,
    ;
    assert((135 * ubound) * (SCALE as int) == ubound * 135000000) by (nonlinear_arith)
        requires
            (SCALE as int) == 1000000,
    ;
    assert(-405000000000000 <= u * e <= 405000000000000int) by (nonlinear_arith)
        requires
            0 <= u <= 3000000,
            -134217728 <= e <= 134217728,
    ;
    lemma_tdiv_quotient_bound(u * e, SCALE as int, 135 * ubound);
}

} // verus!
