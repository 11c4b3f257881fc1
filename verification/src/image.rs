//! The accumulation image buffer and its 8-bit output contract.

use vstd::prelude::*;
use crate::fixed::{SCALE, tdiv, clamp_spec, tdiv_i128, clamp};
use crate::fixed::{lemma_tdiv_abs, lemma_tdiv_quotient_bound};
use crate::vec3::{Vec3, Colour};

verus! {

/// An accumulation buffer: per pixel the sum of per-sample radiance,
/// row-major, normalized only at output time through the stored sample
/// count.
#[derive(Clone, Debug)]
pub struct Image {
    pub w: usize,
    pub h: usize,
    pub data: Vec<Colour>,
    pub samples_per_pixel_correction: u16,
}

/// One output channel: divide the accumulated sum by the sample count,
/// clamp into linear-light `[0, 1]`, scale to `[0, 255]`.
pub open spec fn encode_channel_spec(c: int, spp: int) -> int {
    tdiv(clamp_spec(tdiv(c, spp), 0, SCALE as int) * 255, SCALE as int)
}

/// All three channels of pixel `k` stand encoded at their places in the
/// output raster.
pub open spec fn encoded_at(out: Seq<u8>, data: Seq<Vec3>, spp: int, k: int) -> bool {
    &&& out[3 * k] == encode_channel_spec(data[k].x as int, spp)
    &&& out[3 * k + 1] == encode_channel_spec(data[k].y as int, spp)
    &&& out[3 * k + 2] == encode_channel_spec(data[k].z as int, spp)
}

/// Encode one accumulated channel to its 8-bit value.
pub fn encode_channel(c: i64, spp: u16) -> (r: u8)
    requires
        spp >= 1,
    ensures
        r == encode_channel_spec(c as int, spp as int),
        0 <= r <= 255,
{
    proof {
        lemma_tdiv_abs(c as int, spp as int, if c >= 0 { c as int } else { -(c as int) });
    }
    let per_sample: i64 = tdiv_i128(c as i128, spp as i128) as i64;
    let clamped: i64 = clamp(per_sample, 0, SCALE);
    proof {
        assert(SCALE == 1000000i64);
        lemma_tdiv_quotient_bound((clamped as int) * 255, SCALE as int, 255);
        assert(255int * 1000000int == 255000000int) by (nonlinear_arith);
        assert(0 <= (clamped as int) * 255 <= 255000000int) by (nonlinear_arith)
            requires
                0 <= clamped <= 1000000,
        ;
        lemma_tdiv_abs((clamped as int) * 255, SCALE as int, 255000000);
    }
    let v: i64 = tdiv_i128((clamped as i128) * 255, SCALE as i128) as i64;
    v as u8
}

impl Image {
    /// An all-black buffer of the given extent and sample count.
    pub fn blank(w: usize, h: usize, samples_per_pixel_correction: u16) -> (r: Image)
        requires
            w * h <= usize::MAX,
        ensures
            r.w == w,
            r.h == h,
            r.samples_per_pixel_correction == samples_per_pixel_correction,
            r.data@.len() == w * h,
            forall|k: int|
                0 <= k < r.data@.len() ==> #[trigger] r.data@[k] == (Vec3 {
                    x: 0i64,
                    y: 0i64,
                    z: 0i64,
                }),
    {
        let n: usize = w * h;
        let mut data: Vec<Colour> = Vec::new();
        let mut i: usize = 0;
        while i < n
            invariant
                i <= n,
                data@.len() == i,
                forall|k: int|
                    0 <= k < data@.len() ==> #[trigger] data@[k] == (Vec3 {
                        x: 0i64,
                        y: 0i64,
                        z: 0i64,
                    }),
            decreases n - i,
        {
            data.push(Vec3::zero());
            i = i + 1;
        }
        Image { w, h, data, samples_per_pixel_correction }
    }

    /// The 8-bit row-major RGB raster this buffer encodes to: three
    /// bytes per pixel, each channel normalized by the sample count,
    /// clamped, and scaled.
    pub fn to_rgb8(&self) -> (r: Vec<u8>)
        requires
            self.samples_per_pixel_correction >= 1,
        ensures
            r@.len() == 3 * self.data@.len(),
            forall|k: int|
                0 <= k < self.data@.len() ==> #[trigger] encoded_at(
                    r@,
                    self.data@,
                    self.samples_per_pixel_correction as int,
                    k,
                ),
    {
        let mut out: Vec<u8> = Vec::new();
        let mut i: usize = 0;
        while i < self.data.len()
            invariant
                self.samples_per_pixel_correction >= 1,
                i <= self.data@.len(),
                out@.len() == 3 * i,
                forall|k: int|
                    0 <= k < i ==> #[trigger] encoded_at(
                        out@,
                        self.data@,
                        self.samples_per_pixel_correction as int,
                        k,
                    ),
            decreases self.data@.len() - i,
        {
            let px = self.data[i];
            let ghost old_out = out@;
            out.push(encode_channel(px.x, self.samples_per_pixel_correction));
            out.push(encode_channel(px.y, self.samples_per_pixel_correction));
            out.push(encode_channel(px.z, self.samples_per_pixel_correction));
            proof {
                let j = i as int;
                let spp = self.samples_per_pixel_correction as int;
                assert(out@.len() == 3 * j + 3);
                assert(out@[3 * j] == encode_channel_spec(self.data@[j].x as int, spp));
                assert(out@[3 * j + 1] == encode_channel_spec(self.data@[j].y as int, spp));
                assert(out@[3 * j + 2] == encode_channel_spec(self.data@[j].z as int, spp));
                assert forall|k: int| 0 <= k < j + 1 implies #[trigger] encoded_at(
                    out@,
                    self.data@,
                    spp,
                    k,
                ) by {
                    if k < j {
                        assert(encoded_at(old_out, self.data@, spp, k));
                        assert(3 * k + 2 < 3 * j);
                        assert(out@[3 * k] == old_out[3 * k]);
                        assert(out@[3 * k + 1] == old_out[3 * k + 1]);
                        assert(out@[3 * k + 2] == old_out[3 * k + 2]);
                    }
                }
            }
            i = i + 1;
        }
        out
    }
}

} // verus!
