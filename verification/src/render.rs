//! The camera: viewport geometry, pixel-to-ray mapping, and the render
//! loop with stochastic antialiasing.

use vstd::prelude::*;
use crate::math::vec3d::{ColorRGB, Vec3D, lemma_prod_bound};
use crate::math::ray::Ray;
use crate::objects::{Hittable, Scene, COLOR_LIMIT};
use crate::num::{iabs, tdiv, lemma_tdiv_bound, lemma_tdiv_nonneg, mul_div, COORD_LIMIT, SCALE};
use vstd::arithmetic::div_mod::{
    lemma_div_is_ordered, lemma_div_nonincreasing, lemma_div_pos_is_pos,
};

verus! {

/// Largest world-space viewport extent (10 000 world units).
pub const MAX_EXTENT: i64 = 10_000_000_000;

/// Largest pixel count of a viewport side.
pub const VIEWPORT_LIMIT: u32 = 4096;

/// Samples per pixel during antialiased rendering.
pub const SAMPLE_COUNT: usize = 64;

/// Uniform draw from `[lo, hi]`, for antialiasing jitter.
///
/// Relies on `rand::random_range`: a draw from a nonempty inclusive
/// range lies within that range; nothing further is assumed of it.
#[verifier::external_body]
fn random_jitter(lo: i64, hi: i64) -> (r: i64)
    requires
        lo <= hi,
    ensures
        lo <= r <= hi,
{
    rand::random_range(lo..=hi)
}

/// The camera: viewport pixel dimensions, world-space viewport size,
/// focal length, origin and view direction.
pub struct Camera {
    pub width: i64,
    pub height: i64,
    pub focal_length: i64,
    pub dir: Vec3D,
    pub origin: Vec3D,
    pub viewport_width: u32,
    pub viewport_height: u32,
}

impl Camera {
    pub open spec fn wf(self) -> bool {
        &&& 1 <= self.viewport_width <= VIEWPORT_LIMIT
        &&& 1 <= self.viewport_height <= VIEWPORT_LIMIT
        &&& 0 < self.width <= MAX_EXTENT
        &&& 0 < self.height <= MAX_EXTENT
        &&& 0 < self.focal_length <= SCALE
        &&& self.origin.in_bounds(COORD_LIMIT as int)
        &&& self.dir.in_bounds(COORD_LIMIT as int)
        &&& !self.dir.is_zero()
    }

    /// World-space distance between two pixel centers, horizontally.
    pub open spec fn h_step(self) -> int {
        self.width as int / self.viewport_width as int
    }

    pub open spec fn v_step(self) -> int {
        self.height as int / self.viewport_height as int
    }

    /// The world-space center of the viewport rectangle.
    pub open spec fn rect_center_spec(self) -> Vec3D {
        self.origin.add_spec(self.dir.unit_spec().mul_spec(self.focal_length as int))
    }

    /// The center of the bottom-left pixel of the viewport rectangle.
    pub open spec fn bottom_left_spec(self) -> Vec3D {
        let th = self.h_step() * (self.viewport_width - 1);
        let tv = self.v_step() * (self.viewport_height - 1);
        self.rect_center_spec().sub_spec(
            Vec3D { x: 0i64, y: (tv / 2) as i64, z: 0i64 },
        ).sub_spec(Vec3D { x: (th / 2) as i64, y: 0i64, z: 0i64 })
    }

    /// The un-jittered direction from the camera origin through pixel
    /// `(x, y)`, `y` counted from the bottom-left anchor.
    pub open spec fn base_dir_spec(self, x: int, y: int) -> Vec3D {
        self.bottom_left_spec().add_spec(
            (Vec3D { x: self.h_step() as i64, y: 0i64, z: 0i64 }).mul_spec(x * SCALE),
        ).add_spec(
            (Vec3D { x: 0i64, y: self.v_step() as i64, z: 0i64 }).mul_spec(y * SCALE),
        ).sub_spec(self.origin)
    }

    /// The color of one sample: the scene's nearest hit along the
    /// jittered ray, or black for the degenerate zero direction.
    pub open spec fn sample_from_base(self, scene: Scene, base: Vec3D, jx: i64, jy: i64) -> ColorRGB {
        let dv = base.add_spec(Vec3D { x: jx, y: jy, z: 0i64 });
        if dv.is_zero() {
            Vec3D { x: 0i64, y: 0i64, z: 0i64 }
        } else {
            match scene.hit_spec(Ray { origin: self.origin, dir: dv.unit_spec() }, 0i64, COORD_LIMIT) {
                Some(rec) => rec.color,
                None => Vec3D { x: 0i64, y: 0i64, z: 0i64 },
            }
        }
    }

    pub open spec fn sample_color_spec(self, scene: Scene, x: int, y: int, jx: i64, jy: i64) -> ColorRGB {
        self.sample_from_base(scene, self.base_dir_spec(x, y), jx, jy)
    }

    /// The componentwise sum of the sampled colors for one pixel.
    pub open spec fn samples_sum(self, scene: Scene, x: int, y: int, jits: Seq<(i64, i64)>) -> Vec3D
        decreases jits.len(),
    {
        if jits.len() == 0 {
            Vec3D { x: 0i64, y: 0i64, z: 0i64 }
        } else {
            self.samples_sum(scene, x, y, jits.drop_last()).add_spec(
                self.sample_color_spec(scene, x, y, jits.last().0, jits.last().1),
            )
        }
    }

    /// The box-filter average of the samples of one pixel.
    pub open spec fn pixel_spec(self, scene: Scene, x: int, y: int, jits: Seq<(i64, i64)>) -> ColorRGB {
        self.samples_sum(scene, x, y, jits).div_spec(jits.len() * SCALE)
    }

    /// Where pixel `(x, y)` lands in the output grid: rows are emitted
    /// top to bottom while `y` counts up from the bottom-left anchor.
    pub open spec fn pixel_index(vw: int, vh: int, x: int, y: int) -> int {
        (vh - 1 - y) * vw + x
    }

    /// Default dimensions: a fixed world width, world height derived
    /// from the pixel aspect ratio, focal length fixed to one unit.
    pub fn with_default_dimensions(viewport_width: u32, viewport_height: u32) -> (r: Self)
        requires
            1 <= viewport_width <= VIEWPORT_LIMIT,
            1 <= viewport_height <= VIEWPORT_LIMIT,
        ensures
            r.viewport_width == viewport_width,
            r.viewport_height == viewport_height,
            r.origin == (Vec3D { x: 0i64, y: 0i64, z: 0i64 }),
            r.dir == (Vec3D { x: 0i64, y: 0i64, z: (-SCALE) as i64 }),
            r.focal_length == SCALE,
            r.width == 2 * SCALE,
            r.height as int == (2 * SCALE * viewport_height) as int / viewport_width as int,
            r.wf(),
    {
        proof {
            assert(2000000int <= 2 * SCALE as int * (viewport_height as int) <= 8192000000int)
                by (nonlinear_arith)
                requires
                    SCALE as int == 1000000int,
                    1 <= viewport_height <= 4096,
            ;
        }
        let num: i64 = 2 * SCALE * (viewport_height as i64);
        let height: i64 = ((num as u64) / (viewport_width as u64)) as i64;
        proof {
            lemma_div_pos_is_pos(num as int, viewport_width as int);
            lemma_div_nonincreasing(num as int, viewport_width as int);
            lemma_div_is_ordered(viewport_width as int, num as int, viewport_width as int);
            vstd::arithmetic::div_mod::lemma_div_by_self(viewport_width as int);
        }
        Self {
            viewport_width,
            viewport_height,
            origin: Vec3D::zeros(),
            dir: Vec3D::new(0, 0, -SCALE),
            focal_length: SCALE,
            width: 2 * SCALE,
            height,
        }
    }

    /// The per-pixel step sizes are nonnegative and the total slides
    /// stay within the viewport's world extent.
    proof fn lemma_slide_bounds(self)
        requires
            self.wf(),
        ensures
            0 <= self.h_step() <= MAX_EXTENT,
            0 <= self.v_step() <= MAX_EXTENT,
            0 <= self.h_step() * (self.viewport_width - 1) <= MAX_EXTENT,
            0 <= self.v_step() * (self.viewport_height - 1) <= MAX_EXTENT,
            self.h_step() * (self.viewport_width as int) <= self.width,
            self.v_step() * (self.viewport_height as int) <= self.height,
    {
        lemma_div_pos_is_pos(self.width as int, self.viewport_width as int);
        lemma_div_nonincreasing(self.width as int, self.viewport_width as int);
        vstd::arithmetic::div_mod::lemma_remainder_lower(
            self.width as int,
            self.viewport_width as int,
        );
        lemma_div_pos_is_pos(self.height as int, self.viewport_height as int);
        lemma_div_nonincreasing(self.height as int, self.viewport_height as int);
        vstd::arithmetic::div_mod::lemma_remainder_lower(
            self.height as int,
            self.viewport_height as int,
        );
        lemma_partial_slide(self.h_step(), self.viewport_width as int - 1,
            self.viewport_width as int - 1, self.width as int);
        lemma_partial_slide(self.v_step(), self.viewport_height as int - 1,
            self.viewport_height as int - 1, self.height as int);
    }

    /// Shared setup of the render loop: step sizes and the bottom-left
    /// anchor.
    fn viewport_setup(&self) -> (r: (i64, i64, Vec3D))
        requires
            self.wf(),
        ensures
            r.0 as int == self.h_step(),
            r.1 as int == self.v_step(),
            r.2 == self.bottom_left_spec(),
            r.2.in_bounds(200000000000int),
    {
        proof {
            self.lemma_slide_bounds();
        }
        let hs: i64 = ((self.width as u64) / (self.viewport_width as u64)) as i64;
        let vs: i64 = ((self.height as u64) / (self.viewport_height as u64)) as i64;
        let th: i64 = hs * (self.viewport_width as i64 - 1);
        let tv: i64 = vs * (self.viewport_height as i64 - 1);
        let u = self.dir.unit();
        proof {
            assert(SCALE as int * SCALE as int == 1000000000000int) by (nonlinear_arith)
                requires
                    SCALE as int == 1000000int,
            ;
            lemma_prod_bound(u.x as int, self.focal_length as int, SCALE as int, SCALE as int);
            lemma_prod_bound(u.y as int, self.focal_length as int, SCALE as int, SCALE as int);
            lemma_prod_bound(u.z as int, self.focal_length as int, SCALE as int, SCALE as int);
            lemma_tdiv_bound(u.x as int * self.focal_length as int, SCALE as int, SCALE as int);
            lemma_tdiv_bound(u.y as int * self.focal_length as int, SCALE as int, SCALE as int);
            lemma_tdiv_bound(u.z as int * self.focal_length as int, SCALE as int, SCALE as int);
        }
        let rc = self.origin.add(u.mul(self.focal_length));
        let bl = rc.sub(Vec3D::new(0, ((tv as u64) / 2) as i64, 0)).sub(
            Vec3D::new(((th as u64) / 2) as i64, 0, 0),
        );
        proof {
            lemma_div_pos_is_pos(tv as int, 2);
            lemma_div_nonincreasing(tv as int, 2);
            lemma_div_pos_is_pos(th as int, 2);
            lemma_div_nonincreasing(th as int, 2);
        }
        (hs, vs, bl)
    }

    /// The un-jittered direction through pixel `(x, y)`.
    fn base_dir(&self, bl: Vec3D, hs: i64, vs: i64, x: u32, y: u32) -> (r: Vec3D)
        requires
            self.wf(),
            hs as int == self.h_step(),
            vs as int == self.v_step(),
            bl == self.bottom_left_spec(),
            bl.in_bounds(200000000000int),
            x < self.viewport_width,
            y < self.viewport_height,
        ensures
            r == self.base_dir_spec(x as int, y as int),
            r.in_bounds(500000000000int),
    {
        proof {
            self.lemma_slide_bounds();
            lemma_partial_slide(self.h_step(), x as int, self.viewport_width as int - 1,
                self.width as int);
            lemma_partial_slide(self.v_step(), y as int, self.viewport_height as int - 1,
                self.height as int);
            assert(0 <= (x as int) * SCALE as int <= 4096000000int) by (nonlinear_arith)
                requires
                    0 <= x < 4096,
                    SCALE as int == 1000000int,
            ;
            assert(0 <= (y as int) * SCALE as int <= 4096000000int) by (nonlinear_arith)
                requires
                    0 <= y < 4096,
                    SCALE as int == 1000000int,
            ;
            lemma_step_scaled(hs as int, x as int, self.width as int);
            lemma_step_scaled(vs as int, y as int, self.height as int);
            vstd::arithmetic::div_mod::lemma_div_of0(SCALE as int);
        }
        let sx: i64 = (x as i64) * SCALE;
        let sy: i64 = (y as i64) * SCALE;
        bl.add(Vec3D::new(hs, 0, 0).mul(sx)).add(Vec3D::new(0, vs, 0).mul(sy)).sub(self.origin)
    }

    /// The color of one sample of one pixel, for the given jitter: the
    /// scene's nearest hit along the jittered ray, or black for the
    /// degenerate zero direction.
    pub fn sample_color(&self, scene: &Scene, base: Vec3D, jx: i64, jy: i64) -> (c: ColorRGB)
        requires
            self.wf(),
            scene.wf(),
            base.in_bounds(500000000000int),
            iabs(jx as int) <= MAX_EXTENT as int,
            iabs(jy as int) <= MAX_EXTENT as int,
        ensures
            c == self.sample_from_base(*scene, base, jx, jy),
            c.in_bounds(COLOR_LIMIT as int),
    {
        let dv = base.add(Vec3D::new(jx, jy, 0));
        if dv.x() == 0 && dv.y() == 0 && dv.z() == 0 {
            Vec3D::black()
        } else {
            let ray = Ray::new(self.origin, dv);
            proof {
                crate::objects::lemma_scene_hit_props(*scene, ray, 0, COORD_LIMIT);
            }
            match scene.hit(ray, 0, COORD_LIMIT) {
                Some(rec) => rec.color,
                None => Vec3D::black(),
            }
        }
    }

    /// Renders one ray through each pixel's anchor with zero jitter:
    /// a deterministic render, exactly reproducible across runs, with
    /// one entry per pixel in scan order.
    #[verifier::loop_isolation(false)]
    pub fn render_single_sample(&self, scene: &Scene) -> (r: Vec<ColorRGB>)
        requires
            self.wf(),
            scene.wf(),
        ensures
            r@.len() == self.viewport_width as int * self.viewport_height as int,
            forall|xx: int, yy: int|
                0 <= xx < self.viewport_width as int && 0 <= yy < self.viewport_height as int
                    ==> r@[#[trigger] Self::pixel_index(
                    self.viewport_width as int,
                    self.viewport_height as int,
                    xx,
                    yy,
                )] == self.sample_color_spec(*scene, xx, yy, 0, 0),
    {
        let setup = self.viewport_setup();
        let (hs, vs, bl) = setup;
        let vw: u32 = self.viewport_width;
        let vh: u32 = self.viewport_height;
        let mut out: Vec<ColorRGB> = Vec::new();
        let mut y: u32 = vh;
        while y > 0
            invariant
                0 <= y <= vh,
                out@.len() == (vh - y) as int * vw as int,
                forall|xx: int, yy: int|
                    0 <= xx < vw as int && y as int <= yy < vh as int ==> out@[
                        #[trigger] Self::pixel_index(vw as int, vh as int, xx, yy)
                    ] == self.sample_color_spec(*scene, xx, yy, 0, 0),
            decreases y,
        {
            y = y - 1;
            let mut x: u32 = 0;
            while x < vw
                invariant
                    0 <= x <= vw,
                    0 <= y < vh,
                    out@.len() == (vh - 1 - y) as int * vw as int + x as int,
                    forall|xx: int, yy: int|
                        0 <= xx < vw as int && y as int + 1 <= yy < vh as int ==> out@[
                            #[trigger] Self::pixel_index(vw as int, vh as int, xx, yy)
                        ] == self.sample_color_spec(*scene, xx, yy, 0, 0),
                    forall|xx: int|
                        0 <= xx < x as int ==> out@[
                            #[trigger] Self::pixel_index(vw as int, vh as int, xx, y as int)
                        ] == self.sample_color_spec(*scene, xx, y as int, 0, 0),
                decreases vw - x,
            {
                let base = self.base_dir(bl, hs, vs, x, y);
                let c = self.sample_color(scene, base, 0, 0);
                out.push(c);
                proof {
                    assert forall|xx: int, yy: int|
                        0 <= xx < vw as int && y as int + 1 <= yy < vh as int implies out@[
                        #[trigger] Self::pixel_index(vw as int, vh as int, xx, yy)
                    ] == self.sample_color_spec(*scene, xx, yy, 0, 0) by {
                        lemma_row_lt(vw as int, vh as int - 1 - yy, vh as int - 1 - y as int);
                    }
                }
                x = x + 1;
            }
            proof {
                assert(((vh - 1 - y) as int + 1) * vw as int == (vh - 1 - y) as int * vw as int
                    + vw as int) by (nonlinear_arith);
            }
        }
        proof {
            assert((vh as int) * (vw as int) == (vw as int) * (vh as int)) by (nonlinear_arith);
        }
        out
    }

    /// Renders the scene: for every pixel, casts `SAMPLE_COUNT` rays
    /// with independent uniform jitter of at most half a pixel step in
    /// each viewport axis, and averages the sampled colors.
    #[verifier::loop_isolation(false)]
    pub fn render(&self, scene: &Scene) -> (r: Vec<ColorRGB>)
        requires
            self.wf(),
            scene.wf(),
        ensures
            r@.len() == self.viewport_width as int * self.viewport_height as int,
            forall|xx: int, yy: int|
                0 <= xx < self.viewport_width as int && 0 <= yy < self.viewport_height as int
                    ==> #[trigger] self.pixel_rendered(*scene, r@, xx, yy),
    {
        let setup = self.viewport_setup();
        let (hs, vs, bl) = setup;
        let hs2: i64 = ((hs as u64) / 2) as i64;
        let vs2: i64 = ((vs as u64) / 2) as i64;
        proof {
            self.lemma_slide_bounds();
            lemma_div_pos_is_pos(hs as int, 2);
            lemma_div_nonincreasing(hs as int, 2);
            lemma_div_pos_is_pos(vs as int, 2);
            lemma_div_nonincreasing(vs as int, 2);
        }
        let vw: u32 = self.viewport_width;
        let vh: u32 = self.viewport_height;
        let mut out: Vec<ColorRGB> = Vec::new();
        let ghost mut log: Seq<Seq<(i64, i64)>> = Seq::empty();
        let mut y: u32 = vh;
        while y > 0
            invariant
                0 <= y <= vh,
                out@.len() == (vh - y) as int * vw as int,
                log.len() == out@.len(),
                forall|xx: int, yy: int|
                    0 <= xx < vw as int && y as int <= yy < vh as int ==> self.jitter_ok(
                        log[#[trigger] Self::pixel_index(vw as int, vh as int, xx, yy)],
                    ) && out@[Self::pixel_index(vw as int, vh as int, xx, yy)]
                        == self.pixel_spec(
                        *scene,
                        xx,
                        yy,
                        log[Self::pixel_index(vw as int, vh as int, xx, yy)],
                    ),
            decreases y,
        {
            y = y - 1;
            let mut x: u32 = 0;
            while x < vw
                invariant
                    0 <= x <= vw,
                    0 <= y < vh,
                    out@.len() == (vh - 1 - y) as int * vw as int + x as int,
                    log.len() == out@.len(),
                    forall|xx: int, yy: int|
                        0 <= xx < vw as int && y as int + 1 <= yy < vh as int ==> self.jitter_ok(
                            log[#[trigger] Self::pixel_index(vw as int, vh as int, xx, yy)],
                        ) && out@[Self::pixel_index(vw as int, vh as int, xx, yy)]
                            == self.pixel_spec(
                            *scene,
                            xx,
                            yy,
                            log[Self::pixel_index(vw as int, vh as int, xx, yy)],
                        ),
                    forall|xx: int|
                        0 <= xx < x as int ==> self.jitter_ok(
                            log[#[trigger] Self::pixel_index(vw as int, vh as int, xx, y as int)],
                        ) && out@[Self::pixel_index(vw as int, vh as int, xx, y as int)]
                            == self.pixel_spec(
                            *scene,
                            xx,
                            y as int,
                            log[Self::pixel_index(vw as int, vh as int, xx, y as int)],
                        ),
                decreases vw - x,
            {
                let base = self.base_dir(bl, hs, vs, x, y);
                let mut acc = Vec3D::zeros();
                let ghost mut jits: Seq<(i64, i64)> = Seq::empty();
                let mut k: usize = 0;
                while k < SAMPLE_COUNT
                    invariant
                        0 <= k <= SAMPLE_COUNT,
                        jits.len() == k as int,
                        forall|j: int|
                            0 <= j < jits.len() ==> iabs((#[trigger] jits[j]).0 as int)
                                <= self.h_step() / 2 && iabs(jits[j].1 as int) <= self.v_step()
                                / 2,
                        acc == self.samples_sum(*scene, x as int, y as int, jits),
                        acc.in_bounds(k as int * 300000000000000int),
                    decreases SAMPLE_COUNT - k,
                {
                    let jx = random_jitter(-hs2, hs2);
                    let jy = random_jitter(-vs2, vs2);
                    let c = self.sample_color(scene, base, jx, jy);
                    proof {
                        assert(jits.push((jx, jy)).drop_last() =~= jits);
                    }
                    acc = acc.add(c);
                    proof {
                        jits = jits.push((jx, jy));
                    }
                    k = k + 1;
                }
                proof {
                    assert(iabs(acc.x as int * SCALE as int) <= 300000000000000int * (64
                        * SCALE as int)) by (nonlinear_arith)
                        requires
                            iabs(acc.x as int) <= 64int * 300000000000000int,
                            SCALE as int == 1000000int,
                    ;
                    assert(iabs(acc.y as int * SCALE as int) <= 300000000000000int * (64
                        * SCALE as int)) by (nonlinear_arith)
                        requires
                            iabs(acc.y as int) <= 64int * 300000000000000int,
                            SCALE as int == 1000000int,
                    ;
                    assert(iabs(acc.z as int * SCALE as int) <= 300000000000000int * (64
                        * SCALE as int)) by (nonlinear_arith)
                        requires
                            iabs(acc.z as int) <= 64int * 300000000000000int,
                            SCALE as int == 1000000int,
                    ;
                    lemma_tdiv_bound(acc.x as int * SCALE as int, 64 * SCALE as int,
                        300000000000000int);
                    lemma_tdiv_bound(acc.y as int * SCALE as int, 64 * SCALE as int,
                        300000000000000int);
                    lemma_tdiv_bound(acc.z as int * SCALE as int, 64 * SCALE as int,
                        300000000000000int);
                }
                let d: i64 = 64 * SCALE;
                let pixel = ColorRGB::new(
                    mul_div(acc.x0(), SCALE, d),
                    mul_div(acc.x1(), SCALE, d),
                    mul_div(acc.x2(), SCALE, d),
                );
                proof {
                    assert(pixel == self.pixel_spec(*scene, x as int, y as int, jits));
                }
                out.push(pixel);
                proof {
                    log = log.push(jits);
                    assert forall|xx: int, yy: int|
                        0 <= xx < vw as int && y as int + 1 <= yy < vh as int implies self
                        .jitter_ok(
                        log[#[trigger] Self::pixel_index(vw as int, vh as int, xx, yy)],
                    ) && out@[Self::pixel_index(vw as int, vh as int, xx, yy)] == self.pixel_spec(
                        *scene,
                        xx,
                        yy,
                        log[Self::pixel_index(vw as int, vh as int, xx, yy)],
                    ) by {
                        lemma_row_lt(vw as int, vh as int - 1 - yy, vh as int - 1 - y as int);
                        assert(Self::pixel_index(vw as int, vh as int, xx, yy) < out@.len() - 1);
                    }
                }
                x = x + 1;
            }
            proof {
                assert(((vh - 1 - y) as int + 1) * vw as int == (vh - 1 - y) as int * vw as int
                    + vw as int) by (nonlinear_arith);
            }
        }
        proof {
            assert((vh as int) * (vw as int) == (vw as int) * (vh as int)) by (nonlinear_arith);
            assert forall|xx: int, yy: int|
                0 <= xx < self.viewport_width as int && 0 <= yy < self.viewport_height as int
                implies #[trigger] self.pixel_rendered(*scene, out@, xx, yy) by {
                let w = log[Self::pixel_index(vw as int, vh as int, xx, yy)];
                assert(self.jitter_ok(w) && out@[Self::pixel_index(vw as int, vh as int, xx, yy)]
                    == self.pixel_spec(*scene, xx, yy, w));
            }
        }
        out
    }

    /// The grid entry for pixel `(xx, yy)` is the average of some
    /// sample set whose jitters all stay within half a pixel step.
    pub open spec fn pixel_rendered(self, scene: Scene, grid: Seq<ColorRGB>, xx: int, yy: int) -> bool {
        exists|jits: Seq<(i64, i64)>|
            self.jitter_ok(jits) && grid[Self::pixel_index(
                self.viewport_width as int,
                self.viewport_height as int,
                xx,
                yy,
            )] == #[trigger] self.pixel_spec(scene, xx, yy, jits)
    }

    /// Every jitter of a sample set stays within half a pixel step on
    /// each axis, and there is one per sample.
    pub open spec fn jitter_ok(self, jits: Seq<(i64, i64)>) -> bool {
        &&& jits.len() == SAMPLE_COUNT as int
        &&& forall|j: int|
            0 <= j < jits.len() ==> iabs((#[trigger] jits[j]).0 as int) <= self.h_step() / 2
                && iabs(jits[j].1 as int) <= self.v_step() / 2
    }

    /// Re-aims the camera: the direction becomes the unit vector from
    /// the origin toward `point`.
    pub fn look_at(&mut self, point: Vec3D)
        requires
            old(self).wf(),
            point.in_bounds(COORD_LIMIT as int),
            point != old(self).origin,
        ensures
            final(self).dir == point.sub_spec(old(self).origin).unit_spec(),
            final(self).origin == old(self).origin,
            final(self).width == old(self).width,
            final(self).height == old(self).height,
            final(self).focal_length == old(self).focal_length,
            final(self).viewport_width == old(self).viewport_width,
            final(self).viewport_height == old(self).viewport_height,
            final(self).wf(),
    {
        let d = point.sub(self.origin);
        proof {
            assert(!d.is_zero());
        }
        self.dir = d.unit();
    }
}

/// Earlier rows land strictly below later rows in the output grid.
proof fn lemma_row_lt(vw: int, r1: int, r2: int)
    by (nonlinear_arith)
    requires
        0 <= r1 < r2,
        1 <= vw,
    ensures
        r1 * vw + vw <= r2 * vw,
{
}

/// A partial slide never exceeds the full extent.
proof fn lemma_partial_slide(step: int, x: int, n: int, w: int)
    by (nonlinear_arith)
    requires
        0 <= step,
        0 <= x <= n,
        step * (n + 1) <= w,
    ensures
        0 <= step * x <= w,
{
}

/// Scaling a pixel count by the fixed-point step keeps the offset
/// within the viewport extent.
proof fn lemma_step_scaled(step: int, x: int, w: int)
    requires
        0 <= step,
        0 <= x,
        step * x <= w,
        0 <= w,
    ensures
        0 <= tdiv(step * (x * SCALE as int), SCALE as int) <= w,
{
    assert(step * (x * SCALE as int) == (step * x) * SCALE as int && 0 <= step * x)
        by (nonlinear_arith)
        requires
            0 <= step,
            0 <= x,
    ;
    assert(iabs((step * x) * SCALE as int) <= w * SCALE as int) by (nonlinear_arith)
        requires
            0 <= step * x <= w,
    ;
    lemma_tdiv_bound(step * (x * SCALE as int), SCALE as int, w);
    lemma_tdiv_nonneg(step * (x * SCALE as int), SCALE as int);
}

} // verus!
