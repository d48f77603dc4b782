//! Scene objects: the hit-test capability, spheres, and the aggregate
//! scene with its background fallback.

use vstd::prelude::*;
use crate::math::vec3d::{ColorRGB, Vec3D, lemma_prod_bound, lemma_len2_raw_bounds, scalar_mul};
use crate::math::ray::{lemma_at_in_bounds, Ray};
use crate::num::{
    iabs, isqrt, tdiv, div_i128, isqrt_u128, lemma_tdiv_bound, lemma_tdiv_exact,
    lemma_tdiv_nonneg, COORD_LIMIT, SCALE,
};

verus! {

/// The smallest sphere radius the library accepts: one thousandth of a
/// world unit. It keeps surface normals within the color range that the
/// render loop can accumulate.
pub const MIN_RADIUS: i64 = 1_000;

/// Every color a hit test can report has components of magnitude at
/// most this value.
pub const COLOR_LIMIT: i64 = 300_000_000_000_000;

/// A thing that can be moved around in space: scene objects as well as
/// the camera.
pub trait Moveable {
    spec fn loc_spec(&self) -> Vec3D;

    /// The current location.
    fn location(&self) -> (r: Vec3D)
        ensures
            r == self.loc_spec(),
    ;

    /// Moves to an absolute location.
    fn move_to(&mut self, destination: Vec3D)
        ensures
            final(self).loc_spec() == destination,
    ;

    /// Moves by an offset.
    fn move_by(&mut self, x: i64, y: i64, z: i64)
        requires
            i64::MIN <= old(self).loc_spec().x + x <= i64::MAX,
            i64::MIN <= old(self).loc_spec().y + y <= i64::MAX,
            i64::MIN <= old(self).loc_spec().z + z <= i64::MAX,
        ensures
            final(self).loc_spec() == old(self).loc_spec().add_spec(Vec3D { x, y, z }),
    ;
}

/// A basic movable value: an origin point.
pub struct Origin {
    pub location: Vec3D,
}

impl Origin {
    pub fn new(x: i64, y: i64, z: i64) -> (r: Self)
        ensures
            r.location == (Vec3D { x, y, z }),
    {
        Self { location: Vec3D::new(x, y, z) }
    }

    pub fn at_center() -> (r: Self)
        ensures
            r.location == (Vec3D { x: 0i64, y: 0i64, z: 0i64 }),
    {
        Self { location: Vec3D::zeros() }
    }
}

impl Moveable for Origin {
    open spec fn loc_spec(&self) -> Vec3D {
        self.location
    }

    fn location(&self) -> (r: Vec3D) {
        self.location
    }

    fn move_to(&mut self, destination: Vec3D) {
        self.location = destination;
    }

    fn move_by(&mut self, x: i64, y: i64, z: i64) {
        self.location.add_assign(Vec3D::new(x, y, z));
    }
}

/// One ray/object intersection event. `color` encodes the surface
/// normal at the hit point (a debug visualization; there is no material
/// or light model).
#[derive(Clone, Copy, Debug, PartialEq, Eq, Structural)]
pub struct HitRecord {
    pub dist: i64,
    pub normal: Vec3D,
    pub point: Vec3D,
    pub color: ColorRGB,
    pub is_front: bool,
}

/// The capability of being tested for ray intersection.
pub trait Hittable: Sized {
    /// What the implementation asks of itself before a hit test.
    spec fn hit_req(&self) -> bool;

    /// The mathematical result of the hit test.
    spec fn hit_spec(&self, ray: Ray, dist_min: i64, dist_max: i64) -> Option<HitRecord>;

    /// Tests the ray against this object over `[dist_min, dist_max]`.
    fn hit(&self, ray: Ray, dist_min: i64, dist_max: i64) -> (r: Option<HitRecord>)
        requires
            self.hit_req(),
            ray.wf(),
            iabs(dist_min as int) <= COORD_LIMIT as int,
            iabs(dist_max as int) <= COORD_LIMIT as int,
        ensures
            r == self.hit_spec(ray, dist_min, dist_max),
    ;
}

/// A sphere, the one concrete primitive.
pub struct Sphere {
    pub center: Vec3D,
    pub radius: i64,
}

impl Sphere {
    pub open spec fn wf(self) -> bool {
        &&& self.center.in_bounds(COORD_LIMIT as int)
        &&& MIN_RADIUS <= self.radius <= COORD_LIMIT
    }

    /// The offset from the sphere's center to the ray's origin.
    pub open spec fn oc_spec(self, ray: Ray) -> Vec3D {
        ray.origin.sub_spec(self.center)
    }

    /// Quadratic coefficient `a`: the raw squared length of the
    /// direction.
    pub open spec fn hit_a(self, ray: Ray) -> int {
        ray.dir.len2_raw()
    }

    /// Half the quadratic coefficient `b`.
    pub open spec fn hit_h(self, ray: Ray) -> int {
        ray.dir.dot_raw(self.oc_spec(ray))
    }

    /// Quadratic coefficient `c`.
    pub open spec fn hit_c(self, ray: Ray) -> int {
        self.oc_spec(ray).len2_raw() - self.radius * self.radius
    }

    /// The quarter discriminant; the ray meets the sphere exactly when
    /// it is nonnegative.
    pub open spec fn hit_disc(self, ray: Ray) -> int {
        self.hit_h(ray) * self.hit_h(ray) - self.hit_a(ray) * self.hit_c(ray)
    }

    /// The distance to the smaller quadratic root. The larger root is
    /// never consulted, even when this one lies outside the queried
    /// range.
    pub open spec fn hit_dist(self, ray: Ray) -> int {
        tdiv((-self.hit_h(ray) - isqrt(self.hit_disc(ray))) * SCALE, self.hit_a(ray))
    }

    /// The outward surface normal at `point`.
    pub open spec fn normal_spec(self, point: Vec3D) -> Vec3D {
        point.sub_spec(self.center).div_spec(self.radius as int)
    }

    pub open spec fn sphere_hit_spec(self, ray: Ray, dist_min: i64, dist_max: i64) -> Option<
        HitRecord,
    > {
        if self.hit_disc(ray) < 0 {
            None
        } else {
            let t = self.hit_dist(ray);
            if t < dist_min || t > dist_max {
                None
            } else {
                let point = ray.at_spec(t);
                let normal = self.normal_spec(point);
                Some(
                    HitRecord {
                        dist: t as i64,
                        normal: normal,
                        point: point,
                        color: normal,
                        is_front: normal.dot_raw(ray.dir) < 0,
                    },
                )
            }
        }
    }

    pub fn new(x: i64, y: i64, z: i64, radius: i64) -> (r: Self)
        requires
            iabs(x as int) <= COORD_LIMIT as int,
            iabs(y as int) <= COORD_LIMIT as int,
            iabs(z as int) <= COORD_LIMIT as int,
            MIN_RADIUS <= radius <= COORD_LIMIT,
        ensures
            r.center == (Vec3D { x, y, z }),
            r.radius == radius,
            r.wf(),
    {
        Self { center: Vec3D::new(x, y, z), radius }
    }
}

/// The raw (unscaled) dot product, exact over `i128` intermediates.
fn dot_raw_i128(a: &Vec3D, b: &Vec3D) -> (r: i128)
    requires
        a.in_bounds(1000000000000000000int),
        b.in_bounds(1000000000000000000int),
    ensures
        r as int == a.dot_raw(*b),
{
    proof {
        lemma_prod_bound(a.x as int, b.x as int, 1000000000000000000int, 1000000000000000000int);
        lemma_prod_bound(a.y as int, b.y as int, 1000000000000000000int, 1000000000000000000int);
        lemma_prod_bound(a.z as int, b.z as int, 1000000000000000000int, 1000000000000000000int);
    }
    (a.x as i128) * (b.x as i128) + (a.y as i128) * (b.y as i128) + (a.z as i128) * (b.z as i128)
}

impl Hittable for Sphere {
    open spec fn hit_req(&self) -> bool {
        self.wf()
    }

    open spec fn hit_spec(&self, ray: Ray, dist_min: i64, dist_max: i64) -> Option<HitRecord> {
        self.sphere_hit_spec(ray, dist_min, dist_max)
    }

    /// Closed-form quadratic intersection, smaller root only.
    fn hit(&self, ray: Ray, dist_min: i64, dist_max: i64) -> (r: Option<HitRecord>) {
        let oc = ray.origin().sub(self.center);
        proof {
            lemma_hit_coeff_bounds(*self, ray);
            crate::math::vec3d::lemma_len2_pos(ray.dir);
            crate::math::vec3d::lemma_square_bound(self.radius as int, COORD_LIMIT as int);
        }
        let a: i128 = dot_raw_i128(&ray.dir, &ray.dir);
        let h: i128 = dot_raw_i128(&ray.dir, &oc);
        let c: i128 = dot_raw_i128(&oc, &oc) - (self.radius as i128) * (self.radius as i128);
        let disc: i128 = h * h - a * c;
        if disc < 0 {
            return None;
        }
        let s: u64 = isqrt_u128(disc as u128);
        proof {
            assert((s as int) * (s as int) <= disc as int);
            assert(s as int <= 1000000000000000000int) by (nonlinear_arith)
                requires
                    (s as int) * (s as int) <= disc as int,
                    disc as int <= 750000000000000000000000000000000000int,
                    s >= 0,
            ;
        }
        proof {
            assert(iabs((-(h as int) - (s as int)) * (SCALE as int))
                <= 2000000000000000000000000int) by (nonlinear_arith)
                requires
                    iabs(h as int) <= 600000000000000000int,
                    0 <= s as int <= 1000000000000000000int,
                    SCALE as int == 1000000int,
            ;
        }
        let num: i128 = (-h - s as i128) * (SCALE as i128);
        let t128: i128 = div_i128(num, a);
        proof {
            crate::num::lemma_tdiv_le_num(num as int, a as int);
        }
        if t128 < dist_min as i128 || t128 > dist_max as i128 {
            return None;
        }
        let t: i64 = t128 as i64;
        let point = ray.at(t);
        let normal = point.sub(self.center).div(self.radius);
        proof {
            lemma_normal_in_bounds(*self, point);
        }
        Some(
            HitRecord {
                dist: t,
                normal: normal,
                point: point,
                color: normal,
                is_front: dot_raw_i128(&normal, &ray.dir) < 0,
            },
        )
    }
}

/// Bounds on the quadratic coefficients of a well-formed hit test: they
/// keep every intermediate within `i128`.
proof fn lemma_hit_coeff_bounds(s: Sphere, ray: Ray)
    requires
        s.wf(),
        ray.wf(),
    ensures
        1 <= s.hit_a(ray) <= 3000000000000int,
        iabs(s.hit_h(ray)) <= 600000000000000000int,
        iabs(s.hit_c(ray)) <= 130000000000000000000000int,
        iabs(s.hit_h(ray) * s.hit_h(ray)) <= 360000000000000000000000000000000000int,
        iabs(s.hit_a(ray) * s.hit_c(ray)) <= 390000000000000000000000000000000000int,
        iabs(s.hit_disc(ray)) <= 750000000000000000000000000000000000int,
        s.oc_spec(ray).in_bounds(2 * COORD_LIMIT as int),
{
    let oc = s.oc_spec(ray);
    let m = 2 * COORD_LIMIT as int;
    assert(m == 200000000000int);
    assert(oc.in_bounds(m));
    lemma_len2_raw_bounds(ray.dir, SCALE as int);
    assert(3 * SCALE as int * SCALE as int == 3000000000000int) by (nonlinear_arith)
        requires
            SCALE as int == 1000000int,
    ;
    crate::math::vec3d::lemma_len2_pos(ray.dir);
    lemma_dot_bound_mixed(ray.dir, oc, SCALE as int, m);
    assert(3 * (SCALE as int * m) == 600000000000000000int) by (nonlinear_arith)
        requires
            SCALE as int == 1000000int,
            m == 200000000000int,
    ;
    lemma_len2_raw_bounds(oc, m);
    assert(3 * m * m == 120000000000000000000000int) by (nonlinear_arith)
        requires
            m == 200000000000int,
    ;
    crate::math::vec3d::lemma_square_bound(s.radius as int, COORD_LIMIT as int);
    assert(COORD_LIMIT as int * COORD_LIMIT as int == 10000000000000000000000int)
        by (nonlinear_arith)
        requires
            COORD_LIMIT as int == 100000000000int,
    ;
    lemma_prod_bound(s.hit_h(ray), s.hit_h(ray), 600000000000000000int, 600000000000000000int);
    assert(600000000000000000int * 600000000000000000int
        == 360000000000000000000000000000000000int) by (nonlinear_arith);
    lemma_prod_bound(s.hit_a(ray), s.hit_c(ray), 3000000000000int, 130000000000000000000000int);
    assert(3000000000000int * 130000000000000000000000int
        == 390000000000000000000000000000000000int) by (nonlinear_arith);
}

/// `|dot_raw(a, b)| <= 3 * ma * mb` for componentwise-bounded vectors.
proof fn lemma_dot_bound_mixed(a: Vec3D, b: Vec3D, ma: int, mb: int)
    requires
        a.in_bounds(ma),
        b.in_bounds(mb),
    ensures
        iabs(a.dot_raw(b)) <= 3 * (ma * mb),
{
    lemma_prod_bound(a.x as int, b.x as int, ma, mb);
    lemma_prod_bound(a.y as int, b.y as int, ma, mb);
    lemma_prod_bound(a.z as int, b.z as int, ma, mb);
}

/// The normal of a hit on a well-formed sphere stays within the color
/// accumulation range.
proof fn lemma_normal_in_bounds(s: Sphere, point: Vec3D)
    requires
        s.wf(),
        point.in_bounds(2 * COORD_LIMIT as int),
    ensures
        iabs(tdiv((point.x - s.center.x) * SCALE, s.radius as int)) <= COLOR_LIMIT as int,
        iabs(tdiv((point.y - s.center.y) * SCALE, s.radius as int)) <= COLOR_LIMIT as int,
        iabs(tdiv((point.z - s.center.z) * SCALE, s.radius as int)) <= COLOR_LIMIT as int,
        s.normal_spec(point).in_bounds(COLOR_LIMIT as int),
{
    lemma_normal_comp(point.x as int, s.center.x as int, s.radius as int);
    lemma_normal_comp(point.y as int, s.center.y as int, s.radius as int);
    lemma_normal_comp(point.z as int, s.center.z as int, s.radius as int);
}

/// One member of a scene: a tagged variant per primitive kind, so new
/// primitives can be added without touching the scene's callers.
pub enum Object {
    Sphere(Sphere),
}

impl Object {
    pub open spec fn wf(self) -> bool {
        match self {
            Object::Sphere(s) => s.wf(),
        }
    }
}

impl Hittable for Object {
    open spec fn hit_req(&self) -> bool {
        self.wf()
    }

    open spec fn hit_spec(&self, ray: Ray, dist_min: i64, dist_max: i64) -> Option<HitRecord> {
        match *self {
            Object::Sphere(s) => s.sphere_hit_spec(ray, dist_min, dist_max),
        }
    }

    fn hit(&self, ray: Ray, dist_min: i64, dist_max: i64) -> (r: Option<HitRecord>) {
        match self {
            Object::Sphere(s) => s.hit(ray, dist_min, dist_max),
        }
    }
}

/// An aggregate of objects; it owns its members and resolves the
/// nearest intersection across all of them.
pub struct Scene {
    pub objects: Vec<Object>,
}

impl Scene {
    pub open spec fn wf(self) -> bool {
        forall|i: int|
            0 <= i < self.objects@.len() ==> (#[trigger] self.objects@[i]).wf()
    }

    /// The nearest qualifying hit over a sequence of objects, scanned
    /// front to back; a strictly smaller distance replaces the record
    /// seen so far, so ties keep the earliest member.
    pub open spec fn nearest_hit(
        objs: Seq<Object>,
        ray: Ray,
        dist_min: i64,
        dist_max: i64,
    ) -> Option<HitRecord>
        decreases objs.len(),
    {
        if objs.len() == 0 {
            None
        } else {
            let prev = Self::nearest_hit(objs.drop_last(), ray, dist_min, dist_max);
            let cur = objs.last().hit_spec(ray, dist_min, dist_max);
            match prev {
                None => cur,
                Some(p) => match cur {
                    None => Some(p),
                    Some(c) => if c.dist < p.dist {
                        Some(c)
                    } else {
                        Some(p)
                    },
                },
            }
        }
    }

    /// The vertical background gradient: white below, a pale
    /// green-blue above, driven by the ray's normalized y component.
    pub open spec fn ray_color_spec(ray: Ray) -> ColorRGB {
        let t = tdiv(ray.dir.unit_spec().y + SCALE, 2);
        (Vec3D { x: SCALE, y: SCALE, z: SCALE }).mul_spec(SCALE - t).add_spec(
            (Vec3D { x: 200000i64, y: 400000i64, z: 200000i64 }).mul_spec(t),
        )
    }

    /// The synthetic record reported when a ray hits nothing: not an
    /// intersection, all geometric fields zeroed.
    pub open spec fn background_spec(ray: Ray) -> HitRecord {
        HitRecord {
            dist: 0,
            normal: Vec3D { x: 0i64, y: 0i64, z: 0i64 },
            point: Vec3D { x: 0i64, y: 0i64, z: 0i64 },
            color: Self::ray_color_spec(ray),
            is_front: true,
        }
    }

    fn ray_color(ray: &Ray) -> (c: ColorRGB)
        requires
            ray.wf(),
        ensures
            c == Self::ray_color_spec(*ray),
    {
        let u = ray.dir().unit();
        let l: i64 = u.y() + SCALE;
        let t: i64 = ((l as u64) / 2) as i64;
        proof {
            lemma_tdiv_nonneg(l as int, 2);
            assert(SCALE as int * SCALE as int == 1000000000000int) by (nonlinear_arith)
                requires
                    SCALE as int == 1000000int,
            ;
            crate::math::vec3d::lemma_mul_spec_bounds(
                Vec3D { x: SCALE, y: SCALE, z: SCALE },
                SCALE as int - t as int,
                SCALE as int,
                SCALE as int,
            );
            crate::math::vec3d::lemma_mul_spec_bounds(
                Vec3D { x: 200000i64, y: 400000i64, z: 200000i64 },
                t as int,
                400000int,
                SCALE as int,
            );
            assert(400000int * SCALE as int == 400000000000int) by (nonlinear_arith)
                requires
                    SCALE as int == 1000000int,
            ;
        }
        scalar_mul(SCALE - t, Vec3D::white()).add(scalar_mul(t, Vec3D::new(200000, 400000, 200000)))
    }

    pub fn new() -> (r: Self)
        ensures
            r.objects@.len() == 0,
            r.wf(),
    {
        Self { objects: Vec::new() }
    }

    /// Appends an object; the scene owns it from now on.
    pub fn add(&mut self, obj: Object)
        requires
            old(self).wf(),
            obj.wf(),
        ensures
            final(self).objects@ == old(self).objects@.push(obj),
            final(self).wf(),
    {
        self.objects.push(obj);
        proof {
            assert forall|i: int| 0 <= i < self.objects@.len() implies (#[trigger] self
                .objects@[i]).wf() by {
                if i < self.objects@.len() - 1 {
                    assert(self.objects@[i] == old(self).objects@[i]);
                }
            }
        }
    }
}

impl Hittable for Scene {
    open spec fn hit_req(&self) -> bool {
        self.wf()
    }

    /// The nearest member hit, or the synthetic background record:
    /// a scene always reports a record.
    open spec fn hit_spec(&self, ray: Ray, dist_min: i64, dist_max: i64) -> Option<HitRecord> {
        match Scene::nearest_hit(self.objects@, ray, dist_min, dist_max) {
            None => Some(Scene::background_spec(ray)),
            r => r,
        }
    }

    #[verifier::loop_isolation(false)]
    fn hit(&self, ray: Ray, dist_min: i64, dist_max: i64) -> (r: Option<HitRecord>) {
        let mut best: Option<HitRecord> = None;
        let n: usize = self.objects.len();
        let mut i: usize = 0;
        while i < n
            invariant
                0 <= i <= n,
                best == Scene::nearest_hit(
                    self.objects@.take(i as int),
                    ray,
                    dist_min,
                    dist_max,
                ),
            decreases n - i,
        {
            let cur = self.objects[i].hit(ray, dist_min, dist_max);
            best = match (best, cur) {
                (None, c) => c,
                (Some(b), None) => Some(b),
                (Some(b), Some(c)) => if c.dist < b.dist {
                    Some(c)
                } else {
                    Some(b)
                },
            };
            proof {
                assert(self.objects@.take(i as int + 1).drop_last() =~= self.objects@.take(
                    i as int,
                ));
                assert(self.objects@.take(i as int + 1).last() == self.objects@[i as int]);
            }
            i += 1;
        }
        proof {
            assert(self.objects@.take(n as int) =~= self.objects@);
        }
        match best {
            None => Some(
                HitRecord {
                    dist: 0,
                    normal: Vec3D::zeros(),
                    point: Vec3D::zeros(),
                    color: Self::ray_color(&ray),
                    is_front: true,
                },
            ),
            Some(b) => Some(b),
        }
    }
}

/// The background gradient stays within two units of intensity per
/// channel.
pub proof fn lemma_background_color(ray: Ray)
    requires
        ray.wf(),
    ensures
        Scene::ray_color_spec(ray).in_bounds(2 * SCALE as int),
{
    crate::math::vec3d::lemma_unit_props(ray.dir);
    let u = ray.dir.unit_spec();
    lemma_tdiv_nonneg(u.y + SCALE, 2);
    let t = tdiv(u.y as int + SCALE as int, 2);
    assert(0 <= t <= SCALE);
    assert((SCALE as int - t) * SCALE as int == SCALE as int * (SCALE as int - t));
    lemma_tdiv_exact(SCALE as int - t, SCALE as int);
    lemma_sky_comp(200000, t);
    lemma_sky_comp(400000, t);
}

proof fn lemma_sky_comp(c: int, t: int)
    requires
        0 <= c <= 400000,
        0 <= t <= SCALE as int,
    ensures
        0 <= tdiv(c * t, SCALE as int) <= c,
{
    assert(iabs(c * t) <= c * SCALE as int) by (nonlinear_arith)
        requires
            0 <= c,
            0 <= t <= SCALE as int,
    ;
    lemma_tdiv_bound(c * t, SCALE as int, c);
    lemma_tdiv_nonneg(c * t, SCALE as int);
    assert(c * t >= 0) by (nonlinear_arith)
        requires
            c >= 0,
            t >= 0,
    ;
}

/// A sphere hit within a bounded query range reports a distance inside
/// that range and a color (the normal) within the accumulation range.
pub proof fn lemma_sphere_hit_props(s: Sphere, ray: Ray, dist_min: i64, dist_max: i64)
    requires
        s.wf(),
        ray.wf(),
        iabs(dist_min as int) <= COORD_LIMIT as int,
        iabs(dist_max as int) <= COORD_LIMIT as int,
    ensures
        match s.sphere_hit_spec(ray, dist_min, dist_max) {
            Some(rec) => rec.color.in_bounds(COLOR_LIMIT as int) && dist_min <= rec.dist
                <= dist_max && rec.color == rec.normal,
            None => true,
        },
{
    if s.hit_disc(ray) >= 0 {
        let t = s.hit_dist(ray);
        if dist_min <= t <= dist_max {
            lemma_at_in_bounds(ray, t);
            lemma_normal_in_bounds(s, ray.at_spec(t));
        }
    }
}

/// Every record a scan over well-formed objects can report stays within
/// the query range and the color accumulation range.
proof fn lemma_nearest_hit_props(objs: Seq<Object>, ray: Ray, dist_min: i64, dist_max: i64)
    requires
        forall|i: int| 0 <= i < objs.len() ==> (#[trigger] objs[i]).wf(),
        ray.wf(),
        iabs(dist_min as int) <= COORD_LIMIT as int,
        iabs(dist_max as int) <= COORD_LIMIT as int,
    ensures
        match Scene::nearest_hit(objs, ray, dist_min, dist_max) {
            Some(rec) => rec.color.in_bounds(COLOR_LIMIT as int) && dist_min <= rec.dist
                <= dist_max,
            None => true,
        },
    decreases objs.len(),
{
    if objs.len() > 0 {
        assert(forall|i: int|
            0 <= i < objs.drop_last().len() ==> (#[trigger] objs.drop_last()[i]).wf());
        lemma_nearest_hit_props(objs.drop_last(), ray, dist_min, dist_max);
        assert(objs.last().wf());
        match objs.last() {
            Object::Sphere(s) => lemma_sphere_hit_props(s, ray, dist_min, dist_max),
        }
    }
}

/// A scene always reports a record, and its color stays within the
/// accumulation range.
pub proof fn lemma_scene_hit_props(scene: Scene, ray: Ray, dist_min: i64, dist_max: i64)
    requires
        scene.wf(),
        ray.wf(),
        iabs(dist_min as int) <= COORD_LIMIT as int,
        iabs(dist_max as int) <= COORD_LIMIT as int,
    ensures
        match scene.hit_spec(ray, dist_min, dist_max) {
            Some(rec) => rec.color.in_bounds(COLOR_LIMIT as int),
            None => false,
        },
{
    lemma_nearest_hit_props(scene.objects@, ray, dist_min, dist_max);
    lemma_background_color(ray);
}

/// A ray fired straight at a sphere along the negative z axis from
/// distance `d` hits at exactly `d - radius`, facing front, with the
/// normal — and the reported color — pointing back along the axis,
/// from the center toward the intersection point.
pub proof fn lemma_sphere_head_on(ray: Ray, s: Sphere, d: i64, dist_min: i64, dist_max: i64)
    requires
        MIN_RADIUS <= s.radius < d <= COORD_LIMIT,
        ray.origin.in_bounds(COORD_LIMIT as int),
        ray.dir == (Vec3D { x: 0i64, y: 0i64, z: (-SCALE) as i64 }),
        s.center.x == ray.origin.x,
        s.center.y == ray.origin.y,
        s.center.z as int == ray.origin.z - d,
        s.center.in_bounds(COORD_LIMIT as int),
        0 <= dist_min <= d - s.radius <= dist_max,
    ensures
        s.sphere_hit_spec(ray, dist_min, dist_max) == Some(
            HitRecord {
                dist: (d - s.radius) as i64,
                normal: Vec3D { x: 0i64, y: 0i64, z: SCALE },
                point: Vec3D {
                    x: ray.origin.x,
                    y: ray.origin.y,
                    z: (ray.origin.z - (d - s.radius)) as i64,
                },
                color: Vec3D { x: 0i64, y: 0i64, z: SCALE },
                is_front: true,
            },
        ),
        (Vec3D { x: 0i64, y: 0i64, z: SCALE }).dot_raw(
            s.center.sub_spec(
                Vec3D {
                    x: ray.origin.x,
                    y: ray.origin.y,
                    z: (ray.origin.z - (d - s.radius)) as i64,
                },
            ),
        ) < 0,
{
    let sc = SCALE as int;
    let r = s.radius as int;
    let oc = s.oc_spec(ray);
    assert(oc.x == 0 && oc.y == 0 && oc.z == d);
    let a = s.hit_a(ray);
    let h = s.hit_h(ray);
    let c2 = s.hit_c(ray);
    assert(a == (-sc) * (-sc) && (-sc) * (-sc) == sc * sc) by (nonlinear_arith)
        requires
            a == 0int * 0int + 0int * 0int + (-sc) * (-sc),
    ;
    assert(h == (-sc) * (d as int)) by (nonlinear_arith)
        requires
            h == 0int * 0int + 0int * 0int + (-sc) * (d as int),
    ;
    assert(c2 == (d as int) * (d as int) - r * r) by (nonlinear_arith)
        requires
            c2 == 0int * 0int + 0int * 0int + (d as int) * (d as int) - r * r,
    ;
    assert(s.hit_disc(ray) == (sc * r) * (sc * r)) by (nonlinear_arith)
        requires
            s.hit_disc(ray) == h * h - a * c2,
            h == (-sc) * (d as int),
            a == sc * sc,
            c2 == (d as int) * (d as int) - r * r,
    ;
    assert(sc * r >= 0) by (nonlinear_arith)
        requires
            sc > 0,
            r > 0,
    ;
    crate::num::lemma_isqrt_square(sc * r);
    let t = s.hit_dist(ray);
    assert((-h - sc * r) * sc == ((d - s.radius) as int) * (sc * sc)) by (nonlinear_arith)
        requires
            h == (-sc) * (d as int),
            r == s.radius as int,
    ;
    assert(sc * sc > 0) by (nonlinear_arith)
        requires
            sc > 0,
    ;
    lemma_tdiv_exact((d - s.radius) as int, sc * sc);
    assert(t == d - s.radius);
    let point = ray.at_spec(t);
    vstd::arithmetic::div_mod::lemma_div_of0(sc);
    assert(ray.dir.x * t == 0 && ray.dir.y * t == 0);
    assert(ray.dir.z * t == (-(t)) * sc) by (nonlinear_arith)
        requires
            ray.dir.z as int == -sc,
    ;
    lemma_tdiv_exact(-(t), sc);
    assert(point.x == ray.origin.x && point.y == ray.origin.y);
    assert(point.z as int == ray.origin.z - (d - s.radius));
    let normal = s.normal_spec(point);
    let diff = point.sub_spec(s.center);
    assert(diff.x == 0 && diff.y == 0 && diff.z == r);
    vstd::arithmetic::div_mod::lemma_div_of0(r);
    assert(diff.x * SCALE == 0 && diff.y * SCALE == 0);
    assert(diff.z * SCALE == sc * r) by (nonlinear_arith)
        requires
            diff.z as int == r,
            sc == SCALE as int,
    ;
    lemma_tdiv_exact(sc, r);
    assert(normal.x == 0 && normal.y == 0 && normal.z == SCALE);
    assert(normal.dot_raw(ray.dir) == sc * (-sc)) by (nonlinear_arith)
        requires
            normal.x == 0 && normal.y == 0 && normal.z as int == sc,
            ray.dir.x == 0 && ray.dir.y == 0 && ray.dir.z as int == -sc,
    ;
    assert(sc * (-sc) < 0) by (nonlinear_arith)
        requires
            sc > 0,
    ;
    let back = s.center.sub_spec(point);
    assert(back.x == 0 && back.y == 0 && back.z as int == -r);
    assert((Vec3D { x: 0i64, y: 0i64, z: SCALE }).dot_raw(back) == sc * (-r)) by (nonlinear_arith)
        requires
            back.x == 0 && back.y == 0 && back.z as int == -r,
            sc == SCALE as int,
    ;
    assert(sc * (-r) < 0) by (nonlinear_arith)
        requires
            sc > 0,
            r > 0,
    ;
}

/// A ray that passes entirely outside a sphere — squared perpendicular
/// offset greater than squared radius — yields no intersection.
pub proof fn lemma_sphere_miss(s: Sphere, ray: Ray, dist_min: i64, dist_max: i64)
    requires
        s.hit_a(ray) * s.oc_spec(ray).len2_raw() - s.hit_h(ray) * s.hit_h(ray) > s.hit_a(ray) * (
        s.radius * s.radius),
    ensures
        s.hit_disc(ray) < 0,
        s.sphere_hit_spec(ray, dist_min, dist_max) == None::<HitRecord>,
{
    let a = s.hit_a(ray);
    let h = s.hit_h(ray);
    let l2 = s.oc_spec(ray).len2_raw();
    let rr = s.radius as int * s.radius as int;
    assert(h * h - a * (l2 - rr) < 0) by (nonlinear_arith)
        requires
            a * l2 - h * h > a * rr,
    ;
}

/// With two objects along a ray and no overlap, the scene reports the
/// nearer intersection, not the farther.
pub proof fn lemma_scene_nearest_of_two(
    scene: Scene,
    ray: Ray,
    dist_min: i64,
    dist_max: i64,
    r1: HitRecord,
    r2: HitRecord,
)
    requires
        scene.objects@.len() == 2,
        scene.objects@[0].hit_spec(ray, dist_min, dist_max) == Some(r1),
        scene.objects@[1].hit_spec(ray, dist_min, dist_max) == Some(r2),
        r1.dist < r2.dist,
    ensures
        scene.hit_spec(ray, dist_min, dist_max) == Some(r1),
{
    let objs = scene.objects@;
    reveal_with_fuel(Scene::nearest_hit, 4);
    assert(objs.drop_last().len() == 1);
    assert(objs.drop_last().drop_last().len() == 0);
    assert(objs.drop_last().last() == objs[0]);
    assert(objs.last() == objs[1]);
}

/// A scene with no objects always reports the synthetic background
/// record: distance zero and the vertical white-to-sky gradient.
pub proof fn lemma_scene_background(scene: Scene, ray: Ray, dist_min: i64, dist_max: i64)
    requires
        scene.objects@.len() == 0,
    ensures
        scene.hit_spec(ray, dist_min, dist_max) == Some(Scene::background_spec(ray)),
        Scene::background_spec(ray).dist == 0,
        Scene::background_spec(ray).color == Scene::ray_color_spec(ray),
{
}

proof fn lemma_normal_comp(p: int, c: int, radius: int)
    requires
        iabs(p) <= 2 * COORD_LIMIT as int,
        iabs(c) <= COORD_LIMIT as int,
        MIN_RADIUS as int <= radius <= COORD_LIMIT as int,
    ensures
        iabs(tdiv((p - c) * SCALE, radius)) <= COLOR_LIMIT as int,
{
    assert(iabs((p - c) * SCALE) <= COLOR_LIMIT as int * radius) by (nonlinear_arith)
        requires
            iabs(p - c) <= 3 * COORD_LIMIT as int,
            MIN_RADIUS as int <= radius,
    ;
    lemma_tdiv_bound((p - c) * SCALE, radius, COLOR_LIMIT as int);
}

} // verus!
