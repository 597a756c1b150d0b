//! The camera: viewport geometry derived once from the configuration, a
//! jittered sample ray per pixel and pass, and the render loop that
//! averages samples into the final row-major pixel sequence.

use crate::color::{color_in_unit, sum_blue, sum_green, sum_red, Color};
use crate::fixed::{
    fx_mul, fx_mul_spec, lemma_average_in_unit, lemma_fx_mul_bound, lemma_tdiv_bound,
    lemma_tdiv_exact, lemma_tdiv_nonneg, mag, tdiv, SCALE,
};
use crate::hittable::Hittable;
use crate::hittable_list::{list_wf, HittableList};
use crate::random::RandomStream;
use crate::ray::{ray_wf, shading_outcome, Ray};
use crate::vector::{coords_within, lensq_spec, Point3, Vector3};
use vstd::arithmetic::div_mod::{lemma_fundamental_div_mod, lemma_mod_bound};
use vstd::prelude::*;

verus! {

pub struct Camera {
    pub aspect_ratio: i64,
    pub image_width: i32,
    pub image_height: i32,
    pub samples_per_pixel: i32,
    pub center: Point3,
    pub pixel00_loc: Point3,
    pub pixel_delta_u: Vector3,
    pub pixel_delta_v: Vector3,
    pub pixel_samples_scale: i64,
    pub max_depth: i32,
}

/// What a camera that went through `initialize` looks like: configuration
/// within the machine bounds, the viewport anchored one unit in front of
/// the origin, and per-pixel steps small enough that every sample ray
/// stays within the ray algebra's limits.
pub open spec fn camera_wf(c: Camera) -> bool {
    &&& 16384 <= c.aspect_ratio <= 262144
    &&& 1 <= c.image_width <= 4096
    &&& 1 <= c.image_height <= 16384
    &&& 1 <= c.samples_per_pixel <= 1024
    &&& 0 <= c.max_depth <= 48
    &&& c.center == (Point3 { x: 0, y: 0, z: 0 })
    &&& coords_within(c.pixel00_loc, 0x8_0000)
    &&& c.pixel00_loc.z == -SCALE
    &&& c.pixel_delta_u.y == 0 && c.pixel_delta_u.z == 0
    &&& c.pixel_delta_v.x == 0 && c.pixel_delta_v.z == 0
    &&& (c.image_width as int) * mag(c.pixel_delta_u.x as int) <= 0x8_0000
    &&& (c.image_height as int) * mag(c.pixel_delta_v.y as int) <= 0x2_0000
    &&& c.pixel_samples_scale == tdiv(SCALE as int, c.samples_per_pixel as int)
}

/// The derived image height: the width over the aspect ratio, rounded to
/// the nearest row (halves up), and never below one row.
pub open spec fn height_spec(aspect: int, width: int) -> int {
    let h = tdiv(2 * width * (SCALE as int) + aspect, 2 * aspect);
    if h < 1 {
        1
    } else {
        h
    }
}

/// The direction of the sample ray for pixel `(i, j)` under the jitter
/// offsets `ox` and `oy`: from the camera center through the pixel's
/// displaced sample point.
pub open spec fn jitter_direction_spec(c: Camera, i: int, j: int, ox: int, oy: int) -> Vector3 {
    let fu = i * (SCALE as int) + ox;
    let fv = j * (SCALE as int) + oy;
    Vector3 {
        x: (c.pixel00_loc.x + fx_mul_spec(c.pixel_delta_u.x as int, fu) + fx_mul_spec(
            c.pixel_delta_v.x as int,
            fv,
        ) - c.center.x) as i64,
        y: (c.pixel00_loc.y + fx_mul_spec(c.pixel_delta_u.y as int, fu) + fx_mul_spec(
            c.pixel_delta_v.y as int,
            fv,
        ) - c.center.y) as i64,
        z: (c.pixel00_loc.z + fx_mul_spec(c.pixel_delta_u.z as int, fu) + fx_mul_spec(
            c.pixel_delta_v.z as int,
            fv,
        ) - c.center.z) as i64,
    }
}

/// One admissible shading sample for pixel `(i, j)`: a color the shading
/// function's contract allows for a ray from the camera center through
/// that pixel under some jitter offset in `[-1/2, 1/2)`.
pub open spec fn sample_admissible(c: Camera, objs: Seq<Hittable>, sc: Color, i: int, j: int) -> bool {
    exists|ox: int, oy: int|
        #![trigger jitter_direction_spec(c, i, j, ox, oy)]
        -32768 <= ox < 32768 && -32768 <= oy < 32768 && shading_outcome(
            sc,
            (Ray { origin: c.center, direction: jitter_direction_spec(c, i, j, ox, oy) }),
            c.max_depth as int,
            objs,
        )
}

/// What one finished pixel holds: the fixed-point average of exactly
/// `samples_per_pixel` admissible shading samples for its own pixel
/// coordinates.
pub open spec fn pixel_outcome(c: Camera, objs: Seq<Hittable>, px: Color, i: int, j: int) -> bool {
    exists|samples: Seq<Color>|
        #![trigger samples.len()]
        {
            &&& samples.len() == c.samples_per_pixel as int
            &&& (forall|k: int|
                0 <= k < samples.len() ==> sample_admissible(c, objs, #[trigger] samples[k], i, j))
            &&& px == (Color {
                red: fx_mul_spec(sum_red(samples), c.pixel_samples_scale as int) as i64,
                green: fx_mul_spec(sum_green(samples), c.pixel_samples_scale as int) as i64,
                blue: fx_mul_spec(sum_blue(samples), c.pixel_samples_scale as int) as i64,
            })
        }
}

/// A per-pixel step scaled by an in-image pixel coordinate stays within
/// the whole viewport's extent.
proof fn lemma_jitter_term(delta: int, f: int, count: int, lim: int)
    requires
        1 <= count,
        0 <= lim,
        count * mag(delta) <= lim,
        -(SCALE as int) <= f <= count * (SCALE as int),
    ensures
        -lim <= fx_mul_spec(delta, f) <= lim,
{
    let s = SCALE as int;
    assert(-(lim * s) <= delta * f <= lim * s) by (nonlinear_arith)
        requires
            -mag(delta) <= delta <= mag(delta),
            -s <= f <= count * s,
            count * mag(delta) <= lim,
            1 <= count,
            0 <= mag(delta),
            0 <= lim,
            0 < s,
    ;
    lemma_tdiv_bound(delta * f, lim * s, s);
    lemma_tdiv_exact(lim, s);
}

impl Camera {
    /// Build a camera from its configuration; the derived viewport fields
    /// are filled in by `initialize`.
    pub fn new(aspect_ratio: i64, image_width: i32, samples_per_pixel: i32, max_depth: i32) -> (c:
        Camera)
        requires
            16384 <= aspect_ratio <= 262144,
            1 <= image_width <= 4096,
            1 <= samples_per_pixel <= 1024,
            0 <= max_depth <= 48,
        ensures
            camera_wf(c),
            c.aspect_ratio == aspect_ratio,
            c.image_width == image_width,
            c.samples_per_pixel == samples_per_pixel,
            c.max_depth == max_depth,
            c.image_height == height_spec(aspect_ratio as int, image_width as int),
            c.pixel_delta_u.x == tdiv(2 * aspect_ratio as int, image_width as int),
            c.pixel_delta_v.y == -tdiv(2 * SCALE as int, c.image_height as int),
            c.pixel00_loc.x == -aspect_ratio + fx_mul_spec(c.pixel_delta_u.x as int, 32768),
            c.pixel00_loc.y == SCALE + fx_mul_spec(c.pixel_delta_v.y as int, 32768),
    {
        let mut camera = Camera {
            aspect_ratio,
            image_width,
            image_height: 0,
            samples_per_pixel,
            center: Point3 { x: 0, y: 0, z: 0 },
            pixel00_loc: Point3 { x: 0, y: 0, z: 0 },
            pixel_delta_u: Vector3 { x: 0, y: 0, z: 0 },
            pixel_delta_v: Vector3 { x: 0, y: 0, z: 0 },
            pixel_samples_scale: 0,
            max_depth,
        };
        camera.initialize();
        camera
    }

    /// Derive the cached viewport geometry: the image height from the
    /// aspect ratio, the per-pixel step vectors, and the world-space
    /// center of pixel `(0, 0)` on a viewport of height two, one focal
    /// unit in front of the camera center.
    fn initialize(&mut self)
        requires
            16384 <= old(self).aspect_ratio <= 262144,
            1 <= old(self).image_width <= 4096,
            1 <= old(self).samples_per_pixel <= 1024,
            0 <= old(self).max_depth <= 48,
        ensures
            camera_wf(*final(self)),
            final(self).aspect_ratio == old(self).aspect_ratio,
            final(self).image_width == old(self).image_width,
            final(self).samples_per_pixel == old(self).samples_per_pixel,
            final(self).max_depth == old(self).max_depth,
            final(self).image_height == height_spec(
                old(self).aspect_ratio as int,
                old(self).image_width as int,
            ),
            final(self).pixel_delta_u.x == tdiv(
                2 * old(self).aspect_ratio as int,
                old(self).image_width as int,
            ),
            final(self).pixel_delta_v.y == -tdiv(
                2 * SCALE as int,
                final(self).image_height as int,
            ),
            final(self).pixel00_loc.x == -old(self).aspect_ratio + fx_mul_spec(
                final(self).pixel_delta_u.x as int,
                32768,
            ),
            final(self).pixel00_loc.y == SCALE + fx_mul_spec(
                final(self).pixel_delta_v.y as int,
                32768,
            ),
    {
        let aspect = self.aspect_ratio;
        let w64 = self.image_width as i64;
        let h = (2 * w64 * SCALE + aspect) / (2 * aspect);
        proof {
            let num = 2 * (w64 as int) * (SCALE as int) + aspect as int;
            lemma_tdiv_nonneg(num, 2 * aspect as int);
            assert(num < (2 * aspect as int) * 16385) by (nonlinear_arith)
                requires
                    num == 2 * (w64 as int) * (SCALE as int) + aspect as int,
                    1 <= w64 <= 4096,
                    16384 <= aspect,
                    SCALE == 65536,
            ;
            vstd::arithmetic::div_mod::lemma_multiply_divide_lt(num, 2 * aspect as int, 16385);
        }
        self.image_height = if h < 1 {
            1
        } else {
            h as i32
        };

        self.pixel_samples_scale = SCALE / (self.samples_per_pixel as i64);
        proof {
            lemma_tdiv_bound(SCALE as int, SCALE as int, self.samples_per_pixel as int);
        }

        let viewport_height: i64 = 2 * SCALE;
        let viewport_width = fx_mul(aspect, viewport_height);
        proof {
            assert((aspect as int) * (2 * SCALE as int) == (2 * aspect as int) * (SCALE as int));
            lemma_tdiv_exact(2 * aspect as int, SCALE as int);
        }
        let focal_length: i64 = SCALE;

        self.center = Point3 { x: 0, y: 0, z: 0 };
        let viewport_u = Vector3 { x: viewport_width, y: 0, z: 0 };
        let viewport_v = Vector3 { x: 0, y: -viewport_height, z: 0 };

        let wdiv = self.image_width as i64;
        let hdiv = self.image_height as i64;
        let pdu_x = viewport_width / wdiv;
        let pdv_y = (-viewport_height) / hdiv;
        proof {
            lemma_tdiv_bound(viewport_width as int, 0x8_0000, wdiv as int);
            lemma_tdiv_bound(viewport_height as int, 0x2_0000, hdiv as int);
            lemma_tdiv_nonneg(viewport_width as int, wdiv as int);
            lemma_tdiv_nonneg(viewport_height as int, hdiv as int);
            lemma_fundamental_div_mod(viewport_width as int, wdiv as int);
            lemma_mod_bound(viewport_width as int, wdiv as int);
            lemma_fundamental_div_mod(viewport_height as int, hdiv as int);
            lemma_mod_bound(viewport_height as int, hdiv as int);
        }
        self.pixel_delta_u = Vector3 { x: pdu_x, y: 0, z: 0 };
        self.pixel_delta_v = Vector3 { x: 0, y: pdv_y, z: 0 };

        proof {
            assert((viewport_width as int) * 32768 == (aspect as int) * 65536);
            lemma_tdiv_exact(aspect as int, SCALE as int);
            assert((-(viewport_height as int)) * 32768 == (-(SCALE as int)) * 65536);
            lemma_tdiv_exact(-(SCALE as int), SCALE as int);
            lemma_fx_mul_bound(pdu_x as int, 32768, 0x8_0000, 32768);
            assert((0x8_0000int * 32768) / 65536 == 0x4_0000) by (nonlinear_arith);
            lemma_fx_mul_bound(pdv_y as int, 32768, 0x2_0000, 32768);
            assert((0x2_0000int * 32768) / 65536 == 0x1_0000) by (nonlinear_arith);
            lemma_fx_mul_bound(0, 32768, 0, 32768);
            assert((0int * 32768) / 65536 == 0) by (nonlinear_arith);
        }
        let half_u = viewport_u.scale(32768);
        let half_v = viewport_v.scale(32768);
        let viewport_upper_left = self
            .center
            .sub(Vector3 { x: 0, y: 0, z: focal_length })
            .sub(half_u)
            .sub(half_v);
        let half_pixel = (self.pixel_delta_u.add(self.pixel_delta_v)).scale(32768);
        self.pixel00_loc = viewport_upper_left.add(half_pixel);
    }

    /// A jitter offset uniform in `[-1/2, 1/2)` for each viewport axis.
    fn sample_square(&self, rng: &mut RandomStream) -> (o: Vector3)
        ensures
            -32768 <= o.x < 32768,
            -32768 <= o.y < 32768,
            o.z == 0,
    {
        Vector3 { x: rng.next_in_range(-32768, 32768), y: rng.next_in_range(-32768, 32768), z: 0 }
    }

    /// The sample ray for pixel `(i, j)`: from the camera center through
    /// the pixel's center displaced by a fresh jitter offset.
    pub fn get_ray(&self, i: i32, j: i32, rng: &mut RandomStream) -> (r: Ray)
        requires
            camera_wf(*self),
            0 <= i < self.image_width,
            0 <= j < self.image_height,
        ensures
            r.origin == self.center,
            ray_wf(r),
            r.direction.z == -SCALE,
            exists|ox: int, oy: int|
                -32768 <= ox < 32768 && -32768 <= oy < 32768 && r.direction
                    == jitter_direction_spec(*self, i as int, j as int, ox, oy),
    {
        let offset = self.sample_square(rng);
        let fu = (i as i64) * SCALE + offset.x;
        let fv = (j as i64) * SCALE + offset.y;
        proof {
            lemma_jitter_term(
                self.pixel_delta_u.x as int,
                fu as int,
                self.image_width as int,
                0x8_0000,
            );
            lemma_jitter_term(
                self.pixel_delta_v.y as int,
                fv as int,
                self.image_height as int,
                0x2_0000,
            );
            assert((self.image_width as int) * mag(0) == 0) by (nonlinear_arith);
            assert((self.image_height as int) * mag(0) == 0) by (nonlinear_arith);
            lemma_jitter_term(0, fu as int, self.image_width as int, 0);
            lemma_jitter_term(0, fv as int, self.image_height as int, 0);
        }
        let pixel_sample = self
            .pixel00_loc
            .add(self.pixel_delta_u.scale(fu))
            .add(self.pixel_delta_v.scale(fv));

        let ray_origin = self.center;
        let ray_direction = pixel_sample.sub(ray_origin);
        proof {
            assert(fx_mul_spec(0, fu as int) == 0);
            assert(fx_mul_spec(0, fv as int) == 0);
            assert(fx_mul_spec(-(SCALE as int), -(SCALE as int)) == SCALE as int) by {
                assert((-(SCALE as int)) * (-(SCALE as int)) == (SCALE as int) * (SCALE as int))
                    by (nonlinear_arith);
                lemma_tdiv_exact(SCALE as int, SCALE as int);
            }
            crate::fixed::lemma_fx_square_nonneg(ray_direction.x as int);
            crate::fixed::lemma_fx_square_nonneg(ray_direction.y as int);
            assert(lensq_spec(ray_direction) >= SCALE);
            assert(jitter_direction_spec(*self, i as int, j as int, offset.x as int, offset.y as int)
                == ray_direction);
        }
        Ray::new(ray_origin, ray_direction)
    }

    /// Render the scene: for every pixel in row-major order, average
    /// `samples_per_pixel` jittered shading samples.  The result holds
    /// exactly one unit-range color per pixel, rows top to bottom and
    /// columns left to right, and each pixel is the average of admissible
    /// shading outcomes for its own coordinates.
    pub fn render(&self, world: &HittableList, rng: &mut RandomStream) -> (pixels: Vec<Color>)
        requires
            camera_wf(*self),
            list_wf(world.objects@),
        ensures
            pixels@.len() == (self.image_height as int) * (self.image_width as int),
            forall|k: int| 0 <= k < pixels@.len() ==> color_in_unit(#[trigger] pixels@[k]),
            forall|k: int|
                0 <= k < pixels@.len() ==> pixel_outcome(
                    *self,
                    world.objects@,
                    #[trigger] pixels@[k],
                    k % (self.image_width as int),
                    k / (self.image_width as int),
                ),
            self.max_depth == 0 ==> forall|k: int|
                0 <= k < pixels@.len() ==> #[trigger] pixels@[k] == (Color {
                    red: 0,
                    green: 0,
                    blue: 0,
                }),
    {
        let ghost objs = world.objects@;
        let mut pixels: Vec<Color> = Vec::new();
        let mut j: i32 = 0;
        while j < self.image_height
            invariant
                camera_wf(*self),
                list_wf(objs),
                objs == world.objects@,
                0 <= j <= self.image_height,
                pixels@.len() == (j as int) * (self.image_width as int),
                forall|k: int| 0 <= k < pixels@.len() ==> color_in_unit(#[trigger] pixels@[k]),
                forall|k: int|
                    0 <= k < pixels@.len() ==> pixel_outcome(
                        *self,
                        objs,
                        #[trigger] pixels@[k],
                        k % (self.image_width as int),
                        k / (self.image_width as int),
                    ),
                self.max_depth == 0 ==> forall|k: int|
                    0 <= k < pixels@.len() ==> #[trigger] pixels@[k] == (Color {
                        red: 0,
                        green: 0,
                        blue: 0,
                    }),
            decreases self.image_height - j,
        {
            let mut i: i32 = 0;
            while i < self.image_width
                invariant
                    camera_wf(*self),
                    list_wf(objs),
                    objs == world.objects@,
                    0 <= j < self.image_height,
                    0 <= i <= self.image_width,
                    pixels@.len() == (j as int) * (self.image_width as int) + i as int,
                    forall|k: int| 0 <= k < pixels@.len() ==> color_in_unit(#[trigger] pixels@[k]),
                    forall|k: int|
                        0 <= k < pixels@.len() ==> pixel_outcome(
                            *self,
                            objs,
                            #[trigger] pixels@[k],
                            k % (self.image_width as int),
                            k / (self.image_width as int),
                        ),
                    self.max_depth == 0 ==> forall|k: int|
                        0 <= k < pixels@.len() ==> #[trigger] pixels@[k] == (Color {
                            red: 0,
                            green: 0,
                            blue: 0,
                        }),
                decreases self.image_width - i,
            {
                let mut pixel_color = Color::new(0, 0, 0);
                let ghost mut samples: Seq<Color> = Seq::empty();
                let mut s: i32 = 0;
                while s < self.samples_per_pixel
                    invariant
                        camera_wf(*self),
                        list_wf(objs),
                        objs == world.objects@,
                        0 <= i < self.image_width,
                        0 <= j < self.image_height,
                        0 <= s <= self.samples_per_pixel,
                        0 <= pixel_color.red <= (s as int) * (SCALE as int),
                        0 <= pixel_color.green <= (s as int) * (SCALE as int),
                        0 <= pixel_color.blue <= (s as int) * (SCALE as int),
                        samples.len() == s as int,
                        pixel_color.red == sum_red(samples),
                        pixel_color.green == sum_green(samples),
                        pixel_color.blue == sum_blue(samples),
                        forall|k: int|
                            0 <= k < samples.len() ==> sample_admissible(
                                *self,
                                objs,
                                #[trigger] samples[k],
                                i as int,
                                j as int,
                            ),
                        self.max_depth == 0 ==> pixel_color == (Color {
                            red: 0,
                            green: 0,
                            blue: 0,
                        }),
                    decreases self.samples_per_pixel - s,
                {
                    let r = self.get_ray(i, j, rng);
                    let sample = r.color(self.max_depth, world, rng);
                    proof {
                        let (ox, oy) = choose|ox: int, oy: int|
                            -32768 <= ox < 32768 && -32768 <= oy < 32768 && r.direction
                                == jitter_direction_spec(*self, i as int, j as int, ox, oy);
                        assert(r == (Ray {
                            origin: self.center,
                            direction: jitter_direction_spec(*self, i as int, j as int, ox, oy),
                        }));
                        assert(sample_admissible(*self, objs, sample, i as int, j as int));
                        assert(samples.push(sample).drop_last() =~= samples);
                        samples = samples.push(sample);
                    }
                    pixel_color = pixel_color.add(sample);
                    s = s + 1;
                }
                proof {
                    lemma_average_in_unit(
                        pixel_color.red as int,
                        self.samples_per_pixel as int,
                        self.pixel_samples_scale as int,
                    );
                    lemma_average_in_unit(
                        pixel_color.green as int,
                        self.samples_per_pixel as int,
                        self.pixel_samples_scale as int,
                    );
                    lemma_average_in_unit(
                        pixel_color.blue as int,
                        self.samples_per_pixel as int,
                        self.pixel_samples_scale as int,
                    );
                }
                let px = pixel_color.mul(self.pixel_samples_scale);
                proof {
                    let w = self.image_width as int;
                    let k0 = (j as int) * w + (i as int);
                    vstd::arithmetic::div_mod::lemma_fundamental_div_mod_converse(
                        k0,
                        w,
                        j as int,
                        i as int,
                    );
                    assert(px == (Color {
                        red: fx_mul_spec(sum_red(samples), self.pixel_samples_scale as int) as i64,
                        green: fx_mul_spec(
                            sum_green(samples),
                            self.pixel_samples_scale as int,
                        ) as i64,
                        blue: fx_mul_spec(
                            sum_blue(samples),
                            self.pixel_samples_scale as int,
                        ) as i64,
                    }));
                    assert(pixel_outcome(*self, objs, px, i as int, j as int)) by {
                        assert(samples.len() == self.samples_per_pixel as int);
                    }
                    if self.max_depth == 0 {
                        assert(0int * (self.pixel_samples_scale as int) == 0) by (nonlinear_arith);
                        vstd::arithmetic::div_mod::lemma_div_of0(SCALE as int);
                        assert(fx_mul_spec(0, self.pixel_samples_scale as int) == 0);
                        assert(px == (Color { red: 0, green: 0, blue: 0 }));
                    }
                }
                pixels.push(px);
                i = i + 1;
            }
            proof {
                assert((j as int + 1) * (self.image_width as int) == (j as int)
                    * (self.image_width as int) + (self.image_width as int)) by (nonlinear_arith);
            }
            j = j + 1;
        }
        pixels
    }
}

} // verus!
