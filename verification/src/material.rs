//! Surface materials and their scatter model.
//!
//! Each scatter call is a function of the incoming ray, the hit, and
//! fresh randomness; nothing is retained across calls.  The
//! deterministic parts (reflection, refraction, Schlick's reflectance)
//! are exact integer formulas with matching specs; the random parts
//! promise what holds of every draw.

use vstd::prelude::*;

use crate::color::{Color, COLOR_ONE};
use crate::fixed::{
    fx_div, fx_div_spec, fx_mul, fx_mul_spec, isqrt_u128, lemma_div_trunc_multiples,
    lemma_fx_mul_unit_range, lemma_sqrt_floor_unique, s_abs, sqrt_floor, SCALE,
};
use crate::rng::rand_below;
use crate::texture::Texture;
use crate::tracer::TraceResult;
use crate::vec3::{dot_raw_spec, dot_spec, in_range, lemma_prod_bound, unit_of, Vec3Fx};
use crate::world::{Ray, DMAX};

verus! {

/// A continued ray and the color factor it carries.
pub struct ScatterResult {
    pub attenuation: Color,
    pub scattered: Ray,
}

#[derive(Clone, Debug)]
pub enum MaterialType {
    Lambertian { texture: Texture, emission: Color },
    Metal { albedo: Color, fuzziness: i64, emission: Color },
    Dielectric { refractive_index: i64, emission: Color },
}

/// The direction came from `lambertian_dir_spec` for some drawn unit
/// vector.
pub open spec fn lambertian_from_some_draw(normal: Vec3Fx, dir: Vec3Fx) -> bool {
    exists|w: Vec3Fx|
        {
            &&& in_range(w, SCALE as int)
            &&& crate::vec3::is_near_unit(w)
            &&& dir == #[trigger] lambertian_dir_spec(normal, w)
        }
}

/// The direction came from `metal_dir_spec` for some drawn unit vector.
pub open spec fn metal_from_some_draw(d: Vec3Fx, n: Vec3Fx, fuzz: int, dir: Vec3Fx) -> bool {
    exists|w: Vec3Fx|
        {
            &&& in_range(w, SCALE as int)
            &&& crate::vec3::is_near_unit(w)
            &&& #[trigger] metal_dir_spec(d, n, fuzz, w) == Some(dir)
        }
}

/// The direction came from `dielectric_spec` for some reflectance coin.
pub open spec fn dielectric_from_some_coin(uv: Vec3Fx, n: Vec3Fx, eta: int, dir: Vec3Fx) -> bool {
    exists|coin: int|
        {
            &&& 0 <= coin < SCALE as int
            &&& dir == #[trigger] dielectric_spec(uv, n, eta, coin)
        }
}

impl MaterialType {
    /// Attenuations stay attenuations, fuzziness lies in [0, 1], and the
    /// refractive index within [1/4, 4].
    pub open spec fn wf(self) -> bool {
        match self {
            MaterialType::Lambertian { texture, emission } => texture.wf(),
            MaterialType::Metal { albedo, fuzziness, emission } => {
                &&& albedo.is_attenuation()
                &&& 0 <= fuzziness <= SCALE
            },
            MaterialType::Dielectric { refractive_index, emission } => SCALE / 4
                <= refractive_index <= 4 * SCALE,
        }
    }

    /// Runtime test of `wf`.
    pub fn check_wf(&self) -> (r: bool)
        ensures
            r == self.wf(),
    {
        match self {
            MaterialType::Lambertian { texture, emission } => texture.check_wf(),
            MaterialType::Metal { albedo, fuzziness, emission } => {
                albedo.check_attenuation() && 0 <= *fuzziness && *fuzziness <= SCALE
            },
            MaterialType::Dielectric { refractive_index, emission } => {
                SCALE / 4 <= *refractive_index && *refractive_index <= 4 * SCALE
            },
        }
    }

    pub open spec fn emission_spec(self) -> Color {
        match self {
            MaterialType::Lambertian { texture, emission } => emission,
            MaterialType::Metal { albedo, fuzziness, emission } => emission,
            MaterialType::Dielectric { refractive_index, emission } => emission,
        }
    }

    /// The constant light this surface gives off.
    pub fn emit(&self) -> (c: Color)
        ensures
            c == self.emission_spec(),
    {
        match self {
            MaterialType::Lambertian { texture, emission } => *emission,
            MaterialType::Metal { albedo, fuzziness, emission } => *emission,
            MaterialType::Dielectric { refractive_index, emission } => *emission,
        }
    }

    /// Whether the ray continues, and how.  For every draw of
    /// randomness: a Lambertian always scatters, attenuated by its
    /// texture at the hit UV; a Metal scatters only to the front side,
    /// attenuated by its albedo; a Dielectric always scatters, with
    /// full transmission.
    #[verifier::rlimit(40)]
    pub fn scatter(&self, ray: &Ray, trace_result: &TraceResult) -> (r: Option<ScatterResult>)
        requires
            self.wf(),
            in_range(ray.direction, DMAX as int),
            trace_result.wf(),
        ensures
            match *self {
                MaterialType::Lambertian { texture, emission } => {
                    &&& r is Some
                    &&& r->Some_0.attenuation == texture.sample_spec(
                        trace_result.uv.0 as int,
                        trace_result.uv.1 as int,
                    )
                    &&& r->Some_0.attenuation.is_attenuation()
                    &&& r->Some_0.scattered.origin == trace_result.point
                    &&& in_range(r->Some_0.scattered.direction, DMAX as int)
                    &&& lambertian_from_some_draw(
                        trace_result.normal,
                        r->Some_0.scattered.direction,
                    )
                },
                MaterialType::Metal { albedo, fuzziness, emission } => {
                    &&& (r is Some ==> {
                        &&& r->Some_0.attenuation == albedo
                        &&& r->Some_0.scattered.origin == trace_result.point
                        &&& dot_spec(r->Some_0.scattered.direction, trace_result.normal) > 0
                        &&& in_range(r->Some_0.scattered.direction, SCALE as int)
                        &&& crate::vec3::is_near_unit(r->Some_0.scattered.direction)
                    })
                    &&& ({
                        // an unfuzzed mirror is deterministic: it
                        // scatters exactly when the normalized reflection
                        // leaves the surface's front side
                        let refl = reflect_spec(ray.direction, trace_result.normal);
                        let mirror_dir = unit_of(unit_of(refl));
                        (fuzziness == 0 && !(refl.x == 0 && refl.y == 0 && refl.z == 0)) ==> {
                            &&& (r is Some <==> dot_spec(mirror_dir, trace_result.normal) > 0)
                            &&& (r is Some ==> r->Some_0.scattered.direction == mirror_dir)
                        }
                    })
                    &&& (r is Some ==> metal_from_some_draw(
                        ray.direction,
                        trace_result.normal,
                        fuzziness as int,
                        r->Some_0.scattered.direction,
                    ))
                },
                MaterialType::Dielectric { refractive_index, emission } => {
                    &&& r is Some
                    &&& r->Some_0.attenuation == (Color {
                        r: COLOR_ONE,
                        g: COLOR_ONE,
                        b: COLOR_ONE,
                    })
                    &&& r->Some_0.scattered.origin == trace_result.point
                    &&& in_range(r->Some_0.scattered.direction, DMAX as int)
                    &&& ({
                        let zero_dir = ray.direction.x == 0 && ray.direction.y == 0
                            && ray.direction.z == 0;
                        let ratio = if trace_result.front_face {
                            fx_div_spec(SCALE as int, refractive_index as int)
                        } else {
                            refractive_index as int
                        };
                        &&& (!zero_dir ==> dielectric_from_some_coin(
                            unit_of(ray.direction),
                            trace_result.normal,
                            ratio,
                            r->Some_0.scattered.direction,
                        ))
                        &&& (zero_dir ==> r->Some_0.scattered.direction == trace_result.normal)
                    })
                },
            },
    {
        match self {
            MaterialType::Lambertian { texture, emission } => {
                let rand_dir = random_unit_vector();
                let scatter_dir = lambertian_direction(trace_result.normal, rand_dir);
                let result = ScatterResult {
                    attenuation: texture.sample(trace_result.uv.0, trace_result.uv.1),
                    scattered: Ray::new(trace_result.point, scatter_dir),
                };
                proof {
                    assert(result.scattered.direction == lambertian_dir_spec(
                        trace_result.normal,
                        rand_dir,
                    ));
                    assert(lambertian_from_some_draw(
                        trace_result.normal,
                        result.scattered.direction,
                    ));
                }
                Some(result)
            },
            MaterialType::Metal { albedo, fuzziness, emission } => {
                let rand_dir = random_unit_vector();
                let direction = metal_direction(
                    ray.direction,
                    trace_result.normal,
                    *fuzziness,
                    rand_dir,
                );
                proof {
                    if *fuzziness == 0 {
                        lemma_fx_mul_zero(rand_dir.x as int);
                        lemma_fx_mul_zero(rand_dir.y as int);
                        lemma_fx_mul_zero(rand_dir.z as int);
                    }
                }
                match direction {
                    None => None,
                    Some(dir) => {
                        proof {
                            assert(metal_dir_spec(
                                ray.direction,
                                trace_result.normal,
                                *fuzziness as int,
                                rand_dir,
                            ) == Some(dir));
                            assert(metal_from_some_draw(
                                ray.direction,
                                trace_result.normal,
                                *fuzziness as int,
                                dir,
                            ));
                        }
                        Some(
                            ScatterResult {
                                attenuation: *albedo,
                                scattered: Ray::new(trace_result.point, dir),
                            },
                        )
                    },
                }
            },
            MaterialType::Dielectric { refractive_index, emission } => {
                let refraction_ratio: i64 = if trace_result.front_face {
                    fx_div(SCALE, *refractive_index)
                } else {
                    *refractive_index
                };
                proof {
                    lemma_ratio_bounds(*refractive_index);
                }
                match ray.direction.unit_v() {
                    None => {
                        // A degenerate (zero) incoming direction carries no
                        // angle to refract by; a dielectric never absorbs, so
                        // the ray continues along the surface normal.
                        Some(
                            ScatterResult {
                                attenuation: Color {
                                    r: COLOR_ONE,
                                    g: COLOR_ONE,
                                    b: COLOR_ONE,
                                },
                                scattered: Ray::new(trace_result.point, trace_result.normal),
                            },
                        )
                    },
                    Some(unit_direction) => {
                        let coin: i64 = rand_below(SCALE as u64) as i64;
                        let direction = dielectric_direction(
                            unit_direction,
                            trace_result.normal,
                            refraction_ratio,
                            coin,
                        );
                        proof {
                            assert(unit_direction == unit_of(ray.direction));
                            assert(direction == dielectric_spec(
                                unit_of(ray.direction),
                                trace_result.normal,
                                refraction_ratio as int,
                                coin as int,
                            ));
                            assert(dielectric_from_some_coin(
                                unit_of(ray.direction),
                                trace_result.normal,
                                refraction_ratio as int,
                                direction,
                            ));
                        }
                        Some(
                            ScatterResult {
                                attenuation: Color {
                                    r: COLOR_ONE,
                                    g: COLOR_ONE,
                                    b: COLOR_ONE,
                                },
                                scattered: Ray::new(trace_result.point, direction),
                            },
                        )
                    },
                }
            },
        }
    }
}

/// The refraction ratio derived from a well-formed index stays within
/// [1/4, 4] on both sides of the surface.
proof fn lemma_ratio_bounds(ridx: i64)
    requires
        SCALE / 4 <= ridx <= 4 * SCALE,
    ensures
        SCALE as int / 4 <= fx_div_spec(SCALE as int, ridx as int) <= 4 * SCALE as int,
        s_abs(SCALE as int) * SCALE as int <= i64::MAX as int * s_abs(ridx as int),
{
    let q = fx_div_spec(SCALE as int, ridx as int);
    assert(s_abs(SCALE as int * SCALE as int) == 4294967296int);
    assert(q == 4294967296int / ridx as int);
    vstd::arithmetic::div_mod::lemma_div_is_ordered_by_denominator(
        4294967296int,
        16384int,
        ridx as int,
    );
    vstd::arithmetic::div_mod::lemma_div_is_ordered_by_denominator(
        4294967296int,
        ridx as int,
        262144int,
    );
    assert(4294967296int / 16384 == 262144int) by {
        vstd::arithmetic::div_mod::lemma_div_multiples_vanish(262144int, 16384int);
        assert(16384int * 262144 == 4294967296int) by (nonlinear_arith);
    }
    assert(4294967296int / 262144 == 16384int) by {
        vstd::arithmetic::div_mod::lemma_div_multiples_vanish(16384int, 262144int);
        assert(262144int * 16384 == 4294967296int) by (nonlinear_arith);
    }
    assert(s_abs(SCALE as int) * SCALE as int <= i64::MAX as int * s_abs(ridx as int))
        by (nonlinear_arith)
        requires
            SCALE == 65536,
            s_abs(ridx as int) >= 16384,
    ;
}

/// A unit-bounded factor applied to a unit-bounded component keeps it
/// within SCALE, and within the fixed-point multiplication domain.
proof fn lemma_unit_scale_comp(c: int, t: int)
    requires
        -(SCALE as int) <= c <= SCALE as int,
        -(SCALE as int) <= t <= SCALE as int,
    ensures
        s_abs(c) * s_abs(t) <= i64::MAX as int * SCALE as int,
        -(SCALE as int) <= fx_mul_spec(c, t) <= SCALE as int,
{
    assert(s_abs(c) * s_abs(t) <= SCALE as int * SCALE as int) by (nonlinear_arith)
        requires
            0 <= s_abs(c) <= SCALE as int,
            0 <= s_abs(t) <= SCALE as int,
    ;
    assert(SCALE as int * SCALE as int <= i64::MAX as int * SCALE as int) by (nonlinear_arith)
        requires
            0 < SCALE as int <= i64::MAX as int,
    ;
    lemma_fx_mul_unit_range(s_abs(t), s_abs(c));
    assert(s_abs(c * t) == s_abs(t) * s_abs(c)) by (nonlinear_arith);
    assert(s_abs(fx_mul_spec(c, t)) == s_abs(c * t) / SCALE as int);
}

/// Schlick's reflectance approximation:
/// r0 + (1 - r0) * (1 - cosine)^5 with r0 = ((1 - n) / (1 + n))^2.
pub open spec fn pow5_spec(x: int) -> int {
    fx_mul_spec(fx_mul_spec(fx_mul_spec(fx_mul_spec(x, x), x), x), x)
}

pub open spec fn reflectance_spec(cosine: int, ridx: int) -> int {
    let r0a = fx_div_spec(SCALE as int - ridx, SCALE as int + ridx);
    let r0 = fx_mul_spec(r0a, r0a);
    r0 + fx_mul_spec(SCALE as int - r0, pow5_spec(SCALE as int - cosine))
}

/// Reflectance, exact per `reflectance_spec`; lies in [0, 2].
pub fn reflectance(cosine: i64, refractive_index: i64) -> (r: i64)
    requires
        0 <= cosine <= SCALE,
        0 < refractive_index <= 0x100000000int,
    ensures
        r == reflectance_spec(cosine as int, refractive_index as int),
        0 <= r <= 2 * SCALE,
{
    let num: i64 = SCALE - refractive_index;
    let den: i64 = SCALE + refractive_index;
    proof {
        assert(s_abs(num as int) < den);
        assert(s_abs(num as int) * SCALE as int <= i64::MAX as int * s_abs(den as int))
            by (nonlinear_arith)
            requires
                0 <= s_abs(num as int) < den as int,
                0 < SCALE as int <= i64::MAX as int,
                den as int == s_abs(den as int),
        ;
    }
    let r0a: i64 = fx_div(num, den);
    proof {
        assert(s_abs(num as int) * SCALE as int <= den as int * SCALE as int) by (nonlinear_arith)
            requires
                0 <= s_abs(num as int) <= den as int,
                SCALE > 0,
        ;
        assert(s_abs(num as int * SCALE as int) == s_abs(num as int) * SCALE as int)
            by (nonlinear_arith)
            requires
                SCALE > 0,
        ;
        vstd::arithmetic::div_mod::lemma_div_is_ordered(
            s_abs(num as int) * SCALE as int,
            den as int * SCALE as int,
            den as int,
        );
        vstd::arithmetic::div_mod::lemma_div_multiples_vanish(SCALE as int, den as int);
        assert(den as int * SCALE as int == SCALE as int * den as int) by (nonlinear_arith);
        assert(s_abs(r0a as int) <= SCALE);
        lemma_prod_bound(r0a as int, r0a as int, SCALE as int);
        assert(r0a as int * r0a as int >= 0) by (nonlinear_arith);
        assert(s_abs(r0a as int) * s_abs(r0a as int) <= SCALE as int * SCALE as int)
            by (nonlinear_arith)
            requires
                0 <= s_abs(r0a as int) <= SCALE as int,
        ;
        assert(SCALE as int * SCALE as int <= i64::MAX as int * SCALE as int) by (nonlinear_arith)
            requires
                0 < SCALE as int <= i64::MAX as int,
        ;
        vstd::arithmetic::div_mod::lemma_div_is_ordered(
            r0a as int * r0a as int,
            SCALE as int * SCALE as int,
            SCALE as int,
        );
        vstd::arithmetic::div_mod::lemma_div_multiples_vanish(SCALE as int, SCALE as int);
        vstd::arithmetic::div_mod::lemma_div_is_ordered(0, r0a as int * r0a as int, SCALE as int);
        vstd::arithmetic::div_mod::lemma_div_of0(SCALE as int);
    }
    let r0: i64 = fx_mul(r0a, r0a);
    let x: i64 = SCALE - cosine;
    proof {
        lemma_fx_mul_unit_range(x as int, x as int);
    }
    let x2: i64 = fx_mul(x, x);
    proof {
        lemma_fx_mul_unit_range(x2 as int, x as int);
    }
    let x3: i64 = fx_mul(x2, x);
    proof {
        lemma_fx_mul_unit_range(x3 as int, x as int);
    }
    let x4: i64 = fx_mul(x3, x);
    proof {
        lemma_fx_mul_unit_range(x4 as int, x as int);
    }
    let x5: i64 = fx_mul(x4, x);
    proof {
        lemma_fx_mul_unit_range((SCALE - r0) as int, x5 as int);
    }
    let tail: i64 = fx_mul(SCALE - r0, x5);
    r0 + tail
}

/// A uniformly random direction of (fixed-point) unit length, by
/// rejection sampling from the cube; after very many misses (an
/// astronomically unlikely event) the +x axis is returned.
pub fn random_unit_vector() -> (v: Vec3Fx)
    ensures
        in_range(v, SCALE as int),
        crate::vec3::is_near_unit(v),
        v == (Vec3Fx { x: SCALE, y: 0, z: 0 }) || exists|c: Vec3Fx|
            {
                &&& in_range(c, SCALE as int)
                &&& 10 * dot_raw_spec(c, c) > SCALE as int * SCALE as int
                &&& dot_raw_spec(c, c) <= SCALE as int * SCALE as int
                &&& v == #[trigger] unit_of(c)
            },
{
    let mut attempts: u32 = 64;
    while attempts > 0
        decreases attempts,
    {
        attempts -= 1;
        let x: i64 = rand_below(2 * SCALE as u64) as i64 - SCALE;
        let y: i64 = rand_below(2 * SCALE as u64) as i64 - SCALE;
        let z: i64 = rand_below(2 * SCALE as u64) as i64 - SCALE;
        let cand = Vec3Fx { x, y, z };
        let raw: i128 = cand.dot_raw(cand);
        proof {
            lemma_prod_bound(cand.x as int, cand.x as int, SCALE as int);
            lemma_prod_bound(cand.y as int, cand.y as int, SCALE as int);
            lemma_prod_bound(cand.z as int, cand.z as int, SCALE as int);
            assert(SCALE as int * SCALE as int == 0x100000000int) by (nonlinear_arith)
                requires
                    SCALE == 65536,
            ;
        }
        // Accept squared lengths in (0.1, 1.0]: long enough to
        // normalize stably, short enough to stay near the sphere.
        if 10 * raw > (SCALE as i128) * (SCALE as i128) && raw <= (SCALE as i128) * (SCALE as i128)
         {
            proof {
                if cand.x == 0 && cand.y == 0 && cand.z == 0 {
                    assert(dot_raw_spec(cand, cand) == 0) by (nonlinear_arith)
                        requires
                            cand.x == 0 && cand.y == 0 && cand.z == 0,
                    ;
                }
            }
            match cand.unit_v() {
                Some(u) => {
                    proof {
                        assert(u == unit_of(cand));
                    }
                    return u;
                },
                None => {
                },
            }
        }
    }
    let fallback = Vec3Fx { x: SCALE, y: 0, z: 0 };
    proof {
        assert(dot_raw_spec(fallback, fallback) == SCALE as int * SCALE as int)
            by (nonlinear_arith)
            requires
                fallback.x == SCALE as int && fallback.y == 0 && fallback.z == 0,
                dot_raw_spec(fallback, fallback) == fallback.x * fallback.x + fallback.y
                    * fallback.y + fallback.z * fallback.z,
        ;
    }
    fallback
}

/// Scaling by a zero factor gives zero exactly.
proof fn lemma_fx_mul_zero(c: int)
    ensures
        fx_mul_spec(c, 0) == 0,
{
    assert(c * 0 == 0) by (nonlinear_arith);
    assert(s_abs(0int) == 0);
    vstd::arithmetic::div_mod::lemma_div_of0(SCALE as int);
}

/// The scatter direction a Lambertian builds from the surface normal
/// and one drawn unit vector: their sum, or the normal itself when the
/// sum is degenerate (every component at zero).
pub open spec fn lambertian_dir_spec(normal: Vec3Fx, w: Vec3Fx) -> Vec3Fx {
    let sum = Vec3Fx {
        x: (normal.x + w.x) as i64,
        y: (normal.y + w.y) as i64,
        z: (normal.z + w.z) as i64,
    };
    if -1 < sum.x && sum.x < 1 && -1 < sum.y && sum.y < 1 && -1 < sum.z && sum.z < 1 {
        normal
    } else {
        sum
    }
}

/// The Lambertian scatter direction, exact per `lambertian_dir_spec`
/// for the drawn vector.
pub fn lambertian_direction(normal: Vec3Fx, w: Vec3Fx) -> (dir: Vec3Fx)
    requires
        in_range(normal, SCALE as int),
        in_range(w, SCALE as int),
    ensures
        dir == lambertian_dir_spec(normal, w),
        in_range(dir, 2 * SCALE as int),
{
    let mut scatter_dir = normal.add_v(w);
    // Degenerate (near-zero) scatter directions fall back to the
    // surface normal itself.
    if scatter_dir.x < 1 && scatter_dir.y < 1 && scatter_dir.z < 1 && scatter_dir.x > -1
        && scatter_dir.y > -1 && scatter_dir.z > -1 {
        scatter_dir = normal;
    }
    scatter_dir
}

/// The direction a Metal scatters to for one drawn unit vector, or
/// None when the ray is absorbed: reflect, normalize, perturb by
/// fuzz * w, normalize again, and keep only front-side results.
pub open spec fn metal_dir_spec(d: Vec3Fx, n: Vec3Fx, fuzz: int, w: Vec3Fx) -> Option<Vec3Fx> {
    let refl = reflect_spec(d, n);
    if refl.x == 0 && refl.y == 0 && refl.z == 0 {
        None
    } else {
        let ur = unit_of(refl);
        let pert = Vec3Fx {
            x: (ur.x + fx_mul_spec(w.x as int, fuzz)) as i64,
            y: (ur.y + fx_mul_spec(w.y as int, fuzz)) as i64,
            z: (ur.z + fx_mul_spec(w.z as int, fuzz)) as i64,
        };
        if pert.x == 0 && pert.y == 0 && pert.z == 0 {
            None
        } else {
            let dir = unit_of(pert);
            if dot_spec(dir, n) > 0 {
                Some(dir)
            } else {
                None
            }
        }
    }
}

/// The Metal scatter direction, exact per `metal_dir_spec` for the
/// drawn vector; a returned direction is near-unit and leaves the
/// front side.
pub fn metal_direction(d: Vec3Fx, n: Vec3Fx, fuzz: i64, w: Vec3Fx) -> (r: Option<Vec3Fx>)
    requires
        in_range(d, DMAX as int),
        in_range(n, SCALE as int),
        0 <= fuzz <= SCALE,
        in_range(w, SCALE as int),
    ensures
        r == metal_dir_spec(d, n, fuzz as int, w),
        r is Some ==> ({
            let dir = r->Some_0;
            &&& in_range(dir, SCALE as int)
            &&& crate::vec3::is_near_unit(dir)
            &&& dot_spec(dir, n) > 0
        }),
        ({
            let refl = reflect_spec(d, n);
            let mirror_dir = unit_of(unit_of(refl));
            (fuzz == 0 && !(refl.x == 0 && refl.y == 0 && refl.z == 0)) ==> {
                &&& (r is Some <==> dot_spec(mirror_dir, n) > 0)
                &&& (r is Some ==> r->Some_0 == mirror_dir)
            }
        }),
{
    let reflected = reflect_dir(d, n);
    match reflected.unit_v() {
        None => None,
        Some(unit_reflected) => {
            proof {
                lemma_unit_scale_comp(w.x as int, fuzz as int);
                lemma_unit_scale_comp(w.y as int, fuzz as int);
                lemma_unit_scale_comp(w.z as int, fuzz as int);
                if fuzz == 0 {
                    lemma_fx_mul_zero(w.x as int);
                    lemma_fx_mul_zero(w.y as int);
                    lemma_fx_mul_zero(w.z as int);
                }
            }
            let fuzz_offset = w.scale_v(fuzz);
            let perturbed = unit_reflected.add_v(fuzz_offset);
            proof {
                assert(perturbed == (Vec3Fx {
                    x: (unit_reflected.x + fx_mul_spec(w.x as int, fuzz as int)) as i64,
                    y: (unit_reflected.y + fx_mul_spec(w.y as int, fuzz as int)) as i64,
                    z: (unit_reflected.z + fx_mul_spec(w.z as int, fuzz as int)) as i64,
                }));
                if perturbed.x == 0 && perturbed.y == 0 && perturbed.z == 0 {
                    assert(dot_raw_spec(perturbed, perturbed) == 0) by (nonlinear_arith)
                        requires
                            perturbed.x == 0 && perturbed.y == 0 && perturbed.z == 0,
                    ;
                }
            }
            match perturbed.unit_v() {
                None => None,
                Some(dir) => {
                    if dir.dot_v(n) <= 0 {
                        None
                    } else {
                        Some(dir)
                    }
                },
            }
        },
    }
}

/// Mirror reflection of d about the unit normal n:
/// d - n * (2 * dot(d, n)), componentwise in fixed point.
pub open spec fn reflect_spec(d: Vec3Fx, n: Vec3Fx) -> (Vec3Fx) {
    let t = 2 * dot_spec(d, n);
    Vec3Fx {
        x: (d.x - fx_mul_spec(n.x as int, t)) as i64,
        y: (d.y - fx_mul_spec(n.y as int, t)) as i64,
        z: (d.z - fx_mul_spec(n.z as int, t)) as i64,
    }
}

/// Reflection, exact per `reflect_spec`.
pub fn reflect_dir(d: Vec3Fx, n: Vec3Fx) -> (r: Vec3Fx)
    requires
        in_range(d, DMAX as int),
        in_range(n, SCALE as int),
    ensures
        r == reflect_spec(d, n),
        in_range(r, 0x40000000int),
        in_range(d, 2 * SCALE as int) ==> in_range(r, 14 * SCALE as int),
{
    let t: i64 = 2 * d.dot_v(n);
    proof {
        lemma_reflect_bounds(d, n, t as int);
        lemma_reflect_scale_comp(n.x as int, t as int, s_abs(t as int));
        lemma_reflect_scale_comp(n.y as int, t as int, s_abs(t as int));
        lemma_reflect_scale_comp(n.z as int, t as int, s_abs(t as int));
    }
    let offset = n.scale_v(t);
    d.sub_v(offset)
}

/// Bounds for the reflection computation: the doubled dot product of a
/// ray direction with a unit normal, scaled onto the normal, stays far
/// inside the fixed-point domain.
proof fn lemma_reflect_bounds(d: Vec3Fx, n: Vec3Fx, t: int)
    requires
        in_range(d, DMAX as int),
        in_range(n, SCALE as int),
        t == 2 * dot_spec(d, n),
    ensures
        s_abs(t) <= 0x20000000int,
        in_range(d, 2 * SCALE as int) ==> s_abs(t) <= 12 * SCALE as int,
{
    let raw = dot_raw_spec(d, n);
    lemma_prod_bound(d.x as int, n.x as int, DMAX as int);
    lemma_prod_bound(d.y as int, n.y as int, DMAX as int);
    lemma_prod_bound(d.z as int, n.z as int, DMAX as int);
    assert(s_abs(raw) <= 3 * (DMAX as int * DMAX as int));
    vstd::arithmetic::div_mod::lemma_div_is_ordered(
        s_abs(raw),
        3 * (DMAX as int * DMAX as int),
        SCALE as int,
    );
    assert(3 * (DMAX as int * DMAX as int) == SCALE as int * 0xc000000int) by (nonlinear_arith)
        requires
            DMAX == 0x200000,
            SCALE == 65536,
    ;
    vstd::arithmetic::div_mod::lemma_div_multiples_vanish(0xc000000int, SCALE as int);
    assert(s_abs(dot_spec(d, n)) == s_abs(raw) / SCALE as int);
    if in_range(d, 2 * SCALE as int) {
        lemma_prod_pair_m(d.x as int, n.x as int, 2 * SCALE as int, SCALE as int);
        lemma_prod_pair_m(d.y as int, n.y as int, 2 * SCALE as int, SCALE as int);
        lemma_prod_pair_m(d.z as int, n.z as int, 2 * SCALE as int, SCALE as int);
        assert(s_abs(raw) <= 3 * (2 * SCALE as int * SCALE as int));
        vstd::arithmetic::div_mod::lemma_div_is_ordered(
            s_abs(raw),
            3 * (2 * SCALE as int * SCALE as int),
            SCALE as int,
        );
        assert(3 * (2 * SCALE as int * SCALE as int) == SCALE as int * (6 * SCALE as int))
            by (nonlinear_arith);
        vstd::arithmetic::div_mod::lemma_div_multiples_vanish(6 * SCALE as int, SCALE as int);
    }
}

/// Product of two differently bounded factors.
proof fn lemma_prod_pair_m(a: int, b: int, m: int, n: int)
    requires
        s_abs(a) <= m,
        s_abs(b) <= n,
        0 < m,
        0 < n,
    ensures
        -(m * n) <= a * b <= m * n,
{
    assert(-(m * n) <= a * b <= m * n) by (nonlinear_arith)
        requires
            s_abs(a) <= m,
            s_abs(b) <= n,
            0 < m,
            0 < n,
    ;
}

/// A component scaled by a factor of magnitude at most m (with m at
/// most 2^29) stays within m.
proof fn lemma_reflect_scale_comp(c: int, t: int, m: int)
    requires
        -(SCALE as int) <= c <= SCALE as int,
        s_abs(t) <= m,
        0 <= m <= 0x20000000int,
    ensures
        s_abs(c) * s_abs(t) <= i64::MAX as int * SCALE as int,
        s_abs(fx_mul_spec(c, t)) <= m,
{
    assert(s_abs(c) * s_abs(t) <= SCALE as int * m) by (nonlinear_arith)
        requires
            0 <= s_abs(c) <= SCALE as int,
            0 <= s_abs(t) <= m,
    ;
    assert(SCALE as int * m <= i64::MAX as int * SCALE as int) by (nonlinear_arith)
        requires
            0 < SCALE as int,
            0 <= m <= i64::MAX as int,
    ;
    assert(s_abs(c * t) == s_abs(c) * s_abs(t)) by (nonlinear_arith);
    vstd::arithmetic::div_mod::lemma_div_is_ordered(s_abs(c * t), SCALE as int * m, SCALE as int);
    vstd::arithmetic::div_mod::lemma_div_multiples_vanish(m, SCALE as int);
    assert(s_abs(fx_mul_spec(c, t)) == s_abs(c * t) / SCALE as int);
}

/// The clamped cosine a dielectric computes between the incoming unit
/// direction and the normal: -dot(uv, n) in SCALE units, clamped to
/// [-1, 1].
pub open spec fn dd_cos(uv: Vec3Fx, n: Vec3Fx) -> int {
    let c = crate::fixed::div_trunc(-dot_raw_spec(uv, n), SCALE as int);
    if c > SCALE as int {
        SCALE as int
    } else if c < -(SCALE as int) {
        -(SCALE as int)
    } else {
        c
    }
}

/// The matching sine: sqrt(1 - cos^2), floored, in SCALE units.
pub open spec fn dd_sin(uv: Vec3Fx, n: Vec3Fx) -> int {
    let cos2 = fx_mul_spec(dd_cos(uv, n), dd_cos(uv, n));
    let s2 = if SCALE as int - cos2 >= 0 {
        SCALE as int - cos2
    } else {
        0
    };
    sqrt_floor((s2 * SCALE as int) as nat) as int
}

/// Whether the dielectric reflects: total internal reflection
/// (eta * sin > 1 in raw units) or the reflectance coin falling under
/// Schlick's approximation.
pub open spec fn dd_reflects(uv: Vec3Fx, n: Vec3Fx, eta: int, coin: int) -> bool {
    let cos = dd_cos(uv, n);
    eta * dd_sin(uv, n) > SCALE as int * SCALE as int || reflectance_spec(
        if cos >= 0 {
            cos
        } else {
            0
        },
        eta,
    ) > coin
}

/// The perpendicular part of the refracted direction:
/// eta * (uv + cos * n), componentwise in fixed point.
pub open spec fn dd_perp(uv: Vec3Fx, n: Vec3Fx, eta: int) -> Vec3Fx {
    let cos = dd_cos(uv, n);
    Vec3Fx {
        x: fx_mul_spec(uv.x + fx_mul_spec(n.x as int, cos), eta) as i64,
        y: fx_mul_spec(uv.y + fx_mul_spec(n.y as int, cos), eta) as i64,
        z: fx_mul_spec(uv.z + fx_mul_spec(n.z as int, cos), eta) as i64,
    }
}

/// The refracted direction: the perpendicular part plus the parallel
/// part -sqrt(1 - |perp|^2) * n.
pub open spec fn dd_refract(uv: Vec3Fx, n: Vec3Fx, eta: int) -> Vec3Fx {
    let perp = dd_perp(uv, n, eta);
    let raw = dot_raw_spec(perp, perp);
    let diff = if SCALE as int * SCALE as int - raw >= 0 {
        SCALE as int * SCALE as int - raw
    } else {
        0
    };
    let k = sqrt_floor(diff as nat) as int;
    Vec3Fx {
        x: (perp.x + fx_mul_spec(n.x as int, -k)) as i64,
        y: (perp.y + fx_mul_spec(n.y as int, -k)) as i64,
        z: (perp.z + fx_mul_spec(n.z as int, -k)) as i64,
    }
}

/// Exactly what `dielectric_direction` returns for each coin.
pub open spec fn dielectric_spec(uv: Vec3Fx, n: Vec3Fx, eta: int, coin: int) -> Vec3Fx {
    if dd_reflects(uv, n, eta, coin) {
        reflect_spec(uv, n)
    } else {
        dd_refract(uv, n, eta)
    }
}

/// The direction a dielectric sends a unit ray `uv` hitting a surface
/// with unit normal `n`, for refraction ratio `eta` and a reflectance
/// coin in [0, SCALE): reflect on total internal reflection or when the
/// coin falls under Schlick's reflectance, else refract.
///
/// At exact normal incidence with matched indices (eta is 1, uv exactly
/// opposite an exactly-unit n), the ray passes through unbent for every
/// coin: the result is uv itself.
pub fn dielectric_direction(uv: Vec3Fx, n: Vec3Fx, eta: i64, coin: i64) -> (r: Vec3Fx)
    requires
        in_range(uv, 2 * SCALE as int),
        in_range(n, SCALE as int),
        SCALE / 4 <= eta <= 4 * SCALE,
        0 <= coin < SCALE,
    ensures
        in_range(r, DMAX as int),
        r == dielectric_spec(uv, n, eta as int, coin as int),
        (eta == SCALE && dot_raw_spec(n, n) == SCALE as int * SCALE as int && uv.x == -n.x && uv.y
            == -n.y && uv.z == -n.z) ==> r == uv,
{
    let ghost exact_case = eta == SCALE && dot_raw_spec(n, n) == SCALE as int * SCALE as int
        && uv.x == -n.x && uv.y == -n.y && uv.z == -n.z;
    let neg_uv = uv.neg_v();
    let cos_wide: i64 = neg_uv.dot_v(n);
    proof {
        assert(dot_raw_spec(neg_uv, n) == -dot_raw_spec(uv, n)) by (nonlinear_arith)
            requires
                neg_uv.x == -uv.x && neg_uv.y == -uv.y && neg_uv.z == -uv.z,
                dot_raw_spec(neg_uv, n) == neg_uv.x * n.x + neg_uv.y * n.y + neg_uv.z * n.z,
                dot_raw_spec(uv, n) == uv.x * n.x + uv.y * n.y + uv.z * n.z,
        ;
    }
    let cos_theta: i64 = if cos_wide > SCALE {
        SCALE
    } else if cos_wide < -SCALE {
        -SCALE
    } else {
        cos_wide
    };
    proof {
        if exact_case {
            assert(dot_raw_spec(neg_uv, n) == dot_raw_spec(n, n));
            lemma_div_trunc_multiples(SCALE as int);
            assert(cos_theta == SCALE);
        }
    }
    proof {
        assert(s_abs(cos_theta as int) * s_abs(cos_theta as int) <= SCALE as int * SCALE as int)
            by (nonlinear_arith)
            requires
                0 <= s_abs(cos_theta as int) <= SCALE as int,
        ;
        assert(SCALE as int * SCALE as int <= i64::MAX as int * SCALE as int) by (nonlinear_arith)
            requires
                0 < SCALE as int <= i64::MAX as int,
        ;
    }
    let cos2: i64 = fx_mul(cos_theta, cos_theta);
    proof {
        lemma_fx_mul_unit_range(s_abs(cos_theta as int), s_abs(cos_theta as int));
        assert(s_abs(cos_theta as int * cos_theta as int) == s_abs(cos_theta as int) * s_abs(
            cos_theta as int,
        )) by (nonlinear_arith);
        assert(cos_theta as int * cos_theta as int >= 0) by (nonlinear_arith);
        if exact_case {
            lemma_div_trunc_multiples(SCALE as int);
        }
    }
    let sin2_raw: i64 = SCALE - cos2;
    let sin2_clamped: i64 = if sin2_raw >= 0 {
        sin2_raw
    } else {
        0
    };
    let sin_theta: i64 = crate::fixed::fx_sqrt(sin2_clamped);
    proof {
        crate::fixed::lemma_sqrt_floor((sin2_clamped * SCALE) as nat);
        assert(sin2_clamped as int * SCALE as int <= SCALE as int * SCALE as int)
            by (nonlinear_arith)
            requires
                0 <= sin2_clamped <= SCALE,
        ;
        assert(sin_theta <= SCALE) by (nonlinear_arith)
            requires
                sin_theta as int * sin_theta as int <= SCALE as int * SCALE as int,
                sin_theta >= 0,
                SCALE > 0,
        ;
        assert(0 <= eta as int * sin_theta as int <= 4 * (SCALE as int * SCALE as int))
            by (nonlinear_arith)
            requires
                0 <= sin_theta <= SCALE as int,
                0 < eta <= 4 * SCALE as int,
        ;
        assert(SCALE as int * SCALE as int == 0x100000000int) by (nonlinear_arith)
            requires
                SCALE == 65536,
        ;
        if exact_case {
            assert(sin2_raw == 0);
            assert(sqrt_floor(0) == 0);
            assert(sin_theta == 0);
            assert((eta as int) * (sin_theta as int) == 0) by (nonlinear_arith)
                requires
                    sin_theta == 0,
            ;
        }
    }
    // Total internal reflection: eta * sin > 1, compared exactly in raw
    // SCALE^2 units.
    let cannot_refract: bool = (eta as i128) * (sin_theta as i128) > (SCALE as i128) * (
    SCALE as i128);
    let refl: i64 = reflectance(if cos_theta >= 0 {
        cos_theta
    } else {
        0
    }, eta);
    proof {
        if exact_case {
            assert(SCALE as int - eta as int == 0);
            assert(fx_div_spec(0, 2 * SCALE as int) == 0) by {
                assert(s_abs(0int) == 0);
                vstd::arithmetic::div_mod::lemma_div_of0(2 * SCALE as int);
            }
            assert(fx_mul_spec(0, 0) == 0) by {
                assert(0 * 0 == 0) by (nonlinear_arith);
                vstd::arithmetic::div_mod::lemma_div_of0(SCALE as int);
            }
            assert(refl == 0);
        }
    }
    proof {
        assert(cos_theta == dd_cos(uv, n));
        assert(sin_theta == dd_sin(uv, n));
        assert(cannot_refract == (eta as int * dd_sin(uv, n) > SCALE as int * SCALE as int));
        assert((cannot_refract || refl > coin) == dd_reflects(uv, n, eta as int, coin as int));
    }
    if cannot_refract || refl > coin {
        let r = reflect_dir(uv, n);
        proof {
            assert(in_range(r, DMAX as int));
        }
        r
    } else {
        refract_dir(uv, n, eta, Ghost(exact_case))
    }
}

/// Refraction of the unit direction uv about unit normal n with ratio
/// eta: the perpendicular part eta * (uv + cos * n) plus the parallel
/// part -sqrt(1 - |perp|^2) * n.
fn refract_dir(uv: Vec3Fx, n: Vec3Fx, eta: i64, Ghost(exact_case): Ghost<bool>) -> (r: Vec3Fx)
    requires
        in_range(uv, 2 * SCALE as int),
        in_range(n, SCALE as int),
        SCALE / 4 <= eta <= 4 * SCALE,
        exact_case ==> (eta == SCALE && dot_raw_spec(n, n) == SCALE as int * SCALE as int && uv.x
            == -n.x && uv.y == -n.y && uv.z == -n.z),
    ensures
        in_range(r, DMAX as int),
        r == dd_refract(uv, n, eta as int),
        exact_case ==> r == uv,
{
    let neg_uv = uv.neg_v();
    let cos_wide: i64 = neg_uv.dot_v(n);
    proof {
        assert(dot_raw_spec(neg_uv, n) == -dot_raw_spec(uv, n)) by (nonlinear_arith)
            requires
                neg_uv.x == -uv.x && neg_uv.y == -uv.y && neg_uv.z == -uv.z,
                dot_raw_spec(neg_uv, n) == neg_uv.x * n.x + neg_uv.y * n.y + neg_uv.z * n.z,
                dot_raw_spec(uv, n) == uv.x * n.x + uv.y * n.y + uv.z * n.z,
        ;
    }
    let cos_theta: i64 = if cos_wide > SCALE {
        SCALE
    } else if cos_wide < -SCALE {
        -SCALE
    } else {
        cos_wide
    };
    proof {
        if exact_case {
            assert(dot_raw_spec(neg_uv, n) == dot_raw_spec(n, n));
            lemma_div_trunc_multiples(SCALE as int);
            assert(cos_theta == SCALE);
        }
        lemma_unit_scale_comp(n.x as int, cos_theta as int);
        lemma_unit_scale_comp(n.y as int, cos_theta as int);
        lemma_unit_scale_comp(n.z as int, cos_theta as int);
    }
    let n_cos = n.scale_v(cos_theta);
    let perp_in = uv.add_v(n_cos);
    proof {
        lemma_scale_small_comp(perp_in.x as int, eta as int);
        lemma_scale_small_comp(perp_in.y as int, eta as int);
        lemma_scale_small_comp(perp_in.z as int, eta as int);
        if exact_case {
            lemma_div_trunc_multiples(n.x as int);
            lemma_div_trunc_multiples(n.y as int);
            lemma_div_trunc_multiples(n.z as int);
            assert(perp_in.x == 0 && perp_in.y == 0 && perp_in.z == 0);
        }
    }
    let perp = perp_in.scale_v(eta);
    proof {
        assert(cos_theta == dd_cos(uv, n));
        assert(perp == dd_perp(uv, n, eta as int));
        if exact_case {
            assert(fx_mul_spec(0, eta as int) == 0) by {
                assert(0 * eta as int == 0) by (nonlinear_arith);
                vstd::arithmetic::div_mod::lemma_div_of0(SCALE as int);
            }
            assert(perp.x == 0 && perp.y == 0 && perp.z == 0);
        }
    }
    let perp_raw: i128 = perp.dot_raw(perp);
    proof {
        assert(perp.x as int * perp.x as int >= 0) by (nonlinear_arith);
        assert(perp.y as int * perp.y as int >= 0) by (nonlinear_arith);
        assert(perp.z as int * perp.z as int >= 0) by (nonlinear_arith);
        if exact_case {
            assert(perp_raw == 0) by (nonlinear_arith)
                requires
                    perp_raw == dot_raw_spec(perp, perp),
                    perp.x == 0 && perp.y == 0 && perp.z == 0,
            ;
        }
    }
    let diff: i128 = (SCALE as i128) * (SCALE as i128) - perp_raw;
    let k_wide: u128 = isqrt_u128(if diff >= 0 {
        diff as u128
    } else {
        0
    });
    proof {
        crate::fixed::lemma_sqrt_floor(
            (if diff >= 0 {
                diff as int
            } else {
                0
            }) as nat,
        );
        assert(k_wide as int * k_wide as int <= SCALE as int * SCALE as int ==> k_wide <= SCALE)
            by (nonlinear_arith);
        if exact_case {
            assert(diff == SCALE as int * SCALE as int);
            assert((SCALE as int * SCALE as int) < ((SCALE as int + 1) * (SCALE as int + 1)))
                by (nonlinear_arith)
                requires
                    SCALE > 0,
            ;
            lemma_sqrt_floor_unique((SCALE as int * SCALE as int) as nat, SCALE as nat);
            assert(k_wide == SCALE);
        }
    }
    let k: i64 = k_wide as i64;
    proof {
        lemma_unit_scale_comp(n.x as int, -(k as int));
        lemma_unit_scale_comp(n.y as int, -(k as int));
        lemma_unit_scale_comp(n.z as int, -(k as int));
    }
    let par = n.scale_v(-k);
    proof {
        if exact_case {
            assert(fx_mul_spec(n.x as int, -(SCALE as int)) == -n.x) by {
                lemma_neg_scale(n.x as int);
            }
            assert(fx_mul_spec(n.y as int, -(SCALE as int)) == -n.y) by {
                lemma_neg_scale(n.y as int);
            }
            assert(fx_mul_spec(n.z as int, -(SCALE as int)) == -n.z) by {
                lemma_neg_scale(n.z as int);
            }
        }
    }
    let r = perp.add_v(par);
    proof {
        assert(r == dd_refract(uv, n, eta as int));
        if exact_case {
            assert(r.x == -n.x && r.y == -n.y && r.z == -n.z);
        }
    }
    r
}

/// Multiplying by -SCALE in fixed point is exact negation.
proof fn lemma_neg_scale(a: int)
    ensures
        fx_mul_spec(a, -(SCALE as int)) == -a,
{
    assert(a * -(SCALE as int) == (-a) * SCALE as int) by (nonlinear_arith);
    lemma_div_trunc_multiples(-a);
}

/// Scaling a direction-sized component by a ratio within (0, 4] stays
/// within 12 units.
proof fn lemma_scale_small_comp(c: int, eta: int)
    requires
        -(3 * SCALE as int) <= c <= 3 * SCALE as int,
        0 < eta <= 4 * SCALE as int,
    ensures
        s_abs(c) * s_abs(eta) <= i64::MAX as int * SCALE as int,
        -(12 * SCALE as int) <= fx_mul_spec(c, eta) <= 12 * SCALE as int,
{
    assert(s_abs(c) * s_abs(eta) <= 12 * (SCALE as int * SCALE as int)) by (nonlinear_arith)
        requires
            0 <= s_abs(c) <= 3 * SCALE as int,
            0 <= s_abs(eta) <= 4 * SCALE as int,
    ;
    assert(12 * (SCALE as int * SCALE as int) <= i64::MAX as int * SCALE as int)
        by (nonlinear_arith)
        requires
            0 < SCALE as int,
            12 * SCALE as int <= i64::MAX as int,
    ;
    assert(s_abs(c * eta) == s_abs(c) * s_abs(eta)) by (nonlinear_arith);
    vstd::arithmetic::div_mod::lemma_div_is_ordered(
        s_abs(c * eta),
        12 * (SCALE as int * SCALE as int),
        SCALE as int,
    );
    vstd::arithmetic::div_mod::lemma_div_multiples_vanish(12 * SCALE as int, SCALE as int);
    assert(12 * (SCALE as int * SCALE as int) == SCALE as int * (12 * SCALE as int))
        by (nonlinear_arith);
    assert(s_abs(fx_mul_spec(c, eta)) == s_abs(c * eta) / SCALE as int);
}

} // verus!
