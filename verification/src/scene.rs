//! The scene and its path integrator.
//!
//! `render_ray` turns one camera ray into one radiance sample: follow
//! the ray through up to `max_depth` scatters, adding the emission met
//! along the way weighted by the running throughput, and stopping on a
//! miss (adding the environment light), on absorption, or when the
//! depth budget runs out.  The environment here is black, so a scene
//! whose materials emit nothing can only produce black samples - which
//! is exactly what the contract says.

use vstd::prelude::*;

use crate::color::{Color, COLOR_ONE};
use crate::naive::NaiveTracer;
use crate::tracer::Tracer;
use crate::world::{Ray, World, CMAX, TMAX};

verus! {

/// Lower parametric bound for every trace: keeps a bounced ray from
/// immediately re-hitting the surface it just left.
pub const T_EPS: i64 = 7;

pub struct Scene {
    pub tracer: Tracer,
    pub world: World,
}

impl Scene {
    /// A well-formed world with a backend built from exactly its
    /// geometry list, so hit indices always name a world entry.
    pub open spec fn wf(self) -> bool {
        &&& self.world.wf()
        &&& self.tracer.wf()
        &&& self.tracer.geometry_count() == self.world.geometry@.len()
    }

    /// No material in the scene emits any light.
    pub open spec fn all_dark(self) -> bool {
        forall|i: int|
            0 <= i < self.world.geometry@.len() ==> (#[trigger] self.world.geometry@[
                i
            ]).material.emission_spec().is_black()
    }

    /// Build a scene over the brute-force backend: its primitives are
    /// exactly the decomposition of the world's geometry list.
    pub fn new(world: World) -> (s: Scene)
        requires
            world.wf(),
        ensures
            s.wf(),
            s.world == world,
            s.tracer.spec_objects() == crate::naive::decompose(world.geometry@),
    {
        let tracer = Tracer::NaiveTracer(NaiveTracer::new(&world.geometry));
        Scene { tracer, world }
    }

    /// The environment light a missed ray picks up: black.
    pub fn get_environment_color(&self, _ray: &Ray) -> (c: Color)
        ensures
            c.is_black(),
    {
        Color::black()
    }

    /// The emission floor a first hit guarantees: some primitive's spec
    /// hit whose source entry's emission the sample dominates,
    /// channel by channel.
    pub open spec fn collects_emission_of_some_hit(self, ray: Ray, color: Color) -> bool {
        exists|k: int|
            0 <= k < self.tracer.spec_objects().len() && (#[trigger] crate::naive::object_hit_dist(
                self.tracer.spec_objects()[k],
                ray,
                T_EPS as int,
                TMAX as int,
            )) is Some && (self.tracer.spec_objects()[k].geometry_index as int)
                < self.world.geometry@.len() && {
                let e = self.world.geometry@[self.tracer.spec_objects()[
                    k
                ].geometry_index as int].material.emission_spec();
                color.r >= e.r && color.g >= e.g && color.b >= e.b
            }
    }

    /// One radiance sample along `ray`, following at most `max_depth`
    /// scatters.  In a scene with no emissive material the sample is
    /// exactly black, whatever the randomness does: the only light
    /// sources are material emission and the (black) environment.
    /// Deterministically: a ray every primitive misses samples exactly
    /// black, and a ray with a sure hit collects that first hit's
    /// emission at full throughput.
    pub fn render_ray(&self, ray: Ray, max_depth: u32) -> (color: Color)
        requires
            self.wf(),
            ray.wf(),
        ensures
            self.all_dark() ==> color.is_black(),
            max_depth == 0 ==> color.is_black(),
            self.tracer.misses_all(ray, T_EPS as int, TMAX as int) ==> color.is_black(),
            (max_depth >= 1 && self.tracer.surely_hits(ray, T_EPS as int, TMAX as int))
                ==> self.collects_emission_of_some_hit(ray, color),
    {
        let mut current = ray;
        let mut final_color = Color::black();
        let mut throughput = Color::white();
        let mut depth: u32 = 0;
        while depth < max_depth
            invariant
                self.wf(),
                current.wf(),
                depth <= max_depth,
                throughput.is_attenuation(),
                self.all_dark() ==> final_color.is_black(),
                depth == 0 ==> current == ray && final_color.is_black() && throughput == (Color {
                    r: crate::color::COLOR_ONE,
                    g: crate::color::COLOR_ONE,
                    b: crate::color::COLOR_ONE,
                }),
                depth > 0 ==> !self.tracer.misses_all(ray, T_EPS as int, TMAX as int),
                depth > 0 ==> self.collects_emission_of_some_hit(ray, final_color),
            decreases max_depth - depth,
        {
            match self.tracer.trace(&current, T_EPS, TMAX) {
                Some(result) => {
                    let geometry = &self.world.geometry[result.geometry_index];
                    let material = &geometry.material;
                    let emitted = material.emit();
                    proof {
                        lemma_full_throughput(throughput, emitted);
                    }
                    let ghost before = final_color;
                    final_color = final_color.add_sat(throughput.attenuate(emitted));
                    proof {
                        lemma_floor_kept(*self, ray, before, final_color, depth as int);
                        if depth == 0 {
                            let k = choose|k: int|
                                0 <= k < self.tracer.spec_objects().len() && (
                                #[trigger] crate::naive::object_hit_dist(
                                    self.tracer.spec_objects()[k],
                                    ray,
                                    T_EPS as int,
                                    TMAX as int,
                                )) == Some(result.distance as int) && self.tracer.spec_objects()[
                                    k
                                ].geometry_index == result.geometry_index;
                            assert(self.collects_emission_of_some_hit(ray, final_color));
                        }
                    }
                    match material.scatter(&current, &result) {
                        Some(scatter_result) => {
                            let next_origin = scatter_result.scattered.origin;
                            if next_origin.x < -CMAX || next_origin.x > CMAX || next_origin.y
                                < -CMAX || next_origin.y > CMAX || next_origin.z < -CMAX
                                || next_origin.z > CMAX {
                                // The bounce leaves the well-formed
                                // coordinate range: a degenerate sample
                                // contributes nothing further.
                                return final_color;
                            }
                            throughput = throughput.attenuate(scatter_result.attenuation);
                            current = scatter_result.scattered;
                        },
                        None => {
                            return final_color;
                        },
                    }
                },
                None => {
                    let env = self.get_environment_color(&current);
                    let ghost before = final_color;
                    final_color = final_color.add_sat(throughput.attenuate(env));
                    proof {
                        lemma_floor_kept(*self, ray, before, final_color, depth as int);
                    }
                    return final_color;
                },
            }
            depth += 1;
        }
        final_color
    }
}

/// A full (white) throughput passes an emission through unchanged, and
/// adding it to black gives exactly the emission.
proof fn lemma_full_throughput(t: Color, e: Color)
    ensures
        t == (Color { r: COLOR_ONE, g: COLOR_ONE, b: COLOR_ONE }) ==> {
            &&& crate::color::scaled(t.r as int, e.r as int) == e.r
            &&& crate::color::scaled(t.g as int, e.g as int) == e.g
            &&& crate::color::scaled(t.b as int, e.b as int) == e.b
        },
{
    if t == (Color { r: COLOR_ONE, g: COLOR_ONE, b: COLOR_ONE }) {
        lemma_scaled_full(e.r as int);
        lemma_scaled_full(e.g as int);
        lemma_scaled_full(e.b as int);
    }
}

proof fn lemma_scaled_full(c: int)
    requires
        c >= 0,
    ensures
        crate::color::scaled(COLOR_ONE as int, c) == c,
{
    vstd::arithmetic::div_mod::lemma_div_multiples_vanish(c, COLOR_ONE as int);
}

/// Saturating growth keeps an emission floor: if the sample already
/// dominated some hit's emission, it still does after adding more.
proof fn lemma_floor_kept(scene: Scene, ray: Ray, before: Color, after: Color, depth: int)
    requires
        after.r >= before.r,
        after.g >= before.g,
        after.b >= before.b,
        depth > 0 ==> scene.collects_emission_of_some_hit(ray, before),
    ensures
        depth > 0 ==> scene.collects_emission_of_some_hit(ray, after),
{
    if depth > 0 {
        let k = choose|k: int|
            0 <= k < scene.tracer.spec_objects().len() && (
            #[trigger] crate::naive::object_hit_dist(
                scene.tracer.spec_objects()[k],
                ray,
                T_EPS as int,
                TMAX as int,
            )) is Some && (scene.tracer.spec_objects()[k].geometry_index as int)
                < scene.world.geometry@.len() && {
                let e = scene.world.geometry@[scene.tracer.spec_objects()[
                    k
                ].geometry_index as int].material.emission_spec();
                before.r >= e.r && before.g >= e.g && before.b >= e.b
            };
        assert(scene.collects_emission_of_some_hit(ray, after));
    }
}

} // verus!
