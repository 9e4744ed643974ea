use raynaldo::angles::{acos_fx, atan2_fx, PI_FX};
use raynaldo::color::{Color, COLOR_ONE};
use raynaldo::fixed::SCALE;
use raynaldo::material::{dielectric_direction, metal_direction, random_unit_vector, reflectance, MaterialType};
use raynaldo::scene::Scene;
use raynaldo::texture::{ImageTexture, Texture};
use raynaldo::tracer::TraceResult;
use raynaldo::vec3::Vec3Fx;
use raynaldo::world::{Geometry, GeometryType, Ray, World};

const S: i64 = SCALE;

fn v(x: i64, y: i64, z: i64) -> Vec3Fx {
    Vec3Fx { x, y, z }
}

#[test]
fn color_attenuate_is_exact() {
    let half = Color { r: 32768, g: 32768, b: 32768 };
    let full = Color { r: 65536, g: 32768, b: 0 };
    let out = half.attenuate(full);
    assert_eq!(out, Color { r: 32768, g: 16384, b: 0 });
    let sum = out.add_sat(out);
    assert_eq!(sum, Color { r: 65536, g: 32768, b: 0 });
    let sat = Color { r: u32::MAX, g: 0, b: 0 }.add_sat(Color { r: 1, g: 1, b: 1 });
    assert_eq!(sat.r, u32::MAX);
    assert_eq!(sat.g, 1);
}

#[test]
fn solid_and_checker_textures() {
    let red = Color { r: COLOR_ONE, g: 0, b: 0 };
    let blue = Color { r: 0, g: 0, b: COLOR_ONE };
    let solid = Texture::Solid { color: red };
    assert_eq!(solid.sample(12345, -777), red);

    let checker = Texture::Checker { color1: red, color2: blue, scale: S };
    // cell (0, 0): even
    assert_eq!(checker.sample(0, 0), red);
    // cell (1, 0): odd
    assert_eq!(checker.sample(S, 0), blue);
    // cell (1, 1): even again
    assert_eq!(checker.sample(S, S), red);
    // negative coordinates floor downward: u = -0.5 lies in cell -1
    assert_eq!(checker.sample(-S / 2, 0), blue);
    assert_eq!(checker.sample(-S / 2, -S / 2), red);
}

#[test]
fn image_texture_bilinear_center() {
    let c = |r: u32| Color { r, g: r, b: r };
    let image = ImageTexture {
        width: 2,
        height: 2,
        pixels: vec![c(0), c(65536), c(32768), c(32768)],
    };
    let tex = Texture::Image { image };
    // dead center blends all four texels equally
    let mid = tex.sample(S / 2, S / 2);
    assert_eq!(mid.r, (0 + 65536 + 32768 + 32768) / 4);
    // the corner u=0, v=1 is the first texel exactly (v is flipped)
    let corner = tex.sample(0, S);
    assert_eq!(corner.r, 0);
    let other = tex.sample(S, S);
    assert_eq!(other.r, 65536);
}

#[test]
fn angle_approximations() {
    // atan2(0, 1) is almost zero (the approximation biases by |y|+1)
    assert_eq!(atan2_fx(0, S), 2);
    // acos(0) is exactly a quarter turn in this formula
    assert_eq!(acos_fx(0), PI_FX / 2);
    assert!(atan2_fx(S, 0) > 0);
    assert!(atan2_fx(-S, 0) < 0);
    // acos spans [0, pi]: cos 1 -> ~0, cos -1 -> ~pi
    assert!(acos_fx(S) < 200);
    assert!(acos_fx(-S) > PI_FX - 200);
}

#[test]
fn reflectance_at_normal_incidence() {
    // matched media reflect nothing head-on
    assert_eq!(reflectance(S, S), 0);
    // n = 1.5 gives Schlick r0 = 0.04 (2621 in fixed point, truncated)
    assert_eq!(reflectance(S, 98304), 2621);
    // grazing incidence reflects almost fully
    assert!(reflectance(0, 98304) > 60000);
}

#[test]
fn random_unit_vector_is_unit_scale() {
    for _ in 0..200 {
        let u = random_unit_vector();
        assert!(u.x.abs() <= S && u.y.abs() <= S && u.z.abs() <= S);
        let len2 = u.x * u.x + u.y * u.y + u.z * u.z;
        // within rounding of SCALE^2
        assert!(len2 <= (S + 8) * (S + 8));
        assert!(len2 >= (S - 8) * (S - 8));
    }
}

#[test]
fn dielectric_normal_incidence_does_not_bend() {
    // matched refractive indices, ray exactly along the surface normal:
    // the scattered direction is collinear with the incoming one, for
    // any value of the reflectance coin.
    let n = v(0, 0, S);
    let uv = v(0, 0, -S);
    for coin in [0, 1, 32768, 65535] {
        let out = dielectric_direction(uv, n, S, coin);
        assert_eq!((out.x, out.y, out.z), (uv.x, uv.y, uv.z));
    }
}

#[test]
fn dielectric_scatter_transmits_fully() {
    let material = MaterialType::Dielectric {
        refractive_index: S,
        emission: Color { r: 0, g: 0, b: 0 },
    };
    let ray = Ray::new(v(0, 0, -3 * S), v(0, 0, S));
    let hit = TraceResult {
        distance: 2 * S,
        point: v(0, 0, -S),
        normal: v(0, 0, -S),
        geometry_index: 0,
        front_face: true,
        uv: (0, 0),
    };
    let scattered = material.scatter(&ray, &hit).expect("dielectric always scatters");
    assert_eq!(
        scattered.attenuation,
        Color { r: COLOR_ONE, g: COLOR_ONE, b: COLOR_ONE },
    );
    assert_eq!(scattered.scattered.origin, hit.point);
    // matched indices head-on: the ray passes through unbent
    assert_eq!(scattered.scattered.direction, v(0, 0, S));
}

#[test]
fn metal_scatter_respects_surface_side() {
    let material = MaterialType::Metal {
        albedo: Color { r: 60000, g: 50000, b: 40000 },
        fuzziness: 0,
        emission: Color { r: 0, g: 0, b: 0 },
    };
    let ray = Ray::new(v(0, 0, -3 * S), v(0, 0, S));
    let hit = TraceResult {
        distance: 2 * S,
        point: v(0, 0, -S),
        normal: v(0, 0, -S),
        geometry_index: 0,
        front_face: true,
        uv: (0, 0),
    };
    let scattered = material.scatter(&ray, &hit).expect("mirror reflection bounces back");
    assert_eq!(scattered.attenuation, Color { r: 60000, g: 50000, b: 40000 });
    // head-on mirror: reflected straight back
    assert_eq!(scattered.scattered.direction, v(0, 0, -S));
}

#[test]
fn lambertian_scatter_samples_texture() {
    let material = MaterialType::Lambertian {
        texture: Texture::Solid { color: Color { r: 40000, g: 30000, b: 20000 } },
        emission: Color { r: 0, g: 0, b: 0 },
    };
    let ray = Ray::new(v(0, 0, -3 * S), v(0, 0, S));
    let hit = TraceResult {
        distance: 2 * S,
        point: v(0, 0, -S),
        normal: v(0, 0, -S),
        geometry_index: 0,
        front_face: true,
        uv: (S / 2, S / 2),
    };
    let scattered = material.scatter(&ray, &hit).expect("lambertian always scatters");
    assert_eq!(scattered.attenuation, Color { r: 40000, g: 30000, b: 20000 });
    assert_eq!(scattered.scattered.origin, hit.point);
}

#[test]
fn dark_scene_renders_exactly_black() {
    // a non-emissive object over a black environment cannot produce
    // radiance, whatever the scatter randomness does
    let world = World {
        geometry: vec![
            Geometry {
                geometry_type: GeometryType::Sphere { center: v(0, 0, 0), radius: S },
                material: MaterialType::Lambertian {
                    texture: Texture::Solid { color: Color { r: 32768, g: 32768, b: 32768 } },
                    emission: Color { r: 0, g: 0, b: 0 },
                },
            },
        ],
    };
    let scene = Scene::new(world);
    let ray = Ray::new(v(0, 0, -3 * S), v(0, 0, S));
    for _ in 0..20 {
        let color = scene.render_ray(ray, 10);
        assert_eq!(color, Color { r: 0, g: 0, b: 0 });
    }
    // a miss is black too
    let miss = scene.render_ray(Ray::new(v(0, 3 * S, -3 * S), v(0, 0, S)), 10);
    assert_eq!(miss, Color { r: 0, g: 0, b: 0 });
}

#[test]
fn emissive_material_lights_its_own_pixel() {
    let world = World {
        geometry: vec![
            Geometry {
                geometry_type: GeometryType::Sphere { center: v(0, 0, 0), radius: S },
                material: MaterialType::Metal {
                    albedo: Color { r: 0, g: 0, b: 0 },
                    fuzziness: 0,
                    emission: Color { r: 12345, g: 0, b: 0 },
                },
            },
        ],
    };
    let scene = Scene::new(world);
    let ray = Ray::new(v(0, 0, -3 * S), v(0, 0, S));
    let color = scene.render_ray(ray, 4);
    // first bounce collects the emission at full throughput; the
    // mirror then stares into black space
    assert_eq!(color.r, 12345);
    assert_eq!(color.g, 0);
}

#[test]
fn dielectric_never_absorbs_degenerate_direction() {
    // even a zero incoming direction is scattered (along the normal),
    // never absorbed
    let material = MaterialType::Dielectric {
        refractive_index: 3 * S / 2,
        emission: Color { r: 0, g: 0, b: 0 },
    };
    let ray = Ray::new(v(0, 0, -3 * S), v(0, 0, 0));
    let hit = TraceResult {
        distance: 2 * S,
        point: v(0, 0, -S),
        normal: v(0, 0, -S),
        geometry_index: 0,
        front_face: true,
        uv: (0, 0),
    };
    let scattered = material.scatter(&ray, &hit).expect("a dielectric never absorbs");
    assert_eq!(scattered.scattered.direction, hit.normal);
    assert_eq!(
        scattered.attenuation,
        Color { r: COLOR_ONE, g: COLOR_ONE, b: COLOR_ONE },
    );
}

#[test]
fn metal_direction_is_normalized_after_fuzz() {
    // a half-fuzz draw perturbs the mirror direction but the result is
    // normalized back to (near) unit length
    let d = v(0, 0, S);
    let n = v(0, 0, -S);
    let w = v(S / 2, S / 2, -S / 2);
    if let Some(dir) = metal_direction(d, n, S / 2, w) {
        let len2 = dir.x * dir.x + dir.y * dir.y + dir.z * dir.z;
        assert!(len2 >= (S / 2) * (S / 2));
        assert!(len2 <= 3 * S * S);
        // and it leaves the front side
        assert!(dir.z < 0);
    } else {
        panic!("front-side fuzz draw must scatter");
    }
}
