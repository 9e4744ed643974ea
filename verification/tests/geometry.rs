use raynaldo::color::Color;
use raynaldo::fixed::{abs_i64, fx_div, fx_mul, fx_sqrt, isqrt_u128, SCALE};
use raynaldo::material::MaterialType;
use raynaldo::naive::NaiveTracer;
use raynaldo::texture::Texture;
use raynaldo::vec3::Vec3Fx;
use raynaldo::world::{Geometry, GeometryType, Ray, TriangleMeshGeometry, World, TMAX};

const S: i64 = SCALE;

fn v(x: i64, y: i64, z: i64) -> Vec3Fx {
    Vec3Fx { x, y, z }
}

fn gray_lambertian() -> MaterialType {
    MaterialType::Lambertian {
        texture: Texture::Solid { color: Color { r: 32768, g: 32768, b: 32768 } },
        emission: Color { r: 0, g: 0, b: 0 },
    }
}

fn sphere(center: Vec3Fx, radius: i64) -> Geometry {
    Geometry { geometry_type: GeometryType::Sphere { center, radius }, material: gray_lambertian() }
}

#[test]
fn fixed_point_ops_are_exact() {
    assert_eq!(fx_mul(2 * S, 3 * S), 6 * S);
    assert_eq!(fx_mul(-2 * S, 3 * S), -6 * S);
    assert_eq!(fx_mul(S / 2, S / 2), S / 4);
    assert_eq!(fx_div(6 * S, 3 * S), 2 * S);
    assert_eq!(fx_div(-6 * S, 3 * S), -2 * S);
    assert_eq!(fx_div(S, 3 * S), 21845); // 65536/3 truncated
    assert_eq!(isqrt_u128(0), 0);
    assert_eq!(isqrt_u128(15), 3);
    assert_eq!(isqrt_u128(16), 4);
    assert_eq!(fx_sqrt(4 * S), 2 * S);
    assert_eq!(abs_i64(i64::MIN), 9223372036854775808u64);
}

#[test]
fn vector_ops_are_exact() {
    let a = v(2 * S, 0, 0);
    let b = v(0, 3 * S, 0);
    assert_eq!(a.dot_v(b), 0);
    assert_eq!(a.dot_v(a), 4 * S);
    let c = a.cross_v(b);
    assert_eq!((c.x, c.y, c.z), (0, 0, 6 * S));
    assert_eq!(v(3 * S, 4 * S, 0).length(), 5 * S);
    let u = v(0, 0, -7 * S).unit_v().unwrap();
    assert_eq!((u.x, u.y, u.z), (0, 0, -S));
    assert!(v(0, 0, 0).unit_v().is_none());
}

#[test]
fn sphere_head_on_distance_is_exact() {
    // A ray from outside aimed at the center hits at |origin - center| - radius.
    let tracer = NaiveTracer::new(&vec![sphere(v(0, 0, 0), S)]);
    let ray = Ray::new(v(0, 0, -3 * S), v(0, 0, S));
    let hit = tracer.trace(&ray, 7, TMAX).expect("head-on ray must hit");
    assert_eq!(hit.distance, 2 * S);
    assert_eq!((hit.point.x, hit.point.y, hit.point.z), (0, 0, -S));
    // outward normal (hit - center).normalize(), facing the ray
    assert_eq!((hit.normal.x, hit.normal.y, hit.normal.z), (0, 0, -S));
    assert!(hit.front_face);
    assert_eq!(hit.geometry_index, 0);
    // spherical UV of the outward normal (0, 0, -1):
    // phi = atan2(1, 0) = pi/2, u = (pi/2 + pi)/2pi = 3/4;
    // theta = acos(0) = pi/2, v = 1/2
    assert_eq!(hit.uv, (49152, 32768));
}

#[test]
fn sphere_prefers_near_root_and_interval() {
    let tracer = NaiveTracer::new(&vec![sphere(v(0, 0, 0), S)]);
    let ray = Ray::new(v(0, 0, -3 * S), v(0, 0, S));
    // excluding the near root selects the far one
    let hit = tracer.trace(&ray, 3 * S, TMAX).expect("far root in range");
    assert_eq!(hit.distance, 4 * S);
    assert!(!hit.front_face);
    // an interval past the sphere misses
    assert!(tracer.trace(&ray, 5 * S, TMAX).is_none());
}

#[test]
fn nearest_of_two_spheres_wins() {
    let tracer = NaiveTracer::new(
        &vec![sphere(v(0, 0, 4 * S), S), sphere(v(0, 0, 2 * S), S)],
    );
    let ray = Ray::new(v(0, 0, -S), v(0, 0, S));
    let hit = tracer.trace(&ray, 7, TMAX).expect("must hit the near sphere");
    assert_eq!(hit.geometry_index, 1);
    assert_eq!(hit.distance, 2 * S);
}

#[test]
fn quad_center_maps_to_half_half() {
    let quad = Geometry {
        geometry_type: GeometryType::Quad {
            origin: v(-S, -S, 0),
            u: v(2 * S, 0, 0),
            v: v(0, 2 * S, 0),
        },
        material: gray_lambertian(),
    };
    let tracer = NaiveTracer::new(&vec![quad]);
    let ray = Ray::new(v(0, 0, -2 * S), v(0, 0, S));
    let hit = tracer.trace(&ray, 7, TMAX).expect("center ray must hit");
    assert_eq!(hit.distance, 2 * S);
    assert_eq!(hit.uv, (S / 2, S / 2));
    assert_eq!((hit.point.x, hit.point.y, hit.point.z), (0, 0, 0));
}

#[test]
fn quad_rejects_uv_outside_unit_square() {
    let quad = Geometry {
        geometry_type: GeometryType::Quad {
            origin: v(-S, -S, 0),
            u: v(2 * S, 0, 0),
            v: v(0, 2 * S, 0),
        },
        material: gray_lambertian(),
    };
    let tracer = NaiveTracer::new(&vec![quad]);
    // the infinite plane is hit at x = 3, but that lies outside the quad
    let ray = Ray::new(v(3 * S, 0, -2 * S), v(0, 0, S));
    assert!(tracer.trace(&ray, 7, TMAX).is_none());
    // just inside the far corner still hits
    let ray_in = Ray::new(v(S - 1, S - 1, -2 * S), v(0, 0, S));
    let hit = tracer.trace(&ray_in, 7, TMAX).expect("inside the quad");
    assert!(hit.uv.0 <= S && hit.uv.1 <= S);
}

#[test]
fn triangle_barycentric_uv() {
    let mesh = TriangleMeshGeometry {
        verts: vec![v(0, 0, 2 * S), v(2 * S, 0, 2 * S), v(0, 2 * S, 2 * S)],
        indices: vec![(0, 1, 2)],
        tex_coords: vec![],
    };
    let tri = Geometry {
        geometry_type: GeometryType::TriangleMesh(mesh),
        material: gray_lambertian(),
    };
    let tracer = NaiveTracer::new(&vec![tri]);
    let ray = Ray::new(v(S / 2, S / 2, 0), v(0, 0, S));
    let hit = tracer.trace(&ray, 7, TMAX).expect("must hit the triangle");
    assert_eq!(hit.distance, 2 * S);
    assert_eq!(hit.uv, (S / 4, S / 4));
    assert_eq!(hit.geometry_index, 0);
    // the normal opposes the ray
    assert_eq!((hit.normal.x, hit.normal.y, hit.normal.z), (0, 0, -S));
    // outside the triangle: no hit
    let miss = Ray::new(v(3 * S / 2, 3 * S / 2, 0), v(0, 0, S));
    assert!(tracer.trace(&miss, 7, TMAX).is_none());
}

#[test]
fn mesh_triangles_report_source_index() {
    let mesh = TriangleMeshGeometry {
        verts: vec![v(0, 0, 2 * S), v(2 * S, 0, 2 * S), v(0, 2 * S, 2 * S)],
        indices: vec![(0, 1, 2)],
        tex_coords: vec![],
    };
    let world = vec![
        sphere(v(8 * S, 0, 0), S),
        Geometry { geometry_type: GeometryType::TriangleMesh(mesh), material: gray_lambertian() },
    ];
    let tracer = NaiveTracer::new(&world);
    let ray = Ray::new(v(S / 2, S / 2, 0), v(0, 0, S));
    let hit = tracer.trace(&ray, 7, TMAX).expect("must hit the mesh");
    assert_eq!(hit.geometry_index, 1);
}

#[test]
fn box_entry_face_is_nearest() {
    let oblique = Geometry {
        geometry_type: GeometryType::ObliqueBox {
            origin: v(-S, -S, S),
            u: v(2 * S, 0, 0),
            v: v(0, 2 * S, 0),
            w: v(0, 0, 2 * S),
        },
        material: gray_lambertian(),
    };
    let tracer = NaiveTracer::new(&vec![oblique]);
    let ray = Ray::new(v(0, 0, -2 * S), v(0, 0, S));
    let hit = tracer.trace(&ray, 7, TMAX).expect("must hit the box");
    // entry face z = 1 at t = 3, not the exit face z = 3 at t = 5
    assert_eq!(hit.distance, 3 * S);
    assert_eq!((hit.normal.x, hit.normal.y, hit.normal.z), (0, 0, -S));
    assert_eq!(hit.geometry_index, 0);
    // from inside, the exit face is hit instead
    let inside = Ray::new(v(0, 0, 2 * S), v(0, 0, S));
    let exit = tracer.trace(&inside, 7, TMAX).expect("must exit the box");
    assert_eq!(exit.distance, S);
}

#[test]
fn degenerate_quad_never_hits() {
    let quad = Geometry {
        geometry_type: GeometryType::Quad {
            origin: v(0, 0, 0),
            u: v(2 * S, 0, 0),
            v: v(S, 0, 0), // collinear edges: zero cross product
        },
        material: gray_lambertian(),
    };
    let tracer = NaiveTracer::new(&vec![quad]);
    let ray = Ray::new(v(0, 0, -2 * S), v(0, 0, S));
    assert!(tracer.trace(&ray, 7, TMAX).is_none());
}

#[test]
fn validation_rejects_malformed_scenes() {
    // a dangling vertex index is a load-time configuration error
    let broken_mesh = TriangleMeshGeometry {
        verts: vec![v(0, 0, 0), v(S, 0, 0), v(0, S, 0)],
        indices: vec![(0, 1, 3)],
        tex_coords: vec![],
    };
    assert!(!broken_mesh.check_wf());
    let broken_world = World {
        geometry: vec![Geometry {
            geometry_type: GeometryType::TriangleMesh(broken_mesh),
            material: gray_lambertian(),
        }],
    };
    assert!(!broken_world.check_wf());
    // a coordinate outside the supported range is rejected too
    let far_sphere = World { geometry: vec![sphere(v(i64::MAX / 2, 0, 0), S)] };
    assert!(!far_sphere.check_wf());
    // and the valid version passes
    let good = World { geometry: vec![sphere(v(0, 0, 0), S)] };
    assert!(good.check_wf());
}

#[test]
fn validation_rejects_bad_materials() {
    let bad_metal = MaterialType::Metal {
        albedo: Color { r: 70000, g: 0, b: 0 },
        fuzziness: 0,
        emission: Color { r: 0, g: 0, b: 0 },
    };
    assert!(!bad_metal.check_wf());
    let bad_fuzz = MaterialType::Metal {
        albedo: Color { r: 0, g: 0, b: 0 },
        fuzziness: 2 * S,
        emission: Color { r: 0, g: 0, b: 0 },
    };
    assert!(!bad_fuzz.check_wf());
    assert!(gray_lambertian().check_wf());
}

#[test]
fn skewed_quad_center_is_half_half() {
    // non-orthogonal edges: the UV must be the edge-basis coordinates,
    // not per-edge projections
    let quad = Geometry {
        geometry_type: GeometryType::Quad {
            origin: v(0, 0, 0),
            u: v(2 * S, 0, 0),
            v: v(S, S, 0),
        },
        material: gray_lambertian(),
    };
    let tracer = NaiveTracer::new(&vec![quad]);
    // geometric center: origin + u/2 + v/2 = (1.5, 0.5, 0)
    let ray = Ray::new(v(3 * S / 2, S / 2, -2 * S), v(0, 0, S));
    let hit = tracer.trace(&ray, 7, TMAX).expect("center ray must hit");
    assert_eq!(hit.distance, 2 * S);
    assert_eq!(hit.uv, (S / 2, S / 2));
}

#[test]
fn skewed_quad_rejects_outside_basis_coordinates() {
    let quad = Geometry {
        geometry_type: GeometryType::Quad {
            origin: v(0, 0, 0),
            u: v(2 * S, 0, 0),
            v: v(S, S, 0),
        },
        material: gray_lambertian(),
    };
    let tracer = NaiveTracer::new(&vec![quad]);
    // the plane point 1.25*u - 0.5*v = (2, -0.5, 0) lies outside the
    // parallelogram even though both per-edge projections fall in [0, 1]
    let ray = Ray::new(v(2 * S, -S / 2, -2 * S), v(0, 0, S));
    assert!(tracer.trace(&ray, 7, TMAX).is_none());
    // a point just inside the far corner still hits: u + v = (3, 1, 0)
    // minus a nudge along both edges
    let inside = Ray::new(v(3 * S / 2, S / 2, -2 * S), v(0, 0, S));
    assert!(tracer.trace(&inside, 7, TMAX).is_some());
}

#[test]
fn flattened_box_intersects_nothing() {
    // a box with a singular edge basis (w parallel to u) is degenerate:
    // reported as no intersection
    let flat = Geometry {
        geometry_type: GeometryType::ObliqueBox {
            origin: v(-S, -S, S),
            u: v(2 * S, 0, 0),
            v: v(0, 2 * S, 0),
            w: v(S, 0, 0),
        },
        material: gray_lambertian(),
    };
    let tracer = NaiveTracer::new(&vec![flat]);
    let ray = Ray::new(v(0, 0, -2 * S), v(0, 0, S));
    assert!(tracer.trace(&ray, 7, TMAX).is_none());
}
