use rray::geometry::{Colour, Material, Object, Sphere};
use rray::math::{Vec3, Vec3fx, FX_ONE};

fn plain_material() -> Material {
    Material {
        diffuse: Colour { x: FX_ONE, y: FX_ONE, z: FX_ONE },
        specular: Colour { x: 0, y: 0, z: 0 },
        shininess: 25,
        mirror: 0,
    }
}

#[test]
fn aimed_ray_hits_at_center_distance_minus_radius() {
    // Sphere of radius 100 centered 1200 units from the origin; the ray
    // is the full offset to the center, so the hit parameter is
    // (1200 - 100) / 1200 of the ray, rounded down in fixed point.
    let s = Sphere {
        pos: Vec3::new(0, 0, -400 * FX_ONE),
        rad: 100 * FX_ONE,
        mat: plain_material(),
    };
    let origin: Vec3fx = Vec3::new(0, 0, 800 * FX_ONE);
    let ray: Vec3fx = Vec3::new(0, 0, -1200 * FX_ONE);
    let hit = s.intersect(&ray, &origin).expect("the aimed ray must hit");
    assert_eq!(hit.ray_len, 1100 * FX_ONE / 1200);
    // In world units the hit distance is ray_len times the ray's length
    // of 1200: within a whisker of 1100 = |origin to center| - radius.
    let world = (hit.ray_len as f64 / FX_ONE as f64) * 1200.0;
    assert!((world - 1100.0).abs() < 0.01);
}

#[test]
fn hit_vector_runs_from_center_to_surface() {
    let s = Sphere {
        pos: Vec3::new(0, 0, -400 * FX_ONE),
        rad: 100 * FX_ONE,
        mat: plain_material(),
    };
    let origin: Vec3fx = Vec3::new(0, 0, 800 * FX_ONE);
    let ray: Vec3fx = Vec3::new(0, 0, -1200 * FX_ONE);
    let hit = s.intersect(&ray, &origin).expect("the aimed ray must hit");
    // ray * t - line: pointing from the center back toward the origin,
    // with length radius up to the rounding of t.
    assert_eq!(hit.ray.x, 0);
    assert_eq!(hit.ray.y, 0);
    let len = hit.ray.z as f64 / FX_ONE as f64;
    assert!((len - 100.0).abs() < 0.01);
}

#[test]
fn ray_from_surface_does_not_self_intersect() {
    // The origin lies exactly on the surface: the nearer root is zero,
    // inside the epsilon guard, so no intersection is reported — the
    // regression that prevents shadow acne.
    let s = Sphere { pos: Vec3::new(0, 0, 0), rad: 100 * FX_ONE, mat: plain_material() };
    let origin: Vec3fx = Vec3::new(0, 0, 100 * FX_ONE);
    let outward: Vec3fx = Vec3::new(0, 0, FX_ONE);
    assert!(s.intersect(&outward, &origin).is_none());
    let tangent: Vec3fx = Vec3::new(FX_ONE, 0, 0);
    assert!(s.intersect(&tangent, &origin).is_none());
}

#[test]
fn ray_missing_the_sphere() {
    let s = Sphere { pos: Vec3::new(0, 0, -400 * FX_ONE), rad: 100 * FX_ONE, mat: plain_material() };
    let origin: Vec3fx = Vec3::new(0, 0, 800 * FX_ONE);
    let ray: Vec3fx = Vec3::new(1200 * FX_ONE, 0, 0);
    assert!(s.intersect(&ray, &origin).is_none());
}

#[test]
fn ray_behind_the_origin_is_rejected() {
    // The sphere sits behind the ray: both roots are negative.
    let s = Sphere { pos: Vec3::new(0, 0, 400 * FX_ONE), rad: 100 * FX_ONE, mat: plain_material() };
    let origin: Vec3fx = Vec3::new(0, 0, 0);
    let ray: Vec3fx = Vec3::new(0, 0, -FX_ONE);
    assert!(s.intersect(&ray, &origin).is_none());
}

#[test]
fn material_lookup() {
    let s = Sphere { pos: Vec3::new(0, 0, 0), rad: FX_ONE, mat: plain_material() };
    assert_eq!(s.mat(), plain_material());
}
