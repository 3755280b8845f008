use rray::geometry::{Colour, Material, Primitive, Sphere};
use rray::math::{MathVector, Vec3, Vec3fx, FX_ONE};
use rray::scene::Light;
use rray::trace::{intersect_nodes, trace};

fn matte_white() -> Material {
    Material {
        diffuse: Colour { x: FX_ONE, y: FX_ONE, z: FX_ONE },
        specular: Colour { x: 0, y: 0, z: 0 },
        shininess: 25,
        mirror: 0,
    }
}

fn shaded_sphere() -> Primitive {
    Primitive::Sphere(Sphere { pos: Vec3::new(0, 0, 0), rad: 50 * FX_ONE, mat: matte_white() })
}

fn occluder() -> Primitive {
    // Sits halfway between the shaded point (0, 0, 50) and the light
    // at (100, 0, 150), well off the camera's line of sight.
    Primitive::Sphere(
        Sphere { pos: Vec3::new(50 * FX_ONE, 0, 100 * FX_ONE), rad: 20 * FX_ONE, mat: matte_white() },
    )
}

fn the_light() -> Light {
    Light {
        pos: Vec3::new(100 * FX_ONE, 0, 150 * FX_ONE),
        colour: Colour { x: FX_ONE, y: FX_ONE, z: FX_ONE },
    }
}

const AMBIENT: i64 = 524288;  // 0.5

#[test]
fn nearest_hit_picks_the_closer_primitive() {
    let far = Primitive::Sphere(
        Sphere { pos: Vec3::new(0, 0, -400 * FX_ONE), rad: 50 * FX_ONE, mat: matte_white() },
    );
    let near = Primitive::Sphere(
        Sphere { pos: Vec3::new(0, 0, -200 * FX_ONE), rad: 50 * FX_ONE, mat: matte_white() },
    );
    let ps = vec![far, near];
    let origin: Vec3fx = Vec3::new(0, 0, 0);
    let ray: Vec3fx = Vec3::new(0, 0, -FX_ONE);
    let (_, idx) = intersect_nodes(&ps, &ray, &origin).expect("must hit");
    assert_eq!(idx, 1);
}

#[test]
fn nearest_hit_none_when_everything_misses() {
    let ps = vec![shaded_sphere()];
    let origin: Vec3fx = Vec3::new(0, 0, 200 * FX_ONE);
    let ray: Vec3fx = Vec3::new(0, 0, FX_ONE);
    assert!(intersect_nodes(&ps, &ray, &origin).is_none());
}

#[test]
fn trace_background_is_black() {
    let ps: Vec<Primitive> = vec![];
    let amb = Colour { x: AMBIENT, y: AMBIENT, z: AMBIENT };
    let origin: Vec3fx = Vec3::new(0, 0, 200 * FX_ONE);
    let ray: Vec3fx = Vec3::new(0, 0, -FX_ONE);
    let lights = vec![the_light()];
    let c = trace(&ps, &amb, &ray, &origin, &lights);
    assert_eq!(c, Vec3fx { x: 0, y: 0, z: 0 });
}

#[test]
fn occluding_sphere_cuts_the_light_to_ambient_only() {
    // The same view ray shaded twice: once lit, once with an opaque
    // sphere inserted between the light and the shaded point. Occlusion
    // removes the light's whole contribution, leaving exactly the
    // ambient term, strictly less than the lit colour in every channel.
    let amb = Colour { x: AMBIENT, y: AMBIENT, z: AMBIENT };
    let origin: Vec3fx = Vec3::new(0, 0, 200 * FX_ONE);
    let ray: Vec3fx = Vec3::new(0, 0, -200 * FX_ONE);
    let lights = vec![the_light()];

    let lit = {
        let ps = vec![shaded_sphere()];
        trace(&ps, &amb, &ray, &origin, &lights)
    };
    let shadowed = {
        let ps = vec![shaded_sphere(), occluder()];
        trace(&ps, &amb, &ray, &origin, &lights)
    };

    // Ambient times the material's diffuse colour, and nothing else.
    let ambient_only = amb.mul_v(&matte_white().diffuse);
    assert_eq!(shadowed, ambient_only);
    assert!(shadowed.x < lit.x);
    assert!(shadowed.y < lit.y);
    assert!(shadowed.z < lit.z);
}

#[test]
fn lit_colour_value_is_exact() {
    // diffuse coefficient = normal dot normalized shadow ray, then the
    // final colour adds the ambient term: every step is deterministic
    // fixed-point arithmetic, so the result is an exact number.
    let amb = Colour { x: AMBIENT, y: AMBIENT, z: AMBIENT };
    let origin: Vec3fx = Vec3::new(0, 0, 200 * FX_ONE);
    let ray: Vec3fx = Vec3::new(0, 0, -200 * FX_ONE);
    let lights = vec![the_light()];
    let ps = vec![shaded_sphere()];
    let lit = trace(&ps, &amb, &ray, &origin, &lights);
    assert_eq!(lit.x, lit.y);
    assert_eq!(lit.y, lit.z);
    let diffuse = lit.x - AMBIENT;
    // Around cos(45 degrees), a touch under by the roundings.
    let coef = diffuse as f64 / FX_ONE as f64;
    assert!((coef - 0.7071).abs() < 0.001, "diffuse coefficient came out as {coef}");
}
