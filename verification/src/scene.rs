//! The immutable scene description and the per-render projection setup.
//!
//! The view length depends on the tangent of half the field of view (the
//! half-angle convention: `view_len = (height / 2) / tan(fov / 2)`), a
//! transcendental quantity no fixed-point operation of this library
//! computes. Callers pass it in as a plain scalar alongside the scene, and
//! everything derived from it is specified exactly.

use crate::geometry::{Colour, Primitive, Sphere, FX_NEG_TWO, FX_TWO};
use crate::math::{
    fx_div, fx_neg, int_to_fx, lemma_vdot3, scalar_div, scalar_from_usize, scalar_neg, vadd,
    vcross, vdot, vnormalize, vscale, MathVector, Vec3, Vec3fx, FX_ONE,
};
use crate::geometry::Material;
use vstd::prelude::*;

verus! {

/// Projection parameters derived once per render from the scene.
#[derive(Clone, Copy, PartialEq, Eq, Structural, Debug)]
pub struct SceneParams {
    pub aspect_ratio: i64,
    pub view_len: i64,
    pub hor_vec: Vec3fx,
    pub top_pixel: Vec3fx,
    pub antialias: bool,
}

/// A point light: no attenuation, no area.
#[derive(Clone, Copy, PartialEq, Eq, Structural, Debug)]
pub struct Light {
    pub pos: Vec3fx,
    pub colour: Colour,
}

/// Everything to render: constructed once, read-only afterwards.
#[derive(Debug)]
pub struct Scene {
    /// Light sources.
    pub lights: Vec<Light>,
    /// Objects to possibly render.
    pub primitives: Vec<Primitive>,
    /// Ambient colour.
    pub ambient: Colour,
    /// Camera location.
    pub camera: Vec3fx,
    /// Unit forward direction.
    pub view: Vec3fx,
    /// Which way is "up".
    pub up: Vec3fx,
    /// Output width in pixels.
    pub width: usize,
    /// Output height in pixels.
    pub height: usize,
    /// Field of view, in fixed-point degrees (carried for description;
    /// the renderer consumes its half-angle tangent, supplied by the
    /// caller).
    pub fov: i64,
}

/// A configuration the projection cannot be built from.
#[derive(Clone, Copy, PartialEq, Eq, Structural, Debug)]
pub enum SceneError {
    /// `view` and `up` are parallel: their cross product is the zero
    /// vector, so the view plane has no horizontal axis.
    DegenerateViewBasis,
}

/// Whether a primitive's defining size is positive.
pub open spec fn primitive_positive(p: Primitive) -> bool {
    match p {
        Primitive::Sphere(sp) => sp.rad > 0,
    }
}

/// A scene fit to render: a positive viewport, a field of view strictly
/// between 0 and 180 degrees, unit `view` and `up` directions that are
/// not parallel, and positive radii. Every render function is total and
/// exactly specified without this, but a scene description is meant to
/// satisfy it, and the reference scene provably does.
pub open spec fn scene_well_formed(s: Scene) -> bool {
    &&& s.width >= 1
    &&& s.height >= 1
    &&& 0 < s.fov < 188743680
    &&& vdot(s.view.model(), s.view.model()) == FX_ONE
    &&& vdot(s.up.model(), s.up.model()) == FX_ONE
    &&& view_basis(s) != seq![0i64, 0i64, 0i64]
    &&& forall|k: int| 0 <= k < s.primitives@.len() ==> primitive_positive(#[trigger] s.primitives@[k])
}

/// The cross product of `view` and `up`, the unnormalized horizontal axis.
pub open spec fn view_basis(s: Scene) -> Seq<i64> {
    vcross(s.view.model(), s.up.model())
}

/// What `setup_scene` yields on success.
pub open spec fn scene_params_model(s: Scene, aa: bool, tan_half_fov: i64) -> SceneParams {
    let aspect_ratio = fx_div(int_to_fx(s.width as int), int_to_fx(s.height as int));
    let view_len = fx_div(int_to_fx((s.height as int) / 2), tan_half_fov);
    let hor = vnormalize(view_basis(s));
    let center = vadd(s.camera.model(), vscale(s.view.model(), view_len));
    let top = vadd(
        vadd(center, vscale(hor, fx_div(int_to_fx(s.width as int), FX_NEG_TWO))),
        vscale(s.up.model(), fx_div(int_to_fx(s.height as int), FX_TWO)),
    );
    SceneParams {
        aspect_ratio: aspect_ratio,
        view_len: view_len,
        hor_vec: Vec3fx { x: hor[0], y: hor[1], z: hor[2] },
        top_pixel: Vec3fx { x: top[0], y: top[1], z: top[2] },
        antialias: aa,
    }
}

/// Derive the per-render projection parameters, failing fast when `view`
/// and `up` are parallel. `tan_half_fov` is the tangent of half the field
/// of view in fixed point.
pub fn setup_scene(s: &Scene, aa: bool, tan_half_fov: i64) -> (r: Result<SceneParams, SceneError>)
    ensures
        (match r {
            Ok(p) => view_basis(*s) != seq![0i64, 0i64, 0i64] && p == scene_params_model(
                *s,
                aa,
                tan_half_fov,
            ),
            Err(e) => view_basis(*s) == seq![0i64, 0i64, 0i64] && e
                == SceneError::DegenerateViewBasis,
        }),
{
    let basis = s.view.cross(&s.up);
    if basis.x == 0 && basis.y == 0 && basis.z == 0 {
        proof {
            assert(view_basis(*s) =~= seq![0i64, 0i64, 0i64]);
        }
        Err(SceneError::DegenerateViewBasis)
    } else {
        proof {
            if view_basis(*s) == seq![0i64, 0i64, 0i64] {
                assert(basis.model() =~= seq![0i64, 0i64, 0i64]);
            }
        }
        let aspect_ratio = scalar_div(scalar_from_usize(s.width), scalar_from_usize(s.height));
        let view_len = scalar_div(scalar_from_usize(s.height / 2), tan_half_fov);
        let hor_vec = basis.normalize();
        let center_pixel = s.camera.add_v(&s.view.mul_t(view_len));
        let top_pixel = center_pixel.add_v(
            &hor_vec.mul_t(scalar_div(scalar_from_usize(s.width), FX_NEG_TWO)),
        ).add_v(&s.up.mul_t(scalar_div(scalar_from_usize(s.height), FX_TWO)));
        let p = SceneParams {
            aspect_ratio: aspect_ratio,
            view_len: view_len,
            hor_vec: hor_vec,
            top_pixel: top_pixel,
            antialias: aa,
        };
        proof {
            let m = scene_params_model(*s, aa, tan_half_fov);
            assert(p.hor_vec.model() =~= m.hor_vec.model());
            assert(p.top_pixel.model() =~= m.top_pixel.model());
        }
        Ok(p)
    }
}

/// Create the reference scene: five spheres, two lights, a 2048 by 2048
/// viewport with a 45-degree field of view. Fractional colour components
/// are the nearest representable fixed-point values.
pub fn get_ref_scene() -> (s: Scene)
    ensures
        scene_well_formed(s),
        s.lights@.len() == 2,
        s.primitives@.len() == 5,
        s.camera == (Vec3fx { x: 0, y: 0, z: 838860800 }),
        s.view == (Vec3fx { x: 0, y: 0, z: -1048576i64 }),
        s.up == (Vec3fx { x: 0, y: 1048576, z: 0 }),
        s.width == 2048,
        s.height == 2048,
        s.fov == 47185920,
{
    // The materials. 734003 is 0.7, 524288 is 0.5, 314573 is 0.3,
    // 629146 is 0.6, 104858 is 0.1 in fixed point.
    let mat1 = Material {
        diffuse: Vec3fx { x: 734003, y: FX_ONE, z: 734003 },
        specular: Vec3fx { x: 524288, y: 734003, z: 524288 },
        shininess: 25,
        mirror: 314573,
    };
    let mat2 = Material {
        diffuse: Vec3fx { x: 524288, y: 524288, z: 524288 },
        specular: Vec3fx { x: 524288, y: 734003, z: 524288 },
        shininess: 25,
        mirror: 314573,
    };
    let mat3 = Material {
        diffuse: Vec3fx { x: FX_ONE, y: 629146, z: 104858 },
        specular: Vec3fx { x: 524288, y: 734003, z: 524288 },
        shininess: 25,
        mirror: 314573,
    };

    // Now build the scene.
    let mut lights: Vec<Light> = Vec::new();
    lights.push(
        Light {
            pos: Vec3fx { x: -100 * FX_ONE, y: 150 * FX_ONE, z: 400 * FX_ONE },
            colour: Vec3fx { x: 734003, y: 734003, z: 734003 },
        },
    );
    lights.push(
        Light {
            pos: Vec3fx { x: 400 * FX_ONE, y: 100 * FX_ONE, z: 150 * FX_ONE },
            colour: Vec3fx { x: 734003, y: 0, z: 734003 },
        },
    );

    let mut primitives: Vec<Primitive> = Vec::new();
    primitives.push(
        Primitive::Sphere(
            Sphere {
                pos: Vec3fx { x: 0, y: 0, z: -400 * FX_ONE },
                rad: 100 * FX_ONE,
                mat: mat1,
            },
        ),
    );
    primitives.push(
        Primitive::Sphere(
            Sphere {
                pos: Vec3fx { x: 200 * FX_ONE, y: 50 * FX_ONE, z: -100 * FX_ONE },
                rad: 150 * FX_ONE,
                mat: mat1,
            },
        ),
    );
    primitives.push(
        Primitive::Sphere(
            Sphere {
                pos: Vec3fx { x: 0, y: -1200 * FX_ONE, z: -500 * FX_ONE },
                rad: 1000 * FX_ONE,
                mat: mat2,
            },
        ),
    );
    primitives.push(
        Primitive::Sphere(
            Sphere {
                pos: Vec3fx { x: -100 * FX_ONE, y: 25 * FX_ONE, z: -300 * FX_ONE },
                rad: 50 * FX_ONE,
                mat: mat3,
            },
        ),
    );
    primitives.push(
        Primitive::Sphere(
            Sphere {
                pos: Vec3fx { x: 0, y: 100 * FX_ONE, z: -250 * FX_ONE },
                rad: 25 * FX_ONE,
                mat: mat1,
            },
        ),
    );

    let s = Scene {
        lights,
        primitives,
        ambient: Vec3fx { x: 314573, y: 314573, z: 314573 },
        camera: Vec3fx { x: 0, y: 0, z: 800 * FX_ONE },
        view: Vec3fx { x: 0, y: 0, z: -FX_ONE },
        up: Vec3fx { x: 0, y: FX_ONE, z: 0 },
        width: 2048,
        height: 2048,
        fov: 45 * FX_ONE,
    };
    proof {
        lemma_vdot3(s.view.model(), s.view.model());
        lemma_vdot3(s.up.model(), s.up.model());
        assert(view_basis(s)[0] == FX_ONE);
    }
    s
}

} // verus!
