//! The trace/shade engine and the render driver.
//!
//! `trace` finds the nearest intersection along a ray, casts a shadow ray
//! per light, and accumulates diffuse, specular, and ambient contributions.
//! The driver enumerates every pixel (four jittered sub-pixel samples when
//! antialiasing), and the tile functions partition the image into
//! independent units whose gathered results assemble into the same grid the
//! sequential render produces, whatever order they arrive in.

use crate::geometry::{Colour, Intersection, Object, Pixel, Primitive, EPSILON, FX_TWO};
use crate::math::{
    fx_abs, fx_add, fx_div, fx_mul, fx_neg, fx_pow, int_to_fx, scalar_abs, scalar_add,
    scalar_div, scalar_mul,
    scalar_neg, scalar_pow, scalar_from_usize, vadd, vmul, vnormalize, vscale, vsub, vdot,
    MathVector, Vec2, Vec3, Vec2fx, Vec3fx, FX_ONE,
};
use crate::scene::{scene_params_model, setup_scene, view_basis, Light, Scene, SceneError,
    SceneParams};
use vstd::prelude::*;

verus! {

/// One quarter, in fixed point: the first jittered sub-pixel offset.
pub const FX_QUARTER: i64 = 262144;

/// Three quarters, in fixed point: the second jittered sub-pixel offset.
pub const FX_THREE_QUARTERS: i64 = 786432;

/// The zero colour: the background, black.
pub open spec fn vzero3() -> Seq<i64> {
    seq![0i64, 0i64, 0i64]
}

/// The nearest hit among the primitives from index `k` on: the root, the
/// hit vector, and the index of the primitive hit. A strictly smaller root
/// wins; on a tie the earlier index is kept.
pub open spec fn nearest_from(
    ps: Seq<Primitive>,
    ray: Seq<i64>,
    origin: Seq<i64>,
    k: int,
) -> Option<(i64, Seq<i64>, int)>
    decreases ps.len() - k,
{
    if k < 0 || k >= ps.len() {
        None
    } else {
        let rest = nearest_from(ps, ray, origin, k + 1);
        match ps[k].hit_model(ray, origin) {
            Some((t, h)) => match rest {
                Some((t2, h2, i2)) => if t2 < t {
                    Some((t2, h2, i2))
                } else {
                    Some((t, h, k))
                },
                None => Some((t, h, k)),
            },
            None => rest,
        }
    }
}

/// The nearest hit over the whole primitive sequence.
pub open spec fn nearest_hit(ps: Seq<Primitive>, ray: Seq<i64>, origin: Seq<i64>) -> Option<
    (i64, Seq<i64>, int),
> {
    nearest_from(ps, ray, origin, 0)
}

/// Shoot a ray at every primitive in the scene and keep the hit nearest
/// to the origin, together with the index of the primitive hit.
pub fn intersect_nodes(ps: &Vec<Primitive>, ray: &Vec3fx, origin: &Vec3fx) -> (r: Option<
    (Intersection, usize),
>)
    ensures
        (match r {
            Some((it, idx)) => idx < ps@.len() && nearest_hit(ps@, ray.model(), origin.model())
                == Some((it.ray_len, it.ray.model(), idx as int)),
            None => nearest_hit(ps@, ray.model(), origin.model()) is None,
        }),
{
    let mut best: Option<(Intersection, usize)> = None;
    let mut k: usize = ps.len();
    while k > 0
        invariant
            k <= ps@.len(),
            (match best {
                Some((it, idx)) => idx < ps@.len() && nearest_from(
                    ps@,
                    ray.model(),
                    origin.model(),
                    k as int,
                ) == Some((it.ray_len, it.ray.model(), idx as int)),
                None => nearest_from(ps@, ray.model(), origin.model(), k as int) is None,
            }),
        decreases k,
    {
        k = k - 1;
        let hit = ps[k].intersect(ray, origin);
        match hit {
            Some(it) => {
                let keep_old = match best {
                    Some((bit, _)) => bit.ray_len < it.ray_len,
                    None => false,
                };
                if !keep_old {
                    best = Some((it, k));
                }
            },
            None => {},
        }
    }
    best
}

/// One light's diffuse and specular contributions at a shaded point: both
/// zero when any primitive occludes the shadow ray; otherwise the Phong
/// terms, each kept only when its coefficient exceeds `EPSILON`.
pub open spec fn light_contrib(
    ps: Seq<Primitive>,
    light: Light,
    m: crate::geometry::Material,
    point: Seq<i64>,
    normal: Seq<i64>,
    nray: Seq<i64>,
) -> (Seq<i64>, Seq<i64>) {
    let shadow = vsub(light.pos.model(), point);
    if nearest_hit(ps, shadow, point) is Some {
        (vzero3(), vzero3())
    } else {
        let nsr = vnormalize(shadow);
        let dcoef = vdot(normal, nsr);
        let refray = vsub(nsr, vscale(normal, fx_mul(FX_TWO, dcoef)));
        let scoef = fx_pow(fx_abs(vdot(refray, nray)), m.shininess as nat);
        let dcol = if dcoef > EPSILON {
            vmul(vscale(m.diffuse.model(), dcoef), light.colour.model())
        } else {
            vzero3()
        };
        let scol = if scoef > EPSILON {
            vmul(vscale(m.specular.model(), scoef), light.colour.model())
        } else {
            vzero3()
        };
        (dcol, scol)
    }
}

/// The summed diffuse and specular contributions of the lights from index
/// `k` on, associated from the front.
pub open spec fn shade_sums(
    ps: Seq<Primitive>,
    lights: Seq<Light>,
    k: int,
    m: crate::geometry::Material,
    point: Seq<i64>,
    normal: Seq<i64>,
    nray: Seq<i64>,
) -> (Seq<i64>, Seq<i64>)
    decreases lights.len() - k,
{
    if k < 0 || k >= lights.len() {
        (vzero3(), vzero3())
    } else {
        let rest = shade_sums(ps, lights, k + 1, m, point, normal, nray);
        let c = light_contrib(ps, lights[k], m, point, normal, nray);
        (vadd(c.0, rest.0), vadd(c.1, rest.1))
    }
}

/// The colour a ray yields: black where it hits nothing, and otherwise the
/// per-light diffuse and specular sums plus the ambient term modulated by
/// the material's diffuse colour.
pub open spec fn trace_model(
    ps: Seq<Primitive>,
    amb: Seq<i64>,
    ray: Seq<i64>,
    origin: Seq<i64>,
    lights: Seq<Light>,
) -> Seq<i64> {
    match nearest_hit(ps, ray, origin) {
        None => vzero3(),
        Some((t, h, idx)) => {
            let point = vadd(origin, vscale(ray, t));
            let normal = vnormalize(h);
            let nray = vnormalize(ray);
            let m = ps[idx].mat_model();
            let sums = shade_sums(ps, lights, 0, m, point, normal, nray);
            vadd(sums.0, vadd(sums.1, vmul(amb, m.diffuse.model())))
        },
    }
}

/// Calculate the colour value for a ray.
#[verifier::loop_isolation(false)]
#[verifier::rlimit(60)]
pub fn trace(
    ps: &Vec<Primitive>,
    amb: &Colour,
    ray: &Vec3fx,
    origin: &Vec3fx,
    lights: &Vec<Light>,
) -> (c: Colour)
    ensures
        c.model() == trace_model(ps@, amb.model(), ray.model(), origin.model(), lights@),
{
    let nearest = intersect_nodes(ps, ray, origin);
    match nearest {
        None => {
            // No intersection, so just give back black.
            let black: Colour = Vec3::zero();
            proof {
                assert(black.model() =~= vzero3());
            }
            black
        },
        Some((it, idx)) => {
            // We've hit something.
            let intersection = origin.add_v(&ray.mul_t(it.ray_len));
            let normal = it.ray.normalize();
            let normalized_ray = ray.normalize();
            let mat = ps[idx].mat();

            // Sum each light's shaded contribution, last light first so
            // the sums associate exactly as the model states them.
            let mut diffuse: Colour = Vec3::zero();
            let mut specular: Colour = Vec3::zero();
            proof {
                assert(diffuse.model() =~= vzero3());
                assert(specular.model() =~= vzero3());
            }
            let mut k: usize = lights.len();
            while k > 0
                invariant
                    k <= lights@.len(),
                    (diffuse.model(), specular.model()) == shade_sums(
                        ps@,
                        lights@,
                        k as int,
                        mat,
                        intersection.model(),
                        normal.model(),
                        normalized_ray.model(),
                    ),
                decreases k,
            {
                k = k - 1;
                let light = lights[k];
                let shadow_ray = light.pos.sub_v(&intersection);

                // A shadow ray that hits anything means the light is
                // fully occluded and contributes nothing.
                let occluded = intersect_nodes(ps, &shadow_ray, &intersection);
                let zero: Colour = Vec3::zero();
                proof {
                    assert(zero.model() =~= vzero3());
                }
                let (dcol, scol): (Colour, Colour) = match occluded {
                    Some(_) => (zero, zero),
                    None => {
                        let nsr = shadow_ray.normalize();

                        // The diffuse coefficient,
                        let dcoef = normal.dot(&nsr);

                        // and the specular coefficient.
                        let refray = nsr.sub_v(&normal.mul_t(scalar_mul(FX_TWO, dcoef)));
                        let scoef = scalar_pow(
                            scalar_abs(refray.dot(&normalized_ray)),
                            mat.shininess,
                        );

                        // The diffuse component,
                        let dc: Colour = if dcoef > EPSILON {
                            mat.diffuse.mul_t(dcoef).mul_v(&light.colour)
                        } else {
                            zero
                        };

                        // and the specular component.
                        let sc: Colour = if scoef > EPSILON {
                            mat.specular.mul_t(scoef).mul_v(&light.colour)
                        } else {
                            zero
                        };
                        (dc, sc)
                    },
                };
                diffuse = dcol.add_v(&diffuse);
                specular = scol.add_v(&specular);
            }

            // Add in the ambient colour for the final colour value.
            diffuse.add_v(&specular.add_v(&amb.mul_v(&mat.diffuse)))
        },
    }
}

/// The world-space ray of one image-plane sample: the sample mapped onto
/// the view-plane basis, minus the camera position.
pub open spec fn pixel_ray(s: Scene, sp: SceneParams, px: Pixel) -> Seq<i64> {
    let current = vadd(
        vadd(sp.top_pixel.model(), vscale(sp.hor_vec.model(), fx_mul(sp.aspect_ratio, px.x))),
        vscale(s.up.model(), fx_neg(px.y)),
    );
    vsub(current, s.camera.model())
}

/// The colour one sample yields.
pub open spec fn sample_colour(s: Scene, sp: SceneParams, px: Pixel) -> Seq<i64> {
    trace_model(s.primitives@, s.ambient.model(), pixel_ray(s, sp, px), s.camera.model(), s.lights@)
}

/// The weighted sample colours from index `k` on, associated from the
/// front: each sample's colour scaled by `coef`, then summed.
pub open spec fn sample_sum(
    s: Scene,
    sp: SceneParams,
    pixels: Seq<Pixel>,
    k: int,
    coef: i64,
) -> Seq<i64>
    decreases pixels.len() - k,
{
    if k < 0 || k >= pixels.len() {
        vzero3()
    } else {
        vadd(
            vscale(sample_colour(s, sp, pixels[k]), coef),
            sample_sum(s, sp, pixels, k + 1, coef),
        )
    }
}

/// The colour of a pixel cell from its sub-pixel samples, each weighted
/// by the reciprocal of the sample count.
pub open spec fn do_trace_model(s: Scene, sp: SceneParams, pixels: Seq<Pixel>) -> Seq<i64> {
    sample_sum(s, sp, pixels, 0, fx_div(FX_ONE, int_to_fx(pixels.len() as int)))
}

/// The four jittered sub-pixel samples of a pixel cell.
pub open spec fn aa_subpixels(posn: Pixel) -> Seq<Pixel> {
    seq![
        Pixel { x: fx_add(posn.x, FX_QUARTER), y: fx_add(posn.y, FX_QUARTER) },
        Pixel { x: fx_add(posn.x, FX_QUARTER), y: fx_add(posn.y, FX_THREE_QUARTERS) },
        Pixel { x: fx_add(posn.x, FX_THREE_QUARTERS), y: fx_add(posn.y, FX_QUARTER) },
        Pixel { x: fx_add(posn.x, FX_THREE_QUARTERS), y: fx_add(posn.y, FX_THREE_QUARTERS) },
    ]
}

/// Initiate the actual shooting of rays for one pixel cell, averaging the
/// given sub-pixel samples with equal weight.
#[verifier::loop_isolation(false)]
#[verifier::rlimit(60)]
pub fn do_trace(s: &Scene, sp: &SceneParams, sub_pixels: &Vec<Pixel>) -> (c: Colour)
    ensures
        c.model() == do_trace_model(*s, *sp, sub_pixels@),
{
    // Evenly weight the colour contribution of each sub pixel.
    let coef = scalar_div(FX_ONE, scalar_from_usize(sub_pixels.len()));

    let mut results: Colour = Vec3::zero();
    proof {
        assert(results.model() =~= vzero3());
    }
    let mut k: usize = sub_pixels.len();
    while k > 0
        invariant
            k <= sub_pixels@.len(),
            results.model() == sample_sum(*s, *sp, sub_pixels@, k as int, coef),
        decreases k,
    {
        k = k - 1;
        let cs = sub_pixels[k];
        let current_pixel = sp.top_pixel.add_v(
            &sp.hor_vec.mul_t(scalar_mul(sp.aspect_ratio, cs.x)),
        ).add_v(&s.up.mul_t(scalar_neg(cs.y)));
        let ray = current_pixel.sub_v(&s.camera);
        let colour = trace(&s.primitives, &s.ambient, &ray, &s.camera, &s.lights);

        results = colour.mul_t(coef).add_v(&results);
    }
    results
}

/// Trace one pixel cell through four jittered sub-pixel samples.
pub fn do_trace_antialias(s: &Scene, sp: &SceneParams, posn: &Pixel) -> (c: Colour)
    ensures
        c.model() == do_trace_model(*s, *sp, aa_subpixels(*posn)),
{
    let mut sub_pixels: Vec<Pixel> = Vec::new();
    sub_pixels.push(Vec2::new(scalar_add(posn.x, FX_QUARTER), scalar_add(posn.y, FX_QUARTER)));
    sub_pixels.push(
        Vec2::new(scalar_add(posn.x, FX_QUARTER), scalar_add(posn.y, FX_THREE_QUARTERS)),
    );
    sub_pixels.push(
        Vec2::new(scalar_add(posn.x, FX_THREE_QUARTERS), scalar_add(posn.y, FX_QUARTER)),
    );
    sub_pixels.push(
        Vec2::new(scalar_add(posn.x, FX_THREE_QUARTERS), scalar_add(posn.y, FX_THREE_QUARTERS)),
    );
    proof {
        assert(sub_pixels@ =~= aa_subpixels(*posn));
    }
    do_trace(s, sp, &sub_pixels)
}

/// Trace one pixel cell through its single corner sample.
pub fn do_trace_noantialias(s: &Scene, sp: &SceneParams, posn: &Pixel) -> (c: Colour)
    ensures
        c.model() == do_trace_model(*s, *sp, seq![*posn]),
{
    let mut sub_pixels: Vec<Pixel> = Vec::new();
    sub_pixels.push(*posn);
    proof {
        assert(sub_pixels@ =~= seq![*posn]);
    }
    do_trace(s, sp, &sub_pixels)
}

/// The pixel coordinate of column `i`, row `j`.
pub open spec fn pixel_at(i: int, j: int) -> Pixel {
    Pixel { x: int_to_fx(i), y: int_to_fx(j) }
}

/// The final colour of the pixel cell at column `i`, row `j`: four
/// jittered samples when antialiasing, else the single corner sample.
pub open spec fn pixel_colour(s: Scene, sp: SceneParams, i: int, j: int) -> Seq<i64> {
    if sp.antialias {
        do_trace_model(s, sp, aa_subpixels(pixel_at(i, j)))
    } else {
        do_trace_model(s, sp, seq![pixel_at(i, j)])
    }
}

/// The grid of pixel coordinates for a `w` by `h` region whose top-left
/// cell is `(x, y)`.
#[verifier::loop_isolation(false)]
pub fn make_grid(w: usize, h: usize, x: usize, y: usize) -> (g: Vec<Vec<Pixel>>)
    requires
        x + w <= usize::MAX,
        y + h <= usize::MAX,
    ensures
        g@.len() == h,
        forall|j: int| 0 <= j < h ==> g@[j]@.len() == w,
        forall|j: int, i: int|
            0 <= j < h && 0 <= i < w ==> g@[j]@[i] == pixel_at(i + x, j + y),
{
    let mut g: Vec<Vec<Pixel>> = Vec::new();
    let mut j: usize = 0;
    while j < h
        invariant
            j <= h,
            g@.len() == j,
            forall|j2: int| 0 <= j2 < j ==> g@[j2]@.len() == w,
            forall|j2: int, i2: int|
                0 <= j2 < j && 0 <= i2 < w ==> g@[j2]@[i2] == pixel_at(i2 + x, j2 + y),
        decreases h - j,
    {
        let mut row: Vec<Pixel> = Vec::new();
        let mut i: usize = 0;
        while i < w
            invariant
                i <= w,
                row@.len() == i,
                forall|i2: int| 0 <= i2 < i ==> row@[i2] == pixel_at(i2 + x, j + y),
            decreases w - i,
        {
            row.push(Vec2::new(scalar_from_usize(i + x), scalar_from_usize(j + y)));
            i = i + 1;
        }
        g.push(row);
        j = j + 1;
    }
    g
}

/// Render the scene into a grid of colours, row 0 at the top of the image:
/// every cell of row `j`, column `i` holds `pixel_colour` of `(i, j)`.
/// `tan_half_fov` is the tangent of half the field of view. Fails fast,
/// before tracing anything, when the view basis is degenerate.
#[verifier::loop_isolation(false)]
#[verifier::rlimit(60)]
pub fn render(s: &Scene, antialias: bool, tan_half_fov: i64) -> (r: Result<
    Vec<Vec<Colour>>,
    SceneError,
>)
    ensures
        (match r {
            Ok(g) => {
                &&& view_basis(*s) != seq![0i64, 0i64, 0i64]
                &&& g@.len() == s.height
                &&& forall|j: int| 0 <= j < s.height ==> g@[j]@.len() == s.width
                &&& forall|j: int, i: int|
                    0 <= j < s.height && 0 <= i < s.width ==> g@[j]@[i].model() == pixel_colour(
                        *s,
                        scene_params_model(*s, antialias, tan_half_fov),
                        i,
                        j,
                    )
            },
            Err(e) => view_basis(*s) == seq![0i64, 0i64, 0i64] && e
                == SceneError::DegenerateViewBasis,
        }),
{
    let params = match setup_scene(s, antialias, tan_half_fov) {
        Ok(p) => p,
        Err(e) => {
            return Err(e);
        },
    };
    let grid = make_grid(s.width, s.height, 0, 0);
    let mut out: Vec<Vec<Colour>> = Vec::new();
    let mut j: usize = 0;
    while j < s.height
        invariant
            j <= s.height,
            out@.len() == j,
            forall|j2: int| 0 <= j2 < j ==> out@[j2]@.len() == s.width,
            forall|j2: int, i2: int|
                0 <= j2 < j && 0 <= i2 < s.width ==> out@[j2]@[i2].model() == pixel_colour(
                    *s,
                    params,
                    i2,
                    j2,
                ),
        decreases s.height - j,
    {
        let row = &grid[j];
        let mut out_row: Vec<Colour> = Vec::new();
        let mut i: usize = 0;
        while i < s.width
            invariant
                i <= s.width,
                out_row@.len() == i,
                forall|i2: int|
                    0 <= i2 < i ==> out_row@[i2].model() == pixel_colour(*s, params, i2, j as int),
            decreases s.width - i,
        {
            let pix = row[i];
            let c = if antialias {
                do_trace_antialias(s, &params, &pix)
            } else {
                do_trace_noantialias(s, &params, &pix)
            };
            out_row.push(c);
            i = i + 1;
        }
        out.push(out_row);
        j = j + 1;
    }
    Ok(out)
}

/// A rectangular sub-region of the output image, one unit of parallel
/// work.
#[derive(Clone, Copy, PartialEq, Eq, Structural, Debug)]
pub struct Tile {
    pub x0: usize,
    pub y0: usize,
    pub width: usize,
    pub height: usize,
}

/// One finished pixel as a worker reports it: absolute coordinates and
/// the colour. `y` counts rows bottom-up; the assembler flips it into
/// top-down row order.
#[derive(Clone, Copy, PartialEq, Eq, Structural, Debug)]
pub struct PixelResult {
    pub x: usize,
    pub y: usize,
    pub colour: Colour,
}

/// Whether some gathered result targets the cell at column `i`, row `j`
/// (its reported `y` flipped into top-down row order).
pub open spec fn has_result(results: Seq<PixelResult>, height: int, i: int, j: int) -> bool {
    exists|k: int|
        0 <= k < results.len() && results[k].x == i && height - 1 - (results[k].y as int) == j
}

/// A reported result is well formed for the scene: coordinates in range
/// and the colour exactly what the sequential trace gives that pixel.
pub open spec fn result_ok(s: Scene, sp: SceneParams, r: PixelResult) -> bool {
    &&& (r.x as int) < s.width
    &&& (r.y as int) < s.height
    &&& r.colour.model() == pixel_colour(s, sp, r.x as int, s.height - 1 - (r.y as int))
}

/// Whether a tile lies within a `width` by `height` image.
pub open spec fn tile_in_bounds(t: Tile, width: int, height: int) -> bool {
    t.x0 + t.width <= width && t.y0 + t.height <= height
}

/// Whether the pixel at column `i`, row `j` falls in tile `t`.
pub open spec fn tile_contains(t: Tile, i: int, j: int) -> bool {
    t.x0 <= i < t.x0 + t.width && t.y0 <= j < t.y0 + t.height
}

/// Whether two tiles share no pixel: one lies entirely beside or above
/// the other.
pub open spec fn tiles_disjoint(t1: Tile, t2: Tile) -> bool {
    t1.x0 + t1.width <= t2.x0 || t2.x0 + t2.width <= t1.x0 || t1.y0 + t1.height <= t2.y0
        || t2.y0 + t2.height <= t1.y0
}

/// The colour gathered results leave at column `i`, row `j`: the last
/// write to the cell wins; a cell nothing wrote stays black.
pub open spec fn cell_value(results: Seq<PixelResult>, height: int, i: int, j: int) -> Seq<i64>
    decreases results.len(),
{
    if results.len() == 0 {
        vzero3()
    } else {
        let last = results.last();
        if last.x == i && height - 1 - (last.y as int) == j {
            last.colour.model()
        } else {
            cell_value(results.drop_last(), height, i, j)
        }
    }
}

/// The output grid's final state is independent of the order results
/// arrive in: whenever every gathered result is well formed and some
/// result targets the cell, the cell assembles to exactly the colour the
/// sequential render gives it — so any interleaving of workers, and the
/// single-threaded render, produce pixel-for-pixel identical output.
pub proof fn lemma_gather_order_irrelevant(
    s: Scene,
    sp: SceneParams,
    results: Seq<PixelResult>,
    i: int,
    j: int,
)
    requires
        forall|k: int| 0 <= k < results.len() ==> result_ok(s, sp, #[trigger] results[k]),
        has_result(results, s.height as int, i, j),
    ensures
        cell_value(results, s.height as int, i, j) == pixel_colour(s, sp, i, j),
    decreases results.len(),
{
    let last = results.last();
    if last.x == i && s.height - 1 - (last.y as int) == j {
    } else {
        let k = choose|k: int|
            0 <= k < results.len() && results[k].x == i && s.height - 1 - (results[k].y as int)
                == j;
        assert(k < results.len() - 1);
        assert(results.drop_last()[k] == results[k]);
        lemma_gather_order_irrelevant(s, sp, results.drop_last(), i, j);
    }
}

/// Compute the colours of one tile over the shared read-only scene.
/// The results come back row-major within the tile — entry `k` holds the
/// pixel at column `x0 + k % width`, row `y0 + k / width` of the image —
/// each carrying its absolute coordinate, so they may be gathered in any
/// order.
#[verifier::loop_isolation(false)]
#[verifier::rlimit(60)]
pub fn render_tile(s: &Scene, sp: &SceneParams, t: &Tile) -> (out: Vec<PixelResult>)
    requires
        tile_in_bounds(*t, s.width as int, s.height as int),
    ensures
        out@.len() == t.height * t.width,
        forall|k: int|
            0 <= k < out@.len() ==> {
                let pr = #[trigger] out@[k];
                &&& result_ok(*s, *sp, pr)
                &&& pr.x == t.x0 + k % (t.width as int)
                &&& (pr.y as int) == s.height - 1 - (t.y0 + k / (t.width as int))
                &&& pr.colour.model() == pixel_colour(
                    *s,
                    *sp,
                    t.x0 + k % (t.width as int),
                    t.y0 + k / (t.width as int),
                )
            },
{
    let mut out: Vec<PixelResult> = Vec::new();
    let mut r: usize = 0;
    while r < t.height
        invariant
            r <= t.height,
            out@.len() == r * t.width,
            forall|k: int|
                0 <= k < out@.len() ==> {
                    let pr = #[trigger] out@[k];
                    &&& result_ok(*s, *sp, pr)
                    &&& pr.x == t.x0 + k % (t.width as int)
                    &&& (pr.y as int) == s.height - 1 - (t.y0 + k / (t.width as int))
                    &&& pr.colour.model() == pixel_colour(
                        *s,
                        *sp,
                        t.x0 + k % (t.width as int),
                        t.y0 + k / (t.width as int),
                    )
                },
        decreases t.height - r,
    {
        let mut c: usize = 0;
        while c < t.width
            invariant
                c <= t.width,
                r < t.height,
                out@.len() == r * t.width + c,
                forall|k: int|
                    0 <= k < out@.len() ==> {
                        let pr = #[trigger] out@[k];
                        &&& result_ok(*s, *sp, pr)
                        &&& pr.x == t.x0 + k % (t.width as int)
                        &&& (pr.y as int) == s.height - 1 - (t.y0 + k / (t.width as int))
                        &&& pr.colour.model() == pixel_colour(
                            *s,
                            *sp,
                            t.x0 + k % (t.width as int),
                            t.y0 + k / (t.width as int),
                        )
                    },
            decreases t.width - c,
        {
            let x: usize = t.x0 + c;
            let y: usize = t.y0 + r;
            let pix: Pixel = Vec2::new(scalar_from_usize(x), scalar_from_usize(y));
            proof {
                assert(pix == pixel_at(x as int, y as int));
                lemma_row_major(t.width as int, r as int, c as int);
            }
            let colour = if sp.antialias {
                do_trace_antialias(s, sp, &pix)
            } else {
                do_trace_noantialias(s, sp, &pix)
            };
            out.push(PixelResult { x, y: s.height - 1 - y, colour });
            c = c + 1;
        }
        r = r + 1;
        proof {
            assert((r - 1) * t.width + t.width == r * t.width) by (nonlinear_arith);
        }
    }
    out
}

/// A row-major index decomposes back into its row and column.
proof fn lemma_row_major(tw: int, r: int, c: int)
    requires
        tw >= 1,
        0 <= c < tw,
        0 <= r,
    ensures
        (r * tw + c) / tw == r,
        (r * tw + c) % tw == c,
{
    vstd::arithmetic::div_mod::lemma_fundamental_div_mod_converse_div(r * tw + c, tw, r, c);
    vstd::arithmetic::div_mod::lemma_fundamental_div_mod_converse_mod(r * tw + c, tw, r, c);
}

/// Whether some tile of the set contains the pixel at column `i`, row `j`.
pub open spec fn covered(ts: Seq<Tile>, i: int, j: int) -> bool {
    exists|k: int| 0 <= k < ts.len() && tile_contains(ts[k], i, j)
}

/// Partition a `width` by `height` image into tiles of at most
/// `tile_size` on a side: every pixel is covered, by exactly one tile.
#[verifier::loop_isolation(false)]
#[verifier::rlimit(60)]
pub fn make_tiles(width: usize, height: usize, tile_size: usize) -> (ts: Vec<Tile>)
    requires
        tile_size >= 1,
    ensures
        forall|k: int|
            0 <= k < ts@.len() ==> {
                let t = #[trigger] ts@[k];
                tile_in_bounds(t, width as int, height as int) && t.width >= 1 && t.height >= 1
            },
        forall|k1: int, k2: int|
            0 <= k1 < k2 < ts@.len() ==> #[trigger] tiles_disjoint(ts@[k1], ts@[k2]),
        forall|i: int, j: int| 0 <= i < width && 0 <= j < height ==> #[trigger] covered(ts@, i, j),
{
    let mut ts: Vec<Tile> = Vec::new();
    let mut y0: usize = 0;
    while y0 < height
        invariant
            y0 <= height,
            tile_size >= 1,
            forall|k: int|
                0 <= k < ts@.len() ==> {
                    let t = #[trigger] ts@[k];
                    tile_in_bounds(t, width as int, height as int) && t.width >= 1 && t.height
                        >= 1 && t.y0 + t.height <= y0
                },
            forall|k1: int, k2: int|
                0 <= k1 < k2 < ts@.len() ==> #[trigger] tiles_disjoint(ts@[k1], ts@[k2]),
            forall|i: int, j: int| 0 <= i < width && 0 <= j < y0 ==> #[trigger] covered(ts@, i, j),
        decreases height - y0,
    {
        let th: usize = if height - y0 < tile_size {
            height - y0
        } else {
            tile_size
        };
        let mut x0: usize = 0;
        while x0 < width
            invariant
                x0 <= width,
                tile_size >= 1,
                th >= 1,
                y0 + th <= height,
                forall|k: int|
                    0 <= k < ts@.len() ==> {
                        let t = #[trigger] ts@[k];
                        tile_in_bounds(t, width as int, height as int) && t.width >= 1 && t.height
                            >= 1 && (t.y0 + t.height <= y0 || (t.y0 == y0 && t.y0 + t.height == y0
                            + th && t.x0 + t.width <= x0))
                    },
                forall|k1: int, k2: int|
                    0 <= k1 < k2 < ts@.len() ==> #[trigger] tiles_disjoint(ts@[k1], ts@[k2]),
                forall|i: int, j: int|
                    0 <= i < width && 0 <= j < y0 ==> #[trigger] covered(ts@, i, j),
                forall|i: int, j: int|
                    0 <= i < x0 && y0 <= j < y0 + th ==> #[trigger] covered(ts@, i, j),
            decreases width - x0,
        {
            let tw: usize = if width - x0 < tile_size {
                width - x0
            } else {
                tile_size
            };
            let ghost old_ts = ts@;
            ts.push(Tile { x0, y0, width: tw, height: th });
            proof {
                assert(forall|k: int| 0 <= k < old_ts.len() ==> ts@[k] == old_ts[k]);
                assert forall|k1: int, k2: int|
                    0 <= k1 < k2 < ts@.len() implies #[trigger] tiles_disjoint(
                    ts@[k1],
                    ts@[k2],
                ) by {
                    if k2 == ts@.len() - 1 {
                        assert(ts@[k1] == old_ts[k1]);
                    } else {
                        assert(ts@[k1] == old_ts[k1] && ts@[k2] == old_ts[k2]);
                    }
                };
                assert forall|i: int, j: int|
                    0 <= i < width && 0 <= j < y0 && covered(old_ts, i, j) implies #[trigger]
                    covered(ts@, i, j) by {
                    let k = choose|k: int| 0 <= k < old_ts.len() && tile_contains(old_ts[k], i, j);
                    assert(ts@[k] == old_ts[k]);
                    assert(tile_contains(ts@[k], i, j));
                };
                assert forall|i: int, j: int|
                    0 <= i < x0 && y0 <= j < y0 + th && covered(old_ts, i, j) implies #[trigger]
                    covered(ts@, i, j) by {
                    let k = choose|k: int| 0 <= k < old_ts.len() && tile_contains(old_ts[k], i, j);
                    assert(ts@[k] == old_ts[k]);
                    assert(tile_contains(ts@[k], i, j));
                };
                assert forall|i: int, j: int|
                    x0 <= i < x0 + tw && y0 <= j < y0 + th implies #[trigger] covered(
                    ts@,
                    i,
                    j,
                ) by {
                    assert(tile_contains(ts@[ts@.len() - 1], i, j));
                };
            }
            x0 = x0 + tw;
        }
        y0 = y0 + th;
    }
    ts
}

/// Whether a gathered result's target cell lies in some tile of the set.
pub open spec fn placed(tiles: Seq<Tile>, height: int, r: PixelResult) -> bool {
    exists|k: int|
        0 <= k < tiles.len() && tile_contains(tiles[k], r.x as int, height - 1 - (r.y as int))
}

/// No two gathered results target the same cell: together with
/// `lemma_gather_order_irrelevant` this is the driver's write-once
/// discipline, each output cell written by exactly the one result that
/// names it.
pub open spec fn distinct_targets(results: Seq<PixelResult>) -> bool {
    forall|q1: int, q2: int|
        0 <= q1 < q2 < results.len() ==> ((#[trigger] results[q1]).x != (
        #[trigger] results[q2]).x || results[q1].y != results[q2].y)
}

/// Gather worker results into the output grid: each result's colour lands
/// at its own coordinate, row index flipped into top-down order. Arrival
/// order does not matter: each write targets the cell the result names.
#[verifier::loop_isolation(false)]
#[verifier::rlimit(60)]
pub fn assemble(width: usize, height: usize, results: &Vec<PixelResult>) -> (g: Vec<Vec<Colour>>)
    requires
        (width as int) * (height as int) <= usize::MAX,
        forall|k: int|
            0 <= k < results@.len() ==> (results@[k].x as int) < width && (results@[k].y as int)
                < height,
    ensures
        g@.len() == height,
        forall|j: int| 0 <= j < height ==> g@[j]@.len() == width,
        forall|j: int, i: int|
            0 <= j < height && 0 <= i < width ==> g@[j]@[i].model() == cell_value(
                results@,
                height as int,
                i,
                j,
            ),
{
    let black: Colour = Vec3::zero();
    proof {
        assert(black.model() =~= vzero3());
        assert((width as int) * (height as int) >= 0) by (nonlinear_arith);
    }
    let n: usize = width * height;
    let mut flat: Vec<Colour> = Vec::new();
    let mut f: usize = 0;
    while f < n
        invariant
            f <= n,
            flat@.len() == f,
            forall|q: int| 0 <= q < f ==> flat@[q] == black,
        decreases n - f,
    {
        flat.push(black);
        f = f + 1;
    }
    proof {
        assert(results@.take(0) =~= Seq::<PixelResult>::empty());
        assert forall|j: int, i: int| 0 <= j < height && 0 <= i < width implies flat@[j * width
            + i].model() == cell_value(results@.take(0), height as int, i, j) by {
            assert(0 <= j * (width as int) + i < (width as int) * (height as int))
                by (nonlinear_arith)
                requires
                    0 <= j < height,
                    0 <= i < width,
            ;
        };
    }
    let mut k: usize = 0;
    while k < results.len()
        invariant
            k <= results@.len(),
            flat@.len() == n,
            forall|j: int, i: int|
                0 <= j < height && 0 <= i < width ==> flat@[j * width + i].model() == cell_value(
                    results@.take(k as int),
                    height as int,
                    i,
                    j,
                ),
        decreases results@.len() - k,
    {
        let pr = results[k];
        let row: usize = height - 1 - pr.y;
        proof {
            assert(0 <= (row as int) * (width as int) + (pr.x as int) < (width as int) * (height
                as int)) by (nonlinear_arith)
                requires
                    0 <= (row as int) < height,
                    0 <= (pr.x as int) < width,
            ;
        }
        let idx: usize = row * width + pr.x;
        let ghost old_flat = flat@;
        let ghost old_take = results@.take(k as int);
        flat.set(idx, pr.colour);
        k = k + 1;
        proof {
            assert(results@.take(k as int).drop_last() =~= old_take);
            assert(results@.take(k as int).last() == pr);
            assert forall|j: int, i: int| 0 <= j < height && 0 <= i < width implies flat@[j * width
                + i].model() == cell_value(results@.take(k as int), height as int, i, j) by {
                assert(0 <= j * (width as int) + i < (width as int) * (height as int))
                    by (nonlinear_arith)
                    requires
                        0 <= j < height,
                        0 <= i < width,
                ;
                if j == row as int && i == pr.x as int {
                    assert(flat@[j * width + i] == pr.colour);
                    assert(cell_value(results@.take(k as int), height as int, i, j)
                        == pr.colour.model());
                } else {
                    if j * (width as int) + i == (row as int) * (width as int) + (pr.x as int) {
                        lemma_flat_index_injective(
                            width as int,
                            height as int,
                            i,
                            j,
                            pr.x as int,
                            row as int,
                        );
                        assert(false);
                    }
                    assert(flat@[j * width + i] == old_flat[j * width + i]);
                    assert(old_flat[j * width + i].model() == cell_value(
                        old_take,
                        height as int,
                        i,
                        j,
                    ));
                    assert(cell_value(results@.take(k as int), height as int, i, j) == cell_value(
                        old_take,
                        height as int,
                        i,
                        j,
                    ));
                }
            };
        }
    }
    proof {
        assert(results@.take(results@.len() as int) =~= results@);
    }
    let mut g: Vec<Vec<Colour>> = Vec::new();
    let mut j: usize = 0;
    while j < height
        invariant
            j <= height,
            flat@.len() == n,
            g@.len() == j,
            forall|j2: int| 0 <= j2 < j ==> g@[j2]@.len() == width,
            forall|j2: int, i2: int|
                0 <= j2 < j && 0 <= i2 < width ==> g@[j2]@[i2] == flat@[j2 * width + i2],
        decreases height - j,
    {
        let mut row_vec: Vec<Colour> = Vec::new();
        let mut i: usize = 0;
        while i < width
            invariant
                i <= width,
                flat@.len() == n,
                row_vec@.len() == i,
                forall|i2: int| 0 <= i2 < i ==> row_vec@[i2] == flat@[(j as int) * width + i2],
            decreases width - i,
        {
            proof {
                assert((j as int) * (width as int) + i < (width as int) * (height as int))
                    by (nonlinear_arith)
                    requires
                        0 <= (j as int) < height,
                        0 <= (i as int) < width,
                ;
            }
            row_vec.push(flat[j * width + i]);
            i = i + 1;
        }
        g.push(row_vec);
        j = j + 1;
    }
    g
}

/// Distinct cells have distinct row-major flat indices.
proof fn lemma_flat_index_injective(width: int, height: int, i1: int, j1: int, i2: int, j2: int)
    requires
        0 <= i1 < width,
        0 <= j1 < height,
        0 <= i2 < width,
        0 <= j2 < height,
        j1 * width + i1 == j2 * width + i2,
    ensures
        i1 == i2 && j1 == j2,
{
    assert(i1 == i2 && j1 == j2) by (nonlinear_arith)
        requires
            0 <= i1 < width,
            0 <= j1 < height,
            0 <= i2 < width,
            0 <= j2 < height,
            j1 * width + i1 == j2 * width + i2,
    ;
}

/// Compute every tile of a partition over the shared read-only scene
/// and gather all the per-pixel results, as the parallel driver's
/// workers and channel do. Every result is well formed, every cell a
/// tile covers receives a result, and no two results target the same
/// cell — the gathered stream writes each output cell exactly once.
#[verifier::loop_isolation(false)]
#[verifier::rlimit(100)]
pub fn gather_results(s: &Scene, sp: &SceneParams, tiles: &Vec<Tile>) -> (results: Vec<
    PixelResult,
>)
    requires
        forall|k: int|
            0 <= k < tiles@.len() ==> {
                let t = #[trigger] tiles@[k];
                tile_in_bounds(t, s.width as int, s.height as int) && t.width >= 1 && t.height
                    >= 1
            },
        forall|k1: int, k2: int|
            0 <= k1 < k2 < tiles@.len() ==> #[trigger] tiles_disjoint(tiles@[k1], tiles@[k2]),
    ensures
        forall|q: int| 0 <= q < results@.len() ==> result_ok(*s, *sp, #[trigger] results@[q]),
        forall|i: int, j: int|
            0 <= i < s.width && 0 <= j < s.height && covered(tiles@, i, j) ==> #[trigger]
                has_result(results@, s.height as int, i, j),
        distinct_targets(results@),
{
    let mut results: Vec<PixelResult> = Vec::new();
    let mut k: usize = 0;
    while k < tiles.len()
        invariant
            k <= tiles@.len(),
            forall|q: int| 0 <= q < results@.len() ==> result_ok(*s, *sp, #[trigger] results@[q]),
            forall|q: int|
                0 <= q < results@.len() ==> placed(
                    tiles@.take(k as int),
                    s.height as int,
                    #[trigger] results@[q],
                ),
            forall|i: int, j: int|
                0 <= i < s.width && 0 <= j < s.height && covered(tiles@.take(k as int), i, j)
                    ==> #[trigger] has_result(results@, s.height as int, i, j),
            distinct_targets(results@),
        decreases tiles@.len() - k,
    {
        let t = tiles[k];
        let ghost old_results = results@;
        let mut part = render_tile(s, sp, &t);
        let ghost part_view = part@;
        results.append(&mut part);
        k = k + 1;
        proof {
            assert(results@ =~= old_results + part_view);
            let height: int = s.height as int;
            let tw: int = t.width as int;

            // Each new result's target decomposes back to its tile cell.
            assert forall|p: int| 0 <= p < part_view.len() implies {
                let pr = #[trigger] part_view[p];
                &&& pr.x == t.x0 + p % tw
                &&& height - 1 - (pr.y as int) == t.y0 + p / tw
                &&& 0 <= p % tw < tw
                &&& 0 <= p / tw < t.height
            } by {
                vstd::arithmetic::div_mod::lemma_mod_division_less_than_divisor(p, tw);
                vstd::arithmetic::div_mod::lemma_div_pos_is_pos(p, tw);
                assert(part_view.len() == (t.height as int) * tw && (t.height as int) * tw == tw
                    * (t.height as int)) by (nonlinear_arith)
                    requires
                        part_view.len() == t.height * t.width,
                        tw == t.width as int,
                ;
                vstd::arithmetic::div_mod::lemma_multiply_divide_lt(p, tw, t.height as int);
            };

            // Old results stay, placed in the earlier tiles.
            assert forall|q: int| 0 <= q < results@.len() implies placed(
                tiles@.take(k as int),
                height,
                #[trigger] results@[q],
            ) by {
                if q < old_results.len() {
                    assert(results@[q] == old_results[q]);
                    assert(placed(tiles@.take(k as int - 1), height, old_results[q]));
                    let prev = tiles@.take(k as int - 1);
                    let ci = old_results[q].x as int;
                    let cj = height - 1 - (old_results[q].y as int);
                    let kk = choose|kk: int|
                        0 <= kk < k - 1 && #[trigger] tile_contains(prev[kk], ci, cj);
                    assert(tile_contains(tiles@.take(k as int)[kk], ci, cj));
                } else {
                    let p = q - old_results.len();
                    assert(results@[q] == part_view[p]);
                    assert(tiles@.take(k as int)[k - 1] == t);
                    assert(tile_contains(
                        t,
                        results@[q].x as int,
                        height - 1 - (results@[q].y as int),
                    ));
                }
            };

            // Coverage: the new tile's cells all received a result.
            assert forall|i: int, j: int|
                0 <= i < s.width && 0 <= j < s.height && covered(
                    tiles@.take(k as int),
                    i,
                    j,
                ) implies #[trigger] has_result(results@, height, i, j) by {
                let kk = choose|kk: int|
                    0 <= kk < k && tile_contains(tiles@.take(k as int)[kk], i, j);
                if kk < k - 1 {
                    assert(tile_contains(tiles@.take(k as int - 1)[kk], i, j));
                    assert(covered(tiles@.take(k as int - 1), i, j));
                    assert(has_result(old_results, height, i, j));
                    let w = choose|w: int|
                        0 <= w < old_results.len() && old_results[w].x == i && height - 1 - (
                        old_results[w].y as int) == j;
                    assert(results@[w] == old_results[w]);
                    assert(has_result(results@, height, i, j));
                } else {
                    assert(tiles@.take(k as int)[kk] == t);
                    let rr = j - t.y0;
                    let cc = i - t.x0;
                    lemma_row_major(tw, rr, cc);
                    let w = old_results.len() + rr * tw + cc;
                    assert(0 <= rr * tw + cc < (t.height as int) * tw) by (nonlinear_arith)
                        requires
                            0 <= rr < t.height,
                            0 <= cc < tw,
                            tw >= 1,
                    ;
                    assert((t.height as int) * tw == part_view.len()) by (nonlinear_arith)
                        requires
                            part_view.len() == t.height * t.width,
                            tw == t.width as int,
                    ;
                    assert(results@[w] == part_view[rr * tw + cc]);
                    assert(0 <= w < results@.len() && results@[w].x == i && height - 1 - (
                    results@[w].y as int) == j);
                    assert(has_result(results@, height, i, j));
                }
            };

            // Write-once: targets of distinct results stay distinct.
            assert forall|q1: int, q2: int| 0 <= q1 < q2 < results@.len() implies ((
            #[trigger] results@[q1]).x != (#[trigger] results@[q2]).x || results@[q1].y
                != results@[q2].y) by {
                if q2 < old_results.len() {
                    assert(results@[q1] == old_results[q1] && results@[q2] == old_results[q2]);
                } else if q1 >= old_results.len() {
                    // Both in the new tile: distinct row-major indices
                    // decompose to distinct cells.
                    let p1 = q1 - old_results.len();
                    let p2 = q2 - old_results.len();
                    if results@[q1].x == results@[q2].x && results@[q1].y == results@[q2].y {
                        vstd::arithmetic::div_mod::lemma_fundamental_div_mod(p1, tw);
                        vstd::arithmetic::div_mod::lemma_fundamental_div_mod(p2, tw);
                        assert(p1 == tw * (p1 / tw) + p1 % tw);
                        assert(p1 % tw == p2 % tw && p1 / tw == p2 / tw);
                        assert(false);
                    }
                } else {
                    // One in an earlier tile, one in the new tile: the
                    // tiles are disjoint, so the cells differ.
                    assert(results@[q1] == old_results[q1]);
                    assert(placed(tiles@.take(k as int - 1), height, old_results[q1]));
                    let prev = tiles@.take(k as int - 1);
                    let ci = old_results[q1].x as int;
                    let cj = height - 1 - (old_results[q1].y as int);
                    let kk = choose|kk: int|
                        0 <= kk < k - 1 && #[trigger] tile_contains(prev[kk], ci, cj);
                    assert(prev[kk] == tiles@[kk]);
                    assert(tiles_disjoint(tiles@[kk], tiles@[k - 1]));
                    assert(tiles@[k - 1] == t);
                    assert(tile_contains(tiles@[kk], ci, cj));
                    assert(tile_contains(
                        t,
                        results@[q2].x as int,
                        height - 1 - (results@[q2].y as int),
                    ));
                }
            };
        }
    }
    proof {
        assert(tiles@.take(tiles@.len() as int) =~= tiles@);
    }
    results
}

/// Render the scene by tiles, as the parallel driver does, but in one
/// unit of control: partition the image, compute every tile over the
/// shared read-only scene, gather all the per-pixel results, and assemble
/// them into the output grid. The outcome is pixel-for-pixel the grid
/// `render` produces, whatever order the tiles were gathered in.
#[verifier::loop_isolation(false)]
pub fn render_tiled(s: &Scene, antialias: bool, tan_half_fov: i64, tile_size: usize) -> (r: Result<
    Vec<Vec<Colour>>,
    SceneError,
>)
    requires
        tile_size >= 1,
        (s.width as int) * (s.height as int) <= usize::MAX,
    ensures
        (match r {
            Ok(g) => {
                &&& view_basis(*s) != seq![0i64, 0i64, 0i64]
                &&& g@.len() == s.height
                &&& forall|j: int| 0 <= j < s.height ==> g@[j]@.len() == s.width
                &&& forall|j: int, i: int|
                    0 <= j < s.height && 0 <= i < s.width ==> g@[j]@[i].model() == pixel_colour(
                        *s,
                        scene_params_model(*s, antialias, tan_half_fov),
                        i,
                        j,
                    )
            },
            Err(e) => view_basis(*s) == seq![0i64, 0i64, 0i64] && e
                == SceneError::DegenerateViewBasis,
        }),
{
    let params = match setup_scene(s, antialias, tan_half_fov) {
        Ok(p) => p,
        Err(e) => {
            return Err(e);
        },
    };
    let tiles = make_tiles(s.width, s.height, tile_size);
    let results = gather_results(s, &params, &tiles);
    let g = assemble(s.width, s.height, &results);
    proof {
        assert forall|j: int, i: int|
            0 <= j < s.height && 0 <= i < s.width implies g@[j]@[i].model() == pixel_colour(
            *s,
            params,
            i,
            j,
        ) by {
            lemma_gather_order_irrelevant(*s, params, results@, i, j);
        };
    }
    Ok(g)
}

/// Occluding a light silences it: whenever any primitive blocks the
/// shadow ray from a shaded point toward a light, that light's diffuse
/// and specular contributions are both exactly zero — so inserting an
/// opaque sphere between a light and a point reduces the light's
/// contribution to nothing.
pub proof fn lemma_occluded_light_contributes_nothing(
    ps: Seq<Primitive>,
    light: Light,
    m: crate::geometry::Material,
    point: Seq<i64>,
    normal: Seq<i64>,
    nray: Seq<i64>,
)
    requires
        nearest_hit(ps, vsub(light.pos.model(), point), point) is Some,
    ensures
        light_contrib(ps, light, m, point, normal, nray) == (vzero3(), vzero3()),
{
}

/// With no primitives, a weighted sample sum is identically black.
proof fn lemma_sample_sum_black(s: Scene, sp: SceneParams, pixels: Seq<Pixel>, k: int, coef: i64)
    requires
        s.primitives@.len() == 0,
    ensures
        sample_sum(s, sp, pixels, k, coef) == vzero3(),
    decreases pixels.len() - k,
{
    if 0 <= k < pixels.len() {
        lemma_sample_sum_black(s, sp, pixels, k + 1, coef);
        assert(sample_colour(s, sp, pixels[k]) == vzero3());
        assert(fx_mul(0, coef) == 0) by {
            assert((0int) * (coef as int) == 0) by (nonlinear_arith);
        };
        assert(vadd(vscale(vzero3(), coef), vzero3()) =~= vzero3());
    }
}

/// A scene with no primitives renders to nothing but background: every
/// pixel of any resolution, antialiased or not, is exactly black.
pub proof fn lemma_no_primitives_black(s: Scene, sp: SceneParams, i: int, j: int)
    requires
        s.primitives@.len() == 0,
    ensures
        pixel_colour(s, sp, i, j) == vzero3(),
{
    if sp.antialias {
        lemma_sample_sum_black(
            s,
            sp,
            aa_subpixels(pixel_at(i, j)),
            0,
            fx_div(FX_ONE, int_to_fx(aa_subpixels(pixel_at(i, j)).len() as int)),
        );
    } else {
        lemma_sample_sum_black(
            s,
            sp,
            seq![pixel_at(i, j)],
            0,
            fx_div(FX_ONE, int_to_fx(seq![pixel_at(i, j)].len() as int)),
        );
    }
}

} // verus!
