use rray::geometry::{Colour, Material, Primitive, Sphere};
use rray::math::{Vec3, Vec3fx, FX_ONE};
use rray::scene::{setup_scene, Light, Scene, SceneError};
use rray::trace::{assemble, gather_results, make_grid, make_tiles, render, render_tile, render_tiled};

/// tan(22.5 degrees) in fixed point, for a 45-degree field of view.
const TAN_HALF_45: i64 = 434322;

fn shiny() -> Material {
    Material {
        diffuse: Colour { x: 734003, y: FX_ONE, z: 734003 },
        specular: Colour { x: 524288, y: 734003, z: 524288 },
        shininess: 25,
        mirror: 0,
    }
}

fn end_to_end_scene(width: usize, height: usize, primitives: Vec<Primitive>) -> Scene {
    Scene {
        lights: vec![
            Light {
                pos: Vec3::new(-100 * FX_ONE, 150 * FX_ONE, 400 * FX_ONE),
                colour: Colour { x: 734003, y: 734003, z: 734003 },
            },
        ],
        primitives,
        ambient: Colour { x: 314573, y: 314573, z: 314573 },
        camera: Vec3::new(0, 0, 800 * FX_ONE),
        view: Vec3::new(0, 0, -FX_ONE),
        up: Vec3::new(0, FX_ONE, 0),
        width,
        height,
        fov: 45 * FX_ONE,
    }
}

fn one_sphere() -> Vec<Primitive> {
    vec![
        Primitive::Sphere(
            Sphere { pos: Vec3::new(0, 0, -400 * FX_ONE), rad: 100 * FX_ONE, mat: shiny() },
        ),
    ]
}

#[test]
fn grid_coordinates() {
    let g = make_grid(3, 2, 1, 4);
    assert_eq!(g.len(), 2);
    assert_eq!(g[0].len(), 3);
    assert_eq!(g[0][0].x, FX_ONE);
    assert_eq!(g[0][0].y, 4 * FX_ONE);
    assert_eq!(g[1][2].x, 3 * FX_ONE);
    assert_eq!(g[1][2].y, 5 * FX_ONE);
}

#[test]
fn setup_scene_projection_parameters() {
    let mut s = end_to_end_scene(64, 32, vec![]);
    s.fov = 90 * FX_ONE;
    // tan of half of 90 degrees is exactly 1.
    let p = setup_scene(&s, true, FX_ONE).expect("basis is sound");
    assert_eq!(p.aspect_ratio, 2 * FX_ONE);
    assert_eq!(p.view_len, 16 * FX_ONE);
    assert_eq!(p.hor_vec, Vec3fx { x: FX_ONE, y: 0, z: 0 });
    assert_eq!(
        p.top_pixel,
        Vec3fx { x: -32 * FX_ONE, y: 16 * FX_ONE, z: (800 - 16) * FX_ONE },
    );
    assert!(p.antialias);
}

#[test]
fn setup_scene_rejects_parallel_view_and_up() {
    let mut s = end_to_end_scene(64, 32, vec![]);
    s.up = s.view;
    assert_eq!(setup_scene(&s, false, FX_ONE), Err(SceneError::DegenerateViewBasis));
}

#[test]
fn render_rejects_parallel_view_and_up() {
    let mut s = end_to_end_scene(8, 8, vec![]);
    s.up = Vec3::new(0, 0, 2 * FX_ONE);
    assert!(render(&s, true, TAN_HALF_45).is_err());
}

#[test]
fn empty_scene_renders_all_black_antialiased() {
    // No primitives: every sample is the background, so every pixel of
    // the antialiased render is exactly black.
    let s = end_to_end_scene(9, 5, vec![]);
    let g = render(&s, true, TAN_HALF_45).expect("basis is sound");
    assert_eq!(g.len(), 5);
    for row in &g {
        assert_eq!(row.len(), 9);
        for c in row {
            assert_eq!(*c, Vec3fx { x: 0, y: 0, z: 0 });
        }
    }
}

#[test]
fn center_pixel_hits_and_corners_are_background() {
    // One sphere of radius 100 at (0, 0, -400), camera at (0, 0, 800)
    // looking down -z, 45-degree fov, 64 by 64: the sphere's silhouette
    // covers the image center and stays far inside the corners.
    let s = end_to_end_scene(64, 64, one_sphere());
    let g = render(&s, false, TAN_HALF_45).expect("basis is sound");
    let background = Vec3fx { x: 0, y: 0, z: 0 };
    assert_ne!(g[32][32], background, "center pixel must report a hit");
    assert_eq!(g[0][0], background);
    assert_eq!(g[0][63], background);
    assert_eq!(g[63][0], background);
    assert_eq!(g[63][63], background);
}

#[test]
fn tiled_render_matches_sequential_render() {
    // The driver's tiling, gathering, and assembly reproduce the
    // sequential render pixel for pixel, whatever the tile size.
    let s = end_to_end_scene(16, 16, one_sphere());
    let sequential = render(&s, true, TAN_HALF_45).expect("basis is sound");
    for tile_size in [1usize, 3, 5, 16, 64] {
        let tiled = render_tiled(&s, true, TAN_HALF_45, tile_size).expect("basis is sound");
        assert_eq!(tiled, sequential, "tile size {tile_size}");
    }
}

#[test]
fn gather_order_does_not_change_the_image() {
    // Feed the assembler the same results in reversed order: the grid
    // is identical, because every result carries its own coordinate.
    let s = end_to_end_scene(8, 8, one_sphere());
    let p = setup_scene(&s, false, TAN_HALF_45).expect("basis is sound");
    let tiles = make_tiles(8, 8, 3);
    let mut results = Vec::new();
    for t in &tiles {
        let mut part = render_tile(&s, &p, t);
        results.append(&mut part);
    }
    let forward = assemble(8, 8, &results);
    let reversed_results: Vec<_> = results.iter().rev().copied().collect();
    let reversed = assemble(8, 8, &reversed_results);
    assert_eq!(forward, reversed);
    let sequential = render(&s, false, TAN_HALF_45).expect("basis is sound");
    assert_eq!(forward, sequential);
}

#[test]
fn tiles_cover_the_image() {
    let tiles = make_tiles(10, 7, 4);
    let mut seen = [[false; 10]; 7];
    for t in &tiles {
        for j in t.y0..t.y0 + t.height {
            for i in t.x0..t.x0 + t.width {
                assert!(!seen[j][i], "pixel covered twice");
                seen[j][i] = true;
            }
        }
    }
    for row in &seen {
        for cell in row {
            assert!(*cell, "pixel left uncovered");
        }
    }
}

#[test]
fn gathered_results_write_each_cell_exactly_once() {
    // One result per pixel, no cell targeted twice, whatever tiling.
    let s = end_to_end_scene(8, 6, one_sphere());
    let p = setup_scene(&s, false, TAN_HALF_45).expect("basis is sound");
    let tiles = make_tiles(8, 6, 3);
    let results = gather_results(&s, &p, &tiles);
    assert_eq!(results.len(), 48);
    let mut seen = [[false; 8]; 6];
    for r in &results {
        assert!(r.x < 8 && r.y < 6);
        assert!(!seen[r.y][r.x], "cell targeted twice");
        seen[r.y][r.x] = true;
    }
}
