use rray::math::{Vec3fx, FX_ONE};
use rray::scene::get_ref_scene;

#[test]
fn reference_scene_shape() {
    let s = get_ref_scene();
    assert_eq!(s.lights.len(), 2);
    assert_eq!(s.primitives.len(), 5);
    assert_eq!(s.width, 2048);
    assert_eq!(s.height, 2048);
    assert_eq!(s.fov, 45 * FX_ONE);
    assert_eq!(s.camera, Vec3fx { x: 0, y: 0, z: 800 * FX_ONE });
    assert_eq!(s.view, Vec3fx { x: 0, y: 0, z: -FX_ONE });
    assert_eq!(s.up, Vec3fx { x: 0, y: FX_ONE, z: 0 });
}
