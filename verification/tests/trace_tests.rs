use raycast::canvas::Canvas;
use raycast::render::render;
use raycast::scene::{Color, Light, Scene, Sphere, T_LIMIT};
use raycast::shade::{compute_lighting, diffuse, specular};
use raycast::trace::{intersect_ray_sphere, shade_channel, trace_ray, unit_normal};
use raycast::vec3::Vec3;

const FX: i128 = 65536;
const WHITE: Color = Color { r: 255, g: 255, b: 255 };
const RED: Color = Color { r: 255, g: 0, b: 0 };
const BLUE: Color = Color { r: 0, g: 0, b: 255 };

fn v(x: i128, y: i128, z: i128) -> Vec3 {
    Vec3 { x: x * FX, y: y * FX, z: z * FX }
}

fn sphere_at(center: Vec3, color: Color) -> Sphere {
    Sphere { center, radius: FX, color, specular: None }
}

fn ambient_only() -> Vec<Light> {
    vec![Light::Ambient { intensity: FX }]
}

#[test]
fn ray_toward_center_has_two_positive_ordered_roots() {
    // unit sphere two units in front of the projection plane, ray aimed
    // straight at its center: entry at t = 2, exit at t = 4
    let origin = v(0, 0, 0);
    let direction = v(0, 0, 1);
    let sphere = sphere_at(v(0, 0, 3), RED);
    let roots = intersect_ray_sphere(&origin, &direction, &sphere);
    assert_eq!(roots, Some((4 * FX, 2 * FX)));
}

#[test]
fn grazing_ray_has_equal_roots() {
    // the sphere of the single-sphere scene: centered one unit below the
    // view axis with radius one, so the axis ray touches it at t = 3
    let origin = v(0, 0, 0);
    let direction = v(0, 0, 1);
    let sphere = sphere_at(v(0, -1, 3), RED);
    let roots = intersect_ray_sphere(&origin, &direction, &sphere);
    assert_eq!(roots, Some((3 * FX, 3 * FX)));
}

#[test]
fn missing_ray_has_no_roots() {
    let origin = v(0, 0, 0);
    let direction = v(0, 0, 1);
    let sphere = sphere_at(v(0, 10, 10), RED);
    assert_eq!(intersect_ray_sphere(&origin, &direction, &sphere), None);
}

#[test]
fn nearest_hit_wins() {
    let scene = Scene {
        spheres: vec![sphere_at(v(0, 0, 10), RED), sphere_at(v(0, 0, 3), BLUE)],
        lights: ambient_only(),
    };
    let c = trace_ray(&scene, &v(0, 0, 0), v(0, 0, 1), FX, T_LIMIT);
    assert_eq!(c, BLUE);
}

#[test]
fn earlier_sphere_wins_ties() {
    let scene = Scene {
        spheres: vec![sphere_at(v(0, 0, 3), RED), sphere_at(v(0, 0, 3), BLUE)],
        lights: ambient_only(),
    };
    let c = trace_ray(&scene, &v(0, 0, 0), v(0, 0, 1), FX, T_LIMIT);
    assert_eq!(c, RED);
}

#[test]
fn single_sphere_scene_reports_hit() {
    // full ambient light makes the hit color the sphere's own color
    let scene = Scene {
        spheres: vec![sphere_at(v(0, 0, 3), RED)],
        lights: ambient_only(),
    };
    let c = trace_ray(&scene, &v(0, 0, 0), v(0, 0, 1), FX, T_LIMIT);
    assert_eq!(c, RED);
}

#[test]
fn ray_away_from_every_sphere_gives_background() {
    let scene = Scene {
        spheres: vec![sphere_at(v(0, -1, 3), RED), sphere_at(v(2, 0, 4), BLUE)],
        lights: ambient_only(),
    };
    let c = trace_ray(&scene, &v(0, 0, 0), v(0, 1, 0), FX, T_LIMIT);
    assert_eq!(c, WHITE);
}

#[test]
fn roots_out_of_range_give_background() {
    let scene = Scene {
        spheres: vec![sphere_at(v(0, 0, 3), RED)],
        lights: ambient_only(),
    };
    // both roots (2 and 4) lie beyond t_max
    let c = trace_ray(&scene, &v(0, 0, 0), v(0, 0, 1), FX / 2, FX);
    assert_eq!(c, WHITE);
}

#[test]
fn diffuse_is_zero_for_light_behind_surface() {
    let normal = v(0, 0, 1);
    assert_eq!(diffuse(&v(0, 0, -2), &normal, FX), 0);
    // light exactly on the tangent plane
    assert_eq!(diffuse(&v(1, 0, 0), &normal, FX), 0);
}

#[test]
fn diffuse_is_full_for_aligned_light() {
    let contribution = diffuse(&v(0, 0, 2), &v(0, 0, 1), 13107);
    assert_eq!(contribution, 13107);
}

#[test]
fn specular_is_zero_without_specularity() {
    let c = specular(&v(1, 5, -2), &v(0, 1, 0), v(0, 3, 1), FX, None);
    assert_eq!(c, 0);
    let c2 = specular(&v(0, 1, 0), &v(0, 1, 0), v(0, 1, 0), FX, None);
    assert_eq!(c2, 0);
}

#[test]
fn specular_is_full_for_mirror_alignment() {
    // incident straight down the normal, camera in the same direction
    let c = specular(&v(0, 1, 0), &v(0, 1, 0), v(0, 1, 0), 13107, Some(500));
    assert_eq!(c, 13107);
}

#[test]
fn lighting_sums_ambient_and_diffuse() {
    let scene = Scene {
        spheres: vec![],
        lights: vec![
            Light::Ambient { intensity: 13107 },
            Light::Directional { intensity: 13107, direction: v(0, 0, 1) },
            // behind the surface: contributes nothing
            Light::Point { intensity: 13107, position: v(0, 0, -5) },
        ],
    };
    let total = compute_lighting(&scene, &v(0, 0, 0), &v(0, 0, 1), v(0, 0, 1), None);
    assert_eq!(total, 2 * 13107);
}

#[test]
fn shade_channel_saturates() {
    assert_eq!(shade_channel(255, 2 * FX), 255);
    assert_eq!(shade_channel(100, FX / 2), 50);
    assert_eq!(shade_channel(200, 0), 0);
}

#[test]
fn unit_normal_of_axis_vector() {
    let n = unit_normal(&v(0, 0, 7));
    assert_eq!(n, Vec3 { x: 0, y: 0, z: FX });
    let z = unit_normal(&Vec3 { x: 0, y: 0, z: 0 });
    assert_eq!(z, Vec3 { x: 0, y: 0, z: 0 });
}

#[test]
fn rendering_twice_is_byte_identical() {
    let scene = Scene {
        spheres: vec![sphere_at(v(0, -1, 3), RED), sphere_at(v(2, 0, 4), BLUE)],
        lights: vec![
            Light::Ambient { intensity: 13107 },
            Light::Point { intensity: 39321, position: v(2, 1, 0) },
            Light::Directional { intensity: 13107, direction: v(1, 4, 4) },
        ],
    };
    assert!(scene.is_well_formed());
    let camera = v(0, 0, 0);
    let mut first = Canvas::new(8, 8);
    let mut second = Canvas::new(8, 8);
    render(&scene, &camera, FX, T_LIMIT, &mut first);
    render(&scene, &camera, FX, T_LIMIT, &mut second);
    let mut it = first.iter_pixels();
    while let Some((x, y)) = it.next() {
        let a = first.get_pixel(x, y);
        assert!(a.is_some());
        assert_eq!(a, second.get_pixel(x, y));
    }
}

#[test]
fn rendering_empty_scene_paints_background() {
    let scene = Scene { spheres: vec![], lights: vec![] };
    let mut canvas = Canvas::new(4, 4);
    render(&scene, &v(0, 0, 0), FX, T_LIMIT, &mut canvas);
    let mut it = canvas.iter_pixels();
    while let Some((x, y)) = it.next() {
        assert_eq!(canvas.get_pixel(x, y), Some(WHITE));
    }
}

#[test]
fn scene_well_formedness_check() {
    let good = Scene {
        spheres: vec![sphere_at(v(0, -1, 3), RED)],
        lights: vec![Light::Ambient { intensity: 13107 }],
    };
    assert!(good.is_well_formed());
    let bad = Scene {
        spheres: vec![],
        lights: vec![Light::Ambient { intensity: -1 }],
    };
    assert!(!bad.is_well_formed());
}

#[test]
fn viewport_direction_values() {
    let canvas = Canvas::new(1920, 1080);
    assert_eq!(
        canvas.viewport_direction_at(0, 0),
        Vec3 { x: 0, y: 0, z: FX }
    );
    // 100 * 116654 / 1920 and -100 * 65536 / 1080, truncated toward zero
    assert_eq!(
        canvas.viewport_direction_at(100, -100),
        Vec3 { x: 6075, y: -6068, z: FX }
    );
}

#[test]
fn render_writes_sphere_color_at_center_pixel() {
    let scene = Scene {
        spheres: vec![sphere_at(v(0, 0, 3), RED)],
        lights: ambient_only(),
    };
    let mut canvas = Canvas::new(2, 2);
    render(&scene, &v(0, 0, 0), FX, T_LIMIT, &mut canvas);
    // the center pixel's ray is (0, 0, 1): it hits the sphere at t = 2
    assert_eq!(canvas.get_pixel(0, 0), Some(RED));
}
