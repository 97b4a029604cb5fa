use vstd::prelude::*;
use vstd::arithmetic::div_mod::lemma_div_is_ordered;
use vstd::arithmetic::div_mod::lemma_div_multiples_vanish;
use vstd::arithmetic::div_mod::lemma_div_pos_is_pos;
use vstd::arithmetic::div_mod::lemma_fundamental_div_mod;
use vstd::arithmetic::div_mod::lemma_mod_division_less_than_divisor;
use vstd::arithmetic::mul::lemma_mul_inequality;
use crate::fixed::fx_div;
use crate::fixed::fx_div_s;
use crate::fixed::fx_mul;
use crate::fixed::fx_mul_s;
use crate::fixed::fx_sqrt;
use crate::fixed::fx_sqrt_s;
use crate::fixed::isqrt_s;
use crate::fixed::lemma_abs_mul_bound;
use crate::fixed::lemma_fx_square_nonneg;
use crate::fixed::lemma_isqrt_exists;
use crate::fixed::lemma_tdiv_bound;
use crate::fixed::lemma_tdiv_mono;
use crate::fixed::lemma_tdiv_scaled_bound;
use crate::fixed::tdiv;
use crate::fixed::tdiv_i128;
use crate::scene::Color;
use crate::scene::GEOM_LIMIT;
use crate::scene::Scene;
use crate::scene::Sphere;
use crate::scene::T_LIMIT;
use crate::shade::NORMAL_LIMIT;
use crate::shade::compute_lighting;
use crate::shade::lighting_s;
use crate::vec3::Vec3;
use crate::vec3::VEC_LIMIT;
use crate::vec3::add_s;
use crate::vec3::dot_s;
use crate::vec3::in_range;
use crate::vec3::lemma_dot_bound;
use crate::vec3::mag_s;
use crate::vec3::neg_s;
use crate::vec3::scale_s;
use crate::vec3::sub_s;

verus! {

/// The color of a ray that hits nothing.
pub open spec fn background_s() -> Color {
    Color { r: 255, g: 255, b: 255 }
}

/// The two roots of the ray-sphere quadratic, or nothing when the
/// discriminant is negative; the first root carries the plus sign.
pub open spec fn intersect_s(o: Vec3, d: Vec3, s: Sphere) -> Option<(int, int)>
    recommends
        1 <= dot_s(d, d),
{
    let ray = sub_s(o, s.center);
    let a = dot_s(d, d);
    let b = 2 * dot_s(ray, d);
    let c = dot_s(ray, ray) - fx_mul_s(s.radius as int, s.radius as int);
    let disc = fx_mul_s(b, b) - 4 * fx_mul_s(a, c);
    if disc < 0 {
        None
    } else {
        Some((fx_div_s(-b + fx_sqrt_s(disc), 2 * a), fx_div_s(-b - fx_sqrt_s(disc), 2 * a)))
    }
}

/// Keeps the running nearest hit: a candidate root replaces the best one
/// exactly when it lies strictly inside the range and strictly below the
/// best so far, so earlier candidates win ties.
pub open spec fn consider_s(
    best: Option<(int, int)>,
    idx: int,
    t: int,
    t_min: int,
    t_max: int,
) -> Option<(int, int)> {
    if t_min < t && t < t_max && (match best {
        Option::None => true,
        Option::Some(p) => t < p.1,
    }) {
        Some((idx, t))
    } else {
        best
    }
}

/// The nearest hit over a sphere sequence: spheres are taken in order, and
/// for each the plus root is considered before the minus root.
pub open spec fn closest_hit_s(
    spheres: Seq<Sphere>,
    o: Vec3,
    d: Vec3,
    t_min: int,
    t_max: int,
) -> Option<(int, int)>
    decreases spheres.len(),
{
    if spheres.len() == 0 {
        None
    } else {
        let prev = closest_hit_s(spheres.drop_last(), o, d, t_min, t_max);
        let idx = spheres.len() - 1;
        match intersect_s(o, d, spheres.last()) {
            Option::None => prev,
            Option::Some(ts) => consider_s(
                consider_s(prev, idx, ts.0, t_min, t_max),
                idx,
                ts.1,
                t_min,
                t_max,
            ),
        }
    }
}

pub open spec fn clamp_normal_s(v: int) -> int {
    if v < -131072 {
        -131072
    } else if v > 131072 {
        131072
    } else {
        v
    }
}

/// The outward unit normal, componentwise clamped so that rounding in the
/// magnitude can never push a component far past one; a zero magnitude
/// yields the zero vector.
pub open spec fn normal_s(v: Vec3) -> Vec3 {
    let m = mag_s(v);
    if m <= 0 {
        Vec3 { x: 0, y: 0, z: 0 }
    } else {
        Vec3 {
            x: clamp_normal_s(fx_div_s(v.x as int, m)) as i128,
            y: clamp_normal_s(fx_div_s(v.y as int, m)) as i128,
            z: clamp_normal_s(fx_div_s(v.z as int, m)) as i128,
        }
    }
}

/// One color channel of a lit surface: the channel scaled by the intensity,
/// truncated, and saturated into a byte.
pub open spec fn shade_channel_s(c: u8, l: int) -> u8 {
    let v = tdiv(c as int * l, 65536);
    if v < 0 {
        0
    } else if v > 255 {
        255
    } else {
        v as u8
    }
}

/// The color a ray reports: the shaded color of the nearest sphere it hits
/// within the range, or the background color when it hits none.
pub open spec fn trace_s(scene: Scene, o: Vec3, d: Vec3, t_min: int, t_max: int) -> Color {
    match closest_hit_s(scene.spheres@, o, d, t_min, t_max) {
        Option::None => background_s(),
        Option::Some(hit) => {
            let sph = scene.spheres@[hit.0];
            let p = add_s(o, scale_s(hit.1, d));
            let n = normal_s(sub_s(p, sph.center));
            let l = lighting_s(scene.lights@, p, n, neg_s(d), sph.specular);
            Color {
                r: shade_channel_s(sph.color.r, l),
                g: shade_channel_s(sph.color.g, l),
                b: shade_channel_s(sph.color.b, l),
            }
        },
    }
}

/// Whenever the quadratic has roots at all, the plus root is at least the
/// minus root.
pub proof fn lemma_roots_ordered(o: Vec3, d: Vec3, s: Sphere)
    requires
        1 <= dot_s(d, d),
    ensures
        match intersect_s(o, d, s) {
            Option::None => true,
            Option::Some(ts) => ts.0 >= ts.1,
        },
{
    let ray = sub_s(o, s.center);
    let a = dot_s(d, d);
    let b = 2 * dot_s(ray, d);
    let c = dot_s(ray, ray) - fx_mul_s(s.radius as int, s.radius as int);
    let disc = fx_mul_s(b, b) - 4 * fx_mul_s(a, c);
    if disc >= 0 {
        lemma_isqrt_exists(disc * 65536);
        let sq = fx_sqrt_s(disc);
        assert(sq >= 0);
        lemma_tdiv_mono((-b - sq) * 65536, (-b + sq) * 65536, 2 * a);
    }
}

/// A ray aimed exactly at a sphere's center always intersects it: the
/// discriminant stays non-negative, so both roots exist (and by
/// `lemma_roots_ordered` the plus root is the larger one).
pub proof fn lemma_aimed_at_center_hits(o: Vec3, d: Vec3, s: Sphere)
    requires
        in_range(o, GEOM_LIMIT as int),
        in_range(s.center, GEOM_LIMIT as int),
        d == sub_s(s.center, o),
        1 <= dot_s(d, d),
        0 <= s.radius,
    ensures
        intersect_s(o, d, s) is Some,
        match intersect_s(o, d, s) {
            Option::None => true,
            Option::Some(ts) => ts.0 >= ts.1,
        },
{
    lemma_roots_ordered(o, d, s);
    let ray = sub_s(o, s.center);
    let a = dot_s(d, d);
    assert(ray.x as int == -(d.x as int));
    assert(ray.y as int == -(d.y as int));
    assert(ray.z as int == -(d.z as int));
    assert(ray.x as int * d.x as int == -(d.x as int * d.x as int)
        && ray.x as int * ray.x as int == d.x as int * d.x as int) by (nonlinear_arith)
        requires
            ray.x as int == -(d.x as int),
    ;
    assert(ray.y as int * d.y as int == -(d.y as int * d.y as int)
        && ray.y as int * ray.y as int == d.y as int * d.y as int) by (nonlinear_arith)
        requires
            ray.y as int == -(d.y as int),
    ;
    assert(ray.z as int * d.z as int == -(d.z as int * d.z as int)
        && ray.z as int * ray.z as int == d.z as int * d.z as int) by (nonlinear_arith)
        requires
            ray.z as int == -(d.z as int),
    ;
    assert(dot_s(ray, d) == -a);
    assert(dot_s(ray, ray) == a);
    let b = 2 * dot_s(ray, d);
    let rad2 = fx_mul_s(s.radius as int, s.radius as int);
    lemma_fx_square_nonneg(s.radius as int);
    let c = a - rad2;
    assert(b * b == 4 * (a * a)) by (nonlinear_arith)
        requires
            b == -2 * a,
    ;
    lemma_mul_inequality(c, a, a);
    assert(c * a == a * c) by (nonlinear_arith);
    assert(a * a >= 0) by (nonlinear_arith);
    lemma_tdiv_mono(a * c, a * a, 65536);
    let q = (a * a) / 65536;
    lemma_fundamental_div_mod(a * a, 65536);
    lemma_mod_division_less_than_divisor(a * a, 65536);
    assert(65536 * q <= a * a);
    assert(65536 * (4 * q) <= 4 * (a * a));
    lemma_div_is_ordered(65536 * (4 * q), 4 * (a * a), 65536);
    lemma_div_multiples_vanish(4 * q, 65536);
    lemma_div_pos_is_pos(4 * (a * a), 65536);
    assert(tdiv(4 * (a * a), 65536) >= 4 * q);
    assert(fx_mul_s(b, b) - 4 * fx_mul_s(a, c) >= 0);
}

/// A ray with no candidate hit in range reports exactly the background
/// color, whatever the lights are.
pub proof fn lemma_miss_background(scene: Scene, o: Vec3, d: Vec3, t_min: int, t_max: int)
    requires
        closest_hit_s(scene.spheres@, o, d, t_min, t_max) is None,
    ensures
        trace_s(scene, o, d, t_min, t_max) == background_s(),
{
}

/// The two quadratic roots of a ray against one sphere.
pub fn intersect_ray_sphere(camera_position: &Vec3, direction: &Vec3, sphere: &Sphere) -> (r:
    Option<(i128, i128)>)
    requires
        in_range(*camera_position, GEOM_LIMIT as int),
        in_range(*direction, GEOM_LIMIT as int),
        sphere.wf(),
        1 <= dot_s(*direction, *direction),
    ensures
        r is None <==> intersect_s(*camera_position, *direction, *sphere) is None,
        r matches Some(p) ==> intersect_s(*camera_position, *direction, *sphere) == Some(
            (p.0 as int, p.1 as int),
        ),
{
    let ray: Vec3 = camera_position.minus(&sphere.center);
    proof {
        lemma_dot_bound(*direction, *direction, GEOM_LIMIT as int, GEOM_LIMIT as int);
        lemma_dot_bound(ray, *direction, 2 * GEOM_LIMIT as int, GEOM_LIMIT as int);
        lemma_dot_bound(ray, ray, 2 * GEOM_LIMIT as int, 2 * GEOM_LIMIT as int);
        lemma_abs_mul_bound(
            sphere.radius as int,
            sphere.radius as int,
            GEOM_LIMIT as int,
            GEOM_LIMIT as int,
        );
        lemma_tdiv_scaled_bound(
            sphere.radius as int * sphere.radius as int,
            GEOM_LIMIT as int * GEOM_LIMIT as int,
        );
    }
    let a_coef: i128 = direction.dot(direction);
    let b_coef: i128 = 2 * ray.dot(direction);
    let rad2: i128 = fx_mul(sphere.radius, sphere.radius);
    let c_coef: i128 = ray.dot(&ray) - rad2;
    proof {
        lemma_abs_mul_bound(
            b_coef as int,
            b_coef as int,
            0x18_0000_0000_0000,
            0x18_0000_0000_0000,
        );
        lemma_tdiv_scaled_bound(
            b_coef as int * b_coef as int,
            (0x18_0000_0000_0000 * 0x18_0000_0000_0000) as int,
        );
        lemma_abs_mul_bound(a_coef as int, c_coef as int, 0xc_0000_0000_0000, 0x10_0000_0000_0000);
        lemma_tdiv_scaled_bound(
            a_coef as int * c_coef as int,
            (0xc_0000_0000_0000 * 0x10_0000_0000_0000) as int,
        );
    }
    let bb: i128 = fx_mul(b_coef, b_coef);
    let ac4: i128 = 4 * fx_mul(a_coef, c_coef);
    let disc: i128 = bb - ac4;
    if disc < 0 {
        return None;
    }
    let d_sqrt: i128 = fx_sqrt(disc);
    proof {
        lemma_isqrt_exists(disc as int * 65536);
        let rt = isqrt_s(disc as int * 65536);
        assert(rt < 0x1_0000_0000_0000_0000) by (nonlinear_arith)
            requires
                0 <= rt,
                rt * rt <= disc as int * 65536,
                disc as int * 65536 < 0x1_0000_0000_0000_0000 * 0x1_0000_0000_0000_0000,
        ;
    }
    let t1: i128 = fx_div(-b_coef + d_sqrt, 2 * a_coef);
    let t2: i128 = fx_div(-b_coef - d_sqrt, 2 * a_coef);
    Some((t1, t2))
}

pub fn clamp_normal(v: i128) -> (r: i128)
    ensures
        r as int == clamp_normal_s(v as int),
        -131072 <= r <= 131072,
{
    if v < -131072 {
        -131072
    } else if v > 131072 {
        131072
    } else {
        v
    }
}

/// The clamped unit normal of a vector.
pub fn unit_normal(v: &Vec3) -> (r: Vec3)
    requires
        in_range(*v, VEC_LIMIT as int),
    ensures
        r == normal_s(*v),
        in_range(r, NORMAL_LIMIT as int),
{
    let m: i128 = v.magnitude();
    if m <= 0 {
        Vec3 { x: 0, y: 0, z: 0 }
    } else {
        Vec3 { x: clamp_normal(fx_div(v.x, m)), y: clamp_normal(fx_div(v.y, m)), z: clamp_normal(
            fx_div(v.z, m),
        ) }
    }
}

/// Casts one ray into the scene: finds the nearest sphere hit between
/// `t_min` and `t_max` and shades it, or reports the background color.
pub fn trace_ray(
    scene: &Scene,
    camera_position: &Vec3,
    direction: Vec3,
    t_min: i128,
    t_max: i128,
) -> (c: Color)
    requires
        scene.wf(),
        in_range(*camera_position, GEOM_LIMIT as int),
        in_range(direction, GEOM_LIMIT as int),
        1 <= dot_s(direction, direction),
        -T_LIMIT <= t_min <= T_LIMIT,
        -T_LIMIT <= t_max <= T_LIMIT,
    ensures
        c == trace_s(*scene, *camera_position, direction, t_min as int, t_max as int),
{
    let mut best: Option<(usize, i128)> = None;
    let mut i: usize = 0;
    while i < scene.spheres.len()
        invariant
            scene.wf(),
            in_range(*camera_position, GEOM_LIMIT as int),
            in_range(direction, GEOM_LIMIT as int),
            1 <= dot_s(direction, direction),
            -T_LIMIT <= t_min <= T_LIMIT,
            -T_LIMIT <= t_max <= T_LIMIT,
            i <= scene.spheres@.len(),
            (match best {
                Option::None => closest_hit_s(
                    scene.spheres@.take(i as int),
                    *camera_position,
                    direction,
                    t_min as int,
                    t_max as int,
                ) is None,
                Option::Some(p) => closest_hit_s(
                    scene.spheres@.take(i as int),
                    *camera_position,
                    direction,
                    t_min as int,
                    t_max as int,
                ) == Some((p.0 as int, p.1 as int)) && p.0 < i && t_min < p.1 < t_max,
            }),
        decreases scene.spheres@.len() - i,
    {
        let sph: Sphere = scene.spheres[i];
        let roots: Option<(i128, i128)> = intersect_ray_sphere(camera_position, &direction, &sph);
        match roots {
            Option::None => (),
            Option::Some(ts) => {
                let better1: bool = match best {
                    Option::None => true,
                    Option::Some(p) => ts.0 < p.1,
                };
                if ts.0 > t_min && ts.0 < t_max && better1 {
                    best = Some((i, ts.0));
                }
                let better2: bool = match best {
                    Option::None => true,
                    Option::Some(p) => ts.1 < p.1,
                };
                if ts.1 > t_min && ts.1 < t_max && better2 {
                    best = Some((i, ts.1));
                }
            },
        }
        proof {
            assert(scene.spheres@.take(i as int + 1).drop_last() =~= scene.spheres@.take(i as int));
            assert(scene.spheres@.take(i as int + 1).last() == scene.spheres@[i as int]);
        }
        i = i + 1;
    }
    proof {
        assert(scene.spheres@.take(scene.spheres@.len() as int) =~= scene.spheres@);
    }
    match best {
        Option::None => Color { r: 255, g: 255, b: 255 },
        Option::Some(hit) => {
            let sph: Sphere = scene.spheres[hit.0];
            proof {
                lemma_abs_mul_bound(
                    hit.1 as int,
                    direction.x as int,
                    T_LIMIT as int,
                    GEOM_LIMIT as int,
                );
                lemma_abs_mul_bound(
                    hit.1 as int,
                    direction.y as int,
                    T_LIMIT as int,
                    GEOM_LIMIT as int,
                );
                lemma_abs_mul_bound(
                    hit.1 as int,
                    direction.z as int,
                    T_LIMIT as int,
                    GEOM_LIMIT as int,
                );
                lemma_tdiv_scaled_bound(
                    hit.1 as int * direction.x as int,
                    T_LIMIT as int * GEOM_LIMIT as int,
                );
                lemma_tdiv_scaled_bound(
                    hit.1 as int * direction.y as int,
                    T_LIMIT as int * GEOM_LIMIT as int,
                );
                lemma_tdiv_scaled_bound(
                    hit.1 as int * direction.z as int,
                    T_LIMIT as int * GEOM_LIMIT as int,
                );
            }
            let along: Vec3 = direction.scaled(hit.1);
            let surface_position: Vec3 = camera_position.plus(&along);
            let from_center: Vec3 = surface_position.minus(&sph.center);
            let surface_normal: Vec3 = unit_normal(&from_center);
            let to_camera: Vec3 = direction.negated();
            let lighting: i128 = compute_lighting(
                scene,
                &surface_position,
                &surface_normal,
                to_camera,
                sph.specular,
            );
            Color {
                r: shade_channel(sph.color.r, lighting),
                g: shade_channel(sph.color.g, lighting),
                b: shade_channel(sph.color.b, lighting),
            }
        },
    }
}

/// One color channel scaled by a non-negative lighting intensity.
pub fn shade_channel(c: u8, l: i128) -> (r: u8)
    requires
        0 <= l <= 0x2000_0000_0000_0000,
    ensures
        r == shade_channel_s(c, l as int),
{
    proof {
        lemma_abs_mul_bound(c as int, l as int, 255, 0x2000_0000_0000_0000);
    }
    let prod: i128 = (c as i128) * l;
    let v: i128 = tdiv_i128(prod, 65536);
    proof {
        lemma_tdiv_bound(prod as int, 65536, (255 * 0x2000_0000_0000_0000) as int);
    }
    if v < 0 {
        0
    } else if v > 255 {
        255
    } else {
        v as u8
    }
}

} // verus!
