use vstd::prelude::*;
use crate::fixed::fx_div;
use crate::fixed::fx_div_s;
use crate::fixed::fx_mul;
use crate::fixed::fx_mul_s;
use crate::fixed::fx_pow;
use crate::fixed::fx_pow_s;
use crate::fixed::lemma_abs_mul_bound;
use crate::fixed::lemma_fx_mul_nonneg;
use crate::fixed::lemma_fx_mul_unit;
use crate::fixed::lemma_tdiv_scaled_bound;
use crate::scene::GEOM_LIMIT;
use crate::scene::INTENSITY_LIMIT;
use crate::scene::Light;
use crate::scene::Scene;
use crate::vec3::Vec3;
use crate::vec3::dot_s;
use crate::vec3::in_range;
use crate::vec3::lemma_dot_bound;
use crate::vec3::lemma_mag_range;
use crate::vec3::mag_s;
use crate::vec3::scale_s;
use crate::vec3::sub_s;

verus! {

/// Bound on the components of a surface normal handed to the shader;
/// a unit normal is far inside it.
pub const NORMAL_LIMIT: i128 = 0x2_0000;

/// Bound on the components of a surface point handed to the shader.
pub const SURFACE_LIMIT: i128 = 0x180_0000_0000_0000;

/// Bound on the components of an incident light vector: a light position
/// minus a surface point always stays inside it.
pub const INCIDENT_LIMIT: i128 = 0x200_0000_0000_0000;

pub open spec fn clamp_unit_s(v: int) -> int {
    if v < 0 {
        0
    } else if v > 65536 {
        65536
    } else {
        v
    }
}

/// The cosine between two directions: their dot product over the product
/// of their magnitudes, clamped into the unit interval so that rounding
/// in the magnitudes can never push it past one. A degenerate (zero)
/// denominator counts as a grazing angle and contributes nothing.
pub open spec fn cos_ratio_s(d: int, denom: int) -> int {
    if denom <= 0 {
        0
    } else {
        clamp_unit_s(fx_div_s(d, denom))
    }
}

/// Lambertian falloff: intensity scaled by the cosine between the surface
/// normal and the incident light direction, zero when the light lies on or
/// behind the tangent plane.
pub open spec fn diffuse_s(incident: Vec3, normal: Vec3, intensity: int) -> int {
    let d = dot_s(normal, incident);
    if d <= 0 {
        0
    } else {
        fx_mul_s(intensity, cos_ratio_s(d, fx_mul_s(mag_s(normal), mag_s(incident))))
    }
}

/// Mirror reflection of the incident direction about the normal.
pub open spec fn reflect_s(normal: Vec3, incident: Vec3) -> Vec3 {
    sub_s(scale_s(2 * dot_s(normal, incident), normal), incident)
}

/// Specular highlight: the cosine between the reflected ray and the view
/// direction raised to the surface's specular exponent, scaled by the
/// intensity; absent specularity or a reflection pointing away contributes
/// nothing.
pub open spec fn specular_s(
    incident: Vec3,
    normal: Vec3,
    to_camera: Vec3,
    intensity: int,
    specularity: Option<u32>,
) -> int {
    match specularity {
        Option::None => 0,
        Option::Some(e) => {
            let rv = reflect_s(normal, incident);
            let d = dot_s(rv, to_camera);
            if d <= 0 {
                0
            } else {
                fx_mul_s(
                    intensity,
                    fx_pow_s(cos_ratio_s(d, fx_mul_s(mag_s(rv), mag_s(to_camera))), e as nat),
                )
            }
        },
    }
}

/// What one light adds at a surface point.
pub open spec fn light_contrib_s(
    l: Light,
    p: Vec3,
    n: Vec3,
    cam: Vec3,
    sp: Option<u32>,
) -> int {
    match l {
        Light::Ambient { intensity } => intensity as int,
        Light::Point { intensity, position } => diffuse_s(sub_s(position, p), n, intensity as int)
            + specular_s(sub_s(position, p), n, cam, intensity as int, sp),
        Light::Directional { intensity, direction } => diffuse_s(direction, n, intensity as int)
            + specular_s(direction, n, cam, intensity as int, sp),
    }
}

/// The full local illumination: the sum of every light's contribution.
pub open spec fn lighting_s(
    lights: Seq<Light>,
    p: Vec3,
    n: Vec3,
    cam: Vec3,
    sp: Option<u32>,
) -> int
    decreases lights.len(),
{
    if lights.len() == 0 {
        0
    } else {
        lighting_s(lights.drop_last(), p, n, cam, sp) + light_contrib_s(
            lights.last(),
            p,
            n,
            cam,
            sp,
        )
    }
}

/// Diffuse light contributes nothing when the light lies on or behind the
/// surface tangent plane, whatever the intensity.
pub proof fn lemma_diffuse_dark(incident: Vec3, normal: Vec3, intensity: int)
    requires
        dot_s(normal, incident) <= 0,
    ensures
        diffuse_s(incident, normal, intensity) == 0,
{
}

/// A surface without a specular exponent receives no specular contribution,
/// whatever the light configuration.
pub proof fn lemma_specular_absent(
    incident: Vec3,
    normal: Vec3,
    to_camera: Vec3,
    intensity: int,
    specularity: Option<u32>,
)
    requires
        specularity is None,
    ensures
        specular_s(incident, normal, to_camera, intensity, specularity) == 0,
{
}

pub fn clamp_unit(v: i128) -> (r: i128)
    ensures
        r as int == clamp_unit_s(v as int),
        0 <= r <= 65536,
{
    if v < 0 {
        0
    } else if v > 65536 {
        65536
    } else {
        v
    }
}

pub fn cos_ratio(d: i128, denom: i128) -> (r: i128)
    requires
        0 <= denom,
        -(i128::MAX as int) <= d as int * 65536 <= i128::MAX as int,
    ensures
        r as int == cos_ratio_s(d as int, denom as int),
        0 <= r <= 65536,
{
    if denom <= 0 {
        0
    } else {
        clamp_unit(fx_div(d, denom))
    }
}

pub fn diffuse(incident_ray: &Vec3, surface_normal: &Vec3, intensity: i128) -> (r: i128)
    requires
        in_range(*incident_ray, INCIDENT_LIMIT as int),
        in_range(*surface_normal, NORMAL_LIMIT as int),
        0 <= intensity <= INTENSITY_LIMIT,
    ensures
        r as int == diffuse_s(*incident_ray, *surface_normal, intensity as int),
        0 <= r <= intensity,
{
    let d: i128 = surface_normal.dot(incident_ray);
    if d <= 0 {
        return 0;
    }
    let mn: i128 = surface_normal.magnitude();
    let mi: i128 = incident_ray.magnitude();
    proof {
        lemma_mag_range(*surface_normal, NORMAL_LIMIT as int);
        lemma_mag_range(*incident_ray, INCIDENT_LIMIT as int);
        lemma_abs_mul_bound(
            mn as int,
            mi as int,
            2 * NORMAL_LIMIT as int,
            2 * INCIDENT_LIMIT as int,
        );
        lemma_fx_mul_nonneg(mn as int, mi as int);
        lemma_tdiv_scaled_bound(
            mn as int * mi as int,
            4 * (NORMAL_LIMIT as int * INCIDENT_LIMIT as int),
        );
        lemma_dot_bound(*surface_normal, *incident_ray, NORMAL_LIMIT as int, INCIDENT_LIMIT as int);
    }
    let denom: i128 = fx_mul(mn, mi);
    let ratio: i128 = cos_ratio(d, denom);
    proof {
        lemma_fx_mul_unit(intensity as int, ratio as int);
        lemma_abs_mul_bound(intensity as int, ratio as int, INTENSITY_LIMIT as int, 65536);
    }
    fx_mul(intensity, ratio)
}

pub fn specular(
    incident_ray: &Vec3,
    surface_normal: &Vec3,
    surface_to_camera: Vec3,
    intensity: i128,
    specularity: Option<u32>,
) -> (r: i128)
    requires
        in_range(*incident_ray, INCIDENT_LIMIT as int),
        in_range(*surface_normal, NORMAL_LIMIT as int),
        in_range(surface_to_camera, GEOM_LIMIT as int),
        0 <= intensity <= INTENSITY_LIMIT,
    ensures
        r as int == specular_s(
            *incident_ray,
            *surface_normal,
            surface_to_camera,
            intensity as int,
            specularity,
        ),
        0 <= r <= intensity,
{
    match specularity {
        Option::None => 0,
        Option::Some(e) => {
            let nd: i128 = surface_normal.dot(incident_ray);
            proof {
                lemma_dot_bound(
                    *surface_normal,
                    *incident_ray,
                    NORMAL_LIMIT as int,
                    INCIDENT_LIMIT as int,
                );
            }
            let k: i128 = 2 * nd;
            proof {
                lemma_abs_mul_bound(
                    k as int,
                    surface_normal.x as int,
                    6 * ((NORMAL_LIMIT as int * INCIDENT_LIMIT as int) / 65536),
                    NORMAL_LIMIT as int,
                );
                lemma_abs_mul_bound(
                    k as int,
                    surface_normal.y as int,
                    6 * ((NORMAL_LIMIT as int * INCIDENT_LIMIT as int) / 65536),
                    NORMAL_LIMIT as int,
                );
                lemma_abs_mul_bound(
                    k as int,
                    surface_normal.z as int,
                    6 * ((NORMAL_LIMIT as int * INCIDENT_LIMIT as int) / 65536),
                    NORMAL_LIMIT as int,
                );
                lemma_tdiv_scaled_bound(
                    k as int * surface_normal.x as int,
                    6 * ((NORMAL_LIMIT as int * INCIDENT_LIMIT as int) / 65536) * NORMAL_LIMIT as int,
                );
                lemma_tdiv_scaled_bound(
                    k as int * surface_normal.y as int,
                    6 * ((NORMAL_LIMIT as int * INCIDENT_LIMIT as int) / 65536) * NORMAL_LIMIT as int,
                );
                lemma_tdiv_scaled_bound(
                    k as int * surface_normal.z as int,
                    6 * ((NORMAL_LIMIT as int * INCIDENT_LIMIT as int) / 65536) * NORMAL_LIMIT as int,
                );
            }
            let scaled_n: Vec3 = surface_normal.scaled(k);
            let reflected: Vec3 = scaled_n.minus(incident_ray);
            let rd: i128 = reflected.dot(&surface_to_camera);
            if rd <= 0 {
                return 0;
            }
            let mr: i128 = reflected.magnitude();
            let mc: i128 = surface_to_camera.magnitude();
            proof {
                lemma_mag_range(reflected, 32 * INCIDENT_LIMIT as int);
                lemma_mag_range(surface_to_camera, GEOM_LIMIT as int);
                lemma_abs_mul_bound(
                    mr as int,
                    mc as int,
                    64 * INCIDENT_LIMIT as int,
                    2 * GEOM_LIMIT as int,
                );
                lemma_fx_mul_nonneg(mr as int, mc as int);
                lemma_dot_bound(
                    reflected,
                    surface_to_camera,
                    32 * INCIDENT_LIMIT as int,
                    GEOM_LIMIT as int,
                );
            }
            let denom: i128 = fx_mul(mr, mc);
            let ratio: i128 = cos_ratio(rd, denom);
            let p: i128 = fx_pow(ratio, e);
            proof {
                lemma_fx_mul_unit(intensity as int, p as int);
                lemma_abs_mul_bound(intensity as int, p as int, INTENSITY_LIMIT as int, 65536);
            }
            fx_mul(intensity, p)
        },
    }
}

/// What one light adds at a surface point.
pub fn light_contribution(
    l: Light,
    surface_position: &Vec3,
    surface_normal: &Vec3,
    surface_to_camera: Vec3,
    specularity: Option<u32>,
) -> (r: i128)
    requires
        l.wf(),
        in_range(*surface_position, SURFACE_LIMIT as int),
        in_range(*surface_normal, NORMAL_LIMIT as int),
        in_range(surface_to_camera, GEOM_LIMIT as int),
    ensures
        r as int == light_contrib_s(
            l,
            *surface_position,
            *surface_normal,
            surface_to_camera,
            specularity,
        ),
        0 <= r <= 2 * INTENSITY_LIMIT,
{
    match l {
        Light::Ambient { intensity } => intensity,
        Light::Point { intensity, position } => {
            let inc: Vec3 = position.minus(surface_position);
            let df: i128 = diffuse(&inc, surface_normal, intensity);
            let sp: i128 = specular(&inc, surface_normal, surface_to_camera, intensity, specularity);
            df + sp
        },
        Light::Directional { intensity, direction } => {
            let df: i128 = diffuse(&direction, surface_normal, intensity);
            let sp: i128 = specular(
                &direction,
                surface_normal,
                surface_to_camera,
                intensity,
                specularity,
            );
            df + sp
        },
    }
}

/// Accumulates every light's contribution at a surface point, in scene
/// order; the sum does not depend on that order, but the loop follows it.
pub fn compute_lighting(
    scene: &Scene,
    surface_position: &Vec3,
    surface_normal: &Vec3,
    surface_to_camera: Vec3,
    specularity: Option<u32>,
) -> (r: i128)
    requires
        scene.wf(),
        in_range(*surface_position, SURFACE_LIMIT as int),
        in_range(*surface_normal, NORMAL_LIMIT as int),
        in_range(surface_to_camera, GEOM_LIMIT as int),
    ensures
        r as int == lighting_s(
            scene.lights@,
            *surface_position,
            *surface_normal,
            surface_to_camera,
            specularity,
        ),
        0 <= r <= 0x2000_0000_0000_0000,
{
    let mut total: i128 = 0;
    let mut i: usize = 0;
    while i < scene.lights.len()
        invariant
            scene.wf(),
            in_range(*surface_position, SURFACE_LIMIT as int),
            in_range(*surface_normal, NORMAL_LIMIT as int),
            in_range(surface_to_camera, GEOM_LIMIT as int),
            i <= scene.lights@.len(),
            total as int == lighting_s(
                scene.lights@.take(i as int),
                *surface_position,
                *surface_normal,
                surface_to_camera,
                specularity,
            ),
            0 <= total <= 0x200_0000_0000 * (i as int),
        decreases scene.lights@.len() - i,
    {
        let l: Light = scene.lights[i];
        let added: i128 = light_contribution(
            l,
            surface_position,
            surface_normal,
            surface_to_camera,
            specularity,
        );
        proof {
            assert(scene.lights@.take(i as int + 1).drop_last() =~= scene.lights@.take(i as int));
            assert(scene.lights@.take(i as int + 1).last() == scene.lights@[i as int]);
        }
        total = total + added;
        i = i + 1;
    }
    proof {
        assert(scene.lights@.take(scene.lights@.len() as int) =~= scene.lights@);
    }
    total
}

} // verus!
