use vstd::prelude::*;
use crate::vec3::Vec3;
use crate::vec3::in_range;

verus! {

/// An eight-bit color channel triple.
#[derive(Clone, Copy, Debug, PartialEq, Eq, Structural)]
pub struct Color {
    pub r: u8,
    pub g: u8,
    pub b: u8,
}

/// Bound on scene geometry: centers, radii, camera positions and light
/// vectors stay within this many fixed-point units, so that the
/// intersection arithmetic cannot overflow.
pub const GEOM_LIMIT: i128 = 0x1_0000_0000;

/// Bound on a single light's intensity.
pub const INTENSITY_LIMIT: i128 = 0x100_0000_0000;

/// Bound on the number of lights in a scene.
pub const MAX_LIGHTS: usize = 0x10_0000;

/// Bound on the ray parameter range handed to the tracer.
pub const T_LIMIT: i128 = 0x100_0000_0000;

#[derive(Clone, Copy, Debug)]
pub struct Sphere {
    pub center: Vec3,
    pub radius: i128,
    pub color: Color,
    /// Specular exponent; absent means the surface has no highlight at all.
    pub specular: Option<u32>,
}

#[derive(Clone, Copy, Debug)]
pub enum Light {
    Ambient { intensity: i128 },
    Point { intensity: i128, position: Vec3 },
    Directional { intensity: i128, direction: Vec3 },
}

pub struct Scene {
    pub spheres: Vec<Sphere>,
    pub lights: Vec<Light>,
}

impl Sphere {
    pub open spec fn wf(self) -> bool {
        in_range(self.center, GEOM_LIMIT as int) && 0 <= self.radius <= GEOM_LIMIT
    }

    pub fn is_well_formed(&self) -> (b: bool)
        ensures
            b == self.wf(),
    {
        self.center.x >= -GEOM_LIMIT && self.center.x <= GEOM_LIMIT && self.center.y >= -GEOM_LIMIT
            && self.center.y <= GEOM_LIMIT && self.center.z >= -GEOM_LIMIT && self.center.z
            <= GEOM_LIMIT && self.radius >= 0 && self.radius <= GEOM_LIMIT
    }
}

impl Light {
    pub open spec fn intensity_of(self) -> int {
        match self {
            Light::Ambient { intensity } => intensity as int,
            Light::Point { intensity, .. } => intensity as int,
            Light::Directional { intensity, .. } => intensity as int,
        }
    }

    pub open spec fn wf(self) -> bool {
        match self {
            Light::Ambient { intensity } => 0 <= intensity <= INTENSITY_LIMIT,
            Light::Point { intensity, position } => 0 <= intensity <= INTENSITY_LIMIT && in_range(
                position,
                GEOM_LIMIT as int,
            ),
            Light::Directional { intensity, direction } => 0 <= intensity <= INTENSITY_LIMIT
                && in_range(direction, GEOM_LIMIT as int),
        }
    }

    pub fn is_well_formed(&self) -> (b: bool)
        ensures
            b == self.wf(),
    {
        match self {
            Light::Ambient { intensity } => *intensity >= 0 && *intensity <= INTENSITY_LIMIT,
            Light::Point { intensity, position } => *intensity >= 0 && *intensity
                <= INTENSITY_LIMIT && position.x >= -GEOM_LIMIT && position.x <= GEOM_LIMIT
                && position.y >= -GEOM_LIMIT && position.y <= GEOM_LIMIT && position.z
                >= -GEOM_LIMIT && position.z <= GEOM_LIMIT,
            Light::Directional { intensity, direction } => *intensity >= 0 && *intensity
                <= INTENSITY_LIMIT && direction.x >= -GEOM_LIMIT && direction.x <= GEOM_LIMIT
                && direction.y >= -GEOM_LIMIT && direction.y <= GEOM_LIMIT && direction.z
                >= -GEOM_LIMIT && direction.z <= GEOM_LIMIT,
        }
    }
}

impl Scene {
    /// A scene the renderer accepts: every sphere and light within the
    /// geometric bounds, and not more lights than the shader can sum
    /// without overflow.
    pub open spec fn wf(self) -> bool {
        &&& forall|i: int| 0 <= i < self.spheres@.len() ==> (#[trigger] self.spheres@[i]).wf()
        &&& forall|i: int| 0 <= i < self.lights@.len() ==> (#[trigger] self.lights@[i]).wf()
        &&& self.lights@.len() <= MAX_LIGHTS
    }

    pub fn is_well_formed(&self) -> (b: bool)
        ensures
            b == self.wf(),
    {
        if self.lights.len() > MAX_LIGHTS {
            return false;
        }
        let mut i: usize = 0;
        while i < self.spheres.len()
            invariant
                i <= self.spheres@.len(),
                forall|j: int| 0 <= j < i ==> (#[trigger] self.spheres@[j]).wf(),
            decreases self.spheres@.len() - i,
        {
            if !self.spheres[i].is_well_formed() {
                return false;
            }
            i = i + 1;
        }
        let mut k: usize = 0;
        while k < self.lights.len()
            invariant
                k <= self.lights@.len(),
                forall|j: int| 0 <= j < k ==> (#[trigger] self.lights@[j]).wf(),
            decreases self.lights@.len() - k,
        {
            if !self.lights[k].is_well_formed() {
                return false;
            }
            k = k + 1;
        }
        true
    }
}

} // verus!
