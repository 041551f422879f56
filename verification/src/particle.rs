//! Bodies of the simulation and the records handed to a renderer.
use vstd::prelude::*;
use crate::constants::{MAX_X, MAX_Y, MIN_X, MIN_Y};
use crate::scalar::{ONE, Scalar, Vec2, clamp, magnitude2, mul_div, norm2, sat_add, sat_sub};
use crate::utils::{MinMax, ViewportTransformOptions, generate_new_uuid, map_axis,
    normalize_window_coordinates};

verus! {

/// A circle in normalized device coordinates.
#[derive(Clone, Copy, Debug)]
pub struct Instance {
    /// Denotes the center of the circle instance
    pub position: [Scalar; 2],
    pub radius: Scalar,
}

pub struct ParticleProperties {
    pub position: Vec2,
    pub mass: Scalar,
    pub radius: Scalar,
    pub velocity: Vec2,
    pub acceleration: Vec2,
}

#[derive(Clone, Copy, Debug)]
pub struct Particle {
    pub id: u128,
    pub position: Vec2,
    pub mass: Scalar,
    pub radius: Scalar,
    pub velocity: Vec2,
    pub acceleration: Vec2,
}

/// The world's x range.
pub open spec fn world_x() -> MinMax<Scalar> {
    MinMax { min: MIN_X, max: MAX_X }
}

/// The world's y range.
pub open spec fn world_y() -> MinMax<Scalar> {
    MinMax { min: MIN_Y, max: MAX_Y }
}

/// The range of normalized device coordinates, from -1 to 1.
pub open spec fn ndc_range() -> MinMax<Scalar> {
    MinMax { min: (-ONE) as i64, max: ONE }
}

impl Particle {
    /// The particle's fields other than its identifier.
    pub open spec fn properties(self) -> ParticleProperties {
        ParticleProperties {
            position: self.position,
            mass: self.mass,
            radius: self.radius,
            velocity: self.velocity,
            acceleration: self.acceleration,
        }
    }

    /// The circles of the two particles touch or overlap: the sum of the
    /// radii is not negative and the centres are no further apart than it.
    pub open spec fn collides(self, p2: Particle) -> bool {
        let rs = clamp(self.radius + p2.radius);
        rs >= 0 && norm2(
            clamp(p2.position.x - self.position.x),
            clamp(p2.position.y - self.position.y),
        ) <= rs * rs
    }

    /// The record a renderer draws for this particle.
    pub open spec fn instance(self) -> Instance {
        Instance {
            position: [
                map_axis(self.position.x, world_x(), ndc_range()) as i64,
                map_axis(self.position.y, world_y(), ndc_range()) as i64,
            ],
            radius: clamp(self.radius * ONE / (MAX_X / 2)) as i64,
        }
    }

    /// A particle without mass or extent, at rest at the origin.
    pub fn empty() -> (r: Self)
        ensures
            r.position == (Vec2 { x: 0, y: 0 }),
            r.mass == 0,
            r.radius == 0,
            r.velocity == (Vec2 { x: 0, y: 0 }),
            r.acceleration == (Vec2 { x: 0, y: 0 }),
    {
        Self {
            id: generate_new_uuid(),
            position: Vec2 { x: 0, y: 0 },
            mass: 0,
            radius: 0,
            velocity: Vec2 { x: 0, y: 0 },
            acceleration: Vec2 { x: 0, y: 0 },
        }
    }

    /// A particle with the given properties and a fresh identifier.
    pub fn new(properties: ParticleProperties) -> (r: Self)
        ensures
            r.properties() == properties,
    {
        Self {
            id: generate_new_uuid(),
            position: properties.position,
            mass: properties.mass,
            radius: properties.radius,
            velocity: properties.velocity,
            acceleration: properties.acceleration,
        }
    }

    /// A particle with the given properties, unless its mass is not
    /// positive: a body without mass has no place in a center of mass.
    pub fn try_new(properties: ParticleProperties) -> (r: Option<Self>)
        ensures
            r is Some <==> properties.mass > 0,
            r matches Some(p) ==> p.properties() == properties,
    {
        if properties.mass > 0 {
            Some(Self::new(properties))
        } else {
            None
        }
    }

    /// Whether the circles of the two particles touch or overlap.
    pub fn check_collision(&self, p2: &Self) -> (r: bool)
        ensures
            r == self.collides(*p2),
    {
        let dx = sat_sub(p2.position.x, self.position.x);
        let dy = sat_sub(p2.position.y, self.position.y);
        // Comparing the squares spares a square root
        let dist = magnitude2(dx, dy);
        let rs = sat_add(self.radius, p2.radius);
        if rs < 0 {
            return false;
        }
        let radii_sum = magnitude2(rs, 0);
        dist <= radii_sum
    }

    /// Compares two particles and returns them as the tuple (lesser, greater)
    /// where the first element is the particle with the lower mass and the second
    /// element is the particle with the greater mass.
    pub fn compare(self, p2: Self) -> (r: (Self, Self))
        ensures
            r == (if self.mass >= p2.mass { (p2, self) } else { (self, p2) }),
    {
        if self.mass >= p2.mass {
            (p2, self)
        } else {
            (self, p2)
        }
    }

    /// Converts a particle into an `Instance` to be fed into
    /// the instance buffer for the GPU
    pub fn to_instance(self) -> (r: Instance)
        ensures
            r == self.instance(),
    {
        let ndc = normalize_window_coordinates(
            &ViewportTransformOptions {
                window_pos: self.position,
                xw: MinMax { min: MIN_X, max: MAX_X },
                yw: MinMax { min: MIN_Y, max: MAX_Y },
                xv: MinMax { min: -ONE, max: ONE },
                yv: MinMax { min: -ONE, max: ONE },
            },
        );
        Instance { position: [ndc.x, ndc.y], radius: mul_div(self.radius, ONE, MAX_X / 2) }
    }
}

} // verus!
