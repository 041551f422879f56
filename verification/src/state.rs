//! The session around a simulation: the pause flag, the cursor, and what
//! each input event and each tick does to them.
use vstd::prelude::*;
use rand::RngExt;
use crate::constants::{MAX_X, MAX_Y, MIN_X, MIN_Y};
use crate::particle::{Particle, ParticleProperties, world_x, world_y};
use crate::scalar::{ONE, Scalar, Vec2, clamp, saturate};
use crate::simulation::{Simulation, changed_time_step, collisions_resolved, forces_applied,
    positions_advanced};
use crate::utils::{MinMax, ViewportTransformOptions, map_axis, normalize_window_coordinates};

verus! {

/// The amount by which a key press changes the time step: 0.05.
pub const STEP_OFFSET: Scalar = 50_000;

/// The time step of a new session: 0.05.
pub const INITIAL_TIME_STEP: Scalar = 50_000;

/// Mass of a spawned particle per unit of its radius.
pub const SPAWN_DENSITY: Scalar = 50;

/// The least radius of a particle spawned by a click, in whole units.
pub const SPAWN_RADIUS_MIN: i64 = 1;

/// The radius of a particle spawned by a click stays under this, in whole units.
pub const SPAWN_RADIUS_END: i64 = 4;

/// The keys that a session reacts to.
#[derive(Debug, Clone, Copy, PartialEq, Eq, Structural)]
pub enum KeyCode {
    Space,
    Up,
    Down,
    R,
    Other,
}

/// An input event, as far as a session looks at it.
#[derive(Debug, Clone, Copy)]
pub enum WindowEvent {
    /// The cursor is at `position`, in window coordinates.
    CursorMoved { position: Vec2 },
    /// A key went down (`pressed`) or up; `key` is absent where it has no code.
    KeyboardInput { pressed: bool, key: Option<KeyCode> },
    /// A mouse button went down or up (`released`); `left` tells the left
    /// button from the others.
    MouseInput { left: bool, released: bool },
    /// Any other event.
    Other,
}

/// A simulation with the state of its controls.
pub struct State {
    pub sim: Simulation,
    pub paused: bool,
    /// Last known cursor position, in window coordinates.
    pub cursor_pos: Vec2,
    /// Width and height of the window.
    pub size: Vec2,
}

/// The point of the world under the cursor. The window's y axis points
/// down, so its range is taken from the height to 0.
pub open spec fn click_position(cursor: Vec2, size: Vec2) -> Vec2 {
    Vec2 {
        x: map_axis(cursor.x, MinMax { min: 0, max: size.x }, world_x()) as i64,
        y: map_axis(cursor.y, MinMax { min: size.y, max: 0 }, world_y()) as i64,
    }
}

/// The particle that a click spawns: at rest under the cursor, with the
/// given radius and a mass of `SPAWN_DENSITY` times the radius. A click
/// with a radius that is not positive spawns nothing.
pub open spec fn spawn_properties(cursor: Vec2, size: Vec2, radius: Scalar) -> ParticleProperties {
    ParticleProperties {
        position: click_position(cursor, size),
        mass: clamp(SPAWN_DENSITY * radius) as i64,
        radius,
        velocity: Vec2 { x: 0, y: 0 },
        acceleration: Vec2 { x: 0, y: 0 },
    }
}

/// A random whole number from `low` up to, not including, `high`.
///
/// Calls `rand::rng` for the generator of the thread and
/// `RngExt::random_range` on it with the range `low..high`, which gives a
/// value of that range and takes no empty range. Which value comes is left
/// open. The generator fails only where the system cannot seed it.
#[verifier::external_body]
fn random_in(low: i64, high: i64) -> (r: i64)
    requires
        low < high,
    ensures
        low <= r < high,
{
    rand::rng().random_range(low..high)
}

impl State {
    /// `self` is `before` after a particle of the given radius was
    /// spawned under the cursor and collisions were resolved.
    pub open spec fn spawned(&self, before: &State, radius: Scalar) -> bool {
        &&& self.same_controls(before)
        &&& self.sim.same_settings(&before.sim)
        &&& if radius > 0 {
            exists|p: Particle|
                p.properties() == spawn_properties(before.cursor_pos, before.size, radius)
                    && collisions_resolved(
                    #[trigger] before.sim.particles().push(p),
                    self.sim.particles(),
                )
        } else {
            self.sim.particles() == before.sim.particles()
        }
    }

    /// The simulation is as it was in `other`.
    pub open spec fn same_simulation(&self, other: &State) -> bool {
        self.sim.particles() == other.sim.particles() && self.sim.same_settings(&other.sim)
    }

    /// The controls are as they were in `other`.
    pub open spec fn same_controls(&self, other: &State) -> bool {
        self.paused == other.paused && self.cursor_pos == other.cursor_pos && self.size
            == other.size
    }

    /// A running session without particles for a window of the given size.
    pub fn new(size: Vec2) -> (r: Self)
        ensures
            r.sim.particles() == Seq::<Particle>::empty(),
            r.sim.spec_time_step() == INITIAL_TIME_STEP,
            r.sim.spec_theta() == ONE,
            !r.paused,
            r.size == size,
            r.cursor_pos == (Vec2 { x: 0, y: 0 }),
    {
        Self {
            sim: Simulation::new(INITIAL_TIME_STEP, ONE),
            paused: false,
            cursor_pos: Vec2 { x: 0, y: 0 },
            size,
        }
    }

    /// Takes the new size of the window.
    pub fn resize(&mut self, new_size: Vec2)
        ensures
            final(self).size == new_size,
            final(self).paused == old(self).paused,
            final(self).cursor_pos == old(self).cursor_pos,
            final(self).same_simulation(old(self)),
    {
        self.size = new_size;
    }

    /// Spawns a particle of the given radius under the cursor: at rest,
    /// with a mass of `SPAWN_DENSITY` times the radius. A radius that is
    /// not positive gives no mass and spawns nothing.
    pub fn spawn(&mut self, radius: Scalar)
        ensures
            final(self).spawned(old(self), radius),
    {
        let position = normalize_window_coordinates(
            &ViewportTransformOptions {
                window_pos: self.cursor_pos,
                xw: MinMax { min: 0, max: self.size.x },
                // Min and max needs to be swapped here as the axes in window space begins at
                // the top left corner and not the bottom left corner.
                yw: MinMax { min: self.size.y, max: 0 },
                xv: MinMax { min: MIN_X, max: MAX_X },
                yv: MinMax { min: MIN_Y, max: MAX_Y },
            },
        );
        let particle = Particle::try_new(
            ParticleProperties {
                position,
                radius,
                mass: saturate((SPAWN_DENSITY as i128) * (radius as i128)),
                velocity: Vec2 { x: 0, y: 0 },
                acceleration: Vec2 { x: 0, y: 0 },
            },
        );
        if let Some(p) = particle {
            self.sim.add_particle(p);
            assert(collisions_resolved(old(self).sim.particles().push(p), self.sim.particles()));
        }
    }

    /// Returns true if an event was captured otherwise this will return false
    pub fn input(&mut self, window_event: &WindowEvent) -> (captured: bool)
        ensures
            captured == !(window_event is Other),
            final(self).size == old(self).size,
            match *window_event {
                WindowEvent::CursorMoved { position } => {
                    &&& final(self).cursor_pos == position
                    &&& final(self).paused == old(self).paused
                    &&& final(self).same_simulation(old(self))
                },
                WindowEvent::KeyboardInput { pressed: true, key: Some(KeyCode::Space) } => {
                    &&& final(self).paused == !old(self).paused
                    &&& final(self).cursor_pos == old(self).cursor_pos
                    &&& final(self).same_simulation(old(self))
                },
                WindowEvent::KeyboardInput { pressed: true, key: Some(KeyCode::Up) } => {
                    &&& final(self).same_controls(old(self))
                    &&& final(self).sim.particles() == old(self).sim.particles()
                    &&& final(self).sim.spec_time_step() == changed_time_step(
                        old(self).sim.spec_time_step(),
                        STEP_OFFSET,
                    )
                },
                WindowEvent::KeyboardInput { pressed: true, key: Some(KeyCode::Down) } => {
                    &&& final(self).same_controls(old(self))
                    &&& final(self).sim.particles() == old(self).sim.particles()
                    &&& final(self).sim.spec_time_step() == changed_time_step(
                        old(self).sim.spec_time_step(),
                        (-STEP_OFFSET) as i64,
                    )
                },
                WindowEvent::KeyboardInput { pressed: true, key: Some(KeyCode::R) } => {
                    &&& final(self).same_controls(old(self))
                    &&& final(self).sim.particles() == Seq::<Particle>::empty()
                    &&& final(self).sim.same_settings(&old(self).sim)
                },
                WindowEvent::MouseInput { left: true, released: true } => {
                    exists|units: int|
                        SPAWN_RADIUS_MIN <= units < SPAWN_RADIUS_END
                            && #[trigger] final(self).spawned(old(self), (units * ONE) as i64)
                },
                _ => final(self).same_controls(old(self)) && final(self).same_simulation(old(self)),
            },
    {
        match *window_event {
            // Keep track of cursor position on cursor movement in state
            WindowEvent::CursorMoved { position } => {
                self.cursor_pos = position;
            },
            WindowEvent::KeyboardInput { pressed, key } => {
                if pressed && key.is_some() {
                    match key.unwrap() {
                        KeyCode::Space => {
                            self.paused = !self.paused;
                        },
                        KeyCode::Up => {
                            self.sim.change_time_step(STEP_OFFSET);
                        },
                        KeyCode::Down => {
                            self.sim.change_time_step(-STEP_OFFSET);
                        },
                        KeyCode::R => {
                            self.sim.reset();
                        },
                        KeyCode::Other => {},
                    }
                }
            },
            WindowEvent::MouseInput { left, released } => {
                if left && released {
                    let units = random_in(SPAWN_RADIUS_MIN, SPAWN_RADIUS_END);
                    self.spawn(units * ONE);
                    assert(self.spawned(old(self), (units * ONE) as i64));
                }
            },
            WindowEvent::Other => {
                return false;
            },
        }
        true
    }

    /// One tick. As long as the simulation isn't paused and holds
    /// particles, it checks for collisions, steps the simulation and
    /// integrates the forces for each body. Returns whether it did.
    pub fn update(&mut self) -> (ran: bool)
        ensures
            ran == (!old(self).paused && old(self).sim.particles().len() > 0),
            final(self).same_controls(old(self)),
            final(self).sim.same_settings(&old(self).sim),
            !ran ==> final(self).sim.particles() == old(self).sim.particles(),
            ran ==> exists|merged: Seq<Particle>, pulled: Seq<Particle>|
                #![trigger collisions_resolved(old(self).sim.particles(), merged), positions_advanced(pulled, final(self).sim.particles(), old(self).sim.spec_time_step())]
                {
                    &&& collisions_resolved(old(self).sim.particles(), merged)
                    &&& forces_applied(
                        merged,
                        pulled,
                        old(self).sim.spec_theta(),
                        old(self).sim.spec_force_rule(),
                    )
                    &&& positions_advanced(
                        pulled,
                        final(self).sim.particles(),
                        old(self).sim.spec_time_step(),
                    )
                },
    {
        if !self.paused && !self.sim.get_particles().is_empty() {
            self.sim.resolve_collisions();
            let ghost merged = self.sim.particles();
            self.sim.step();
            let ghost pulled = self.sim.particles();
            self.sim.integrate();
            proof {
                assert(collisions_resolved(old(self).sim.particles(), merged));
                assert(positions_advanced(
                    pulled,
                    self.sim.particles(),
                    old(self).sim.spec_time_step(),
                ));
            }
            true
        } else {
            false
        }
    }
}

} // verus!
