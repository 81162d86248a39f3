//! Flocking in fixed-point arithmetic.
//!
//! A flock of agents moves through a tank whose faces wrap around. Each agent
//! steers by three rules over the agents near it: alignment with their
//! headings, cohesion towards their mean position, separation from those too
//! close. It then turns towards what the rules ask and moves along its own up
//! direction at its own speed.
//!
//! All lengths are integers: one world unit is [`vector::UNIT`] steps of the
//! grid, a direction is a vector of that length up to rounding, speeds are in
//! grid steps per second and time is in microseconds. Nothing here panics or
//! overflows, and every function states what it returns.
//!
//! One tick has two phases. First [`steering::steer`] (or the three rules one
//! by one) writes every agent's desired directions from the flock as it
//! stands. Then [`integrator::turn_targets`] says where each agent wants to
//! turn, the caller turns its forward and up directions towards those targets
//! by the share of the angle that the elapsed time allows, and
//! [`integrator::step`] takes the turned directions, rebuilds each
//! orientation, moves the agents and wraps them at the faces of the tank.

pub mod arith;
pub mod boid;
pub mod direction;
pub mod heading;
pub mod integrator;
pub mod spawn;
pub mod steering;
pub mod tank;
pub mod vector;
