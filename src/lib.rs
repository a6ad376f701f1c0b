use vstd::prelude::*;

pub mod astronomy;
pub mod fixed;
pub mod motor;

pub use astronomy::{
    altitude_sine, azimuth_terms, degrees_to_radians, horizontal_position, hour_angle,
    radians_to_degrees, Scalar, PI,
};
pub use fixed::ONE;
pub use motor::{position_to_steps, steps_to_position, Ratio, TelescopeConfig};

verus! {

/// An angle in billionths of a degree.
pub type Degrees = i64;

/// An angle in billionths of a billionth of a radian.
pub type Radians = i128;

/// A signed stepper-motor step count.
pub type Steps = i32;

/// Horizontal pointing direction of the mount.
#[derive(Debug, Clone, Copy, PartialEq, Eq, Structural)]
pub struct Position {
    pub azimuth: Degrees,
    pub altitude: Degrees,
}

/// Commanded step counts of the two axes.
#[derive(Debug, Clone, Copy, PartialEq, Eq, Structural)]
pub struct MotorPosition {
    pub azimuth_steps: Steps,
    pub altitude_steps: Steps,
}

} // verus!
