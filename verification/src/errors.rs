//! Error values of the engine.
//!
//! Configuration errors are fatal and surface when a model is built; input
//! errors are per-call and leave the model's prior state intact.

use vstd::prelude::*;

verus! {

/// Why a robot collision model could not be constructed.
#[derive(Clone, Debug, PartialEq, Eq, Structural)]
pub enum BuildError {
    /// The description has more links than there are collision-group bits.
    TooManyLinks,
    /// A joint references a link or mimic source that the description does
    /// not contain.
    MalformedJoint,
}

/// Why a joint vector was rejected by the kinematic chain.
#[derive(Clone, Debug)]
pub enum JointError {
    /// The vector's length differs from the number of settable joints.
    SizeMismatch,
    /// The named joint's value lies outside its declared limit; nothing was
    /// written.
    OutOfLimit { joint_name: String },
}

/// Why the robot facade rejected a call.
#[derive(Clone, Debug)]
pub enum RobotError {
    /// A joint value violated its declared limit.
    JointLimitViolation { joint_name: String },
    /// The joint vector did not match the robot's settable joints.
    InvalidInput,
}

} // verus!
