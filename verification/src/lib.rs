//! Self-collision checking for articulated robots.
//!
//! A robot is a tree of rigid links connected by joints; every link carries
//! zero or more collision geometries. This crate owns the decisions of the
//! collision-checking engine: it converts geometry records into shape
//! descriptors, derives a per-link collision-group mask that suppresses the
//! always-touching contacts between joint-adjacent links, validates joint
//! vectors against declared limits, and reduces a pairwise contact report to
//! a single free/colliding answer.
//!
//! All numeric data is carried as fixed-point integers in millionths of the
//! description's unit (metres and radians). The floating-point work itself
//! (forward kinematics, narrow-phase contact tests) happens outside, in the
//! surrounding application; this crate states and verifies what is decided
//! from its outcome.

pub mod chain;
pub mod errors;
pub mod geometry;
pub mod groups;
pub mod pipeline;
pub mod robot;
pub mod util;
