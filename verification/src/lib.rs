//! A kinematic chain core: a tree of jointed rigid-body links.
//!
//! Joints are built with [`JointBuilder`], wrapped into [`Node`] vertices that
//! live in a [`NodeArena`], linked into a tree with [`Node::set_parent`], and
//! driven with [`Node::set_position`].  A secondary mimic relationship couples
//! one joint's position to another's through an affine law.
//!
//! All scalar quantities (positions, limits, mimic coefficients, transform
//! components) are fixed-point numbers: `i64` values counting multiples of
//! `1 / ONE`, so that `ONE` stands for the real number one.

pub mod errors;
pub mod joint;
pub mod link;
pub mod node;

pub use errors::JointError;
pub use joint::{Joint, JointType, Mimic, Range, Transform, UnitQuaternion, Vector3, ONE};
pub use link::Link;
pub use node::{connect, JointBuilder, Node, NodeArena, NodeImpl};
