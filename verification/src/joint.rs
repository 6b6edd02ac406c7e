//! Joints: a single degree-of-freedom (or fixed) actuator with a type, an
//! offset transform, a position value, optional limits, and a cached world
//! transform.
//!
//! Scalars are fixed-point: an `i64` counts multiples of `1 / ONE`.  The
//! geometric meaning of a [`Transform`] (composition, rotation math) is the
//! business of an external chain-traversal collaborator; this crate only
//! stores and hands back transforms.

use vstd::prelude::*;
use vstd::string::StringExecFns;

use crate::errors::{JointError, JointErrorView};

verus! {

/// The fixed-point representation of the real number one.
pub const ONE: i64 = 1_000_000;

/// A 3-vector with fixed-point components, used for joint axes and
/// translations.
#[derive(Clone, Copy, Debug, PartialEq, Eq, Structural)]
pub struct Vector3 {
    pub x: i64,
    pub y: i64,
    pub z: i64,
}

impl Vector3 {
    pub fn new(x: i64, y: i64, z: i64) -> (r: Vector3)
        ensures
            r == (Vector3 { x, y, z }),
    {
        Vector3 { x, y, z }
    }

    /// The unit vector along x.
    pub fn x_axis() -> (r: Vector3)
        ensures
            r == (Vector3 { x: ONE, y: 0, z: 0 }),
    {
        Vector3 { x: ONE, y: 0, z: 0 }
    }

    /// The unit vector along y.
    pub fn y_axis() -> (r: Vector3)
        ensures
            r == (Vector3 { x: 0, y: ONE, z: 0 }),
    {
        Vector3 { x: 0, y: ONE, z: 0 }
    }

    /// The unit vector along z.
    pub fn z_axis() -> (r: Vector3)
        ensures
            r == (Vector3 { x: 0, y: 0, z: ONE }),
    {
        Vector3 { x: 0, y: 0, z: ONE }
    }
}

/// A rotation, stored as quaternion components in fixed point.  Keeping the
/// components normalized is the business of whoever produces the rotation;
/// this crate only carries the value.
#[derive(Clone, Copy, Debug, PartialEq, Eq, Structural)]
pub struct UnitQuaternion {
    pub w: i64,
    pub x: i64,
    pub y: i64,
    pub z: i64,
}

impl UnitQuaternion {
    pub fn new(w: i64, x: i64, y: i64, z: i64) -> (r: UnitQuaternion)
        ensures
            r == (UnitQuaternion { w, x, y, z }),
    {
        UnitQuaternion { w, x, y, z }
    }

    /// The rotation that does nothing.
    pub open spec fn spec_identity() -> UnitQuaternion {
        UnitQuaternion { w: ONE, x: 0, y: 0, z: 0 }
    }

    #[verifier::when_used_as_spec(spec_identity)]
    pub fn identity() -> (r: UnitQuaternion)
        ensures
            r == UnitQuaternion::spec_identity(),
    {
        UnitQuaternion { w: ONE, x: 0, y: 0, z: 0 }
    }
}

/// A rigid transform: a translation together with a rotation.
#[derive(Clone, Copy, Debug, PartialEq, Eq, Structural)]
pub struct Transform {
    pub translation: Vector3,
    pub rotation: UnitQuaternion,
}

impl Transform {
    /// The identity pose.
    pub open spec fn spec_identity() -> Transform {
        Transform {
            translation: Vector3 { x: 0, y: 0, z: 0 },
            rotation: UnitQuaternion::spec_identity(),
        }
    }

    #[verifier::when_used_as_spec(spec_identity)]
    pub fn identity() -> (r: Transform)
        ensures
            r == Transform::spec_identity(),
    {
        Transform {
            translation: Vector3 { x: 0, y: 0, z: 0 },
            rotation: UnitQuaternion::identity(),
        }
    }

    /// A pure translation.
    pub fn from_translation(translation: Vector3) -> (r: Transform)
        ensures
            r == (Transform { translation, rotation: UnitQuaternion::spec_identity() }),
    {
        Transform { translation, rotation: UnitQuaternion::identity() }
    }
}

/// An inclusive range constraining a joint position.
#[derive(Clone, Copy, Debug, PartialEq, Eq, Structural)]
pub struct Range {
    pub min: i64,
    pub max: i64,
}

impl Range {
    pub fn new(min: i64, max: i64) -> (r: Range)
        ensures
            r == (Range { min, max }),
    {
        Range { min, max }
    }

    /// Whether `position` lies inside the range, both ends included.
    pub fn is_valid(&self, position: i64) -> (r: bool)
        ensures
            r == (self.min <= position && position <= self.max),
    {
        self.min <= position && position <= self.max
    }
}

/// The kind of motion a joint allows.
#[derive(Clone, Copy, Debug, PartialEq, Eq, Structural)]
pub enum JointType {
    /// No degree of freedom: the joint admits no position.
    Fixed,
    /// Rotation about `axis` by the joint position (an angle).
    Rotational { axis: Vector3 },
    /// Translation along `axis` by the joint position (a distance).
    Linear { axis: Vector3 },
}

/// Whether a joint of this type has a position degree of freedom.
pub open spec fn movable(joint_type: JointType) -> bool {
    !(joint_type is Fixed)
}

/// Whether `position` satisfies the optional limit range.
pub open spec fn within_limits(limits: Option<Range>, position: i64) -> bool {
    match limits {
        Option::None => true,
        Option::Some(r) => r.min <= position && position <= r.max,
    }
}

/// Truncating division: the quotient rounded toward zero.  Used to scale a
/// fixed-point product back down.
pub open spec fn div_toward_zero(x: int, d: int) -> int {
    if x >= 0 {
        x / d
    } else {
        -((-x) / d)
    }
}

/// Clamp an unbounded integer into the representable fixed-point scalars.
pub open spec fn clamp_to_scalar(x: int) -> int {
    if x < i64::MIN as int {
        i64::MIN as int
    } else if x > i64::MAX as int {
        i64::MAX as int
    } else {
        x
    }
}

/// The position a mimic law derives from its parent's position: the affine
/// map `multiplier * parent_position + offset` in fixed point, saturated at
/// the scalar bounds.
pub open spec fn mimic_value(multiplier: i64, offset: i64, parent_position: i64) -> int {
    clamp_to_scalar(
        div_toward_zero((multiplier as int) * (parent_position as int), ONE as int)
            + offset as int,
    )
}

/// The affine law coupling a mimic child's position to its mimic parent's:
/// `child_position = multiplier * parent_position + offset`.
#[derive(Clone, Copy, Debug, PartialEq, Eq, Structural)]
pub struct Mimic {
    pub multiplier: i64,
    pub offset: i64,
}

impl Mimic {
    pub fn new(multiplier: i64, offset: i64) -> (r: Mimic)
        ensures
            r == (Mimic { multiplier, offset }),
    {
        Mimic { multiplier, offset }
    }

    /// The position this law derives from `parent_position`.
    pub fn mimic_position(&self, parent_position: i64) -> (r: i64)
        ensures
            r as int == mimic_value(self.multiplier, self.offset, parent_position),
    {
        proof {
            assert((i64::MIN as int) <= self.multiplier as int <= (i64::MAX as int));
            assert((self.multiplier as int) * (parent_position as int)
                <= (0x8000_0000_0000_0000 as int) * (0x8000_0000_0000_0000 as int)
                && -((0x8000_0000_0000_0000 as int) * (0x8000_0000_0000_0000 as int))
                    <= (self.multiplier as int) * (parent_position as int)) by (nonlinear_arith)
                requires
                    -(0x8000_0000_0000_0000 as int) <= self.multiplier as int
                        <= 0x8000_0000_0000_0000 as int,
                    -(0x8000_0000_0000_0000 as int) <= parent_position as int
                        <= 0x8000_0000_0000_0000 as int,
            ;
        }
        let wide: i128 = (self.multiplier as i128) * (parent_position as i128);
        let quot: i128 = if wide >= 0 {
            let q: u128 = (wide as u128) / (ONE as u128);
            proof {
                assert(q <= wide as u128) by (nonlinear_arith)
                    requires
                        q == (wide as u128) / 1_000_000,
                ;
            }
            q as i128
        } else {
            let neg: i128 = -wide;
            let q: u128 = (neg as u128) / (ONE as u128);
            proof {
                assert(q <= neg as u128) by (nonlinear_arith)
                    requires
                        q == (neg as u128) / 1_000_000,
                ;
            }
            -(q as i128)
        };
        let sum: i128 = quot + (self.offset as i128);
        if sum > (i64::MAX as i128) {
            i64::MAX
        } else if sum < (i64::MIN as i128) {
            i64::MIN
        } else {
            sum as i64
        }
    }
}

/// Spec-level image of a [`Joint`], with the name abstracted to its character
/// sequence.
pub ghost struct JointView {
    pub name: Seq<char>,
    pub joint_type: JointType,
    pub offset: Transform,
    pub position: i64,
    pub limits: Option<Range>,
    pub world_transform: Option<Transform>,
}

/// The position a joint reports: its scalar value, or nothing when the type
/// admits no degree of freedom.
pub open spec fn position_view(j: JointView) -> Option<i64> {
    if movable(j.joint_type) {
        Option::Some(j.position)
    } else {
        Option::None
    }
}

/// A single degree-of-freedom (or fixed) actuator.
///
/// The type and limits are fixed at construction; the offset and position are
/// mutable; the world transform is a cache that an external update pass fills
/// through [`Joint::set_world_transform`].
#[derive(Debug, Clone)]
pub struct Joint {
    pub name: String,
    pub joint_type: JointType,
    pub offset: Transform,
    pub position: i64,
    pub limits: Option<Range>,
    pub world_transform: Option<Transform>,
}

impl View for Joint {
    type V = JointView;

    open spec fn view(&self) -> JointView {
        JointView {
            name: self.name@,
            joint_type: self.joint_type,
            offset: self.offset,
            position: self.position,
            limits: self.limits,
            world_transform: self.world_transform,
        }
    }
}

/// A short label for each joint type, used in display strings.
pub open spec fn joint_type_label(joint_type: JointType) -> Seq<char> {
    match joint_type {
        JointType::Fixed => "fixed"@,
        JointType::Rotational { .. } => "rotational"@,
        JointType::Linear { .. } => "linear"@,
    }
}

impl Joint {
    /// A joint with the given name and type: identity offset, zero position,
    /// no limits, no cached world transform.
    pub fn new(name: &str, joint_type: JointType) -> (j: Joint)
        ensures
            j@ == (JointView {
                name: name@,
                joint_type,
                offset: Transform::spec_identity(),
                position: 0,
                limits: Option::None,
                world_transform: Option::None,
            }),
    {
        Joint {
            name: name.to_owned(),
            joint_type,
            offset: Transform::identity(),
            position: 0,
            limits: None,
            world_transform: None,
        }
    }

    /// Replace the fixed pre-transform.  Side effect only, no validation.
    pub fn set_offset(&mut self, offset: Transform)
        ensures
            final(self)@ == (JointView { offset, ..old(self)@ }),
    {
        self.offset = offset;
    }

    /// Whether this joint has a position degree of freedom.
    pub fn is_movable(&self) -> (r: bool)
        ensures
            r == movable(self@.joint_type),
    {
        !matches!(self.joint_type, JointType::Fixed)
    }

    /// Store `position`, after checking the joint type and limits.
    ///
    /// Succeeds exactly when the joint is movable and `position` lies within
    /// the optional inclusive limit range; on failure nothing changes.  The
    /// cached world transform is not recomputed.
    pub fn set_position(&mut self, position: i64) -> (res: Result<(), JointError>)
        ensures
            movable(old(self)@.joint_type) && within_limits(old(self)@.limits, position) ==> (
                res is Ok && final(self)@ == (JointView { position, ..old(self)@ })
            ),
            !movable(old(self)@.joint_type) ==> (
                res matches Err(e)
                    && e@ == (JointErrorView::SetToFixed { joint_name: old(self)@.name })
                    && final(self)@ == old(self)@
            ),
            movable(old(self)@.joint_type) && !within_limits(old(self)@.limits, position) ==> (
                old(self)@.limits matches Some(r)
                    && res matches Err(e)
                    && e@ == (JointErrorView::OutOfLimits {
                        joint_name: old(self)@.name,
                        position,
                        min: r.min,
                        max: r.max,
                    })
                    && final(self)@ == old(self)@
            ),
    {
        if matches!(self.joint_type, JointType::Fixed) {
            return Err(JointError::SetToFixedError { joint_name: self.name.clone() });
        }
        match self.limits {
            Some(range) => {
                if range.is_valid(position) {
                    self.position = position;
                    Ok(())
                } else {
                    Err(JointError::OutOfLimitError {
                        joint_name: self.name.clone(),
                        position,
                        min: range.min,
                        max: range.max,
                    })
                }
            },
            None => {
                self.position = position;
                Ok(())
            },
        }
    }

    /// Store `position` without any type or limit validation.
    pub fn set_position_unchecked(&mut self, position: i64)
        ensures
            final(self)@ == (JointView { position, ..old(self)@ }),
    {
        self.position = position;
    }

    /// The current position, or nothing for a joint without a degree of
    /// freedom.
    pub fn position(&self) -> (r: Option<i64>)
        ensures
            r == position_view(self@),
    {
        if matches!(self.joint_type, JointType::Fixed) {
            None
        } else {
            Some(self.position)
        }
    }

    /// The cached world transform, or nothing if no update pass has stored
    /// one since construction or the last invalidation.
    pub fn world_transform(&self) -> (r: Option<Transform>)
        ensures
            r == self@.world_transform,
    {
        self.world_transform
    }

    /// Overwrite the cached world transform; `None` invalidates it.  Called
    /// by the external chain-traversal collaborator.
    pub fn set_world_transform(&mut self, transform: Option<Transform>)
        ensures
            final(self)@ == (JointView { world_transform: transform, ..old(self)@ }),
    {
        self.world_transform = transform;
    }

    /// A short human-readable form: the joint's name and type.
    pub fn description(&self) -> (r: String)
        ensures
            r@ == self@.name + ": "@ + joint_type_label(self@.joint_type),
    {
        let mut r: String = self.name.clone();
        r.append(": ");
        match self.joint_type {
            JointType::Fixed => r.append("fixed"),
            JointType::Rotational { .. } => r.append("rotational"),
            JointType::Linear { .. } => r.append("linear"),
        }
        r
    }
}

} // verus!
