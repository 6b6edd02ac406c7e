//! Tests of the world-transform protocol, driving the update pass the way an
//! external chain-traversal collaborator would: fixed-point poses are turned
//! into nalgebra isometries, composed top-down, and written back.

use joint_tree::{
    JointBuilder, JointType, Node, NodeArena, Transform, UnitQuaternion, Vector3, ONE,
};
use nalgebra::{
    Isometry3, Quaternion, Translation3, Unit, UnitQuaternion as NaUnitQuaternion,
    Vector3 as NaVector3,
};

const SCALE: f64 = 1_000_000.0;

fn fixed_to_f64(v: i64) -> f64 {
    v as f64 / SCALE
}

fn f64_to_fixed(v: f64) -> i64 {
    (v * SCALE).round() as i64
}

fn to_na(t: &Transform) -> Isometry3<f64> {
    let translation = Translation3::new(
        fixed_to_f64(t.translation.x),
        fixed_to_f64(t.translation.y),
        fixed_to_f64(t.translation.z),
    );
    let q = Quaternion::new(
        fixed_to_f64(t.rotation.w),
        fixed_to_f64(t.rotation.x),
        fixed_to_f64(t.rotation.y),
        fixed_to_f64(t.rotation.z),
    );
    Isometry3::from_parts(translation, NaUnitQuaternion::from_quaternion(q))
}

fn from_na(iso: &Isometry3<f64>) -> Transform {
    Transform {
        translation: Vector3::new(
            f64_to_fixed(iso.translation.vector.x),
            f64_to_fixed(iso.translation.vector.y),
            f64_to_fixed(iso.translation.vector.z),
        ),
        rotation: UnitQuaternion::new(
            f64_to_fixed(iso.rotation.w),
            f64_to_fixed(iso.rotation.i),
            f64_to_fixed(iso.rotation.j),
            f64_to_fixed(iso.rotation.k),
        ),
    }
}

fn axis_to_na(axis: &Vector3) -> Unit<NaVector3<f64>> {
    Unit::new_normalize(NaVector3::new(
        fixed_to_f64(axis.x),
        fixed_to_f64(axis.y),
        fixed_to_f64(axis.z),
    ))
}

fn local_transform(joint_type: JointType, position: i64, offset: &Transform) -> Isometry3<f64> {
    let motion = match joint_type {
        JointType::Fixed => Isometry3::identity(),
        JointType::Rotational { axis } => Isometry3::from_parts(
            Translation3::identity(),
            NaUnitQuaternion::from_axis_angle(&axis_to_na(&axis), fixed_to_f64(position)),
        ),
        JointType::Linear { axis } => Isometry3::from_parts(
            Translation3::from(axis_to_na(&axis).into_inner() * fixed_to_f64(position)),
            NaUnitQuaternion::identity(),
        ),
    };
    to_na(offset) * motion
}

/// One top-down update pass over `order`, which must list parents before
/// their children.
fn update_transforms(order: &[Node], arena: &mut NodeArena) {
    for n in order {
        let base = n
            .parent_world_transform(arena)
            .expect("the parent must have been visited first");
        let (joint_type, position, offset) = {
            let j = n.joint(arena);
            (j.joint_type, j.position, j.offset)
        };
        let world = to_na(&base) * local_transform(joint_type, position, &offset);
        n.set_world_transform(Some(from_na(&world)), arena);
    }
}

#[test]
fn update_pass_composes_world_transforms() {
    let mut arena = NodeArena::new();
    let l0 = JointBuilder::new()
        .translation(Vector3::new(0, 0, f64_to_fixed(0.2)))
        .joint_type(JointType::Rotational {
            axis: Vector3::y_axis(),
        })
        .into_node(&mut arena);
    let l1 = JointBuilder::new()
        .translation(Vector3::new(0, 0, ONE))
        .joint_type(JointType::Linear {
            axis: Vector3::z_axis(),
        })
        .into_node(&mut arena);
    l1.set_parent(&l0, &mut arena);
    l0.set_position(f64_to_fixed(std::f64::consts::FRAC_PI_2), &mut arena)
        .unwrap();
    l1.set_position(f64_to_fixed(0.1), &mut arena).unwrap();
    assert!(l0.world_transform(&arena).is_none());
    assert!(l1.world_transform(&arena).is_none());
    update_transforms(&[l0, l1], &mut arena);
    let w = l1.world_transform(&arena).expect("visited by the pass");
    assert!((fixed_to_f64(w.translation.x) - 1.1).abs() < 1e-4);
    assert!((fixed_to_f64(w.translation.z) - 0.2).abs() < 1e-4);
}

#[test]
fn update_pass_twice_gives_identical_caches() {
    let mut arena = NodeArena::new();
    let l0 = JointBuilder::new()
        .translation(Vector3::new(0, 0, f64_to_fixed(0.2)))
        .joint_type(JointType::Rotational {
            axis: Vector3::y_axis(),
        })
        .into_node(&mut arena);
    let l1 = JointBuilder::new()
        .translation(Vector3::new(0, 0, ONE))
        .joint_type(JointType::Linear {
            axis: Vector3::z_axis(),
        })
        .into_node(&mut arena);
    let l2 = JointBuilder::new()
        .translation(Vector3::new(f64_to_fixed(0.3), 0, 0))
        .joint_type(JointType::Rotational {
            axis: Vector3::x_axis(),
        })
        .into_node(&mut arena);
    l1.set_parent(&l0, &mut arena);
    l2.set_parent(&l1, &mut arena);
    l0.set_position(f64_to_fixed(0.7), &mut arena).unwrap();
    l1.set_position(f64_to_fixed(0.1), &mut arena).unwrap();
    l2.set_position(f64_to_fixed(-0.4), &mut arena).unwrap();
    let order = [l0, l1, l2];
    update_transforms(&order, &mut arena);
    let first: Vec<Transform> = order
        .iter()
        .map(|n| n.world_transform(&arena).unwrap())
        .collect();
    update_transforms(&order, &mut arena);
    let second: Vec<Transform> = order
        .iter()
        .map(|n| n.world_transform(&arena).unwrap())
        .collect();
    assert_eq!(first, second);
}

#[test]
fn parent_world_transform_of_a_root_is_the_identity() {
    let mut arena = NodeArena::new();
    let l0 = JointBuilder::new().into_node(&mut arena);
    assert_eq!(
        l0.parent_world_transform(&arena),
        Some(Transform::identity())
    );
}

#[test]
fn parent_world_transform_reads_the_parent_cache() {
    let mut arena = NodeArena::new();
    let l0 = JointBuilder::new().into_node(&mut arena);
    let l1 = JointBuilder::new().into_node(&mut arena);
    l1.set_parent(&l0, &mut arena);
    // nothing cached on the parent yet
    assert_eq!(l1.parent_world_transform(&arena), None);
    let pose = Transform {
        translation: Vector3::new(ONE, 2 * ONE, 3 * ONE),
        rotation: UnitQuaternion::identity(),
    };
    l0.set_world_transform(Some(pose), &mut arena);
    assert_eq!(l1.parent_world_transform(&arena), Some(pose));
    // invalidation is caller-driven
    l0.set_world_transform(None, &mut arena);
    assert_eq!(l1.parent_world_transform(&arena), None);
}

#[test]
fn set_offset_replaces_the_pre_transform() {
    let mut arena = NodeArena::new();
    let n = JointBuilder::new().into_node(&mut arena);
    let pose = Transform {
        translation: Vector3::new(0, ONE, 0),
        rotation: UnitQuaternion::identity(),
    };
    n.set_offset(pose, &mut arena);
    assert_eq!(n.joint(&arena).offset, pose);
}
