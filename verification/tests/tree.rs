//! Tests of joints, tree structure, mimic propagation and display forms.

use joint_tree::{
    connect, Joint, JointBuilder, JointError, JointType, Link, Mimic, Node, NodeArena, Range,
    Transform, UnitQuaternion, Vector3, ONE,
};

fn linear_z_limited(arena: &mut NodeArena) -> Node {
    JointBuilder::new()
        .joint_type(JointType::Linear {
            axis: Vector3::z_axis(),
        })
        .limits(Some(Range::new(0, 2 * ONE)))
        .into_node(arena)
}

#[test]
fn set_position_within_limits_succeeds() {
    let mut arena = NodeArena::new();
    let l0 = linear_z_limited(&mut arena);
    assert!(l0.set_position(ONE, &mut arena).is_ok());
    assert_eq!(l0.joint(&arena).position(), Some(ONE));
    assert!(l0.set_position(0, &mut arena).is_ok());
    assert!(l0.set_position(2 * ONE, &mut arena).is_ok());
    assert_eq!(l0.joint(&arena).position(), Some(2 * ONE));
}

#[test]
fn set_position_out_of_limits_fails() {
    let mut arena = NodeArena::new();
    let l0 = linear_z_limited(&mut arena);
    let res = l0.set_position(-ONE, &mut arena);
    match res {
        Err(JointError::OutOfLimitError {
            position,
            min,
            max,
            ..
        }) => {
            assert_eq!(position, -ONE);
            assert_eq!(min, 0);
            assert_eq!(max, 2 * ONE);
        }
        other => panic!("expected the limit error, got {:?}", other),
    }
    // nothing changed
    assert_eq!(l0.joint(&arena).position(), Some(0));
    let res = l0.set_position(2 * ONE + 1, &mut arena);
    assert!(res.is_err());
}

#[test]
fn set_position_unchecked_ignores_limits() {
    let mut arena = NodeArena::new();
    let l0 = linear_z_limited(&mut arena);
    l0.set_position_unchecked(10 * ONE, &mut arena);
    assert_eq!(l0.joint(&arena).position(), Some(10 * ONE));
    l0.set_position_unchecked(-7 * ONE, &mut arena);
    assert_eq!(l0.joint(&arena).position(), Some(-7 * ONE));
}

#[test]
fn set_position_on_fixed_joint_fails() {
    let mut arena = NodeArena::new();
    let l0 = JointBuilder::new()
        .name("base")
        .joint_type(JointType::Fixed)
        .into_node(&mut arena);
    for v in [0, ONE, -ONE, i64::MAX, i64::MIN] {
        match l0.set_position(v, &mut arena) {
            Err(JointError::SetToFixedError { joint_name }) => assert_eq!(joint_name, "base"),
            other => panic!("expected the joint-type error, got {:?}", other),
        }
    }
    assert_eq!(l0.joint(&arena).position(), None);
}

#[test]
fn set_parent_links_both_sides() {
    let mut arena = NodeArena::new();
    let a = JointBuilder::new().into_node(&mut arena);
    let b = JointBuilder::new().into_node(&mut arena);
    assert!(a.is_root(&arena));
    a.set_parent(&b, &mut arena);
    assert!(!a.is_root(&arena));
    assert!(b.children(&arena).contains(&a));
    assert_eq!(a.parent(&arena), Some(b));
    // b's own root status is untouched
    assert!(b.is_root(&arena));
    assert!(!b.is_end(&arena));
    assert!(a.is_end(&arena));
}

#[test]
fn connect_builds_a_chain() {
    let mut arena = NodeArena::new();
    let l0 = JointBuilder::new().into_node(&mut arena);
    let l1 = JointBuilder::new().into_node(&mut arena);
    let l2 = JointBuilder::new().into_node(&mut arena);
    connect(&vec![l0, l1, l2], &mut arena);
    assert!(l0.is_root(&arena));
    assert!(!l1.is_root(&arena));
    assert!(!l1.is_end(&arena));
    assert!(!l2.is_root(&arena));
    assert!(l2.is_end(&arena));
    assert_eq!(l1.parent(&arena), Some(l0));
    assert_eq!(l2.parent(&arena), Some(l1));
}

#[test]
fn node_equality_is_identity() {
    let mut arena = NodeArena::new();
    let a = JointBuilder::new().name("same").into_node(&mut arena);
    let b = JointBuilder::new().name("same").into_node(&mut arena);
    let a2 = a;
    assert_eq!(a, a2);
    assert_ne!(a, b);
}

#[test]
fn mimic_propagates_to_children() {
    let mut arena = NodeArena::new();
    let j0 = linear_z_limited(&mut arena);
    let j1 = linear_z_limited(&mut arena);
    j1.set_mimic_parent(&j0, Mimic::new(ONE + ONE / 2, ONE / 10), &mut arena);
    assert_eq!(j0.joint(&arena).position(), Some(0));
    assert_eq!(j1.joint(&arena).position(), Some(0));
    assert!(j0.set_position(ONE, &mut arena).is_ok());
    assert_eq!(j0.joint(&arena).position(), Some(ONE));
    // 1.5 * 1.0 + 0.1 == 1.6
    assert_eq!(j1.joint(&arena).position(), Some(1_600_000));
}

#[test]
fn driving_a_mimic_child_directly_is_a_no_op() {
    let mut arena = NodeArena::new();
    let j0 = linear_z_limited(&mut arena);
    let j1 = linear_z_limited(&mut arena);
    j1.set_mimic_parent(&j0, Mimic::new(ONE + ONE / 2, ONE / 10), &mut arena);
    assert!(j0.set_position(ONE, &mut arena).is_ok());
    assert_eq!(j1.joint(&arena).position(), Some(1_600_000));
    // a direct drive succeeds but changes nothing
    assert!(j1.set_position(ONE / 2, &mut arena).is_ok());
    assert_eq!(j1.joint(&arena).position(), Some(1_600_000));
    // even a wildly out-of-limits value is accepted as a no-op
    assert!(j1.set_position(100 * ONE, &mut arena).is_ok());
    assert_eq!(j1.joint(&arena).position(), Some(1_600_000));
}

#[test]
fn mimic_propagation_bypasses_child_limits() {
    let mut arena = NodeArena::new();
    let j0 = JointBuilder::new()
        .joint_type(JointType::Linear {
            axis: Vector3::z_axis(),
        })
        .into_node(&mut arena);
    let j1 = linear_z_limited(&mut arena);
    // 3.0 * 2.0 + 0 == 6.0, far outside j1's [0, 2] limits
    j1.set_mimic_parent(&j0, Mimic::new(3 * ONE, 0), &mut arena);
    assert!(j0.set_position(2 * ONE, &mut arena).is_ok());
    assert_eq!(j1.joint(&arena).position(), Some(6 * ONE));
}

#[test]
fn mimic_position_truncates_toward_zero() {
    // a multiplier of one millionth scales a position below one unit to zero
    let m = Mimic::new(1, 0);
    assert_eq!(m.mimic_position(ONE - 1), 0);
    assert_eq!(m.mimic_position(-(ONE - 1)), 0);
    let m = Mimic::new(-(ONE + ONE / 2), ONE / 10);
    // -1.5 * 1.0 + 0.1 == -1.4
    assert_eq!(m.mimic_position(ONE), -1_400_000);
}

#[test]
fn mimic_position_saturates_at_the_scalar_bounds() {
    let m = Mimic::new(i64::MAX, 0);
    assert_eq!(m.mimic_position(i64::MAX), i64::MAX);
    assert_eq!(m.mimic_position(i64::MIN), i64::MIN);
    let m = Mimic::new(0, -5);
    assert_eq!(m.mimic_position(i64::MAX), -5);
}

#[test]
fn builder_defaults() {
    let j: Joint = JointBuilder::new().finalize();
    assert_eq!(j.name, "");
    assert_eq!(j.joint_type, JointType::Fixed);
    assert_eq!(j.limits, None);
    assert_eq!(j.offset, Transform::identity());
    assert_eq!(j.position(), None);
    assert_eq!(j.world_transform(), None);
}

#[test]
fn builder_sets_every_option() {
    let axis = Vector3::y_axis();
    let offset = Transform {
        translation: Vector3::new(ONE, 0, 0),
        rotation: UnitQuaternion::identity(),
    };
    let j = JointBuilder::new()
        .name("shoulder")
        .joint_type(JointType::Rotational { axis })
        .limits(Some(Range::new(-ONE, ONE)))
        .offset(offset)
        .finalize();
    assert_eq!(j.name, "shoulder");
    assert_eq!(j.joint_type, JointType::Rotational { axis });
    assert_eq!(j.limits, Some(Range::new(-ONE, ONE)));
    assert_eq!(j.offset, offset);
}

#[test]
fn builder_translation_and_rotation_touch_only_their_component() {
    let t = Vector3::new(0, 0, ONE / 5);
    let r = UnitQuaternion::new(0, 0, ONE, 0);
    let j = JointBuilder::new().translation(t).rotation(r).finalize();
    assert_eq!(j.offset.translation, t);
    assert_eq!(j.offset.rotation, r);
    let j2 = JointBuilder::new().rotation(r).finalize();
    assert_eq!(j2.offset.translation, Vector3::new(0, 0, 0));
    assert_eq!(j2.offset.rotation, r);
}

#[test]
fn child_link_round_trip() {
    let mut arena = NodeArena::new();
    let n = JointBuilder::new().name("wrist").into_node(&mut arena);
    assert!(n.child_link(&arena).is_none());
    n.set_child_link(Some(Link::new("hand")), &mut arena);
    assert_eq!(n.child_link(&arena).as_ref().map(|l| l.name.as_str()), Some("hand"));
    n.set_child_link(None, &mut arena);
    assert!(n.child_link(&arena).is_none());
}

#[test]
fn descriptions_name_joint_type_and_link() {
    let mut arena = NodeArena::new();
    let n = JointBuilder::new()
        .name("wrist")
        .joint_type(JointType::Rotational {
            axis: Vector3::y_axis(),
        })
        .into_node(&mut arena);
    assert_eq!(n.joint(&arena).description(), "wrist: rotational");
    assert_eq!(n.description(&arena), "wrist: rotational");
    n.set_child_link(Some(Link::new("hand")), &mut arena);
    assert_eq!(n.description(&arena), "wrist: rotational => /hand/");
}

#[test]
fn iter_ancestors_walks_to_the_root() {
    let mut arena = NodeArena::new();
    let l0 = JointBuilder::new().into_node(&mut arena);
    let l1 = JointBuilder::new().into_node(&mut arena);
    let l2 = JointBuilder::new().into_node(&mut arena);
    connect(&vec![l0, l1, l2], &mut arena);
    assert_eq!(l2.iter_ancestors(&arena), vec![l2, l1, l0]);
    assert_eq!(l0.iter_ancestors(&arena), vec![l0]);
}

#[test]
fn iter_descendants_is_preorder() {
    let mut arena = NodeArena::new();
    let root = JointBuilder::new().into_node(&mut arena);
    let a = JointBuilder::new().into_node(&mut arena);
    let b = JointBuilder::new().into_node(&mut arena);
    let a1 = JointBuilder::new().into_node(&mut arena);
    a.set_parent(&root, &mut arena);
    b.set_parent(&root, &mut arena);
    a1.set_parent(&a, &mut arena);
    assert_eq!(root.iter_descendants(&arena), vec![root, a, a1, b]);
    assert_eq!(b.iter_descendants(&arena), vec![b]);
}

#[test]
fn joint_new_starts_at_zero() {
    let j = Joint::new("elbow", JointType::Rotational { axis: Vector3::x_axis() });
    assert_eq!(j.name, "elbow");
    assert_eq!(j.position(), Some(0));
    assert_eq!(j.world_transform(), None);
}

#[test]
fn node_new_wraps_a_joint() {
    let mut arena = NodeArena::new();
    assert_eq!(arena.len(), 0);
    let j = Joint::new("elbow", JointType::Rotational { axis: Vector3::x_axis() });
    let n = Node::new(j, &mut arena);
    assert_eq!(arena.len(), 1);
    assert!(n.is_root(&arena));
    assert!(n.is_end(&arena));
    assert_eq!(n.joint(&arena).name, "elbow");
    assert!(n.child_link(&arena).is_none());
}

#[test]
fn connect_with_fewer_than_two_nodes_changes_nothing() {
    let mut arena = NodeArena::new();
    let only = JointBuilder::new().into_node(&mut arena);
    connect(&vec![], &mut arena);
    connect(&vec![only], &mut arena);
    assert!(only.is_root(&arena));
    assert!(only.is_end(&arena));
}

#[test]
fn joint_set_position_checks_type_before_limits() {
    let mut j = Joint::new("base", JointType::Fixed);
    j.limits = Some(Range::new(0, ONE));
    match j.set_position(ONE / 2) {
        Err(JointError::SetToFixedError { joint_name }) => assert_eq!(joint_name, "base"),
        other => panic!("expected the joint-type error, got {:?}", other),
    }
}
