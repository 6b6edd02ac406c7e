//! Tree vertices pairing a joint with structural and mimic relationships.
//!
//! Vertices live in a [`NodeArena`]; a [`Node`] is a light handle holding the
//! index of its vertex, so parent and mimic-parent back-references are
//! non-owning index pointers and cannot keep anything alive or form ownership
//! cycles.  Handles compare by identity: two handles are equal exactly when
//! they address the same vertex.

use vstd::prelude::*;
use vstd::string::StringExecFns;

use crate::errors::{JointError, JointErrorView};
use crate::joint::{
    joint_type_label, mimic_value, movable, within_limits, Joint, JointType, JointView, Mimic,
    Range, Transform, UnitQuaternion, Vector3,
};
use crate::link::{Link, LinkView};

verus! {

/// A handle to one vertex of a [`NodeArena`].  Equality is vertex identity.
#[derive(Clone, Copy, Debug, PartialEq, Eq, Structural)]
pub struct Node {
    pub index: usize,
}

/// One vertex record: a joint, the structural relationships, and the mimic
/// relationships.  `children` and `mimic_children` list handles in insertion
/// order; `parent` and `mimic_parent` are non-owning back-references.
#[derive(Debug, Clone)]
pub struct NodeImpl {
    pub parent: Option<Node>,
    pub children: Vec<Node>,
    pub joint: Joint,
    pub mimic_parent: Option<Node>,
    pub mimic_children: Vec<Node>,
    pub mimic: Option<Mimic>,
    pub child_link: Option<Link>,
}

/// Spec-level image of a [`NodeImpl`].
pub ghost struct NodeView {
    pub parent: Option<Node>,
    pub children: Seq<Node>,
    pub joint: JointView,
    pub mimic_parent: Option<Node>,
    pub mimic_children: Seq<Node>,
    pub mimic: Option<Mimic>,
    pub child_link: Option<LinkView>,
}

/// The view of an optional link.
pub open spec fn link_opt_view(link: Option<Link>) -> Option<LinkView> {
    match link {
        Option::Some(l) => Option::Some(l@),
        Option::None => Option::None,
    }
}

impl View for NodeImpl {
    type V = NodeView;

    open spec fn view(&self) -> NodeView {
        NodeView {
            parent: self.parent,
            children: self.children@,
            joint: self.joint@,
            mimic_parent: self.mimic_parent,
            mimic_children: self.mimic_children@,
            mimic: self.mimic,
            child_link: link_opt_view(self.child_link),
        }
    }
}

/// Every handle a vertex stores addresses a vertex of the arena.
pub open spec fn node_wf(n: NodeView, len: int) -> bool {
    &&& (n.parent matches Some(p) ==> p.index < len)
    &&& (forall|k: int| 0 <= k < n.children.len() ==> (#[trigger] n.children[k]).index < len)
    &&& (n.mimic_parent matches Some(p) ==> p.index < len)
    &&& (forall|k: int|
        0 <= k < n.mimic_children.len() ==> (#[trigger] n.mimic_children[k]).index < len)
}

/// Every vertex of the arena is well formed.
pub open spec fn arena_wf(s: Seq<NodeView>) -> bool {
    forall|j: int| 0 <= j < s.len() ==> node_wf(#[trigger] s[j], s.len() as int)
}

/// The storage for a forest of nodes.  All vertex records live here; handles
/// index into it.  Records are only added, never removed, so handles stay
/// valid for the arena's lifetime.
pub struct NodeArena {
    nodes: Vec<NodeImpl>,
}

impl View for NodeArena {
    type V = Seq<NodeView>;

    closed spec fn view(&self) -> Seq<NodeView> {
        Seq::new(self.nodes@.len(), |j: int| self.nodes@[j]@)
    }
}

impl NodeArena {
    /// All stored handles address vertices of this arena.
    pub open spec fn wf(&self) -> bool {
        arena_wf(self@)
    }

    /// An arena with no vertices.
    pub fn new() -> (a: NodeArena)
        ensures
            a@ == Seq::<NodeView>::empty(),
            a.wf(),
    {
        let a = NodeArena { nodes: Vec::new() };
        proof {
            assert(a@ =~= Seq::<NodeView>::empty());
        }
        a
    }

    /// The number of vertices.
    pub fn len(&self) -> (n: usize)
        ensures
            n == self@.len(),
    {
        self.nodes.len()
    }
}

/// The vertex view of a node wrapping `joint`, before any relationship is
/// established.
pub open spec fn fresh_node(joint: JointView) -> NodeView {
    NodeView {
        parent: Option::None,
        children: Seq::empty(),
        joint,
        mimic_parent: Option::None,
        mimic_children: Seq::empty(),
        mimic: Option::None,
        child_link: Option::None,
    }
}

/// The state after `child` is linked under `parent`: the child's back
/// reference is set, then the child is appended to the parent's list.
pub open spec fn set_parent_state(s: Seq<NodeView>, child: Node, parent: Node) -> Seq<NodeView> {
    let c = child.index as int;
    let p = parent.index as int;
    let s1 = s.update(c, NodeView { parent: Option::Some(parent), ..s[c] });
    s1.update(p, NodeView { children: s1[p].children.push(child), ..s1[p] })
}

/// The state after `child` is coupled to mimic `parent` under `law`: the
/// mimic back reference is set, the child is appended to the parent's mimic
/// list, and the law is stored on the child.
pub open spec fn set_mimic_parent_state(
    s: Seq<NodeView>,
    child: Node,
    parent: Node,
    law: Mimic,
) -> Seq<NodeView> {
    let c = child.index as int;
    let p = parent.index as int;
    let s1 = s.update(c, NodeView { mimic_parent: Option::Some(parent), ..s[c] });
    let s2 = s1.update(p, NodeView { mimic_children: s1[p].mimic_children.push(child), ..s1[p] });
    s2.update(c, NodeView { mimic: Option::Some(law), ..s2[c] })
}

/// The position the mimic law stored at `j` derives from a parent position
/// `v`; the stored position if no law is present.
pub open spec fn law_value(s: Seq<NodeView>, j: int, v: i64) -> i64 {
    match s[j].mimic {
        Option::Some(m) => mimic_value(m.multiplier, m.offset, v) as i64,
        Option::None => s[j].joint.position,
    }
}

/// Whether vertex `j` occurs among the first `k` entries of `cs`.
pub open spec fn updated_in_prefix(cs: Seq<Node>, k: int, j: int) -> bool {
    exists|t: int| 0 <= t < k && (#[trigger] cs[t]).index == j
}

/// The position of vertex `j` after the driver at `i` took `v` and the first
/// `k` of its mimic children took their law-derived values.
pub open spec fn driven_position(s: Seq<NodeView>, i: int, v: i64, k: int, j: int) -> i64 {
    if updated_in_prefix(s[i].mimic_children, k, j) {
        law_value(s, j, v)
    } else if j == i {
        v
    } else {
        s[j].joint.position
    }
}

/// The state after the driver at `i` took position `v` and its first `k`
/// mimic children took their law-derived positions.  Only positions change.
pub open spec fn driven_state(s: Seq<NodeView>, i: int, v: i64, k: int) -> Seq<NodeView> {
    Seq::new(
        s.len(),
        |j: int|
            NodeView {
                joint: JointView { position: driven_position(s, i, v, k, j), ..s[j].joint },
                ..s[j]
            },
    )
}

/// The index of the first entry of `cs` whose vertex carries no mimic law,
/// or `cs.len()` when every entry carries one.
pub open spec fn first_lawless(s: Seq<NodeView>, cs: Seq<Node>) -> int
    decreases cs.len(),
{
    if cs.len() == 0 {
        0
    } else if s[cs[0].index as int].mimic is None {
        0
    } else {
        1 + first_lawless(s, cs.drop_first())
    }
}

/// The message reported when mimic propagation finds no law on a child.
pub open spec fn mimic_message(from: Seq<char>, to: Seq<char>) -> Seq<char> {
    "set_position for "@ + from + " -> "@ + to + " failed. Mimic instance not found."@
}

proof fn lemma_first_lawless_is(s: Seq<NodeView>, cs: Seq<Node>, k: int)
    requires
        0 <= k <= cs.len(),
        forall|t: int| 0 <= t < k ==> s[(#[trigger] cs[t]).index as int].mimic is Some,
        k < cs.len() ==> s[cs[k].index as int].mimic is None,
    ensures
        first_lawless(s, cs) == if k < cs.len() {
            k
        } else {
            cs.len() as int
        },
    decreases k,
{
    if k == 0 {
        if cs.len() > 0 {
            assert(s[cs[0].index as int].mimic is None);
        }
    } else {
        assert(s[cs[0].index as int].mimic is Some);
        assert(forall|t: int|
            0 <= t < k - 1 ==> #[trigger] cs.drop_first()[t] == cs[t + 1]);
        lemma_first_lawless_is(s, cs.drop_first(), k - 1);
    }
}

proof fn lemma_driven_state_wf(s: Seq<NodeView>, i: int, v: i64, k: int)
    requires
        arena_wf(s),
    ensures
        arena_wf(driven_state(s, i, v, k)),
{
    let s2 = driven_state(s, i, v, k);
    assert forall|j: int| 0 <= j < s2.len() implies node_wf(#[trigger] s2[j], s2.len() as int) by {
        assert(s2[j].parent == s[j].parent);
        assert(s2[j].children == s[j].children);
        assert(s2[j].mimic_parent == s[j].mimic_parent);
        assert(s2[j].mimic_children == s[j].mimic_children);
        assert(node_wf(s[j], s.len() as int));
    }
}

impl Node {
    /// Wrap `joint` in a fresh vertex of `arena`: parentless, childless, with
    /// no mimic coupling and no attached link.
    pub fn new(joint: Joint, arena: &mut NodeArena) -> (n: Node)
        requires
            old(arena).wf(),
        ensures
            final(arena).wf(),
            n.index == old(arena)@.len(),
            final(arena)@ == old(arena)@.push(fresh_node(joint@)),
    {
        let index = arena.nodes.len();
        let record = NodeImpl {
            parent: None,
            children: Vec::new(),
            joint,
            mimic_parent: None,
            mimic_children: Vec::new(),
            mimic: None,
            child_link: None,
        };
        arena.nodes.push(record);
        proof {
            assert(arena@ =~= old(arena)@.push(fresh_node(record.joint@)));
            let s2 = arena@;
            assert forall|j: int| 0 <= j < s2.len() implies node_wf(
                #[trigger] s2[j],
                s2.len() as int,
            ) by {
                if j < old(arena)@.len() {
                    assert(node_wf(old(arena)@[j], old(arena)@.len() as int));
                }
            }
        }
        Node { index }
    }

    /// The joint owned by this vertex.
    pub fn joint<'a>(&self, arena: &'a NodeArena) -> (r: &'a Joint)
        requires
            self.index < arena@.len(),
        ensures
            r@ == arena@[self.index as int].joint,
    {
        &arena.nodes[self.index].joint
    }

    /// The structural parent, if any.
    pub fn parent(&self, arena: &NodeArena) -> (r: Option<Node>)
        requires
            self.index < arena@.len(),
        ensures
            r == arena@[self.index as int].parent,
    {
        arena.nodes[self.index].parent
    }

    /// The structural children, in insertion order.
    pub fn children<'a>(&self, arena: &'a NodeArena) -> (r: &'a Vec<Node>)
        requires
            self.index < arena@.len(),
        ensures
            r@ == arena@[self.index as int].children,
    {
        &arena.nodes[self.index].children
    }

    /// Set the structural parent: one logical step that stores the back
    /// reference on `self` and appends `self` to `parent`'s children.  No
    /// cycle check is performed; callers must not introduce cycles.
    pub fn set_parent(&self, parent: &Node, arena: &mut NodeArena)
        requires
            old(arena).wf(),
            self.index < old(arena)@.len(),
            parent.index < old(arena)@.len(),
        ensures
            final(arena).wf(),
            final(arena)@.len() == old(arena)@.len(),
            final(arena)@ == set_parent_state(old(arena)@, *self, *parent),
    {
        arena.nodes[self.index].parent = Some(*parent);
        arena.nodes[parent.index].children.push(*self);
        proof {
            let s2 = set_parent_state(old(arena)@, *self, *parent);
            assert(arena@ =~= s2);
            assert forall|j: int| 0 <= j < s2.len() implies node_wf(
                #[trigger] s2[j],
                s2.len() as int,
            ) by {
                assert(node_wf(old(arena)@[j], old(arena)@.len() as int));
            }
        }
    }

    /// Whether this node has no structural parent.
    pub fn is_root(&self, arena: &NodeArena) -> (r: bool)
        requires
            self.index < arena@.len(),
        ensures
            r == (arena@[self.index as int].parent is None),
    {
        arena.nodes[self.index].parent.is_none()
    }

    /// Whether this node has no structural children (a leaf, independently of
    /// any mimic relationship).
    pub fn is_end(&self, arena: &NodeArena) -> (r: bool)
        requires
            self.index < arena@.len(),
        ensures
            r == (arena@[self.index as int].children.len() == 0),
    {
        arena.nodes[self.index].children.len() == 0
    }

    /// Replace the offset transform of the owned joint.
    pub fn set_offset(&self, offset: Transform, arena: &mut NodeArena)
        requires
            old(arena).wf(),
            self.index < old(arena)@.len(),
        ensures
            final(arena).wf(),
            final(arena)@ == old(arena)@.update(
                self.index as int,
                NodeView {
                    joint: JointView { offset, ..old(arena)@[self.index as int].joint },
                    ..old(arena)@[self.index as int]
                },
            ),
    {
        arena.nodes[self.index].joint.set_offset(offset);
        proof {
            let s2 = old(arena)@.update(
                self.index as int,
                NodeView {
                    joint: JointView { offset, ..old(arena)@[self.index as int].joint },
                    ..old(arena)@[self.index as int]
                },
            );
            assert(arena@ =~= s2);
            assert forall|j: int| 0 <= j < s2.len() implies node_wf(
                #[trigger] s2[j],
                s2.len() as int,
            ) by {
                assert(node_wf(old(arena)@[j], old(arena)@.len() as int));
            }
        }
    }

    /// Store a position on the owned joint without type or limit validation.
    pub fn set_position_unchecked(&self, position: i64, arena: &mut NodeArena)
        requires
            old(arena).wf(),
            self.index < old(arena)@.len(),
        ensures
            final(arena).wf(),
            final(arena)@ == old(arena)@.update(
                self.index as int,
                NodeView {
                    joint: JointView { position, ..old(arena)@[self.index as int].joint },
                    ..old(arena)@[self.index as int]
                },
            ),
    {
        arena.nodes[self.index].joint.set_position_unchecked(position);
        proof {
            let s2 = old(arena)@.update(
                self.index as int,
                NodeView {
                    joint: JointView { position, ..old(arena)@[self.index as int].joint },
                    ..old(arena)@[self.index as int]
                },
            );
            assert(arena@ =~= s2);
            assert forall|j: int| 0 <= j < s2.len() implies node_wf(
                #[trigger] s2[j],
                s2.len() as int,
            ) by {
                assert(node_wf(old(arena)@[j], old(arena)@.len() as int));
            }
        }
    }

    /// Set the position of the owned joint and propagate it to this node's
    /// mimic children.
    ///
    /// A node that itself has a mimic parent is never driven directly: the
    /// call is a no-op success.  Otherwise the joint's own type and limit
    /// checks run first and any failure is returned with nothing changed.  On
    /// success every mimic child takes `multiplier * position + offset`
    /// through the unchecked setter, one level deep, in list order; a child
    /// without a stored law stops the walk with a mimic-configuration error,
    /// and values already propagated to earlier siblings are kept.
    pub fn set_position(&self, position: i64, arena: &mut NodeArena) -> (res: Result<
        (),
        JointError,
    >)
        requires
            old(arena).wf(),
            self.index < old(arena)@.len(),
        ensures
            final(arena).wf(),
            final(arena)@.len() == old(arena)@.len(),
            old(arena)@[self.index as int].mimic_parent is Some ==> (
                res is Ok && final(arena)@ == old(arena)@
            ),
            old(arena)@[self.index as int].mimic_parent is None && !movable(
                old(arena)@[self.index as int].joint.joint_type,
            ) ==> (
                res matches Err(e)
                    && e@ == (JointErrorView::SetToFixed {
                        joint_name: old(arena)@[self.index as int].joint.name,
                    })
                    && final(arena)@ == old(arena)@
            ),
            old(arena)@[self.index as int].mimic_parent is None && movable(
                old(arena)@[self.index as int].joint.joint_type,
            ) && !within_limits(old(arena)@[self.index as int].joint.limits, position) ==> (
                old(arena)@[self.index as int].joint.limits matches Some(r)
                    && res matches Err(e)
                    && e@ == (JointErrorView::OutOfLimits {
                        joint_name: old(arena)@[self.index as int].joint.name,
                        position,
                        min: r.min,
                        max: r.max,
                    })
                    && final(arena)@ == old(arena)@
            ),
            old(arena)@[self.index as int].mimic_parent is None && movable(
                old(arena)@[self.index as int].joint.joint_type,
            ) && within_limits(old(arena)@[self.index as int].joint.limits, position) ==> ({
                let s = old(arena)@;
                let i = self.index as int;
                let cs = s[i].mimic_children;
                let k = first_lawless(s, cs);
                &&& final(arena)@ == driven_state(s, i, position, k)
                &&& (k == cs.len() ==> res is Ok)
                &&& (k < cs.len() ==> (res matches Err(e) && e@ == (JointErrorView::Mimic {
                    from: s[i].joint.name,
                    to: s[cs[k].index as int].joint.name,
                    message: mimic_message(s[i].joint.name, s[cs[k].index as int].joint.name),
                })))
            }),
    {
        let i = self.index;
        let ghost s0 = old(arena)@;
        if arena.nodes[i].mimic_parent.is_some() {
            return Ok(());
        }
        proof {
            assert(arena.nodes@[i as int]@ == s0[i as int]);
        }
        let driver_result = arena.nodes[i].joint.set_position(position);
        match driver_result {
            Err(e) => {
                proof {
                    assert(arena@ =~= s0);
                }
                return Err(e);
            },
            Ok(()) => {},
        }
        proof {
            assert(arena@ =~= driven_state(s0, i as int, position, 0));
            lemma_driven_state_wf(s0, i as int, position, 0);
        }
        let num = arena.nodes[i].mimic_children.len();
        let mut idx: usize = 0;
        while idx < num
            invariant
                s0 == old(arena)@,
                arena_wf(s0),
                i == self.index,
                i < s0.len(),
                s0[i as int].mimic_parent is None,
                movable(s0[i as int].joint.joint_type),
                within_limits(s0[i as int].joint.limits, position),
                num == s0[i as int].mimic_children.len(),
                0 <= idx <= num,
                forall|t: int|
                    0 <= t < idx ==> s0[(#[trigger] s0[i as int].mimic_children[t]).index as int]
                        .mimic is Some,
                arena@ == driven_state(s0, i as int, position, idx as int),
            decreases num - idx,
        {
            let ghost cs = s0[i as int].mimic_children;
            proof {
                assert(arena.nodes@.len() == arena@.len());
                assert(arena@[i as int] == driven_state(s0, i as int, position, idx as int)[
                    i as int
                ]);
                assert(arena.nodes@[i as int]@ == arena@[i as int]);
                assert(arena.nodes@[i as int].mimic_children@ == cs);
            }
            let child = arena.nodes[i].mimic_children[idx];
            proof {
                assert(child == cs[idx as int]);
                assert(child.index < s0.len());
            }
            let maybe_mimic = arena.nodes[child.index].mimic;
            proof {
                assert(arena.nodes@[child.index as int]@ == arena@[child.index as int]);
                assert(arena@[child.index as int] == driven_state(
                    s0,
                    i as int,
                    position,
                    idx as int,
                )[child.index as int]);
                assert(maybe_mimic == s0[child.index as int].mimic);
            }
            match maybe_mimic {
                Some(m) => {
                    let value = m.mimic_position(position);
                    proof {
                        assert(value == law_value(s0, child.index as int, position));
                    }
                    let ghost before = arena@;
                    arena.nodes[child.index].joint.set_position_unchecked(value);
                    proof {
                        let ci = child.index as int;
                        let next = driven_state(s0, i as int, position, idx as int + 1);
                        assert(updated_in_prefix(cs, idx as int + 1, ci)) by {
                            assert(0 <= (idx as int) && (idx as int) < idx as int + 1
                                && cs[idx as int].index == ci);
                        }
                        assert forall|j: int| 0 <= j < s0.len() implies arena@[j] == next[j] by {
                            assert(arena@[j] == arena.nodes@[j]@);
                            assert(before[j] == (NodeView {
                                joint: (JointView {
                                    position: driven_position(s0, i as int, position, idx as int, j),
                                    ..s0[j].joint
                                }),
                                ..s0[j]
                            }));
                            assert(next[j] == (NodeView {
                                joint: (JointView {
                                    position: driven_position(
                                        s0,
                                        i as int,
                                        position,
                                        idx as int + 1,
                                        j,
                                    ),
                                    ..s0[j].joint
                                }),
                                ..s0[j]
                            }));
                            if j == ci {
                                assert(arena@[j].joint == (JointView {
                                    position: value,
                                    ..before[j].joint
                                }));
                                assert(arena@[j].parent == before[j].parent);
                                assert(arena@[j].children == before[j].children);
                                assert(arena@[j].mimic_parent == before[j].mimic_parent);
                                assert(arena@[j].mimic_children == before[j].mimic_children);
                                assert(arena@[j].mimic == before[j].mimic);
                                assert(arena@[j].child_link == before[j].child_link);
                                assert(driven_position(s0, i as int, position, idx as int + 1, j)
                                    == law_value(s0, j, position));
                                assert(arena@[j] == next[j]);
                            } else {
                                assert(arena@[j] == before[j]);
                                if updated_in_prefix(cs, idx as int + 1, j) {
                                    let t = choose|t: int|
                                        0 <= t < idx as int + 1 && (#[trigger] cs[t]).index == j;
                                    assert(cs[idx as int].index == ci);
                                    assert(t < idx as int);
                                    assert(updated_in_prefix(cs, idx as int, j));
                                }
                                if updated_in_prefix(cs, idx as int, j) {
                                    let t = choose|t: int|
                                        0 <= t < idx as int && (#[trigger] cs[t]).index == j;
                                    assert(updated_in_prefix(cs, idx as int + 1, j));
                                }
                                assert(driven_position(s0, i as int, position, idx as int + 1, j)
                                    == driven_position(s0, i as int, position, idx as int, j));
                                assert(arena@[j] == next[j]);
                            }
                        }
                        assert(arena@ =~= next);
                    }
                },
                None => {
                    let from = arena.nodes[i].joint.name.clone();
                    let to = arena.nodes[child.index].joint.name.clone();
                    let mut message = "set_position for ".to_owned();
                    message.append(from.as_str());
                    message.append(" -> ");
                    message.append(to.as_str());
                    message.append(" failed. Mimic instance not found.");
                    proof {
                        lemma_first_lawless_is(s0, cs, idx as int);
                        lemma_driven_state_wf(s0, i as int, position, idx as int);
                    }
                    return Err(JointError::MimicError { from, to, message });
                },
            }
            idx += 1;
        }
        proof {
            lemma_first_lawless_is(s0, s0[i as int].mimic_children, num as int);
            lemma_driven_state_wf(s0, i as int, position, num as int);
        }
        Ok(())
    }

    /// The cached world transform of the structural parent, or the identity
    /// transform for a root.  The external update pass uses this as the base
    /// pose; it must have visited the parent first (top-down order is the
    /// caller's obligation).
    pub fn parent_world_transform(&self, arena: &NodeArena) -> (r: Option<Transform>)
        requires
            arena.wf(),
            self.index < arena@.len(),
        ensures
            arena@[self.index as int].parent is None ==> r == Some(Transform::spec_identity()),
            arena@[self.index as int].parent matches Some(p) ==> r == arena@[
                p.index as int
            ].joint.world_transform,
    {
        match arena.nodes[self.index].parent {
            Some(p) => arena.nodes[p.index].joint.world_transform(),
            None => Some(Transform::identity()),
        }
    }

    /// The cached world transform, or nothing until an update pass has
    /// visited this node.
    pub fn world_transform(&self, arena: &NodeArena) -> (r: Option<Transform>)
        requires
            self.index < arena@.len(),
        ensures
            r == arena@[self.index as int].joint.world_transform,
    {
        arena.nodes[self.index].joint.world_transform()
    }

    /// Overwrite the cached world transform of the owned joint; `None`
    /// invalidates it.  Called by the external update pass.
    pub fn set_world_transform(&self, transform: Option<Transform>, arena: &mut NodeArena)
        requires
            old(arena).wf(),
            self.index < old(arena)@.len(),
        ensures
            final(arena).wf(),
            final(arena)@ == old(arena)@.update(
                self.index as int,
                NodeView {
                    joint: JointView {
                        world_transform: transform,
                        ..old(arena)@[self.index as int].joint
                    },
                    ..old(arena)@[self.index as int]
                },
            ),
    {
        arena.nodes[self.index].joint.set_world_transform(transform);
        proof {
            let s2 = old(arena)@.update(
                self.index as int,
                NodeView {
                    joint: JointView {
                        world_transform: transform,
                        ..old(arena)@[self.index as int].joint
                    },
                    ..old(arena)@[self.index as int]
                },
            );
            assert(arena@ =~= s2);
            assert forall|j: int| 0 <= j < s2.len() implies node_wf(
                #[trigger] s2[j],
                s2.len() as int,
            ) by {
                assert(node_wf(old(arena)@[j], old(arena)@.len() as int));
            }
        }
    }

    /// Record the mimic coupling: one logical step that stores the mimic
    /// back reference on `self`, appends `self` to `parent`'s mimic children
    /// and stores `mimic` as the law on `self`.  No validation relates the
    /// derived range to this node's own limits.
    pub fn set_mimic_parent(&self, parent: &Node, mimic: Mimic, arena: &mut NodeArena)
        requires
            old(arena).wf(),
            self.index < old(arena)@.len(),
            parent.index < old(arena)@.len(),
        ensures
            final(arena).wf(),
            final(arena)@.len() == old(arena)@.len(),
            final(arena)@ == set_mimic_parent_state(old(arena)@, *self, *parent, mimic),
    {
        arena.nodes[self.index].mimic_parent = Some(*parent);
        arena.nodes[parent.index].mimic_children.push(*self);
        arena.nodes[self.index].mimic = Some(mimic);
        proof {
            let s2 = set_mimic_parent_state(old(arena)@, *self, *parent, mimic);
            assert(arena@ =~= s2);
            assert forall|j: int| 0 <= j < s2.len() implies node_wf(
                #[trigger] s2[j],
                s2.len() as int,
            ) by {
                assert(node_wf(old(arena)@[j], old(arena)@.len() as int));
            }
        }
    }

    /// Attach (or detach, with `None`) the terminal link descriptor.
    pub fn set_child_link(&self, link: Option<Link>, arena: &mut NodeArena)
        requires
            old(arena).wf(),
            self.index < old(arena)@.len(),
        ensures
            final(arena).wf(),
            final(arena)@ == old(arena)@.update(
                self.index as int,
                NodeView {
                    child_link: link_opt_view(link),
                    ..old(arena)@[self.index as int]
                },
            ),
    {
        arena.nodes[self.index].child_link = link;
        proof {
            let s2 = old(arena)@.update(
                self.index as int,
                NodeView {
                    child_link: link_opt_view(link),
                    ..old(arena)@[self.index as int]
                },
            );
            assert(arena@ =~= s2);
            assert forall|j: int| 0 <= j < s2.len() implies node_wf(
                #[trigger] s2[j],
                s2.len() as int,
            ) by {
                assert(node_wf(old(arena)@[j], old(arena)@.len() as int));
            }
        }
    }

    /// The attached terminal link descriptor, if any.
    pub fn child_link<'a>(&self, arena: &'a NodeArena) -> (r: &'a Option<Link>)
        requires
            self.index < arena@.len(),
        ensures
            link_opt_view(*r) == arena@[self.index as int].child_link,
    {
        &arena.nodes[self.index].child_link
    }

    /// A short human-readable form: the joint's name and type, then the
    /// attached link's name if one is present.
    pub fn description(&self, arena: &NodeArena) -> (r: String)
        requires
            self.index < arena@.len(),
        ensures
            r@ == node_description(arena@[self.index as int]),
    {
        let mut r = arena.nodes[self.index].joint.description();
        match &arena.nodes[self.index].child_link {
            Some(l) => {
                r.append(" => /");
                r.append(l.name.as_str());
                r.append("/");
            },
            None => {},
        }
        r
    }
}

/// The chain from `node` toward the root, `node` itself first.  `fuel`
/// bounds how many parent steps are taken, so the walk is well defined even
/// on a parent graph that a caller has (wrongly) made cyclic.
pub open spec fn ancestors(s: Seq<NodeView>, node: Node, fuel: nat) -> Seq<Node>
    decreases fuel,
{
    match s[node.index as int].parent {
        Option::None => seq![node],
        Option::Some(p) => if fuel > 0 {
            seq![node] + ancestors(s, p, (fuel - 1) as nat)
        } else {
            seq![node]
        },
    }
}

/// The subtree below `node` in depth-first pre-order, `node` itself first,
/// children in insertion order.  `fuel` bounds the depth.
pub open spec fn descendants(s: Seq<NodeView>, node: Node, fuel: nat) -> Seq<Node>
    decreases fuel, 0nat,
{
    seq![node] + if fuel > 0 {
        descendants_list(s, s[node.index as int].children, (fuel - 1) as nat)
    } else {
        Seq::empty()
    }
}

/// The concatenation of the subtrees below each handle of `cs`, in order.
pub open spec fn descendants_list(s: Seq<NodeView>, cs: Seq<Node>, fuel: nat) -> Seq<Node>
    decreases fuel, cs.len(),
{
    if cs.len() == 0 {
        Seq::empty()
    } else {
        descendants(s, cs[0], fuel) + descendants_list(s, cs.drop_first(), fuel)
    }
}

proof fn lemma_descendants_list_snoc(s: Seq<NodeView>, cs: Seq<Node>, x: Node, fuel: nat)
    ensures
        descendants_list(s, cs.push(x), fuel) == descendants_list(s, cs, fuel) + descendants(
            s,
            x,
            fuel,
        ),
    decreases cs.len(),
{
    if cs.len() == 0 {
        assert(cs.push(x).drop_first() =~= Seq::<Node>::empty());
        assert(cs.push(x)[0] == x);
        assert(descendants_list(s, cs.push(x), fuel) == descendants(s, x, fuel)
            + descendants_list(s, Seq::empty(), fuel));
        assert(descendants(s, x, fuel) + Seq::<Node>::empty() =~= descendants(s, x, fuel));
        assert(Seq::<Node>::empty() + descendants(s, x, fuel) =~= descendants(s, x, fuel));
    } else {
        assert(cs.push(x).drop_first() =~= cs.drop_first().push(x));
        assert(cs.push(x)[0] == cs[0]);
        lemma_descendants_list_snoc(s, cs.drop_first(), x, fuel);
        assert(descendants(s, cs[0], fuel) + (descendants_list(s, cs.drop_first(), fuel)
            + descendants(s, x, fuel)) =~= (descendants(s, cs[0], fuel) + descendants_list(
            s,
            cs.drop_first(),
            fuel,
        )) + descendants(s, x, fuel));
    }
}

fn collect_descendants(arena: &NodeArena, node: Node, fuel: usize, out: &mut Vec<Node>)
    requires
        arena.wf(),
        node.index < arena@.len(),
    ensures
        final(out)@ == old(out)@ + descendants(arena@, node, fuel as nat),
    decreases fuel,
{
    let ghost entry = out@;
    out.push(node);
    if fuel == 0 {
        proof {
            assert(out@ =~= entry + descendants(arena@, node, 0));
        }
        return;
    }
    let num = arena.nodes[node.index].children.len();
    let ghost cs = arena@[node.index as int].children;
    let mut t: usize = 0;
    while t < num
        invariant
            arena.wf(),
            node.index < arena@.len(),
            cs == arena@[node.index as int].children,
            num == cs.len(),
            0 <= t <= num,
            fuel >= 1,
            out@ == entry + seq![node] + descendants_list(arena@, cs.take(t as int), (fuel
                - 1) as nat),
        decreases num - t,
    {
        let child = arena.nodes[node.index].children[t];
        proof {
            assert(child == cs[t as int]);
            assert(child.index < arena@.len());
        }
        collect_descendants(arena, child, fuel - 1, out);
        proof {
            lemma_descendants_list_snoc(arena@, cs.take(t as int), child, (fuel - 1) as nat);
            assert(cs.take(t as int).push(cs[t as int]) =~= cs.take(t as int + 1));
            assert((entry + seq![node] + descendants_list(arena@, cs.take(t as int), (fuel
                - 1) as nat)) + descendants(arena@, child, (fuel - 1) as nat) =~= entry
                + seq![node] + (descendants_list(arena@, cs.take(t as int), (fuel - 1) as nat)
                + descendants(arena@, child, (fuel - 1) as nat)));
        }
        t += 1;
    }
    proof {
        assert(cs.take(num as int) =~= cs);
        assert(entry + seq![node] + descendants_list(arena@, cs, (fuel - 1) as nat) =~= entry
            + descendants(arena@, node, fuel as nat));
    }
}

impl Node {
    /// The chain from this node to its root, this node first.  The walk takes
    /// at most one parent step per vertex of the arena, so it returns even if
    /// a caller has (wrongly) linked the tree into a cycle.
    pub fn iter_ancestors(&self, arena: &NodeArena) -> (r: Vec<Node>)
        requires
            arena.wf(),
            self.index < arena@.len(),
        ensures
            r@ == ancestors(arena@, *self, arena@.len()),
    {
        let mut r: Vec<Node> = Vec::new();
        let mut current: Node = *self;
        let mut fuel: usize = arena.nodes.len();
        loop
            invariant
                arena.wf(),
                current.index < arena@.len(),
                ancestors(arena@, *self, arena@.len()) == r@ + ancestors(
                    arena@,
                    current,
                    fuel as nat,
                ),
            decreases fuel + 1,
        {
            r.push(current);
            let parent = arena.nodes[current.index].parent;
            match parent {
                None => {
                    return r;
                },
                Some(p) => {
                    if fuel == 0 {
                        return r;
                    }
                    fuel = fuel - 1;
                    current = p;
                },
            }
        }
    }

    /// The subtree rooted at this node in depth-first pre-order, this node
    /// first, children in insertion order.  The walk descends at most as many
    /// levels as the arena has vertices, so it returns even if a caller has
    /// (wrongly) linked the tree into a cycle.
    pub fn iter_descendants(&self, arena: &NodeArena) -> (r: Vec<Node>)
        requires
            arena.wf(),
            self.index < arena@.len(),
        ensures
            r@ == descendants(arena@, *self, arena@.len()),
    {
        let mut r: Vec<Node> = Vec::new();
        collect_descendants(arena, *self, arena.nodes.len(), &mut r);
        proof {
            assert(Seq::<Node>::empty() + descendants(arena@, *self, arena@.len()) =~= descendants(
                arena@,
                *self,
                arena@.len(),
            ));
        }
        r
    }
}

/// Spec-level image of a [`JointBuilder`].
pub ghost struct JointBuilderView {
    pub name: Seq<char>,
    pub joint_type: JointType,
    pub limits: Option<Range>,
    pub offset: Transform,
}

/// The configuration a fresh builder starts from.
pub open spec fn builder_init() -> JointBuilderView {
    JointBuilderView {
        name: Seq::empty(),
        joint_type: JointType::Fixed,
        limits: Option::None,
        offset: Transform::spec_identity(),
    }
}

/// The joint a builder configuration produces: position zero, no cached
/// world transform.
pub open spec fn built_joint(b: JointBuilderView) -> JointView {
    JointView {
        name: b.name,
        joint_type: b.joint_type,
        offset: b.offset,
        position: 0,
        limits: b.limits,
        world_transform: Option::None,
    }
}

/// A fluent accumulator assembling a [`Joint`] from declarative options.
/// No option combination is rejected; limits on a fixed joint are accepted
/// but meaningless.
#[derive(Debug, Clone)]
pub struct JointBuilder {
    pub name: String,
    pub joint_type: JointType,
    pub limits: Option<Range>,
    pub offset: Transform,
}

impl View for JointBuilder {
    type V = JointBuilderView;

    open spec fn view(&self) -> JointBuilderView {
        JointBuilderView {
            name: self.name@,
            joint_type: self.joint_type,
            limits: self.limits,
            offset: self.offset,
        }
    }
}

impl Default for JointBuilder {
    fn default() -> (r: JointBuilder)
        ensures
            r@ == builder_init(),
    {
        JointBuilder::new()
    }
}

impl JointBuilder {
    /// A builder for a nameless fixed joint with identity offset and no
    /// limits.
    pub fn new() -> (r: JointBuilder)
        ensures
            r@ == builder_init(),
    {
        let r = JointBuilder {
            name: String::new(),
            joint_type: JointType::Fixed,
            limits: None,
            offset: Transform::identity(),
        };
        r
    }

    /// Set the joint's name.
    pub fn name(self, name: &str) -> (r: JointBuilder)
        ensures
            r@ == (JointBuilderView { name: name@, ..self@ }),
    {
        let mut b = self;
        b.name = name.to_owned();
        b
    }

    /// Set the joint's type.
    pub fn joint_type(self, joint_type: JointType) -> (r: JointBuilder)
        ensures
            r@ == (JointBuilderView { joint_type, ..self@ }),
    {
        let mut b = self;
        b.joint_type = joint_type;
        b
    }

    /// Set the joint's limits.
    pub fn limits(self, limits: Option<Range>) -> (r: JointBuilder)
        ensures
            r@ == (JointBuilderView { limits, ..self@ }),
    {
        let mut b = self;
        b.limits = limits;
        b
    }

    /// Set the joint's offset transform.
    pub fn offset(self, offset: Transform) -> (r: JointBuilder)
        ensures
            r@ == (JointBuilderView { offset, ..self@ }),
    {
        let mut b = self;
        b.offset = offset;
        b
    }

    /// Set only the translation component of the offset transform.
    pub fn translation(self, translation: Vector3) -> (r: JointBuilder)
        ensures
            r@ == (JointBuilderView {
                offset: (Transform { translation, rotation: self@.offset.rotation }),
                ..self@
            }),
    {
        let mut b = self;
        b.offset.translation = translation;
        b
    }

    /// Set only the rotation component of the offset transform.
    pub fn rotation(self, rotation: UnitQuaternion) -> (r: JointBuilder)
        ensures
            r@ == (JointBuilderView {
                offset: (Transform { translation: self@.offset.translation, rotation }),
                ..self@
            }),
    {
        let mut b = self;
        b.offset.rotation = rotation;
        b
    }

    /// Produce the configured [`Joint`], with position initialized to zero.
    pub fn finalize(self) -> (j: Joint)
        ensures
            j@ == built_joint(self@),
    {
        let mut joint = Joint::new(self.name.as_str(), self.joint_type);
        joint.set_offset(self.offset);
        joint.limits = self.limits;
        joint
    }

    /// Produce a fresh parentless, childless [`Node`] wrapping the
    /// configured joint.
    pub fn into_node(self, arena: &mut NodeArena) -> (n: Node)
        requires
            old(arena).wf(),
        ensures
            final(arena).wf(),
            n.index == old(arena)@.len(),
            final(arena)@ == old(arena)@.push(fresh_node(built_joint(self@))),
    {
        let joint = self.finalize();
        Node::new(joint, arena)
    }
}

/// The state after the handles of `ns` are linked pairwise into a single
/// unbranched chain, each becoming the structural parent of the next.
pub open spec fn connect_state(s: Seq<NodeView>, ns: Seq<Node>) -> Seq<NodeView>
    decreases ns.len(),
{
    if ns.len() <= 1 {
        s
    } else {
        connect_state(set_parent_state(s, ns[1], ns[0]), ns.drop_first())
    }
}

proof fn lemma_connect_snoc(s: Seq<NodeView>, a: Seq<Node>, x: Node)
    requires
        a.len() >= 1,
    ensures
        connect_state(s, a.push(x)) == set_parent_state(connect_state(s, a), x, a[a.len() - 1]),
    decreases a.len(),
{
    if a.len() == 1 {
        assert(a.push(x).len() == 2);
        assert(a.push(x)[0] == a[0]);
        assert(a.push(x)[1] == x);
        assert(a.push(x).drop_first() =~= seq![x]);
        assert(connect_state(s, a.push(x)) == connect_state(
            set_parent_state(s, x, a[0]),
            a.push(x).drop_first(),
        ));
        assert(connect_state(set_parent_state(s, x, a[0]), seq![x]) == set_parent_state(
            s,
            x,
            a[0],
        ));
        assert(connect_state(s, a) == s);
    } else {
        assert(a.push(x).drop_first() =~= a.drop_first().push(x));
        assert(a.push(x)[0] == a[0]);
        assert(a.push(x)[1] == a[1]);
        lemma_connect_snoc(set_parent_state(s, a[1], a[0]), a.drop_first(), x);
        assert(a.drop_first()[a.len() - 2] == a[a.len() - 1]);
    }
}

/// Chain the given handles into a parent-child line: each node becomes the
/// structural parent of the next, by pairwise [`Node::set_parent`] calls in
/// sequence order.  Fewer than two handles leave the arena unchanged.
pub fn connect(nodes: &Vec<Node>, arena: &mut NodeArena)
    requires
        old(arena).wf(),
        forall|t: int| 0 <= t < nodes@.len() ==> (#[trigger] nodes@[t]).index < old(arena)@.len(),
    ensures
        final(arena).wf(),
        final(arena)@ == connect_state(old(arena)@, nodes@),
{
    let ghost s0 = old(arena)@;
    let n = nodes.len();
    if n <= 1 {
        return;
    }
    let mut t: usize = 1;
    while t < n
        invariant
            s0 == old(arena)@,
            1 <= t <= n,
            n == nodes@.len(),
            arena.wf(),
            arena@.len() == s0.len(),
            forall|u: int| 0 <= u < nodes@.len() ==> (#[trigger] nodes@[u]).index < s0.len(),
            arena@ == connect_state(s0, nodes@.take(t as int)),
        decreases n - t,
    {
        let child = nodes[t];
        let parent_node = nodes[t - 1];
        child.set_parent(&parent_node, arena);
        proof {
            lemma_connect_snoc(s0, nodes@.take(t as int), nodes@[t as int]);
            assert(nodes@.take(t as int).push(nodes@[t as int]) =~= nodes@.take(t as int + 1));
            assert(nodes@.take(t as int)[t as int - 1] == nodes@[t as int - 1]);
        }
        t += 1;
    }
    proof {
        assert(nodes@.take(n as int) =~= nodes@);
    }
}

/// Law: after a node is given a parent, the node is no longer a root, the
/// parent's children list contains the node, and whether the parent itself is
/// a root is unchanged.
pub proof fn lemma_set_parent_effects(s: Seq<NodeView>, child: Node, parent: Node)
    requires
        child.index < s.len(),
        parent.index < s.len(),
        child.index != parent.index,
    ensures
        ({
            let s2 = set_parent_state(s, child, parent);
            &&& !(s2[child.index as int].parent is None)
            &&& s2[parent.index as int].children.contains(child)
            &&& s2[parent.index as int].parent == s[parent.index as int].parent
        }),
{
    let s2 = set_parent_state(s, child, parent);
    let old_children = s.update(
        child.index as int,
        NodeView { parent: Option::Some(parent), ..s[child.index as int] },
    )[parent.index as int].children;
    assert(s2[parent.index as int].children == old_children.push(child));
    assert(old_children.push(child)[old_children.len() as int] == child);
}

/// Law: after three nodes are connected into a chain, the head is still a
/// root, the middle one is neither a root nor a leaf, and the tail is a leaf.
pub proof fn lemma_connect_chain(s: Seq<NodeView>, n0: Node, n1: Node, n2: Node)
    requires
        n0.index < s.len(),
        n1.index < s.len(),
        n2.index < s.len(),
        n0.index != n1.index,
        n1.index != n2.index,
        n0.index != n2.index,
        s[n0.index as int].parent is None,
        s[n2.index as int].children.len() == 0,
    ensures
        ({
            let s2 = connect_state(s, seq![n0, n1, n2]);
            &&& s2[n0.index as int].parent is None
            &&& !(s2[n1.index as int].parent is None)
            &&& s2[n1.index as int].children.len() > 0
            &&& s2[n2.index as int].children.len() == 0
        }),
{
    let ns = seq![n0, n1, n2];
    let s1 = set_parent_state(s, n1, n0);
    let s2 = set_parent_state(s1, n2, n1);
    assert(ns.drop_first() =~= seq![n1, n2]);
    assert(seq![n1, n2].drop_first() =~= seq![n2]);
    assert(connect_state(s, ns) == connect_state(s1, seq![n1, n2]));
    assert(connect_state(s1, seq![n1, n2]) == connect_state(s2, seq![n2]));
    assert(connect_state(s2, seq![n2]) == s2);
}

/// Law: driving a mimic parent propagates to each of its mimic children.
/// When every mimic child carries a law, the drive succeeds and each child's
/// stored position becomes its law applied to the parent's new position.
/// (Driving a node that itself has a mimic parent is a no-op success, as
/// [`Node::set_position`] states directly.)
pub proof fn lemma_mimic_round_trip(s: Seq<NodeView>, parent: Node, child: Node, v: i64)
    requires
        parent.index < s.len(),
        child.index < s.len(),
        s[parent.index as int].mimic_parent is None,
        movable(s[parent.index as int].joint.joint_type),
        within_limits(s[parent.index as int].joint.limits, v),
        s[parent.index as int].mimic_children.contains(child),
        forall|t: int|
            0 <= t < s[parent.index as int].mimic_children.len() ==> s[(#[trigger] s[
                parent.index as int
            ].mimic_children[t]).index as int].mimic is Some,
    ensures
        ({
            let cs = s[parent.index as int].mimic_children;
            let s2 = driven_state(s, parent.index as int, v, cs.len() as int);
            &&& first_lawless(s, cs) == cs.len()
            &&& (s[child.index as int].mimic matches Some(m) && s2[
                child.index as int
            ].joint.position == mimic_value(m.multiplier, m.offset, v) as i64)
        }),
{
    let cs = s[parent.index as int].mimic_children;
    let s2 = driven_state(s, parent.index as int, v, cs.len() as int);
    lemma_first_lawless_is(s, cs, cs.len() as int);
    let t = choose|t: int| 0 <= t < cs.len() && cs[t] == child;
    assert(s[child.index as int].mimic is Some);
    assert(updated_in_prefix(cs, cs.len() as int, child.index as int)) by {
        assert(0 <= t < cs.len() && cs[t].index == child.index as int);
    }
    assert(s2[child.index as int].joint.position == law_value(s, child.index as int, v));
}

/// The display form of a vertex: its joint's name and type, then the attached
/// link's name if one is present.
pub open spec fn node_description(n: NodeView) -> Seq<char> {
    let base = n.joint.name + ": "@ + joint_type_label(n.joint.joint_type);
    match n.child_link {
        Option::Some(l) => base + " => /"@ + l.name + "/"@,
        Option::None => base,
    }
}

} // verus!
