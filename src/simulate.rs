//! Compiling a body's kinematic tree into the operations that populate a
//! physics world.
//!
//! Rigid bodies are numbered in the order in which they are added, so the
//! number of a part is its position in a pre-order walk of the tree. A
//! world that replays the operations in order hands out its own handles and
//! maps each number to the handle it returned.
use vstd::prelude::*;
use crate::actor::{Body, BodyPart, BodyPartChild, Joint};
use crate::geometry::{Pose, Shape, Vec3};

verus! {

broadcast use vstd::std_specs::vec::group_vec_axioms, vstd::seq::group_seq_axioms;

/// Where a new rigid body is placed.
#[derive(Debug, Clone, Copy, PartialEq, Eq)]
pub enum Placement {
    /// At the given pose in the world: the root of a body.
    Root(Pose),
    /// Where the direction `attachment` from the centre of rigid body
    /// `parent` leaves that body's shape.
    Attached { parent: usize, attachment: Vec3 },
}

/// One operation on a physics world.
#[derive(Debug, Clone, Copy, PartialEq, Eq)]
pub enum WorldOp {
    /// Add rigid body number `id`, with the inertia and centre of mass of
    /// `geometry`.
    AddRigidBody { id: usize, geometry: Shape, placement: Placement },
    /// Add a collider of shape `geometry` and margin `margin` to rigid body
    /// `body`, at its origin, with the default material.
    AddCollider { body: usize, margin: i64, geometry: Shape },
    /// Constrain rigid body `child` to rotate about `joint`'s axis relative
    /// to rigid body `parent`, within its limits, driven at its angular
    /// velocity where it has one.
    AddJointConstraint { parent: usize, child: usize, joint: Joint },
}

/// Whether `o` adds a rigid body that lies outside the subtree of rigid
/// body `child`: a root, or one attached to a body numbered before `child`.
pub open spec fn leaves_subtree(o: WorldOp, child: usize) -> bool {
    match o {
        WorldOp::AddRigidBody { placement, .. } => match placement {
            Placement::Root(_) => true,
            Placement::Attached { parent, .. } => parent < child,
        },
        _ => false,
    }
}

/// Where the operations of a child's subtree end, for a world that could not
/// add the joint constraint at `joint_index` and gives up that child's
/// subtree while building its siblings: the first later operation that adds
/// a rigid body outside the subtree, or the end of `ops`.
pub fn subtree_end(ops: &Vec<WorldOp>, joint_index: usize) -> (r: usize)
    requires
        joint_index < ops@.len(),
        ops@[joint_index as int] is AddJointConstraint,
    ensures
        joint_index < r <= ops@.len(),
        forall|j: int|
            joint_index < j < r ==> !leaves_subtree(
                #[trigger] ops@[j],
                ops@[joint_index as int]->AddJointConstraint_child,
            ),
        r < ops@.len() ==> leaves_subtree(ops@[r as int], ops@[joint_index as int]->AddJointConstraint_child),
{
    let child = match ops[joint_index] {
        WorldOp::AddJointConstraint { child, .. } => child,
        _ => 0,
    };
    let n: usize = ops.len();
    let mut j: usize = joint_index + 1;
    while j < n
        invariant
            joint_index < j <= ops@.len(),
            n == ops@.len(),
            child == ops@[joint_index as int]->AddJointConstraint_child,
            forall|k: int| joint_index < k < j ==> !leaves_subtree(#[trigger] ops@[k], child),
        decreases ops@.len() - j,
    {
        let leaves = match ops[j] {
            WorldOp::AddRigidBody { placement, .. } => match placement {
                Placement::Root(_) => true,
                Placement::Attached { parent, .. } => parent < child,
            },
            _ => false,
        };
        if leaves {
            return j;
        }
        j = j + 1;
    }
    j
}

/// The number of parts in the tree rooted at `p`.
pub open spec fn tree_size(p: BodyPart) -> nat
    decreases p,
{
    1 + forest_size(p.children@)
}

/// The number of parts in the subtrees of `cs`.
pub open spec fn forest_size(cs: Seq<BodyPartChild>) -> nat
    decreases cs,
{
    if cs.len() == 0 {
        0
    } else {
        forest_size(cs.drop_last()) + tree_size(cs.last().part)
    }
}

/// The depth of the tree rooted at `p`: the number of parts on its longest
/// path from `p` down.
pub open spec fn tree_depth(p: BodyPart) -> nat
    decreases p,
{
    1 + forest_depth(p.children@)
}

/// The greatest depth among the subtrees of `cs`, or 0 if there are none.
pub open spec fn forest_depth(cs: Seq<BodyPartChild>) -> nat
    decreases cs,
{
    if cs.len() == 0 {
        0
    } else {
        let a = forest_depth(cs.drop_last());
        let b = tree_depth(cs.last().part);
        if a >= b {
            a
        } else {
            b
        }
    }
}

/// A generous default for the deepest tree a world builder accepts.
pub const DEFAULT_MAX_DEPTH: usize = 256;

proof fn lemma_forest_depth_prefix(cs: Seq<BodyPartChild>, i: int)
    requires
        0 <= i <= cs.len(),
    ensures
        forest_depth(cs.take(i)) <= forest_depth(cs),
    decreases cs.len() - i,
{
    if i < cs.len() {
        lemma_forest_depth_prefix(cs, i + 1);
        assert(cs.take(i + 1).drop_last() =~= cs.take(i));
    } else {
        assert(cs.take(i) =~= cs);
    }
}

fn forest_within_depth(children: &Vec<BodyPartChild>, max_depth: usize) -> (r: bool)
    ensures
        r == (forest_depth(children@) <= max_depth),
    decreases children@,
{
    let mut i: usize = 0;
    while i < children.len()
        invariant
            0 <= i <= children@.len(),
            forest_depth(children@.take(i as int)) <= max_depth,
        decreases children@.len() - i,
    {
        let c = &children[i];
        let ghost cur = children@.take(i as int + 1);
        proof {
            assert(cur.drop_last() =~= children@.take(i as int));
            assert(cur.last() == *c);
            lemma_forest_depth_prefix(children@, i as int + 1);
            assert(tree_depth(c.part) == 1 + forest_depth(c.part.children@));
        }
        if max_depth == 0 {
            return false;
        }
        if !forest_within_depth(&c.part.children, max_depth - 1) {
            return false;
        }
        i = i + 1;
    }
    proof {
        assert(children@.take(i as int) =~= children@);
    }
    true
}

/// Whether `body`'s tree is at most `max_depth` parts deep, so that a
/// caller can refuse a pathologically deep body before building it.
pub fn within_depth(body: &Body, max_depth: usize) -> (r: bool)
    ensures
        r == (tree_depth(body.tree) <= max_depth),
{
    if max_depth == 0 {
        return false;
    }
    forest_within_depth(&body.tree.children, max_depth - 1)
}

/// The operations for the subtrees of `cs`, children of rigid body `parent`,
/// whose parts are numbered from `first` on.
pub open spec fn forest_ops(cs: Seq<BodyPartChild>, parent: nat, first: nat, margin: i64) -> Seq<WorldOp>
    decreases cs,
{
    if cs.len() == 0 {
        seq![]
    } else {
        let c = cs.last();
        let id = first + forest_size(cs.drop_last());
        forest_ops(cs.drop_last(), parent, first, margin) + child_head_ops(c, parent, id, margin)
            + forest_ops(c.part.children@, id, id + 1, margin)
    }
}

/// The operations that build `body` with its root at `pose`.
pub open spec fn body_ops(body: Body, pose: Pose, margin: i64) -> Seq<WorldOp> {
    seq![
        WorldOp::AddRigidBody { id: 0, geometry: body.tree.geometry, placement: Placement::Root(pose) },
        WorldOp::AddCollider { body: 0, margin, geometry: body.tree.geometry },
    ] + forest_ops(body.tree.children@, 0, 1, margin)
}

proof fn lemma_forest_size_prefix(cs: Seq<BodyPartChild>, i: int)
    requires
        0 <= i <= cs.len(),
    ensures
        forest_size(cs.take(i)) <= forest_size(cs),
    decreases cs.len() - i,
{
    if i < cs.len() {
        lemma_forest_size_prefix(cs, i + 1);
        assert(cs.take(i + 1).drop_last() =~= cs.take(i));
    } else {
        assert(cs.take(i) =~= cs);
    }
}

fn add_children(
    children: &Vec<BodyPartChild>,
    parent: usize,
    first: usize,
    margin: i64,
    ops: &mut Vec<WorldOp>,
) -> (next: usize)
    requires
        parent < first,
        first + forest_size(children@) <= usize::MAX,
    ensures
        final(ops)@ == old(ops)@ + forest_ops(children@, parent as nat, first as nat, margin),
        next == first + forest_size(children@),
    decreases children@,
{
    let mut i: usize = 0;
    let mut next: usize = first;
    while i < children.len()
        invariant
            0 <= i <= children@.len(),
            parent < first,
            first + forest_size(children@) <= usize::MAX,
            next == first + forest_size(children@.take(i as int)),
            ops@ == old(ops)@ + forest_ops(children@.take(i as int), parent as nat, first as nat, margin),
        decreases children@.len() - i,
    {
        let c = &children[i];
        let ghost pre = children@.take(i as int);
        let ghost cur = children@.take(i as int + 1);
        proof {
            assert(cur.drop_last() =~= pre);
            assert(cur.last() == *c);
            lemma_forest_size_prefix(children@, i as int + 1);
            assert(forest_size(cur) == forest_size(pre) + tree_size(c.part));
            assert(tree_size(c.part) == 1 + forest_size(c.part.children@));
        }
        ops.push(WorldOp::AddRigidBody {
            id: next,
            geometry: c.part.geometry,
            placement: Placement::Attached { parent, attachment: c.joint.parent_attachment() },
        });
        ops.push(WorldOp::AddCollider { body: next, margin, geometry: c.part.geometry });
        ops.push(WorldOp::AddJointConstraint { parent, child: next, joint: c.joint });
        next = add_children(&c.part.children, next, next + 1, margin, ops);
        i = i + 1;
        proof {
            assert(ops@ =~= old(ops)@ + forest_ops(cur, parent as nat, first as nat, margin));
        }
    }
    proof {
        assert(children@.take(i as int) =~= children@);
    }
    next
}

/// Compiles `body` into the operations that add it to a world with its root
/// at `root_pose`: for each part in pre-order a rigid body and a collider,
/// and for each part but the root a joint constraint to its parent, added
/// after the child's rigid body and before the child's own children.
pub fn build_body(body: &Body, root_pose: Pose, collider_margin: i64) -> (ops: Vec<WorldOp>)
    requires
        collider_margin >= 0,
        tree_size(body.tree) <= usize::MAX,
    ensures
        ops@ == body_ops(*body, root_pose, collider_margin),
{
    let mut ops: Vec<WorldOp> = Vec::new();
    ops.push(WorldOp::AddRigidBody {
        id: 0,
        geometry: body.tree.geometry,
        placement: Placement::Root(root_pose),
    });
    ops.push(WorldOp::AddCollider { body: 0, margin: collider_margin, geometry: body.tree.geometry });
    add_children(&body.tree.children, 0, 1, collider_margin, &mut ops);
    proof {
        assert(ops@ =~= body_ops(*body, root_pose, collider_margin));
    }
    ops
}

/// The kind of an operation: 0 for a rigid body, 1 for a collider, 2 for a
/// joint constraint.
pub open spec fn op_kind(o: WorldOp) -> nat {
    match o {
        WorldOp::AddRigidBody { .. } => 0,
        WorldOp::AddCollider { .. } => 1,
        WorldOp::AddJointConstraint { .. } => 2,
    }
}

/// The number of operations of kind `kind` in `ops`.
pub open spec fn count_kind(ops: Seq<WorldOp>, kind: nat) -> nat
    decreases ops.len(),
{
    if ops.len() == 0 {
        0
    } else {
        count_kind(ops.drop_last(), kind) + if op_kind(ops.last()) == kind {
            1nat
        } else {
            0nat
        }
    }
}

/// The number of rigid bodies that `ops` adds.
pub open spec fn rigid_body_count(ops: Seq<WorldOp>) -> nat {
    count_kind(ops, 0)
}

/// The number of colliders that `ops` adds.
pub open spec fn collider_count(ops: Seq<WorldOp>) -> nat {
    count_kind(ops, 1)
}

/// The number of joint constraints that `ops` adds.
pub open spec fn joint_count(ops: Seq<WorldOp>) -> nat {
    count_kind(ops, 2)
}

proof fn lemma_count_add(a: Seq<WorldOp>, b: Seq<WorldOp>, kind: nat)
    ensures
        count_kind(a + b, kind) == count_kind(a, kind) + count_kind(b, kind),
    decreases b.len(),
{
    if b.len() == 0 {
        assert(a + b =~= a);
    } else {
        lemma_count_add(a, b.drop_last(), kind);
        assert((a + b).drop_last() =~= a + b.drop_last());
        assert((a + b).last() == b.last());
    }
}

/// The operations that add a child part numbered `id` and attach it to
/// rigid body `parent`, before the child's own children.
pub open spec fn child_head_ops(c: BodyPartChild, parent: nat, id: nat, margin: i64) -> Seq<WorldOp> {
    seq![
        WorldOp::AddRigidBody {
            id: id as usize,
            geometry: c.part.geometry,
            placement: Placement::Attached {
                parent: parent as usize,
                attachment: c.joint.spec_parent_attachment(),
            },
        },
        WorldOp::AddCollider { body: id as usize, margin, geometry: c.part.geometry },
        WorldOp::AddJointConstraint { parent: parent as usize, child: id as usize, joint: c.joint },
    ]
}

proof fn lemma_child_head_counts(c: BodyPartChild, parent: nat, id: nat, margin: i64, kind: nat)
    requires
        kind < 3,
    ensures
        count_kind(child_head_ops(c, parent, id, margin), kind) == 1,
{
    let s = child_head_ops(c, parent, id, margin);
    assert(s.drop_last() =~= seq![s[0], s[1]]);
    assert(s.drop_last().drop_last() =~= seq![s[0]]);
    assert(s.drop_last().drop_last().drop_last() =~= Seq::<WorldOp>::empty());
    reveal_with_fuel(count_kind, 4);
}

proof fn lemma_forest_counts(cs: Seq<BodyPartChild>, parent: nat, first: nat, margin: i64, kind: nat)
    requires
        kind < 3,
    ensures
        count_kind(forest_ops(cs, parent, first, margin), kind) == forest_size(cs),
    decreases cs,
{
    if cs.len() > 0 {
        let c = cs.last();
        let id = first + forest_size(cs.drop_last());
        let left = forest_ops(cs.drop_last(), parent, first, margin);
        let mid = child_head_ops(c, parent, id, margin);
        let right = forest_ops(c.part.children@, id, id + 1, margin);
        lemma_forest_counts(cs.drop_last(), parent, first, margin, kind);
        lemma_forest_counts(c.part.children@, id, id + 1, margin, kind);
        lemma_child_head_counts(c, parent, id, margin, kind);
        assert(forest_ops(cs, parent, first, margin) == left + mid + right);
        lemma_count_add(left, mid, kind);
        lemma_count_add(left + mid, right, kind);
        assert(forest_size(cs) == forest_size(cs.drop_last()) + tree_size(c.part));
        assert(tree_size(c.part) == 1 + forest_size(c.part.children@));
    }
}

/// Building a body adds exactly one rigid body and one collider for each of
/// its parts, and one joint constraint for each parent-child edge: one fewer
/// than the parts.
pub proof fn lemma_build_counts(body: Body, root_pose: Pose, collider_margin: i64)
    ensures
        rigid_body_count(body_ops(body, root_pose, collider_margin)) == tree_size(body.tree),
        collider_count(body_ops(body, root_pose, collider_margin)) == tree_size(body.tree),
        joint_count(body_ops(body, root_pose, collider_margin)) == tree_size(body.tree) - 1,
{
    let ops = body_ops(body, root_pose, collider_margin);
    let head = seq![
        WorldOp::AddRigidBody { id: 0, geometry: body.tree.geometry, placement: Placement::Root(root_pose) },
        WorldOp::AddCollider { body: 0, margin: collider_margin, geometry: body.tree.geometry },
    ];
    let rest = forest_ops(body.tree.children@, 0, 1, collider_margin);
    assert(head.drop_last() =~= seq![head[0]]);
    assert(head.drop_last().drop_last() =~= Seq::<WorldOp>::empty());
    reveal_with_fuel(count_kind, 3);
    assert forall|kind: nat| kind < 3 implies #[trigger] count_kind(ops, kind) == count_kind(head, kind)
        + forest_size(body.tree.children@) by {
        lemma_forest_counts(body.tree.children@, 0, 1, collider_margin, kind);
        lemma_count_add(head, rest, kind);
    }
    assert(count_kind(ops, 0) == count_kind(head, 0) + forest_size(body.tree.children@));
    assert(count_kind(ops, 1) == count_kind(head, 1) + forest_size(body.tree.children@));
    assert(count_kind(ops, 2) == count_kind(head, 2) + forest_size(body.tree.children@));
}

/// Whether the trees rooted at `p` and `q` have the same shape: the same
/// number of children at every node, whatever their geometry and joints.
pub open spec fn same_shape(p: BodyPart, q: BodyPart) -> bool
    decreases p,
{
    same_shape_forest(p.children@, q.children@)
}

/// Whether the subtrees of `cs` and `ds` have the same shape, pairwise.
pub open spec fn same_shape_forest(cs: Seq<BodyPartChild>, ds: Seq<BodyPartChild>) -> bool
    decreases cs,
{
    &&& cs.len() == ds.len()
    &&& cs.len() > 0 ==> {
        &&& same_shape_forest(cs.drop_last(), ds.drop_last())
        &&& same_shape(cs.last().part, ds.last().part)
    }
}

/// What an operation connects, its shape, pose, margin and joint left out:
/// its kind, then the rigid bodies it names (`-1` where there is none).
pub open spec fn op_link(o: WorldOp) -> (nat, int, int) {
    match o {
        WorldOp::AddRigidBody { id, placement, .. } => (0, id as int, match placement {
            Placement::Root(_) => -1,
            Placement::Attached { parent, .. } => parent as int,
        }),
        WorldOp::AddCollider { body, .. } => (1, body as int, -1),
        WorldOp::AddJointConstraint { parent, child, .. } => (2, parent as int, child as int),
    }
}

/// The topology of a sequence of operations: what each of them connects.
pub open spec fn topology(ops: Seq<WorldOp>) -> Seq<(nat, int, int)> {
    ops.map_values(|o: WorldOp| op_link(o))
}

proof fn lemma_topology_add(a: Seq<WorldOp>, b: Seq<WorldOp>)
    ensures
        topology(a + b) == topology(a) + topology(b),
{
    assert(topology(a + b) =~= topology(a) + topology(b));
}

proof fn lemma_forest_topology(
    cs: Seq<BodyPartChild>,
    ds: Seq<BodyPartChild>,
    parent: nat,
    first: nat,
    margin1: i64,
    margin2: i64,
)
    requires
        same_shape_forest(cs, ds),
    ensures
        forest_size(cs) == forest_size(ds),
        topology(forest_ops(cs, parent, first, margin1)) == topology(forest_ops(ds, parent, first, margin2)),
    decreases cs,
{
    if cs.len() == 0 {
        assert(forest_ops(cs, parent, first, margin1) =~= Seq::<WorldOp>::empty());
        assert(forest_ops(ds, parent, first, margin2) =~= Seq::<WorldOp>::empty());
    } else {
        let c = cs.last();
        let d = ds.last();
        lemma_forest_topology(cs.drop_last(), ds.drop_last(), parent, first, margin1, margin2);
        let id = first + forest_size(cs.drop_last());
        assert(same_shape(c.part, d.part));
        lemma_forest_topology(c.part.children@, d.part.children@, id, id + 1, margin1, margin2);
        assert(tree_size(c.part) == 1 + forest_size(c.part.children@));
        assert(tree_size(d.part) == 1 + forest_size(d.part.children@));
        let l1 = forest_ops(cs.drop_last(), parent, first, margin1);
        let m1 = child_head_ops(c, parent, id, margin1);
        let r1 = forest_ops(c.part.children@, id, id + 1, margin1);
        let l2 = forest_ops(ds.drop_last(), parent, first, margin2);
        let m2 = child_head_ops(d, parent, id, margin2);
        let r2 = forest_ops(d.part.children@, id, id + 1, margin2);
        assert(forest_ops(cs, parent, first, margin1) == l1 + m1 + r1);
        assert(forest_ops(ds, parent, first, margin2) == l2 + m2 + r2);
        lemma_topology_add(l1, m1);
        lemma_topology_add(l1 + m1, r1);
        lemma_topology_add(l2, m2);
        lemma_topology_add(l2 + m2, r2);
        assert(topology(m1) =~= topology(m2));
    }
}

/// Building two bodies of the same shape, into two fresh worlds, adds the
/// same number of rigid bodies, colliders and joint constraints, connected
/// alike: operation for operation, the same kinds naming the same bodies.
pub proof fn lemma_same_shape_same_topology(
    body1: Body,
    body2: Body,
    pose1: Pose,
    pose2: Pose,
    margin1: i64,
    margin2: i64,
)
    requires
        same_shape(body1.tree, body2.tree),
    ensures
        topology(body_ops(body1, pose1, margin1)) == topology(body_ops(body2, pose2, margin2)),
        rigid_body_count(body_ops(body1, pose1, margin1)) == rigid_body_count(body_ops(body2, pose2, margin2)),
        collider_count(body_ops(body1, pose1, margin1)) == collider_count(body_ops(body2, pose2, margin2)),
        joint_count(body_ops(body1, pose1, margin1)) == joint_count(body_ops(body2, pose2, margin2)),
{
    let c1 = body1.tree.children@;
    let c2 = body2.tree.children@;
    lemma_forest_topology(c1, c2, 0, 1, margin1, margin2);
    lemma_build_counts(body1, pose1, margin1);
    lemma_build_counts(body2, pose2, margin2);
    let h1 = seq![
        WorldOp::AddRigidBody { id: 0, geometry: body1.tree.geometry, placement: Placement::Root(pose1) },
        WorldOp::AddCollider { body: 0, margin: margin1, geometry: body1.tree.geometry },
    ];
    let h2 = seq![
        WorldOp::AddRigidBody { id: 0, geometry: body2.tree.geometry, placement: Placement::Root(pose2) },
        WorldOp::AddCollider { body: 0, margin: margin2, geometry: body2.tree.geometry },
    ];
    lemma_topology_add(h1, forest_ops(c1, 0, 1, margin1));
    lemma_topology_add(h2, forest_ops(c2, 0, 1, margin2));
    assert(topology(h1) =~= topology(h2));
}

/// Whether `o` is well placed after `added` rigid bodies: a new rigid body
/// takes the next number and attaches to an existing one, and colliders and
/// joint constraints name existing rigid bodies only.
pub open spec fn op_refs_ok(o: WorldOp, added: nat) -> bool {
    match o {
        WorldOp::AddRigidBody { id, placement, .. } => {
            &&& id == added
            &&& placement matches Placement::Attached { parent, .. } ==> parent < added
        },
        WorldOp::AddCollider { body, .. } => body < added,
        WorldOp::AddJointConstraint { parent, child, .. } => parent < added && child < added,
    }
}

/// Whether every operation of `ops` is well placed, when `n` rigid bodies
/// were added before the first of them.
pub open spec fn numbered_from(ops: Seq<WorldOp>, n: nat) -> bool {
    forall|i: int|
        #![trigger ops[i]]
        0 <= i < ops.len() ==> op_refs_ok(ops[i], n + rigid_body_count(ops.take(i)))
}

proof fn lemma_numbered_add(a: Seq<WorldOp>, b: Seq<WorldOp>, n: nat)
    requires
        numbered_from(a, n),
        numbered_from(b, n + rigid_body_count(a)),
    ensures
        numbered_from(a + b, n),
{
    assert forall|i: int| 0 <= i < (a + b).len() implies op_refs_ok(
        #[trigger] (a + b)[i],
        n + rigid_body_count((a + b).take(i)),
    ) by {
        if i < a.len() {
            assert((a + b).take(i) =~= a.take(i));
            assert((a + b)[i] == a[i]);
        } else {
            let j = i - a.len();
            assert((a + b).take(i) =~= a + b.take(j));
            assert((a + b)[i] == b[j]);
            lemma_count_add(a, b.take(j), 0);
        }
    }
}

proof fn lemma_child_head_numbered(c: BodyPartChild, parent: nat, id: nat, margin: i64)
    requires
        parent < id,
        id <= usize::MAX,
    ensures
        numbered_from(child_head_ops(c, parent, id, margin), id),
{
    let s = child_head_ops(c, parent, id, margin);
    assert(s.take(0) =~= Seq::<WorldOp>::empty());
    assert(s.take(1) =~= seq![s[0]]);
    assert(s.take(2) =~= seq![s[0], s[1]]);
    assert(s.take(2).drop_last() =~= seq![s[0]]);
    assert(seq![s[0]].drop_last() =~= Seq::<WorldOp>::empty());
    reveal_with_fuel(count_kind, 3);
    assert(rigid_body_count(s.take(0)) == 0);
    assert(rigid_body_count(s.take(1)) == 1);
    assert(rigid_body_count(s.take(2)) == 1);
}

proof fn lemma_forest_numbered(cs: Seq<BodyPartChild>, parent: nat, first: nat, margin: i64)
    requires
        parent < first,
        first + forest_size(cs) <= usize::MAX + 1,
    ensures
        numbered_from(forest_ops(cs, parent, first, margin), first),
    decreases cs,
{
    if cs.len() > 0 {
        let c = cs.last();
        let id = first + forest_size(cs.drop_last());
        let left = forest_ops(cs.drop_last(), parent, first, margin);
        let mid = child_head_ops(c, parent, id, margin);
        let right = forest_ops(c.part.children@, id, id + 1, margin);
        assert(forest_size(cs) == forest_size(cs.drop_last()) + tree_size(c.part));
        assert(tree_size(c.part) == 1 + forest_size(c.part.children@));
        lemma_forest_numbered(cs.drop_last(), parent, first, margin);
        lemma_forest_numbered(c.part.children@, id, id + 1, margin);
        lemma_forest_counts(cs.drop_last(), parent, first, margin, 0);
        lemma_child_head_counts(c, parent, id, margin, 0);
        lemma_child_head_numbered(c, parent, id, margin);
        lemma_numbered_add(left, mid, first);
        lemma_count_add(left, mid, 0);
        lemma_numbered_add(left + mid, right, first);
        assert(forest_ops(cs, parent, first, margin) == left + mid + right);
    }
}

/// In the operations that build a body, the rigid bodies are numbered in the
/// order in which they are added, from zero, and every collider and joint
/// constraint, and every attached placement, names a rigid body added before
/// it; so a parent's rigid body always exists before its child is attached.
pub proof fn lemma_build_numbering(body: Body, root_pose: Pose, collider_margin: i64)
    requires
        tree_size(body.tree) <= usize::MAX,
    ensures
        numbered_from(body_ops(body, root_pose, collider_margin), 0),
{
    let head = seq![
        WorldOp::AddRigidBody { id: 0, geometry: body.tree.geometry, placement: Placement::Root(root_pose) },
        WorldOp::AddCollider { body: 0, margin: collider_margin, geometry: body.tree.geometry },
    ];
    let rest = forest_ops(body.tree.children@, 0, 1, collider_margin);
    assert(head.take(0) =~= Seq::<WorldOp>::empty());
    assert(head.take(1) =~= seq![head[0]]);
    assert(seq![head[0]].drop_last() =~= Seq::<WorldOp>::empty());
    assert(head.drop_last() =~= seq![head[0]]);
    reveal_with_fuel(count_kind, 3);
    assert(rigid_body_count(head.take(0)) == 0);
    assert(rigid_body_count(head.take(1)) == 1);
    assert(rigid_body_count(head) == 1);
    assert(numbered_from(head, 0));
    lemma_forest_numbered(body.tree.children@, 0, 1, collider_margin);
    lemma_numbered_add(head, rest, 0);
    assert(body_ops(body, root_pose, collider_margin) == head + rest);
}

/// Whether every rigid body that `o` names is numbered in `[lo, hi)`; a
/// rigid body that `o` adds must be attached to one in that range too.
pub open spec fn op_within(o: WorldOp, lo: nat, hi: nat) -> bool {
    match o {
        WorldOp::AddRigidBody { id, placement, .. } => {
            &&& lo <= id < hi
            &&& placement matches Placement::Attached { parent, .. } && lo <= parent < hi
        },
        WorldOp::AddCollider { body, .. } => lo <= body < hi,
        WorldOp::AddJointConstraint { parent, child, .. } => lo <= parent < hi && lo <= child < hi,
    }
}

proof fn lemma_forest_within(cs: Seq<BodyPartChild>, parent: nat, first: nat, margin: i64, lo: nat, hi: nat)
    requires
        lo <= parent < first,
        first + forest_size(cs) <= hi,
        hi <= usize::MAX + 1,
    ensures
        forall|k: int|
            0 <= k < forest_ops(cs, parent, first, margin).len() ==> op_within(
                #[trigger] forest_ops(cs, parent, first, margin)[k],
                lo,
                hi,
            ),
    decreases cs,
{
    if cs.len() > 0 {
        let c = cs.last();
        let id = first + forest_size(cs.drop_last());
        let left = forest_ops(cs.drop_last(), parent, first, margin);
        let mid = child_head_ops(c, parent, id, margin);
        let right = forest_ops(c.part.children@, id, id + 1, margin);
        assert(forest_size(cs) == forest_size(cs.drop_last()) + tree_size(c.part));
        assert(tree_size(c.part) == 1 + forest_size(c.part.children@));
        lemma_forest_within(cs.drop_last(), parent, first, margin, lo, hi);
        lemma_forest_within(c.part.children@, id, id + 1, margin, lo, hi);
        let all = forest_ops(cs, parent, first, margin);
        assert(all == left + mid + right);
        assert forall|k: int| 0 <= k < all.len() implies op_within(#[trigger] all[k], lo, hi) by {
            if k < left.len() {
                assert(all[k] == left[k]);
            } else if k < left.len() + 3 {
                assert(all[k] == mid[k - left.len()]);
            } else {
                assert(all[k] == right[k - left.len() - 3]);
            }
        }
    }
}

/// The operations that build the descendants of a child part numbered `id`
/// name only rigid bodies of that child's subtree, numbered in
/// `[id, id + tree_size(c.part))`, and none of them adds a rigid body outside
/// it: a search by `subtree_end` from the child's joint constraint, which
/// these operations follow, does not stop among them.
pub proof fn lemma_subtree_ops_stay(c: BodyPartChild, id: nat, margin: i64)
    requires
        id + tree_size(c.part) <= usize::MAX + 1,
    ensures
        forall|k: int|
            0 <= k < forest_ops(c.part.children@, id, id + 1, margin).len() ==> {
                &&& op_within(
                    #[trigger] forest_ops(c.part.children@, id, id + 1, margin)[k],
                    id,
                    id + tree_size(c.part),
                )
                &&& !leaves_subtree(forest_ops(c.part.children@, id, id + 1, margin)[k], id as usize)
            },
{
    assert(tree_size(c.part) == 1 + forest_size(c.part.children@));
    lemma_forest_within(c.part.children@, id, id + 1, margin, id, id + tree_size(c.part));
}

proof fn lemma_forest_len(cs: Seq<BodyPartChild>, parent: nat, first: nat, margin: i64)
    ensures
        forest_ops(cs, parent, first, margin).len() == 3 * forest_size(cs),
    decreases cs,
{
    if cs.len() > 0 {
        let c = cs.last();
        let id = first + forest_size(cs.drop_last());
        lemma_forest_len(cs.drop_last(), parent, first, margin);
        lemma_forest_len(c.part.children@, id, id + 1, margin);
        assert(forest_size(cs) == forest_size(cs.drop_last()) + tree_size(c.part));
        assert(tree_size(c.part) == 1 + forest_size(c.part.children@));
    }
}

/// Whether the joint constraint at `j` is followed by the `3 * n` operations
/// of a subtree of `n + 1` rigid bodies numbered from its child on, after
/// which `ops` ends or adds a rigid body outside that subtree.
pub open spec fn subtree_span(ops: Seq<WorldOp>, j: int, n: nat) -> bool {
    let c = ops[j]->AddJointConstraint_child;
    &&& j + 1 + 3 * n <= ops.len()
    &&& forall|k: int| j < k < j + 1 + 3 * n ==> op_within(#[trigger] ops[k], c as nat, (c + n + 1) as nat)
    &&& j + 1 + 3 * n == ops.len() || leaves_subtree(ops[j + 1 + 3 * n], c)
}

proof fn lemma_span_shift(a: Seq<WorldOp>, b: Seq<WorldOp>, j: int, n: nat)
    requires
        0 <= j < b.len(),
        b[j] is AddJointConstraint,
        subtree_span(b, j, n),
    ensures
        subtree_span(a + b, a.len() + j, n),
{
    let f = a + b;
    let jj = a.len() + j;
    assert(f[jj] == b[j]);
    assert forall|k: int| jj < k < jj + 1 + 3 * n implies op_within(
        #[trigger] f[k],
        f[jj]->AddJointConstraint_child as nat,
        (f[jj]->AddJointConstraint_child + n + 1) as nat,
    ) by {
        assert(f[k] == b[k - a.len()]);
    }
    if j + 1 + 3 * n < b.len() {
        assert(f[jj + 1 + 3 * n] == b[j + 1 + 3 * n]);
    }
}

proof fn lemma_forest_spans(cs: Seq<BodyPartChild>, parent: nat, first: nat, margin: i64)
    requires
        parent < first,
        first + forest_size(cs) <= usize::MAX + 1,
    ensures
        forall|j: int|
            0 <= j < forest_ops(cs, parent, first, margin).len() && (#[trigger] forest_ops(
                cs,
                parent,
                first,
                margin,
            )[j]) is AddJointConstraint ==> {
                &&& first <= forest_ops(cs, parent, first, margin)[j]->AddJointConstraint_child
                &&& exists|n: nat| #[trigger] subtree_span(forest_ops(cs, parent, first, margin), j, n)
            },
    decreases cs,
{
    if cs.len() > 0 {
        let c = cs.last();
        let id = first + forest_size(cs.drop_last());
        let left = forest_ops(cs.drop_last(), parent, first, margin);
        let mid = child_head_ops(c, parent, id, margin);
        let right = forest_ops(c.part.children@, id, id + 1, margin);
        let all = forest_ops(cs, parent, first, margin);
        assert(forest_size(cs) == forest_size(cs.drop_last()) + tree_size(c.part));
        assert(tree_size(c.part) == 1 + forest_size(c.part.children@));
        lemma_forest_spans(cs.drop_last(), parent, first, margin);
        lemma_forest_spans(c.part.children@, id, id + 1, margin);
        lemma_forest_within(c.part.children@, id, id + 1, margin, id, id + tree_size(c.part));
        lemma_forest_len(cs.drop_last(), parent, first, margin);
        lemma_forest_len(c.part.children@, id, id + 1, margin);
        assert(all == left + mid + right);
        assert(all == left + (mid + right));
        assert forall|j: int| 0 <= j < all.len() && (#[trigger] all[j]) is AddJointConstraint implies {
            &&& first <= all[j]->AddJointConstraint_child
            &&& exists|n: nat| #[trigger] subtree_span(all, j, n)
        } by {
            if j < left.len() {
                assert(all[j] == left[j]);
                let n = choose|n: nat| #[trigger] subtree_span(left, j, n);
                let e = j + 1 + 3 * n;
                assert forall|k: int| j < k < e implies op_within(
                    #[trigger] all[k],
                    all[j]->AddJointConstraint_child as nat,
                    (all[j]->AddJointConstraint_child + n + 1) as nat,
                ) by {
                    assert(all[k] == left[k]);
                }
                if e < left.len() {
                    assert(all[e] == left[e]);
                } else {
                    assert(all[e] == mid[0]);
                }
                assert(subtree_span(all, j, n));
            } else if j < left.len() + 3 {
                assert(all[j] == mid[j - left.len()]);
                assert(j == left.len() + 2);
                let n = forest_size(c.part.children@);
                assert forall|k: int| j < k < j + 1 + 3 * n implies op_within(
                    #[trigger] all[k],
                    id,
                    id + n + 1,
                ) by {
                    assert(all[k] == right[k - left.len() - 3]);
                }
                assert(subtree_span(all, j, n));
            } else {
                let jr = j - left.len() - 3;
                assert(all[j] == right[jr]);
                let n = choose|n: nat| #[trigger] subtree_span(right, jr, n);
                lemma_span_shift(left + mid, right, jr, n);
                assert(left + mid + right == all);
                assert(subtree_span(all, j, n));
            }
        }
    }
}

/// In the operations that build a body, each joint constraint is followed
/// by the operations of its child's subtree, all naming only rigid bodies
/// numbered in `[child, child + n]` for some `n`, and after them the
/// operations end or add a rigid body outside that subtree. So `subtree_end`
/// from a joint constraint returns the end of its child's subtree: a world
/// that gives up that child's subtree goes on with the next sibling.
pub proof fn lemma_build_subtree_spans(body: Body, root_pose: Pose, collider_margin: i64, j: int)
    requires
        tree_size(body.tree) <= usize::MAX,
        0 <= j < body_ops(body, root_pose, collider_margin).len(),
        body_ops(body, root_pose, collider_margin)[j] is AddJointConstraint,
    ensures
        exists|n: nat| #[trigger] subtree_span(body_ops(body, root_pose, collider_margin), j, n),
{
    let head = seq![
        WorldOp::AddRigidBody { id: 0, geometry: body.tree.geometry, placement: Placement::Root(root_pose) },
        WorldOp::AddCollider { body: 0, margin: collider_margin, geometry: body.tree.geometry },
    ];
    let rest = forest_ops(body.tree.children@, 0, 1, collider_margin);
    let ops = body_ops(body, root_pose, collider_margin);
    assert(ops == head + rest);
    lemma_forest_spans(body.tree.children@, 0, 1, collider_margin);
    assert(j >= 2);
    assert(ops[j] == rest[j - 2]);
    let n = choose|n: nat| #[trigger] subtree_span(rest, j - 2, n);
    lemma_span_shift(head, rest, j - 2, n);
}

/// Whether the operation at `i` stands in its group: a rigid body is
/// followed by its collider and, if attached, by the joint constraint to its
/// parent; a collider follows its rigid body; a joint constraint comes two
/// after the rigid body of its child, attached to its parent.
pub open spec fn grouped_at(ops: Seq<WorldOp>, i: int) -> bool {
    match ops[i] {
        WorldOp::AddRigidBody { id, placement, .. } => {
            &&& i + 1 < ops.len()
            &&& ops[i + 1] matches WorldOp::AddCollider { body, .. } && body == id
            &&& placement matches Placement::Attached { parent, .. } ==> {
                &&& i + 2 < ops.len()
                &&& ops[i + 2] matches WorldOp::AddJointConstraint { parent: p, child, .. } && p == parent
                    && child == id
            }
        },
        WorldOp::AddCollider { body, .. } => {
            &&& i >= 1
            &&& ops[i - 1] matches WorldOp::AddRigidBody { id, .. } && id == body
        },
        WorldOp::AddJointConstraint { parent, child, .. } => {
            &&& i >= 2
            &&& ops[i - 2] matches WorldOp::AddRigidBody {
                id,
                placement: Placement::Attached { parent: p, .. },
                ..
            } && id == child && p == parent
        },
    }
}

/// Whether every operation of `ops` stands in its group.
pub open spec fn grouped(ops: Seq<WorldOp>) -> bool {
    forall|i: int| 0 <= i < ops.len() ==> #[trigger] grouped_at(ops, i)
}

proof fn lemma_grouped_add(a: Seq<WorldOp>, b: Seq<WorldOp>)
    requires
        grouped(a),
        grouped(b),
    ensures
        grouped(a + b),
{
    let f = a + b;
    assert forall|i: int| 0 <= i < f.len() implies #[trigger] grouped_at(f, i) by {
        if i < a.len() {
            assert(grouped_at(a, i));
            assert(f[i] == a[i]);
            if i + 1 < a.len() {
                assert(f[i + 1] == a[i + 1]);
            }
            if i + 2 < a.len() {
                assert(f[i + 2] == a[i + 2]);
            }
            if i >= 1 {
                assert(f[i - 1] == a[i - 1]);
            }
            if i >= 2 {
                assert(f[i - 2] == a[i - 2]);
            }
        } else {
            let k = i - a.len();
            assert(grouped_at(b, k));
            assert(f[i] == b[k]);
            if k + 1 < b.len() {
                assert(f[i + 1] == b[k + 1]);
            }
            if k + 2 < b.len() {
                assert(f[i + 2] == b[k + 2]);
            }
            if k >= 1 {
                assert(f[i - 1] == b[k - 1]);
            }
            if k >= 2 {
                assert(f[i - 2] == b[k - 2]);
            }
        }
    }
}

proof fn lemma_forest_grouped(cs: Seq<BodyPartChild>, parent: nat, first: nat, margin: i64)
    ensures
        grouped(forest_ops(cs, parent, first, margin)),
    decreases cs,
{
    if cs.len() == 0 {
        assert(forest_ops(cs, parent, first, margin).len() == 0);
    } else {
        let c = cs.last();
        let id = first + forest_size(cs.drop_last());
        let mid = child_head_ops(c, parent, id, margin);
        lemma_forest_grouped(cs.drop_last(), parent, first, margin);
        lemma_forest_grouped(c.part.children@, id, id + 1, margin);
        assert(grouped_at(mid, 0));
        assert(grouped_at(mid, 1));
        assert(grouped_at(mid, 2));
        lemma_grouped_add(forest_ops(cs.drop_last(), parent, first, margin), mid);
        lemma_grouped_add(
            forest_ops(cs.drop_last(), parent, first, margin) + mid,
            forest_ops(c.part.children@, id, id + 1, margin),
        );
    }
}

/// In the operations that build a body, each rigid body is followed at once
/// by its one collider, and each attached rigid body, two operations on, by
/// the one joint constraint from the body it is attached to; each collider
/// and joint constraint belongs to such a group. With the numbering of
/// `lemma_build_numbering`, every part gets one rigid body and one collider,
/// and every parent-child edge one joint constraint.
pub proof fn lemma_build_grouped(body: Body, root_pose: Pose, collider_margin: i64)
    ensures
        grouped(body_ops(body, root_pose, collider_margin)),
{
    let head = seq![
        WorldOp::AddRigidBody { id: 0, geometry: body.tree.geometry, placement: Placement::Root(root_pose) },
        WorldOp::AddCollider { body: 0, margin: collider_margin, geometry: body.tree.geometry },
    ];
    assert(grouped_at(head, 0));
    assert(grouped_at(head, 1));
    lemma_forest_grouped(body.tree.children@, 0, 1, collider_margin);
    lemma_grouped_add(head, forest_ops(body.tree.children@, 0, 1, collider_margin));
    assert(body_ops(body, root_pose, collider_margin) == head + forest_ops(body.tree.children@, 0, 1, collider_margin));
}

} // verus!
