use nstc::actor::{Actor, ActorError, BlockBody, Body, BodyPart, Joint, StepClock};
use nstc::geometry::{Pose, Shape, Vec3, SCALE};
use nstc::simulate::{build_body, subtree_end, within_depth, Placement, WorldOp, DEFAULT_MAX_DEPTH};

fn unit_x() -> Vec3 {
    Vec3::new(SCALE, 0, 0)
}

fn unit_y() -> Vec3 {
    Vec3::new(0, SCALE, 0)
}

fn origin() -> Pose {
    Pose { translation: Vec3::new(0, 0, 0), rotation: Vec3::new(0, 0, 0) }
}

fn cube(edge: i64) -> Shape {
    Shape::Cuboid { half_extents: Vec3::new(edge / 2, edge / 2, edge / 2) }
}

fn hinge() -> Joint {
    Joint::new(-SCALE / 2, SCALE / 2, unit_y(), unit_x(), None).unwrap()
}

fn counts(ops: &[WorldOp]) -> (usize, usize, usize) {
    let bodies = ops.iter().filter(|o| matches!(o, WorldOp::AddRigidBody { .. })).count();
    let colliders = ops.iter().filter(|o| matches!(o, WorldOp::AddCollider { .. })).count();
    let joints = ops.iter().filter(|o| matches!(o, WorldOp::AddJointConstraint { .. })).count();
    (bodies, colliders, joints)
}

#[test]
fn joint_accepts_valid_spec() {
    let j = Joint::new(-SCALE, SCALE, unit_y(), unit_x(), Some(3 * SCALE)).unwrap();
    assert_eq!(j.min_angle_rad(), -SCALE);
    assert_eq!(j.max_angle_rad(), SCALE);
    assert_eq!(j.axis(), unit_y());
    assert_eq!(j.parent_attachment(), unit_x());
    assert_eq!(j.angular_velocity(), Some(3 * SCALE));
    assert!(j.is_valid());
}

#[test]
fn joint_accepts_equal_limits() {
    assert!(Joint::new(SCALE, SCALE, unit_y(), unit_x(), None).is_ok());
}

#[test]
fn joint_rejects_inverted_limits() {
    let r = Joint::new(SCALE, -SCALE, unit_y(), unit_x(), None);
    assert_eq!(r, Err(ActorError::InvalidJointSpec));
}

#[test]
fn joint_rejects_non_unit_axis() {
    let r = Joint::new(-SCALE, SCALE, Vec3::new(0, 2 * SCALE, 0), unit_x(), None);
    assert_eq!(r, Err(ActorError::InvalidJointSpec));
    let r = Joint::new(-SCALE, SCALE, Vec3::new(0, 0, 0), unit_x(), None);
    assert_eq!(r, Err(ActorError::InvalidJointSpec));
}

#[test]
fn joint_rejects_zero_attachment() {
    let r = Joint::new(-SCALE, SCALE, unit_y(), Vec3::new(0, 0, 0), None);
    assert_eq!(r, Err(ActorError::InvalidJointSpec));
}

#[test]
fn joint_unit_tolerance_is_one_unit() {
    assert!(Joint::new(0, 0, Vec3::new(SCALE + 1, 0, 0), unit_x(), None).is_ok());
    assert!(Joint::new(0, 0, Vec3::new(SCALE - 1, 0, 0), unit_x(), None).is_ok());
    assert!(Joint::new(0, 0, Vec3::new(SCALE + 2, 0, 0), unit_x(), None).is_err());
    assert!(Joint::new(0, 0, Vec3::new(0, 0, -SCALE - 2), unit_x(), None).is_err());
    // (0.6, 0.8, 0) has unit length
    assert!(Joint::new(0, 0, Vec3::new(600_000, 800_000, 0), unit_x(), None).is_ok());
}

#[test]
fn joint_extreme_components_do_not_overflow() {
    let big = Vec3::new(i64::MIN, i64::MIN, i64::MIN);
    assert!(Joint::new(0, 0, big, unit_x(), None).is_err());
    assert_eq!(big.norm_squared(), 3 * (1u128 << 126));
}

#[test]
fn joint_velocity_can_be_set() {
    let mut j = hinge();
    j.set_angular_velocity(Some(SCALE));
    assert_eq!(j.angular_velocity(), Some(SCALE));
    assert_eq!(j.axis(), unit_y());
    assert_eq!(j.min_angle_rad(), -SCALE / 2);
    j.set_angular_velocity(None);
    assert_eq!(j.angular_velocity(), None);
}

#[test]
fn block_body_has_single_part() {
    let actor = BlockBody::new(Vec3::new(5 * SCALE, SCALE, 2 * SCALE));
    let body = actor.body();
    assert!(body.tree.children.is_empty());
    assert_eq!(
        body.tree.geometry,
        Shape::Cuboid { half_extents: Vec3::new(2_500_000, 500_000, 1_000_000) }
    );
}

#[test]
fn block_body_builds_one_body_one_collider() {
    let actor = BlockBody::new(Vec3::new(5 * SCALE, SCALE, 2 * SCALE));
    let pose = Pose { translation: Vec3::new(0, SCALE, 0), rotation: Vec3::new(0, 0, 0) };
    let ops = build_body(actor.body(), pose, 10_000);
    assert_eq!(counts(&ops), (1, 1, 0));
    let geometry = Shape::Cuboid { half_extents: Vec3::new(2_500_000, 500_000, 1_000_000) };
    assert_eq!(
        ops,
        vec![
            WorldOp::AddRigidBody { id: 0, geometry, placement: Placement::Root(pose) },
            WorldOp::AddCollider { body: 0, margin: 10_000, geometry },
        ]
    );
}

#[test]
fn block_body_half_extents_round_towards_zero() {
    let actor = BlockBody::new(Vec3::new(3, -3, 0));
    assert_eq!(actor.body().tree.geometry, Shape::Cuboid { half_extents: Vec3::new(1, -1, 0) });
}

#[test]
fn root_with_one_child_builds_joint() {
    let mut root = BodyPart::new(cube(2 * SCALE));
    root.add_child(hinge(), BodyPart::new(Shape::Ball { radius: SCALE }));
    let body = Body::new(root);
    let ops = build_body(&body, origin(), 0);
    assert_eq!(counts(&ops), (2, 2, 1));
    assert_eq!(ops.len(), 5);
    assert_eq!(
        ops[2],
        WorldOp::AddRigidBody {
            id: 1,
            geometry: Shape::Ball { radius: SCALE },
            placement: Placement::Attached { parent: 0, attachment: unit_x() },
        }
    );
    assert_eq!(ops[3], WorldOp::AddCollider { body: 1, margin: 0, geometry: Shape::Ball { radius: SCALE } });
    match ops[4] {
        WorldOp::AddJointConstraint { parent, child, joint } => {
            assert_eq!((parent, child), (0, 1));
            assert_eq!(joint.axis(), unit_y());
            assert_eq!(joint.min_angle_rad(), -500_000);
            assert_eq!(joint.max_angle_rad(), 500_000);
            assert_eq!(joint.parent_attachment(), unit_x());
        }
        _ => panic!("expected a joint constraint"),
    }
}

#[test]
fn three_level_tree_links_grandchild_to_child() {
    let mut child = BodyPart::new(cube(SCALE));
    child.add_child(hinge(), BodyPart::new(cube(SCALE / 2)));
    let mut root = BodyPart::new(cube(2 * SCALE));
    root.add_child(hinge(), child);
    let ops = build_body(&Body::new(root), origin(), 10_000);
    assert_eq!(counts(&ops), (3, 3, 2));
    let links: Vec<(usize, usize)> = ops
        .iter()
        .filter_map(|o| match o {
            WorldOp::AddJointConstraint { parent, child, .. } => Some((*parent, *child)),
            _ => None,
        })
        .collect();
    assert_eq!(links, vec![(0, 1), (1, 2)]);
    assert!(matches!(
        ops[5],
        WorldOp::AddRigidBody { id: 2, placement: Placement::Attached { parent: 1, .. }, .. }
    ));
}

#[test]
fn siblings_are_numbered_in_pre_order() {
    // root -> (a -> a1), b
    let mut a = BodyPart::new(cube(SCALE));
    a.add_child(hinge(), BodyPart::new(cube(SCALE)));
    let mut root = BodyPart::new(cube(SCALE));
    root.add_child(hinge(), a);
    root.add_child(hinge(), BodyPart::new(cube(SCALE)));
    let ops = build_body(&Body::new(root), origin(), 0);
    assert_eq!(counts(&ops), (4, 4, 3));
    let links: Vec<(usize, usize)> = ops
        .iter()
        .filter_map(|o| match o {
            WorldOp::AddJointConstraint { parent, child, .. } => Some((*parent, *child)),
            _ => None,
        })
        .collect();
    assert_eq!(links, vec![(0, 1), (1, 2), (0, 3)]);
}

#[test]
fn same_shape_trees_build_alike() {
    let make = |edge: i64, margin: i64| {
        let mut child = BodyPart::new(cube(edge));
        child.add_child(hinge(), BodyPart::new(Shape::Ball { radius: edge }));
        let mut root = BodyPart::new(cube(edge));
        root.add_child(hinge(), child);
        root.add_child(hinge(), BodyPart::new(cube(edge)));
        build_body(&Body::new(root), origin(), margin)
    };
    let a = make(SCALE, 0);
    let b = make(3 * SCALE, 5_000);
    let link = |o: &WorldOp| match *o {
        WorldOp::AddRigidBody { id, placement: Placement::Root(_), .. } => (0, id, usize::MAX),
        WorldOp::AddRigidBody { id, placement: Placement::Attached { parent, .. }, .. } => (0, id, parent),
        WorldOp::AddCollider { body, .. } => (1, body, usize::MAX),
        WorldOp::AddJointConstraint { parent, child, .. } => (2, parent, child),
    };
    assert_eq!(counts(&a), counts(&b));
    assert_eq!(a.iter().map(link).collect::<Vec<_>>(), b.iter().map(link).collect::<Vec<_>>());
}

#[test]
fn step_with_increasing_times_succeeds() {
    let mut actor = BlockBody::new(Vec3::new(SCALE, SCALE, SCALE));
    assert_eq!(actor.step(-5), Ok(()));
    assert_eq!(actor.step(0), Ok(()));
    assert_eq!(actor.step(1), Ok(()));
    assert_eq!(actor.step(i64::MAX), Ok(()));
}

#[test]
fn step_with_repeated_or_earlier_time_fails() {
    let mut actor = BlockBody::new(Vec3::new(SCALE, SCALE, SCALE));
    assert_eq!(actor.step(10), Ok(()));
    assert_eq!(actor.step(10), Err(ActorError::InvalidStepOrdering));
    assert_eq!(actor.step(9), Err(ActorError::InvalidStepOrdering));
    assert_eq!(actor.step(11), Ok(()));
}

#[test]
fn first_step_accepts_any_time() {
    let mut actor = BlockBody::new(Vec3::new(SCALE, SCALE, SCALE));
    assert_eq!(actor.step(i64::MIN), Ok(()));
    assert_eq!(actor.step(i64::MIN), Err(ActorError::InvalidStepOrdering));
}

#[test]
fn refused_step_leaves_clock_unchanged() {
    let mut clock = StepClock::new();
    assert_eq!(clock.advance(4), Ok(()));
    assert_eq!(clock.advance(2), Err(ActorError::InvalidStepOrdering));
    assert_eq!(clock.last, Some(4));
    assert_eq!(clock.advance(5), Ok(()));
    assert_eq!(clock.last, Some(5));
}

#[test]
fn subtree_end_skips_failed_child_subtree() {
    // root -> (a -> a1 -> a2), b
    let mut a1 = BodyPart::new(cube(SCALE));
    a1.add_child(hinge(), BodyPart::new(cube(SCALE)));
    let mut a = BodyPart::new(cube(SCALE));
    a.add_child(hinge(), a1);
    let mut root = BodyPart::new(cube(SCALE));
    root.add_child(hinge(), a);
    root.add_child(hinge(), BodyPart::new(cube(SCALE)));
    let ops = build_body(&Body::new(root), origin(), 0);
    assert_eq!(ops.len(), 14);
    // joint of a (body 1) at index 4: its subtree runs up to the rigid body of b
    assert!(matches!(ops[4], WorldOp::AddJointConstraint { parent: 0, child: 1, .. }));
    assert!(matches!(ops[11], WorldOp::AddRigidBody { id: 4, .. }));
    assert_eq!(subtree_end(&ops, 4), 11);
    // joints of a1 (body 2) and a2 (body 3) end there too
    assert_eq!(subtree_end(&ops, 7), 11);
    assert_eq!(subtree_end(&ops, 10), 11);
    // joint of b (body 4) is the last operation
    assert_eq!(subtree_end(&ops, 13), 14);
}

#[test]
fn block_body_unchanged_by_steps() {
    let mut actor = BlockBody::new(Vec3::new(5 * SCALE, SCALE, 2 * SCALE));
    let expected = Shape::Cuboid { half_extents: Vec3::new(2_500_000, 500_000, 1_000_000) };
    for time in [0, SCALE / 2, SCALE] {
        assert_eq!(actor.step(time), Ok(()));
        assert_eq!(actor.body().tree.geometry, expected);
        assert!(actor.body().tree.children.is_empty());
    }
    assert_eq!(actor.step(SCALE), Err(ActorError::InvalidStepOrdering));
    assert_eq!(actor.body().tree.geometry, expected);
}

#[test]
fn depth_guard_counts_parts_on_longest_path() {
    // root -> (a -> a1), b: three parts deep
    let mut a = BodyPart::new(cube(SCALE));
    a.add_child(hinge(), BodyPart::new(cube(SCALE)));
    let mut root = BodyPart::new(cube(SCALE));
    root.add_child(hinge(), BodyPart::new(cube(SCALE)));
    root.add_child(hinge(), a);
    let body = Body::new(root);
    assert!(within_depth(&body, 3));
    assert!(!within_depth(&body, 2));
    assert!(!within_depth(&body, 0));
    assert!(within_depth(&body, DEFAULT_MAX_DEPTH));
    let block = BlockBody::new(Vec3::new(SCALE, SCALE, SCALE));
    assert!(within_depth(block.body(), 1));
    assert!(!within_depth(block.body(), 0));
}

#[test]
fn depth_guard_refuses_deep_chain() {
    let mut part = BodyPart::new(cube(SCALE));
    for _ in 0..DEFAULT_MAX_DEPTH {
        let mut parent = BodyPart::new(cube(SCALE));
        parent.add_child(hinge(), part);
        part = parent;
    }
    let body = Body::new(part);
    assert!(within_depth(&body, DEFAULT_MAX_DEPTH + 1));
    assert!(!within_depth(&body, DEFAULT_MAX_DEPTH));
}
