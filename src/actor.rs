//! The kinematic tree of an actor's body, and the actors that drive it.
use vstd::prelude::*;
use crate::geometry::{is_unit, Shape, Vec3};

verus! {

broadcast use vstd::std_specs::vec::group_vec_axioms, vstd::seq::group_seq_axioms;

/// What the constructors and the stepping of this module refuse.
#[derive(Debug, Clone, Copy, PartialEq, Eq, Structural)]
pub enum ActorError {
    /// A joint with inverted angle limits, or a non-unit axis or attachment.
    InvalidJointSpec,
    /// A step whose time does not come strictly after the previous step's.
    InvalidStepOrdering,
    /// A joint that the physics world cannot represent.
    UnsupportedJointConfiguration,
}

/// Whether a joint with these parameters may be built: the limits are in
/// order and both directions have unit length.
pub open spec fn joint_spec_valid(min_angle_rad: i64, max_angle_rad: i64, axis: Vec3, parent_attachment: Vec3) -> bool {
    &&& min_angle_rad <= max_angle_rad
    &&& is_unit(axis)
    &&& is_unit(parent_attachment)
}

/// An axial joint connecting a body part to its parent.
#[derive(Debug, Clone, Copy, PartialEq, Eq)]
pub struct Joint {
    /// The maximum angle allowed by the joint, in fixed-point radians.
    max_angle_rad: i64,
    /// The minimum angle allowed by the joint, in fixed-point radians.
    min_angle_rad: i64,
    /// The rotation axis of the joint.
    axis: Vec3,
    /// The direction from the parent's centre towards the attachment point;
    /// the joint is anchored where this direction leaves the parent's shape.
    parent_attachment: Vec3,
    /// The commanded angular velocity, or `None` for free rotation.
    angular_velocity: Option<i64>,
}

impl Joint {
    #[verifier::type_invariant]
    spec fn inv(self) -> bool {
        joint_spec_valid(self.min_angle_rad, self.max_angle_rad, self.axis, self.parent_attachment)
    }

    pub closed spec fn spec_min_angle_rad(self) -> i64 {
        self.min_angle_rad
    }

    pub closed spec fn spec_max_angle_rad(self) -> i64 {
        self.max_angle_rad
    }

    pub closed spec fn spec_axis(self) -> Vec3 {
        self.axis
    }

    pub closed spec fn spec_parent_attachment(self) -> Vec3 {
        self.parent_attachment
    }

    pub closed spec fn spec_angular_velocity(self) -> Option<i64> {
        self.angular_velocity
    }

    /// Builds a joint, refusing inverted limits and non-unit directions.
    pub fn new(
        min_angle_rad: i64,
        max_angle_rad: i64,
        axis: Vec3,
        parent_attachment: Vec3,
        angular_velocity: Option<i64>,
    ) -> (r: Result<Joint, ActorError>)
        ensures
            r is Ok <==> joint_spec_valid(min_angle_rad, max_angle_rad, axis, parent_attachment),
            r is Err ==> r == Err::<Joint, ActorError>(ActorError::InvalidJointSpec),
            r matches Ok(j) ==> {
                &&& j.spec_min_angle_rad() == min_angle_rad
                &&& j.spec_max_angle_rad() == max_angle_rad
                &&& j.spec_axis() == axis
                &&& j.spec_parent_attachment() == parent_attachment
                &&& j.spec_angular_velocity() == angular_velocity
            },
    {
        if min_angle_rad <= max_angle_rad && axis.is_unit() && parent_attachment.is_unit() {
            Ok(Joint { max_angle_rad, min_angle_rad, axis, parent_attachment, angular_velocity })
        } else {
            Err(ActorError::InvalidJointSpec)
        }
    }

    /// Every joint satisfies the conditions its constructor checks.
    pub fn is_valid(&self) -> (r: bool)
        ensures
            r,
            joint_spec_valid(
                self.spec_min_angle_rad(),
                self.spec_max_angle_rad(),
                self.spec_axis(),
                self.spec_parent_attachment(),
            ),
    {
        proof {
            use_type_invariant(self);
        }
        self.min_angle_rad <= self.max_angle_rad && self.axis.is_unit()
            && self.parent_attachment.is_unit()
    }

    pub fn min_angle_rad(&self) -> (r: i64)
        ensures
            r == self.spec_min_angle_rad(),
            r <= self.spec_max_angle_rad(),
    {
        proof {
            use_type_invariant(self);
        }
        self.min_angle_rad
    }

    pub fn max_angle_rad(&self) -> (r: i64)
        ensures
            r == self.spec_max_angle_rad(),
            self.spec_min_angle_rad() <= r,
    {
        proof {
            use_type_invariant(self);
        }
        self.max_angle_rad
    }

    pub fn axis(&self) -> (r: Vec3)
        ensures
            r == self.spec_axis(),
            is_unit(r),
    {
        proof {
            use_type_invariant(self);
        }
        self.axis
    }

    pub fn parent_attachment(&self) -> (r: Vec3)
        ensures
            r == self.spec_parent_attachment(),
            is_unit(r),
    {
        proof {
            use_type_invariant(self);
        }
        self.parent_attachment
    }

    pub fn angular_velocity(&self) -> (r: Option<i64>)
        ensures
            r == self.spec_angular_velocity(),
    {
        self.angular_velocity
    }

    /// Commands a new angular velocity; nothing else changes.
    pub fn set_angular_velocity(&mut self, angular_velocity: Option<i64>)
        ensures
            final(self).spec_angular_velocity() == angular_velocity,
            final(self).spec_min_angle_rad() == old(self).spec_min_angle_rad(),
            final(self).spec_max_angle_rad() == old(self).spec_max_angle_rad(),
            final(self).spec_axis() == old(self).spec_axis(),
            final(self).spec_parent_attachment() == old(self).spec_parent_attachment(),
    {
        proof {
            use_type_invariant(&*self);
        }
        self.angular_velocity = angular_velocity;
    }
}

/// A child of a body part, with the joint that attaches it to that part.
#[derive(Debug)]
pub struct BodyPartChild {
    /// The joint connecting this body part to its parent.
    pub joint: Joint,
    pub part: BodyPart,
}

/// A node of the kinematic tree: a shape and its ordered children.
#[derive(Debug)]
pub struct BodyPart {
    /// The physical shape of this body part.
    pub geometry: Shape,
    /// The child body parts of this one, in traversal order.
    pub children: Vec<BodyPartChild>,
}

impl BodyPart {
    /// A part with the given shape and no children.
    pub fn new(geometry: Shape) -> (r: BodyPart)
        ensures
            r.geometry == geometry,
            r.children@.len() == 0,
    {
        BodyPart { geometry, children: Vec::new() }
    }

    /// Attaches `part` to this one through `joint`, after the existing children.
    pub fn add_child(&mut self, joint: Joint, part: BodyPart)
        ensures
            final(self).geometry == old(self).geometry,
            final(self).children@ == old(self).children@.push(BodyPartChild { joint, part }),
    {
        self.children.push(BodyPartChild { joint, part });
    }
}

/// The body of an actor: the root of its kinematic tree, which no joint
/// attaches to anything.
#[derive(Debug)]
pub struct Body {
    /// The parts of the body, as a tree from parent to children.
    pub tree: BodyPart,
}

impl Body {
    pub fn new(tree: BodyPart) -> (r: Body)
        ensures
            r.tree == tree,
    {
        Body { tree }
    }
}

/// Whether `a` and `b` agree in everything but their angular velocity.
pub open spec fn same_but_velocity(a: Joint, b: Joint) -> bool {
    &&& a.spec_min_angle_rad() == b.spec_min_angle_rad()
    &&& a.spec_max_angle_rad() == b.spec_max_angle_rad()
    &&& a.spec_axis() == b.spec_axis()
    &&& a.spec_parent_attachment() == b.spec_parent_attachment()
}

/// Whether the trees rooted at `p` and `q` agree in everything but the
/// angular velocities of their joints.
pub open spec fn same_but_velocities(p: BodyPart, q: BodyPart) -> bool
    decreases p,
{
    &&& p.geometry == q.geometry
    &&& same_but_velocities_forest(p.children@, q.children@)
}

/// Whether the subtrees of `cs` and `ds` agree pairwise in everything but
/// the angular velocities of their joints.
pub open spec fn same_but_velocities_forest(cs: Seq<BodyPartChild>, ds: Seq<BodyPartChild>) -> bool
    decreases cs,
{
    &&& cs.len() == ds.len()
    &&& cs.len() > 0 ==> {
        &&& same_but_velocities_forest(cs.drop_last(), ds.drop_last())
        &&& same_but_velocity(cs.last().joint, ds.last().joint)
        &&& same_but_velocities(cs.last().part, ds.last().part)
    }
}

proof fn lemma_same_but_velocities_forest_refl(cs: Seq<BodyPartChild>)
    ensures
        same_but_velocities_forest(cs, cs),
    decreases cs,
{
    if cs.len() > 0 {
        lemma_same_but_velocities_forest_refl(cs.drop_last());
        lemma_same_but_velocities_forest_refl(cs.last().part.children@);
        assert(same_but_velocities(cs.last().part, cs.last().part));
    }
}

/// Every tree agrees with itself in everything but angular velocities.
pub proof fn lemma_same_but_velocities_refl(p: BodyPart)
    ensures
        same_but_velocities(p, p),
{
    lemma_same_but_velocities_forest_refl(p.children@);
}

/// Whether a step at `time` may follow the last accepted step time `last`.
pub open spec fn step_accepted(last: Option<i64>, time: i64) -> bool {
    match last {
        None => true,
        Some(t) => t < time,
    }
}

/// The time of the last accepted step, which the next one must exceed.
#[derive(Debug, Clone, Copy, PartialEq, Eq, Structural)]
pub struct StepClock {
    pub last: Option<i64>,
}

impl StepClock {
    /// A clock that has seen no step.
    pub fn new() -> (r: StepClock)
        ensures
            r.last is None,
    {
        StepClock { last: None }
    }

    /// Records a step at `time`, or refuses it if it does not come strictly
    /// after the last one; a refused step leaves the clock as it was.
    pub fn advance(&mut self, time: i64) -> (r: Result<(), ActorError>)
        ensures
            r is Ok <==> step_accepted(old(self).last, time),
            r is Ok ==> final(self).last == Some(time),
            r is Err ==> r == Err::<(), ActorError>(ActorError::InvalidStepOrdering) && *final(self)
                == *old(self),
    {
        match self.last {
            Some(t) => {
                if time <= t {
                    return Err(ActorError::InvalidStepOrdering);
                }
            },
            None => {},
        }
        self.last = Some(time);
        Ok(())
    }
}

/// Something with a body that updates its joint velocities over time.
pub trait Actor {
    /// The body as `body` shows it.
    spec fn body_view(&self) -> Body;

    /// The time of the last accepted step, if any.
    spec fn last_step_time(&self) -> Option<i64>;

    /// A read-only view of this actor's body, as the steps so far left it.
    fn body(&self) -> (r: &Body)
        ensures
            *r == self.body_view(),
    ;

    /// Updates the joint velocities for `time`, which must come strictly
    /// after the time of the previous accepted step. An accepted step changes
    /// nothing in the body but joints' angular velocities; a refused step
    /// changes neither the body nor the clock.
    fn step(&mut self, time: i64) -> (r: Result<(), ActorError>)
        ensures
            r is Ok <==> step_accepted(old(self).last_step_time(), time),
            r is Ok ==> final(self).last_step_time() == Some(time),
            r is Ok ==> same_but_velocities(old(self).body_view().tree, final(self).body_view().tree),
            r is Err ==> r == Err::<(), ActorError>(ActorError::InvalidStepOrdering)
                && final(self).last_step_time() == old(self).last_step_time()
                && final(self).body_view() == old(self).body_view(),
    ;
}

/// The simplest actor: a single box with no joints, whose steps change
/// nothing but the clock.
#[derive(Debug)]
pub struct BlockBody {
    body_: Body,
    clock: StepClock,
}

/// Half of `a`, rounded towards zero.
pub open spec fn half(a: i64) -> i64 {
    if a >= 0 {
        (a / 2) as i64
    } else {
        -((-a) / 2) as i64
    }
}

/// The half extents of a box of the given size.
pub open spec fn half_extents_of(size: Vec3) -> Vec3 {
    Vec3 { x: half(size.x), y: half(size.y), z: half(size.z) }
}

impl BlockBody {
    /// A block with the given edge lengths.
    pub fn new(size: Vec3) -> (r: BlockBody)
        ensures
            r.body_view().tree.geometry == (Shape::Cuboid { half_extents: half_extents_of(size) }),
            r.body_view().tree.children@.len() == 0,
            r.last_step_time() is None,
    {
        BlockBody {
            body_: Body {
                tree: BodyPart {
                    geometry: Shape::Cuboid {
                        half_extents: Vec3 { x: size.x / 2, y: size.y / 2, z: size.z / 2 },
                    },
                    children: Vec::new(),
                },
            },
            clock: StepClock::new(),
        }
    }
}

impl Actor for BlockBody {
    closed spec fn body_view(&self) -> Body {
        self.body_
    }

    closed spec fn last_step_time(&self) -> Option<i64> {
        self.clock.last
    }

    fn body(&self) -> (r: &Body) {
        &self.body_
    }

    /// A block has no joints: a step leaves its body as it was.
    fn step(&mut self, time: i64) -> (r: Result<(), ActorError>)
        ensures
            final(self).body_view() == old(self).body_view(),
    {
        proof {
            lemma_same_but_velocities_refl(self.body_.tree);
        }
        self.clock.advance(time)
    }
}

} // verus!
