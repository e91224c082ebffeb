//! The robot facade: building a collision model from a parsed description
//! and answering collision queries for joint configurations.
//!
//! Construction converts every link's collision geometries, assigns every
//! link its collision-group mask, registers all shapes with the contact
//! pipeline and sets up the kinematic chain — all exactly once. Afterwards
//! the model changes only through `set_joints`, which validates and stores
//! a joint vector all-or-nothing, and `update_contacts`, which applies the
//! outcome of one physics pass; `has_collision` then reduces the stored
//! contact report under the group filter.

use crate::chain::ChainJoint;
use crate::chain::JointLimit;
use crate::chain::KinematicChain;
use crate::chain::MimicJoint;
use crate::errors::BuildError;
use crate::errors::JointError;
use crate::errors::RobotError;
use crate::geometry::Geometry;
use crate::geometry::Pose;
use crate::geometry::ShapeDescriptor;
use crate::geometry::geometry_to_colliders;
use crate::geometry::spec_convert;
use crate::groups::AdjacencyIndex;
use crate::groups::CollisionGroupMask;
use crate::groups::assign_groups;
use crate::groups::get_bit;
use crate::groups::lemma_exclude_word_bits;
use crate::groups::lemma_excluded_pair_not_allowed;
use crate::groups::lemma_free_pair_allowed;
use crate::groups::lemma_same_link_pair_never_allowed;
use crate::groups::pair_allowed;
use crate::groups::spec_exclude_word;
use crate::groups::spec_filter_word;
use crate::pipeline::PipelineShape;
use crate::pipeline::SimpleCollisionPipeline;
use crate::pipeline::spec_valid_pairs;
use vstd::prelude::*;

verus! {

/// One collision geometry of a link, with its local placement.
#[derive(Clone, Debug)]
pub struct CollisionRecord {
    pub origin: Pose,
    pub geometry: Geometry,
}

/// One link of the description: its name and its collision records.
#[derive(Clone, Debug)]
pub struct LinkDesc {
    pub name: String,
    pub collisions: Vec<CollisionRecord>,
}

/// How a joint constrains motion. A continuous joint is a revolute joint
/// without a declared limit.
#[derive(Clone, Copy, Debug, PartialEq, Eq, Structural)]
pub enum JointKind {
    Revolute,
    Prismatic,
    Fixed,
}

/// A mimic relationship: this joint's position is derived from the named
/// source joint, `multiplier * source / 1_000_000 + offset`, fixed point.
#[derive(Clone, Debug)]
pub struct MimicDecl {
    pub source: String,
    pub multiplier: i64,
    pub offset: i64,
}

/// One joint of the description.
#[derive(Clone, Debug)]
pub struct JointDesc {
    pub name: String,
    pub parent: String,
    pub child: String,
    pub kind: JointKind,
    pub limit: Option<JointLimit>,
    pub mimic: Option<MimicDecl>,
}

/// A parsed robot description: ordered links and joints.
#[derive(Clone, Debug)]
pub struct RobotDescription {
    pub name: String,
    pub links: Vec<LinkDesc>,
    pub joints: Vec<JointDesc>,
}

/// Construction options of a robot collision model.
#[derive(Clone, Copy, Debug, PartialEq, Eq, Structural)]
pub struct UrdfRobotOption {
    /// Suppress contacts between a link and its immediate parent and
    /// children, which always touch at the joint.
    pub collision_exclude_neighbour: bool,
}

impl Default for UrdfRobotOption {
    /// Neighbour exclusion is on unless the caller says otherwise.
    fn default() -> (d: UrdfRobotOption)
        ensures
            d.collision_exclude_neighbour,
    {
        UrdfRobotOption { collision_exclude_neighbour: true }
    }
}

/// The outcome of a collision query. A query on a successfully set
/// configuration only ever yields `Free` or `Collision`; the limit variant
/// exists for callers that fold the rejection of `set_joints` into the
/// same value.
#[derive(Clone, Copy, Debug, PartialEq, Eq, Structural)]
pub enum CollisionResult {
    Free,
    Collision,
    JointLimitViolation,
}

impl From<CollisionResult> for bool {
    /// A configuration is unusable both when it collides and when it was
    /// rejected by the joint limits.
    fn from(val: CollisionResult) -> (b: bool)
        ensures
            b == !(val is Free),
    {
        match val {
            CollisionResult::Free => false,
            CollisionResult::Collision => true,
            CollisionResult::JointLimitViolation => true,
        }
    }
}

impl vstd::std_specs::convert::FromSpecImpl<CollisionResult> for bool {
    open spec fn obeys_from_spec() -> bool {
        true
    }

    open spec fn from_spec(v: CollisionResult) -> bool {
        !(v is Free)
    }
}

/// Link index `i` is the one the name resolves to: the first link of the
/// list bearing it.
pub open spec fn resolves_to(links: Seq<LinkDesc>, name: Seq<char>, i: int) -> bool {
    &&& 0 <= i < links.len()
    &&& links[i].name@ == name
    &&& forall|t: int| 0 <= t < i ==> (#[trigger] links[t]).name@ != name
}

/// No link of the list bears the name.
pub open spec fn unresolved(links: Seq<LinkDesc>, name: Seq<char>) -> bool {
    forall|t: int| 0 <= t < links.len() ==> (#[trigger] links[t]).name@ != name
}

/// Some joint of the description connects links `i` and `j`, in either
/// role, under name resolution.
pub open spec fn desc_joined(desc: RobotDescription, i: int, j: int) -> bool {
    exists|m: int|
        0 <= m < desc.joints@.len() && ((resolves_to(
            desc.links@,
            (#[trigger] desc.joints@[m]).parent@,
            i,
        ) && resolves_to(desc.links@, desc.joints@[m].child@, j)) || (resolves_to(
            desc.links@,
            desc.joints@[m].parent@,
            j,
        ) && resolves_to(desc.links@, desc.joints@[m].child@, i)))
}

/// The settable joints of the description: movable and not mimicking, in
/// order.
pub open spec fn spec_settable(joints: Seq<JointDesc>) -> Seq<JointDesc>
    decreases joints.len(),
{
    if joints.len() == 0 {
        Seq::empty()
    } else {
        spec_settable(joints.drop_last()) + if !(joints.last().kind is Fixed)
            && joints.last().mimic is None {
            seq![joints.last()]
        } else {
            Seq::empty()
        }
    }
}

/// The mimic joints of the description: movable and mimicking, in order.
pub open spec fn spec_mimics(joints: Seq<JointDesc>) -> Seq<JointDesc>
    decreases joints.len(),
{
    if joints.len() == 0 {
        Seq::empty()
    } else {
        spec_mimics(joints.drop_last()) + if !(joints.last().kind is Fixed)
            && joints.last().mimic is Some {
            seq![joints.last()]
        } else {
            Seq::empty()
        }
    }
}

/// Chain-joint index `i` is the first settable joint bearing the name.
pub open spec fn first_named(joints: Seq<ChainJoint>, name: Seq<char>, i: int) -> bool {
    &&& 0 <= i < joints.len()
    &&& joints[i].name@ == name
    &&& forall|t: int| 0 <= t < i ==> (#[trigger] joints[t]).name@ != name
}

/// The chain's mimic entry `mj` realizes the description joint `jd`: same
/// name, same fixed-point parameters, and its source index is the first
/// settable joint bearing the declared source name.
pub open spec fn mimic_matches(mj: MimicJoint, jd: JointDesc, settable: Seq<ChainJoint>) -> bool {
    &&& mj.name@ == jd.name@
    &&& match jd.mimic {
        Some(d) => mj.multiplier == d.multiplier && mj.offset == d.offset && first_named(
            settable,
            d.source@,
            mj.source as int,
        ),
        None => false,
    }
}

/// The descriptors of the shapes a link owns, in handle order.
pub open spec fn link_descriptors(shapes: Seq<PipelineShape>, link: int) -> Seq<ShapeDescriptor>
    decreases shapes.len(),
{
    if shapes.len() == 0 {
        Seq::empty()
    } else {
        link_descriptors(shapes.drop_last(), link) + if shapes.last().link == link {
            seq![shapes.last().descriptor]
        } else {
            Seq::empty()
        }
    }
}

/// What a list of collision records converts to, concatenated in order.
pub open spec fn spec_records_shapes(records: Seq<CollisionRecord>) -> Seq<ShapeDescriptor>
    decreases records.len(),
{
    if records.len() == 0 {
        Seq::empty()
    } else {
        spec_records_shapes(records.drop_last()) + spec_convert(
            records.last().geometry,
            records.last().origin,
        )
    }
}

/// A joint references a link the description does not contain, or a mimic
/// joint names a source that no settable joint bears.
pub open spec fn spec_malformed(desc: RobotDescription) -> bool {
    ||| exists|m: int|
        0 <= m < desc.joints@.len() && (unresolved(
            desc.links@,
            (#[trigger] desc.joints@[m]).parent@,
        ) || unresolved(desc.links@, desc.joints@[m].child@))
    ||| exists|m: int|
        0 <= m < desc.joints@.len() && !((#[trigger] desc.joints@[m]).kind is Fixed)
            && match desc.joints@[m].mimic {
            Some(d) => forall|t: int|
                0 <= t < spec_settable(desc.joints@).len() ==> (#[trigger] spec_settable(
                    desc.joints@,
                )[t]).name@ != d.source@,
            None => false,
        }
}

/// The long-lived robot collision model.
pub struct Robot {
    /// The description's robot name.
    pub name: String,
    /// The links' names, by link index.
    pub link_names: Vec<String>,
    /// Each link's collision-group mask, by link index.
    pub masks: Vec<CollisionGroupMask>,
    /// Shape table and stored contact report.
    pub collision_checker: SimpleCollisionPipeline,
    /// The kinematic chain: settable and mimic joints with their limits
    /// and positions.
    pub robot_chain: KinematicChain,
    /// Joint name to child link name, one pair per description joint.
    pub joint_link_map: Vec<(String, String)>,
    /// The options the model was built with.
    pub option: UrdfRobotOption,
    /// True while the stored contact report corresponds to the current
    /// joint positions.
    pub synced: bool,
}

impl Robot {
    /// Internal consistency: chain and pipeline are well-formed and every
    /// shape carries exactly its link's mask.
    pub open spec fn wf(self) -> bool {
        &&& self.robot_chain.wf()
        &&& self.collision_checker.wf()
        &&& self.masks@.len() == self.link_names@.len()
        &&& forall|h: int|
            0 <= h < self.collision_checker.shapes@.len() ==> (
            #[trigger] self.collision_checker.shapes@[h]).link < self.masks@.len()
        &&& forall|h: int|
            0 <= h < self.collision_checker.shapes@.len() ==> (
            #[trigger] self.collision_checker.shapes@[h]).groups == self.masks@[self.collision_checker.shapes@[h].link as int]
    }

    /// The structural facts construction establishes and later calls keep:
    /// how masks, shapes and chain derive from the description.
    pub open spec fn statics_from(
        self,
        desc: RobotDescription,
        option: UrdfRobotOption,
    ) -> bool {
        let n = desc.links@.len() as int;
        &&& self.wf()
        &&& self.option == option
        &&& n <= 32
        &&& self.name@ == desc.name@
        &&& self.link_names@.len() == n
        &&& forall|i: int|
            0 <= i < n ==> (#[trigger] self.link_names@[i])@ == desc.links@[i].name@
        &&& self.masks@.len() == n
        &&& forall|i: int|
            0 <= i < n ==> (#[trigger] self.masks@[i]).memberships == 1u32 << i as u32
        &&& forall|i: int| 0 <= i < n ==> !pair_allowed(self.masks@[i], self.masks@[i])
        // the heart of neighbour exclusion: two distinct links' shapes may
        // meet exactly unless exclusion is on and a joint connects them
        &&& forall|i: int, j: int|
            0 <= i < n && 0 <= j < n && i != j ==> (#[trigger] pair_allowed(
                self.masks@[i],
                self.masks@[j],
            ) <==> !(option.collision_exclude_neighbour && desc_joined(desc, i, j)))
        // shapes come only from links that carry collision records
        &&& forall|h: int|
            0 <= h < self.collision_checker.shapes@.len() ==> desc.links@[(
            #[trigger] self.collision_checker.shapes@[h]).link as int].collisions@.len() > 0
        // and each link's shapes are exactly its records' conversions
        &&& forall|i: int|
            0 <= i < n ==> #[trigger] link_descriptors(self.collision_checker.shapes@, i)
                == spec_records_shapes(desc.links@[i].collisions@)
        // the chain's settable joints are the description's, names and
        // limits alike
        &&& self.robot_chain.joints@.len() == spec_settable(desc.joints@).len()
        &&& forall|k: int|
            0 <= k < self.robot_chain.joints@.len() ==> (#[trigger] self.robot_chain.joints@[k]).name@
                == spec_settable(desc.joints@)[k].name@ && self.robot_chain.joints@[k].limit
                == spec_settable(desc.joints@)[k].limit
        // the chain's mimic joints are the description's, each bound to
        // the first settable joint bearing its source name
        &&& self.robot_chain.mimics@.len() == spec_mimics(desc.joints@).len()
        &&& forall|k: int|
            0 <= k < self.robot_chain.mimics@.len() ==> mimic_matches(
                #[trigger] self.robot_chain.mimics@[k],
                spec_mimics(desc.joints@)[k],
                self.robot_chain.joints@,
            )
        // one pair per description joint: joint name to child link name
        &&& self.joint_link_map@.len() == desc.joints@.len()
        &&& forall|m: int|
            0 <= m < desc.joints@.len() ==> (#[trigger] self.joint_link_map@[m]).0@
                == desc.joints@[m].name@ && self.joint_link_map@[m].1@ == desc.joints@[m].child@
    }

    /// The collision verdict the current state supports: `Collision`
    /// exactly when some stored contact pair passes the group filter.
    pub open spec fn spec_collision_state(self) -> CollisionResult {
        if self.collision_checker.spec_any_active() {
            CollisionResult::Collision
        } else {
            CollisionResult::Free
        }
    }
}

/// The first link bearing the name, if any.
fn find_link(links: &Vec<LinkDesc>, name: &String) -> (r: Option<usize>)
    ensures
        match r {
            Some(i) => resolves_to(links@, name@, i as int),
            None => unresolved(links@, name@),
        },
{
    let n = links.len();
    let mut k: usize = 0;
    while k < n
        invariant
            k <= n,
            n == links@.len(),
            forall|t: int| 0 <= t < k ==> (#[trigger] links@[t]).name@ != name@,
        decreases n - k,
    {
        if links[k].name == *name {
            return Some(k);
        }
        k += 1;
    }
    None
}

/// The first settable chain joint bearing the name, if any.
fn find_chain_joint(joints: &Vec<ChainJoint>, name: &String) -> (r: Option<usize>)
    ensures
        match r {
            Some(i) => first_named(joints@, name@, i as int),
            None => forall|t: int|
                0 <= t < joints@.len() ==> (#[trigger] joints@[t]).name@ != name@,
        },
{
    let n = joints.len();
    let mut k: usize = 0;
    while k < n
        invariant
            k <= n,
            n == joints@.len(),
            forall|t: int| 0 <= t < k ==> (#[trigger] joints@[t]).name@ != name@,
        decreases n - k,
    {
        if joints[k].name == *name {
            return Some(k);
        }
        k += 1;
    }
    None
}

/// Two resolutions of one name agree.
proof fn lemma_resolution_unique(links: Seq<LinkDesc>, name: Seq<char>, i: int, j: int)
    requires
        resolves_to(links, name, i),
        resolves_to(links, name, j),
    ensures
        i == j,
{
    if i < j {
        assert(links[i].name@ == name);
    } else if j < i {
        assert(links[j].name@ == name);
    }
}

impl Robot {
    /// Builds the collision model from a parsed description: converts
    /// every link's collision geometries, assigns the collision-group
    /// masks over the joint adjacency, registers every shape, and sets up
    /// the kinematic chain. Fails with `TooManyLinks` exactly when the
    /// description has more than 32 links, with `MalformedJoint` exactly
    /// when a joint references an unknown link or mimic source.
    #[verifier::rlimit(60)]
    pub fn build(description: &RobotDescription, option: UrdfRobotOption) -> (r: Result<
        Robot,
        BuildError,
    >)
        ensures
            match r {
                Ok(rb) => {
                    &&& rb.statics_from(*description, option)
                    &&& description.links@.len() <= 32
                    &&& !spec_malformed(*description)
                    &&& rb.collision_checker.contacts@.len() == 0
                    &&& rb.robot_chain.positions@ =~= Seq::new(
                        rb.robot_chain.joints@.len(),
                        |k: int| 0i64,
                    )
                    &&& !rb.synced
                },
                Err(BuildError::TooManyLinks) => description.links@.len() > 32,
                Err(BuildError::MalformedJoint) => description.links@.len() <= 32
                    && spec_malformed(*description),
            },
    {
        let link_count = description.links.len();
        if link_count > 32 {
            return Err(BuildError::TooManyLinks);
        }

        // resolve every joint's parent and child link names
        let joint_count = description.joints.len();
        let mut pairs: Vec<(usize, usize)> = Vec::new();
        let mut m: usize = 0;
        while m < joint_count
            invariant
                m <= joint_count,
                joint_count == description.joints@.len(),
                description.links@.len() <= 32,
                pairs@.len() == m,
                forall|t: int|
                    0 <= t < m ==> resolves_to(
                        description.links@,
                        description.joints@[t].parent@,
                        (#[trigger] pairs@[t]).0 as int,
                    ) && resolves_to(
                        description.links@,
                        description.joints@[t].child@,
                        pairs@[t].1 as int,
                    ),
            decreases joint_count - m,
        {
            let jd = &description.joints[m];
            let pi = match find_link(&description.links, &jd.parent) {
                Some(i) => i,
                None => {
                    proof {
                        assert(unresolved(
                            description.links@,
                            description.joints@[m as int].parent@,
                        ));
                        assert(spec_malformed(*description));
                    }
                    return Err(BuildError::MalformedJoint);
                },
            };
            let ci = match find_link(&description.links, &jd.child) {
                Some(i) => i,
                None => {
                    proof {
                        assert(unresolved(
                            description.links@,
                            description.joints@[m as int].child@,
                        ));
                        assert(spec_malformed(*description));
                    }
                    return Err(BuildError::MalformedJoint);
                },
            };
            pairs.push((pi, ci));
            m += 1;
        }

        // settable chain joints, in description order
        let mut chain_joints: Vec<ChainJoint> = Vec::new();
        let mut k: usize = 0;
        while k < joint_count
            invariant
                k <= joint_count,
                joint_count == description.joints@.len(),
                chain_joints@.len() == spec_settable(description.joints@.take(k as int)).len(),
                forall|t: int|
                    0 <= t < chain_joints@.len() ==> (#[trigger] chain_joints@[t]).name@
                        == spec_settable(description.joints@.take(k as int))[t].name@
                        && chain_joints@[t].limit == spec_settable(
                        description.joints@.take(k as int),
                    )[t].limit,
            decreases joint_count - k,
        {
            let ghost prefix = description.joints@.take(k as int);
            let ghost next = description.joints@.take(k as int + 1);
            assert(next.drop_last() =~= prefix);
            assert(next.last() == description.joints@[k as int]);
            let jd = &description.joints[k];
            let movable = match jd.kind {
                JointKind::Fixed => false,
                _ => true,
            };
            let is_plain = match &jd.mimic {
                Some(_) => false,
                None => true,
            };
            if movable && is_plain {
                chain_joints.push(ChainJoint { name: jd.name.clone(), limit: jd.limit });
            }
            k += 1;
        }
        proof {
            assert(description.joints@.take(joint_count as int) =~= description.joints@);
        }

        // mimic joints, each bound to its settable source
        let mut mimic_joints: Vec<MimicJoint> = Vec::new();
        let mut w: usize = 0;
        while w < joint_count
            invariant
                w <= joint_count,
                joint_count == description.joints@.len(),
                description.links@.len() <= 32,
                chain_joints@.len() == spec_settable(description.joints@).len(),
                forall|t: int|
                    0 <= t < chain_joints@.len() ==> (#[trigger] chain_joints@[t]).name@
                        == spec_settable(description.joints@)[t].name@ && chain_joints@[t].limit
                        == spec_settable(description.joints@)[t].limit,
                forall|t: int|
                    0 <= t < w && !((#[trigger] description.joints@[t]).kind is Fixed)
                        ==> match description.joints@[t].mimic {
                        Some(d) => exists|s: int| first_named(chain_joints@, d.source@, s),
                        None => true,
                    },
                mimic_joints@.len() == spec_mimics(description.joints@.take(w as int)).len(),
                forall|t: int|
                    0 <= t < mimic_joints@.len() ==> mimic_matches(
                        #[trigger] mimic_joints@[t],
                        spec_mimics(description.joints@.take(w as int))[t],
                        chain_joints@,
                    ),
            decreases joint_count - w,
        {
            let ghost prefix = description.joints@.take(w as int);
            let ghost next = description.joints@.take(w as int + 1);
            assert(next.drop_last() =~= prefix);
            assert(next.last() == description.joints@[w as int]);
            let jd = &description.joints[w];
            let movable = match jd.kind {
                JointKind::Fixed => false,
                _ => true,
            };
            if movable {
                match &jd.mimic {
                    Some(decl) => {
                        let src = match find_chain_joint(&chain_joints, &decl.source) {
                            Some(s) => s,
                            None => {
                                proof {
                                    assert forall|t: int|
                                        0 <= t < spec_settable(description.joints@).len() implies (
                                    #[trigger] spec_settable(description.joints@)[t]).name@
                                        != decl.source@ by {
                                        assert(chain_joints@[t].name@ == spec_settable(
                                            description.joints@,
                                        )[t].name@);
                                    }
                                    assert(!(description.joints@[w as int].kind is Fixed));
                                    assert(spec_malformed(*description));
                                }
                                return Err(BuildError::MalformedJoint);
                            },
                        };
                        mimic_joints.push(
                            MimicJoint {
                                name: jd.name.clone(),
                                source: src,
                                multiplier: decl.multiplier,
                                offset: decl.offset,
                            },
                        );
                    },
                    None => {},
                }
            }
            proof {
                let jw = description.joints@[w as int];
                assert(spec_mimics(next) == spec_mimics(prefix) + if !(jw.kind is Fixed)
                    && jw.mimic is Some {
                    seq![jw]
                } else {
                    Seq::empty()
                });
                assert(mimic_joints@.len() == spec_mimics(next).len());
                assert forall|t: int| 0 <= t < mimic_joints@.len() implies mimic_matches(
                    #[trigger] mimic_joints@[t],
                    spec_mimics(next)[t],
                    chain_joints@,
                ) by {
                    if t < spec_mimics(prefix).len() {
                        assert(spec_mimics(next)[t] == spec_mimics(prefix)[t]);
                    } else {
                        assert(spec_mimics(next)[t] == jw);
                    }
                }
            }
            w += 1;
        }
        proof {
            assert(description.joints@.take(joint_count as int) =~= description.joints@);
        }

        // adjacency and per-link masks
        let adjacency = AdjacencyIndex::build(link_count, &pairs);
        let masks = match assign_groups(link_count, &adjacency, option.collision_exclude_neighbour)
        {
            Ok(ms) => ms,
            Err(e) => {
                return Err(e);
            },
        };

        proof {
            lemma_masks_characterize(
                *description,
                option,
                adjacency,
                masks@,
                pairs@,
                link_count as int,
            );
        }

        // convert every collision record and register its shapes
        let mut pipeline = SimpleCollisionPipeline::new();
        let mut li: usize = 0;
        while li < link_count
            invariant
                li <= link_count,
                link_count == description.links@.len(),
                masks@.len() == link_count,
                pipeline.wf(),
                pipeline.contacts@.len() == 0,
                forall|h: int|
                    0 <= h < pipeline.shapes@.len() ==> (#[trigger] pipeline.shapes@[h]).link < li,
                forall|h: int|
                    0 <= h < pipeline.shapes@.len() ==> (#[trigger] pipeline.shapes@[h]).groups
                        == masks@[pipeline.shapes@[h].link as int],
                forall|h: int|
                    0 <= h < pipeline.shapes@.len() ==> description.links@[(
                    #[trigger] pipeline.shapes@[h]).link as int].collisions@.len() > 0,
                forall|j: int|
                    0 <= j < li ==> #[trigger] link_descriptors(pipeline.shapes@, j)
                        == spec_records_shapes(description.links@[j].collisions@),
                forall|j: int|
                    li <= j < link_count ==> #[trigger] link_descriptors(pipeline.shapes@, j)
                        == Seq::<ShapeDescriptor>::empty(),
            decreases link_count - li,
        {
            let records = &description.links[li].collisions;
            let record_count = records.len();
            let mut c: usize = 0;
            while c < record_count
                invariant
                    c <= record_count,
                    li < link_count,
                    record_count == description.links@[li as int].collisions@.len(),
                    link_count == description.links@.len(),
                    masks@.len() == link_count,
                    pipeline.wf(),
                    pipeline.contacts@.len() == 0,
                    forall|h: int|
                        0 <= h < pipeline.shapes@.len() ==> (#[trigger] pipeline.shapes@[h]).link
                            <= li,
                    forall|h: int|
                        0 <= h < pipeline.shapes@.len() ==> (#[trigger] pipeline.shapes@[h]).groups
                            == masks@[pipeline.shapes@[h].link as int],
                    forall|h: int|
                        0 <= h < pipeline.shapes@.len() ==> description.links@[(
                        #[trigger] pipeline.shapes@[h]).link as int].collisions@.len() > 0,
                    forall|j: int|
                        0 <= j < li ==> #[trigger] link_descriptors(pipeline.shapes@, j)
                            == spec_records_shapes(description.links@[j].collisions@),
                    link_descriptors(pipeline.shapes@, li as int) == spec_records_shapes(
                        description.links@[li as int].collisions@.take(c as int),
                    ),
                    forall|j: int|
                        li < j < link_count ==> #[trigger] link_descriptors(pipeline.shapes@, j)
                            == Seq::<ShapeDescriptor>::empty(),
                decreases record_count - c,
            {
                let ghost records_prefix = description.links@[li as int].collisions@.take(c as int);
                let ghost records_next = description.links@[li as int].collisions@.take(
                    c as int + 1,
                );
                assert(records_next.drop_last() =~= records_prefix);
                assert(records_next.last() == description.links@[li as int].collisions@[c as int]);
                let record = &description.links[li].collisions[c];
                let descriptors = geometry_to_colliders(&record.geometry, &record.origin);
                let shape_count = descriptors.len();
                let mut d: usize = 0;
                while d < shape_count
                    invariant
                        d <= shape_count,
                        li < link_count,
                        shape_count == descriptors@.len(),
                        descriptors@ == spec_convert(
                            description.links@[li as int].collisions@[c as int].geometry,
                            description.links@[li as int].collisions@[c as int].origin,
                        ),
                        records_prefix == description.links@[li as int].collisions@.take(c as int),
                        record_count == description.links@[li as int].collisions@.len(),
                        c < record_count,
                        link_count == description.links@.len(),
                        masks@.len() == link_count,
                        pipeline.wf(),
                        pipeline.contacts@.len() == 0,
                        forall|h: int|
                            0 <= h < pipeline.shapes@.len() ==> (
                            #[trigger] pipeline.shapes@[h]).link <= li,
                        forall|h: int|
                            0 <= h < pipeline.shapes@.len() ==> (
                            #[trigger] pipeline.shapes@[h]).groups == masks@[pipeline.shapes@[h].link as int],
                        forall|h: int|
                            0 <= h < pipeline.shapes@.len() ==> description.links@[(
                            #[trigger] pipeline.shapes@[h]).link as int].collisions@.len() > 0,
                        forall|j: int|
                            0 <= j < li ==> #[trigger] link_descriptors(pipeline.shapes@, j)
                                == spec_records_shapes(description.links@[j].collisions@),
                        link_descriptors(pipeline.shapes@, li as int) == spec_records_shapes(
                            records_prefix,
                        ) + descriptors@.take(d as int),
                        forall|j: int|
                            li < j < link_count ==> #[trigger] link_descriptors(
                                pipeline.shapes@,
                                j,
                            ) == Seq::<ShapeDescriptor>::empty(),
                    decreases shape_count - d,
                {
                    let shape = PipelineShape {
                        link: li,
                        descriptor: descriptors[d],
                        groups: masks[li],
                    };
                    let ghost before = pipeline.shapes@;
                    let _h = pipeline.insert(shape);
                    proof {
                        assert(pipeline.shapes@.drop_last() =~= before);
                        assert(pipeline.shapes@.last() == shape);
                        assert forall|j: int| 0 <= j < link_count && j != li implies
                            #[trigger] link_descriptors(pipeline.shapes@, j) == link_descriptors(
                            before,
                            j,
                        ) by {
                            assert(link_descriptors(pipeline.shapes@, j) =~= link_descriptors(
                                before,
                                j,
                            ));
                        }
                        assert(link_descriptors(pipeline.shapes@, li as int) =~= spec_records_shapes(
                            records_prefix,
                        ) + descriptors@.take(d as int + 1));
                    }
                    d += 1;
                }
                proof {
                    assert(descriptors@.take(shape_count as int) =~= descriptors@);
                    assert(link_descriptors(pipeline.shapes@, li as int) =~= spec_records_shapes(
                        records_next,
                    ));
                }
                c += 1;
            }
            proof {
                assert(description.links@[li as int].collisions@.take(record_count as int)
                    =~= description.links@[li as int].collisions@);
            }
            li += 1;
        }

        // link names and the joint-to-child-link pairs
        let mut link_names: Vec<String> = Vec::new();
        let mut x: usize = 0;
        while x < link_count
            invariant
                x <= link_count,
                link_count == description.links@.len(),
                link_names@.len() == x,
                forall|t: int|
                    0 <= t < x ==> (#[trigger] link_names@[t])@ == description.links@[t].name@,
            decreases link_count - x,
        {
            link_names.push(description.links[x].name.clone());
            x += 1;
        }
        let mut joint_link_map: Vec<(String, String)> = Vec::new();
        let mut y: usize = 0;
        while y < joint_count
            invariant
                y <= joint_count,
                joint_count == description.joints@.len(),
                joint_link_map@.len() == y,
                forall|t: int|
                    0 <= t < y ==> (#[trigger] joint_link_map@[t]).0@
                        == description.joints@[t].name@ && joint_link_map@[t].1@
                        == description.joints@[t].child@,
            decreases joint_count - y,
        {
            let jd = &description.joints[y];
            joint_link_map.push((jd.name.clone(), jd.child.clone()));
            y += 1;
        }

        let robot_chain = KinematicChain::new(chain_joints, mimic_joints);
        let rb = Robot {
            name: description.name.clone(),
            link_names,
            masks,
            collision_checker: pipeline,
            robot_chain,
            joint_link_map,
            option,
            synced: false,
        };
        proof {
            assert forall|m: int| 0 <= m < description.joints@.len() implies exists|i: int, j: int|
                resolves_to(
                    description.links@,
                    (#[trigger] description.joints@[m]).parent@,
                    i,
                ) && resolves_to(description.links@, description.joints@[m].child@, j) by {
                let pi = pairs@[m].0 as int;
                let ci = pairs@[m].1 as int;
                assert(resolves_to(description.links@, description.joints@[m].parent@, pi)
                    && resolves_to(description.links@, description.joints@[m].child@, ci));
            }
            lemma_not_malformed(*description, rb.robot_chain.joints@);
        }
        Ok(rb)
    }
}

impl Robot {
    /// Validates and stores a joint vector, delegating to the kinematic
    /// chain: all or nothing, one value per settable joint in traversal
    /// order. A limit violation reports the offending joint's name; either
    /// rejection leaves the whole model untouched. Success stores the
    /// vector exactly and marks the stored contact report out of date;
    /// collider poses are refreshed lazily, by the next `update_contacts`.
    pub fn set_joints(&mut self, joints: &Vec<i64>) -> (r: Result<(), RobotError>)
        requires
            old(self).wf(),
        ensures
            final(self).wf(),
            final(self).name@ == old(self).name@,
            final(self).link_names@ == old(self).link_names@,
            final(self).masks@ == old(self).masks@,
            final(self).collision_checker == old(self).collision_checker,
            final(self).robot_chain.joints@ == old(self).robot_chain.joints@,
            final(self).robot_chain.mimics@ == old(self).robot_chain.mimics@,
            final(self).joint_link_map@ == old(self).joint_link_map@,
            final(self).option == old(self).option,
            match r {
                Ok(()) => {
                    &&& joints@.len() == old(self).robot_chain.joints@.len()
                    &&& forall|k: int|
                        0 <= k < joints@.len() ==> !crate::chain::violates(
                            #[trigger] old(self).robot_chain.joints@[k],
                            joints@[k],
                        )
                    &&& final(self).robot_chain.positions@ == joints@
                    &&& !final(self).synced
                },
                Err(RobotError::InvalidInput) => {
                    &&& joints@.len() != old(self).robot_chain.joints@.len()
                    &&& *final(self) == *old(self)
                },
                Err(RobotError::JointLimitViolation { joint_name }) => {
                    &&& joints@.len() == old(self).robot_chain.joints@.len()
                    &&& exists|f: int|
                        {
                            &&& 0 <= f < joints@.len()
                            &&& crate::chain::violates(
                                #[trigger] old(self).robot_chain.joints@[f],
                                joints@[f],
                            )
                            &&& joint_name@ == old(self).robot_chain.joints@[f].name@
                            &&& forall|t: int|
                                0 <= t < f ==> !crate::chain::violates(
                                    #[trigger] old(self).robot_chain.joints@[t],
                                    joints@[t],
                                )
                        }
                    &&& *final(self) == *old(self)
                },
            },
    {
        match self.robot_chain.set_joint_positions(joints) {
            Ok(()) => {
                self.synced = false;
                Ok(())
            },
            Err(JointError::SizeMismatch) => Err(RobotError::InvalidInput),
            Err(JointError::OutOfLimit { joint_name }) => Err(
                RobotError::JointLimitViolation { joint_name },
            ),
        }
    }

    /// Applies the outcome of one physics pass for the current joint
    /// positions: refreshes the chain (deriving the mimic positions) and
    /// stores the raw contact report, dropping pairs that name unknown
    /// handles. Afterwards the model is in sync and `has_collision` may be
    /// read.
    pub fn update_contacts(&mut self, pairs: &Vec<(usize, usize)>)
        requires
            old(self).wf(),
        ensures
            final(self).wf(),
            final(self).name@ == old(self).name@,
            final(self).link_names@ == old(self).link_names@,
            final(self).masks@ == old(self).masks@,
            final(self).collision_checker.shapes@ == old(self).collision_checker.shapes@,
            final(self).collision_checker.contacts@ == spec_valid_pairs(
                pairs@,
                old(self).collision_checker.shapes@.len() as int,
            ),
            final(self).robot_chain.joints@ == old(self).robot_chain.joints@,
            final(self).robot_chain.mimics@ == old(self).robot_chain.mimics@,
            final(self).robot_chain.positions@ == old(self).robot_chain.positions@,
            final(self).robot_chain.fresh,
            forall|m: int|
                0 <= m < old(self).robot_chain.mimics@.len()
                    ==> final(self).robot_chain.mimic_positions@[m]
                    == crate::chain::spec_mimic_position(
                    #[trigger] old(self).robot_chain.mimics@[m],
                    old(self).robot_chain.positions@[old(self).robot_chain.mimics@[m].source as int],
                ),
            final(self).joint_link_map@ == old(self).joint_link_map@,
            final(self).option == old(self).option,
            final(self).synced,
    {
        self.robot_chain.refresh();
        self.collision_checker.update(pairs);
        self.synced = true;
    }

    /// The collision verdict for the current configuration: `Collision`
    /// exactly when some stored contact pair passes the group filter, else
    /// `Free`. Reads only; requires the stored report to be in sync with
    /// the joint positions, which `update_contacts` establishes.
    pub fn has_collision(&self) -> (r: CollisionResult)
        requires
            self.wf(),
            self.synced,
        ensures
            r == self.spec_collision_state(),
            r is Free || r is Collision,
    {
        if self.collision_checker.has_collision() {
            CollisionResult::Collision
        } else {
            CollisionResult::Free
        }
    }

    /// The robot's name.
    pub fn name(&self) -> (r: &str)
        ensures
            r@ == self.name@,
    {
        self.name.as_str()
    }

    /// The links' names, by link index.
    pub fn link_names(&self) -> (r: &Vec<String>)
        ensures
            r@ == self.link_names@,
    {
        &self.link_names
    }

    /// Joint name to child link name, one pair per description joint.
    pub fn joint_link_map(&self) -> (r: &Vec<(String, String)>)
        ensures
            r@ == self.joint_link_map@,
    {
        &self.joint_link_map
    }

    /// The settable joints' names, in traversal order.
    pub fn joint_names(&self) -> (r: Vec<String>)
        ensures
            r@.len() == self.robot_chain.joints@.len(),
            forall|k: int|
                0 <= k < r@.len() ==> (#[trigger] r@[k])@ == self.robot_chain.joints@[k].name@,
    {
        let n = self.robot_chain.joints.len();
        let mut out: Vec<String> = Vec::new();
        let mut k: usize = 0;
        while k < n
            invariant
                k <= n,
                n == self.robot_chain.joints@.len(),
                out@.len() == k,
                forall|t: int|
                    0 <= t < k ==> (#[trigger] out@[t])@ == self.robot_chain.joints@[t].name@,
            decreases n - k,
        {
            out.push(self.robot_chain.joints[k].name.clone());
            k += 1;
        }
        out
    }

    /// The current settable joint positions, in traversal order. Right
    /// after a successful `set_joints`, this is the vector that was set,
    /// exactly.
    pub fn joint_positions(&self) -> (r: Vec<i64>)
        ensures
            r@ == self.robot_chain.positions@,
    {
        self.robot_chain.joint_positions()
    }

    /// Each settable joint's name with its declared limit, if any.
    pub fn joint_limits(&self) -> (r: Vec<(String, Option<JointLimit>)>)
        ensures
            r@.len() == self.robot_chain.joints@.len(),
            forall|k: int|
                0 <= k < r@.len() ==> (#[trigger] r@[k]).0@ == self.robot_chain.joints@[k].name@
                    && r@[k].1 == self.robot_chain.joints@[k].limit,
    {
        let n = self.robot_chain.joints.len();
        let mut out: Vec<(String, Option<JointLimit>)> = Vec::new();
        let mut k: usize = 0;
        while k < n
            invariant
                k <= n,
                n == self.robot_chain.joints@.len(),
                out@.len() == k,
                forall|t: int|
                    0 <= t < k ==> (#[trigger] out@[t]).0@ == self.robot_chain.joints@[t].name@
                        && out@[t].1 == self.robot_chain.joints@[t].limit,
            decreases n - k,
        {
            let cj = &self.robot_chain.joints[k];
            out.push((cj.name.clone(), cj.limit));
            k += 1;
        }
        out
    }

    /// The handles of the shapes a link contributes, in handle order. A
    /// link with no collision geometry contributes none.
    pub fn colliders_of_link(&self, link: usize) -> (r: Vec<usize>)
        ensures
            forall|t: int|
                0 <= t < r@.len() ==> (#[trigger] r@[t]) < self.collision_checker.shapes@.len()
                    && self.collision_checker.shapes@[r@[t] as int].link == link,
            forall|h: int|
                0 <= h < self.collision_checker.shapes@.len()
                    && (#[trigger] self.collision_checker.shapes@[h]).link == link ==> r@.contains(
                    h as usize,
                ),
    {
        let n = self.collision_checker.shapes.len();
        let mut out: Vec<usize> = Vec::new();
        let mut h: usize = 0;
        while h < n
            invariant
                h <= n,
                n == self.collision_checker.shapes@.len(),
                forall|t: int|
                    0 <= t < out@.len() ==> (#[trigger] out@[t]) < n
                        && self.collision_checker.shapes@[out@[t] as int].link == link,
                forall|g: int|
                    0 <= g < h && (#[trigger] self.collision_checker.shapes@[g]).link == link
                        ==> out@.contains(g as usize),
            decreases n - h,
        {
            let ghost old_out = out@;
            if self.collision_checker.shapes[h].link == link {
                out.push(h);
            }
            assert forall|g: int|
                0 <= g < h + 1 && (#[trigger] self.collision_checker.shapes@[g]).link
                    == link implies out@.contains(g as usize) by {
                if g < h {
                    assert(old_out.contains(g as usize));
                    let t = choose|t: int| 0 <= t < old_out.len() && old_out[t] == g as usize;
                    assert(out@[t] == g as usize);
                } else {
                    assert(out@[out@.len() - 1] == g as usize);
                }
            }
            h += 1;
        }
        out
    }
}

/// Neighbour exclusion suppresses joint-adjacent pairs: in a model built
/// with exclusion on, shapes of two links connected by a joint never pass
/// the group filter, whatever contact report the physics pass delivers.
pub proof fn lemma_neighbor_pair_suppressed(
    rb: Robot,
    desc: RobotDescription,
    option: UrdfRobotOption,
    i: int,
    j: int,
)
    requires
        rb.statics_from(desc, option),
        option.collision_exclude_neighbour,
        0 <= i < desc.links@.len(),
        0 <= j < desc.links@.len(),
        i == j || desc_joined(desc, i, j),
    ensures
        !pair_allowed(rb.masks@[i], rb.masks@[j]),
{
}

/// Non-adjacent links are always checked: in any built model, shapes of
/// two distinct links not connected by a joint pass the group filter,
/// whether or not neighbour exclusion is on.
pub proof fn lemma_non_adjacent_pair_permitted(
    rb: Robot,
    desc: RobotDescription,
    option: UrdfRobotOption,
    i: int,
    j: int,
)
    requires
        rb.statics_from(desc, option),
        0 <= i < desc.links@.len(),
        0 <= j < desc.links@.len(),
        i != j,
        !desc_joined(desc, i, j),
    ensures
        pair_allowed(rb.masks@[i], rb.masks@[j]),
{
}

/// A link with no collision geometry contributes nothing: no shape handle
/// belongs to it, so no contact pair — and hence no collision verdict —
/// ever involves it.
pub proof fn lemma_geometry_free_link_contributes_nothing(
    rb: Robot,
    desc: RobotDescription,
    option: UrdfRobotOption,
    link: int,
)
    requires
        rb.statics_from(desc, option),
        0 <= link < desc.links@.len(),
        desc.links@[link].collisions@.len() == 0,
    ensures
        forall|h: int|
            0 <= h < rb.collision_checker.shapes@.len() ==> (
            #[trigger] rb.collision_checker.shapes@[h]).link != link,
{
}

/// With neighbour exclusion on, a contact report naming only same-link or
/// joint-adjacent pairs yields `Free`: the group filter
/// suppresses every one of them, however deeply the shapes interpenetrate.
pub proof fn lemma_adjacent_only_report_is_free(
    rb: Robot,
    desc: RobotDescription,
    option: UrdfRobotOption,
)
    requires
        rb.statics_from(desc, option),
        option.collision_exclude_neighbour,
        forall|k: int|
            0 <= k < rb.collision_checker.contacts@.len() ==> {
                let a = rb.collision_checker.shapes@[(
                #[trigger] rb.collision_checker.contacts@[k]).0 as int].link as int;
                let b =
                    rb.collision_checker.shapes@[rb.collision_checker.contacts@[k].1 as int].link as int;
                a == b || desc_joined(desc, a, b)
            },
    ensures
        rb.spec_collision_state() is Free,
{
    let shapes = rb.collision_checker.shapes@;
    let contacts = rb.collision_checker.contacts@;
    assert forall|k: int| 0 <= k < contacts.len() implies !pair_allowed(
        shapes[(#[trigger] contacts[k]).0 as int].groups,
        shapes[contacts[k].1 as int].groups,
    ) by {
        let a = shapes[contacts[k].0 as int].link as int;
        let b = shapes[contacts[k].1 as int].link as int;
        if a == b {
            assert(!pair_allowed(rb.masks@[a], rb.masks@[a]));
        } else {
            assert(!pair_allowed(rb.masks@[a], rb.masks@[b]));
        }
    }
}

/// A reported contact between shapes of two distinct links that no joint
/// connects always makes the query report `Collision`, whatever the exclusion
/// setting: only self and neighbour pairs are ever filtered.
pub proof fn lemma_non_adjacent_contact_collides(
    rb: Robot,
    desc: RobotDescription,
    option: UrdfRobotOption,
    k: int,
)
    requires
        rb.statics_from(desc, option),
        0 <= k < rb.collision_checker.contacts@.len(),
        rb.collision_checker.shapes@[rb.collision_checker.contacts@[k].0 as int].link
            != rb.collision_checker.shapes@[rb.collision_checker.contacts@[k].1 as int].link,
        !desc_joined(
            desc,
            rb.collision_checker.shapes@[rb.collision_checker.contacts@[k].0 as int].link as int,
            rb.collision_checker.shapes@[rb.collision_checker.contacts@[k].1 as int].link as int,
        ),
    ensures
        rb.spec_collision_state() is Collision,
{
    let shapes = rb.collision_checker.shapes@;
    let contacts = rb.collision_checker.contacts@;
    let a = shapes[contacts[k].0 as int].link as int;
    let b = shapes[contacts[k].1 as int].link as int;
    assert(pair_allowed(rb.masks@[a], rb.masks@[b]));
    assert(rb.collision_checker.spec_any_active());
}

/// The structural facts survive `set_joints` and `update_contacts`: both
/// touch only the joint positions, the stored contact report and the sync
/// flag, so a model that was built from a description still relates to it
/// after any number of such calls, and the mask laws keep applying.
pub proof fn lemma_statics_preserved(
    pre: Robot,
    post: Robot,
    desc: RobotDescription,
    option: UrdfRobotOption,
)
    requires
        pre.statics_from(desc, option),
        post.wf(),
        post.name@ == pre.name@,
        post.link_names@ == pre.link_names@,
        post.masks@ == pre.masks@,
        post.collision_checker.shapes@ == pre.collision_checker.shapes@,
        post.robot_chain.joints@ == pre.robot_chain.joints@,
        post.robot_chain.mimics@ == pre.robot_chain.mimics@,
        post.joint_link_map@ == pre.joint_link_map@,
        post.option == pre.option,
    ensures
        post.statics_from(desc, option),
{
}

/// The collision verdict is a function of the model state alone: two
/// queries of one state agree, so querying twice without an intervening
/// `set_joints` returns the same result both times.
pub proof fn lemma_has_collision_idempotent(rb: Robot, r1: CollisionResult, r2: CollisionResult)
    requires
        r1 == rb.spec_collision_state(),
        r2 == rb.spec_collision_state(),
    ensures
        r1 == r2,
{
}

/// Round trip: the positions read back right after a successful
/// `set_joints` are the vector that was set — no clamping, no reordering.
/// `stored` is what `set_joints` guarantees of the chain on success,
/// `read` what the positions accessor returns for that state.
pub proof fn lemma_joint_round_trip(stored: Seq<i64>, set_values: Seq<i64>, read: Seq<i64>)
    requires
        stored == set_values,
        read == stored,
    ensures
        read == set_values,
{
}

/// With every joint resolved and every mimic source bound, the description
/// is not malformed.
proof fn lemma_not_malformed(desc: RobotDescription, chain_joints: Seq<ChainJoint>)
    requires
        forall|m: int|
            0 <= m < desc.joints@.len() ==> exists|i: int, j: int|
                resolves_to(desc.links@, (#[trigger] desc.joints@[m]).parent@, i) && resolves_to(
                    desc.links@,
                    desc.joints@[m].child@,
                    j,
                ),
        chain_joints.len() == spec_settable(desc.joints@).len(),
        forall|t: int|
            0 <= t < chain_joints.len() ==> (#[trigger] chain_joints[t]).name@ == spec_settable(
                desc.joints@,
            )[t].name@,
        forall|m: int|
            0 <= m < desc.joints@.len() && !((#[trigger] desc.joints@[m]).kind is Fixed)
                ==> match desc.joints@[m].mimic {
                Some(d) => exists|s: int| first_named(chain_joints, d.source@, s),
                None => true,
            },
    ensures
        !spec_malformed(desc),
{
    assert forall|m: int| 0 <= m < desc.joints@.len() implies !(unresolved(
        desc.links@,
        (#[trigger] desc.joints@[m]).parent@,
    ) || unresolved(desc.links@, desc.joints@[m].child@)) by {
        let (i, j) = choose|i: int, j: int|
            resolves_to(desc.links@, desc.joints@[m].parent@, i) && resolves_to(
                desc.links@,
                desc.joints@[m].child@,
                j,
            );
        assert(desc.links@[i].name@ == desc.joints@[m].parent@);
        assert(desc.links@[j].name@ == desc.joints@[m].child@);
    }
    assert forall|m: int|
        0 <= m < desc.joints@.len() && !((#[trigger] desc.joints@[m]).kind is Fixed) implies !(
    match desc.joints@[m].mimic {
        Some(d) => forall|t: int|
            0 <= t < spec_settable(desc.joints@).len() ==> (#[trigger] spec_settable(
                desc.joints@,
            )[t]).name@ != d.source@,
        None => false,
    }) by {
        match desc.joints@[m].mimic {
            Some(d) => {
                let s = choose|s: int| first_named(chain_joints, d.source@, s);
                assert(spec_settable(desc.joints@)[s].name@ == d.source@);
            },
            None => {},
        }
    }
}

/// Connects the assigned masks to the description: over resolved joint
/// pairs, the adjacency's either-direction relation is exactly
/// `desc_joined`, so the filter words suppress exactly the joint-connected
/// pairs.
proof fn lemma_masks_characterize(
    desc: RobotDescription,
    option: UrdfRobotOption,
    adj: AdjacencyIndex,
    masks: Seq<CollisionGroupMask>,
    pairs: Seq<(usize, usize)>,
    n: int,
)
    requires
        n == desc.links@.len(),
        n <= 32,
        adj.wf(n),
        pairs.len() == desc.joints@.len(),
        forall|t: int|
            0 <= t < pairs.len() ==> resolves_to(
                desc.links@,
                desc.joints@[t].parent@,
                (#[trigger] pairs[t]).0 as int,
            ) && resolves_to(desc.links@, desc.joints@[t].child@, pairs[t].1 as int),
        forall|i: int, j: int|
            0 <= i < n && 0 <= j < n ==> ((adj.adjacent(i, j) || adj.adjacent(j, i))
                <==> AdjacencyIndex::joined(pairs, i, j)),
        masks.len() == n,
        forall|i: int| 0 <= i < n ==> (#[trigger] masks[i]).memberships == 1u32 << i as u32,
        forall|i: int|
            0 <= i < n ==> (#[trigger] masks[i]).filter == spec_filter_word(
                adj,
                i,
                option.collision_exclude_neighbour,
            ),
    ensures
        forall|i: int| 0 <= i < n ==> !pair_allowed(masks[i], #[trigger] masks[i]),
        forall|i: int, j: int|
            0 <= i < n && 0 <= j < n && i != j ==> (#[trigger] pair_allowed(masks[i], masks[j])
                <==> !(option.collision_exclude_neighbour && desc_joined(desc, i, j))),
{
    let excl = option.collision_exclude_neighbour;
    assert forall|i: int| 0 <= i < n implies !pair_allowed(masks[i], #[trigger] masks[i]) by {
        let e = if excl {
            spec_exclude_word(adj, i)
        } else {
            0u32
        };
        lemma_same_link_pair_never_allowed(masks[i], i as u32, e);
    }
    assert forall|i: int, j: int| 0 <= i < n && 0 <= j < n && i != j implies (#[trigger] pair_allowed(
        masks[i],
        masks[j],
    ) <==> !(excl && desc_joined(desc, i, j))) by {
        // either-direction adjacency coincides with name-level joining
        assert(AdjacencyIndex::joined(pairs, i, j) <==> desc_joined(desc, i, j)) by {
            if AdjacencyIndex::joined(pairs, i, j) {
                let m = choose|m: int|
                    0 <= m < pairs.len() && ((pairs[m].0 == i && pairs[m].1 == j) || (pairs[m].0
                        == j && pairs[m].1 == i));
                assert(resolves_to(desc.links@, desc.joints@[m].parent@, pairs[m].0 as int));
                assert(resolves_to(desc.links@, desc.joints@[m].child@, pairs[m].1 as int));
                assert(desc_joined(desc, i, j));
            }
            if desc_joined(desc, i, j) {
                let m = choose|m: int|
                    0 <= m < desc.joints@.len() && ((resolves_to(
                        desc.links@,
                        (#[trigger] desc.joints@[m]).parent@,
                        i,
                    ) && resolves_to(desc.links@, desc.joints@[m].child@, j)) || (resolves_to(
                        desc.links@,
                        desc.joints@[m].parent@,
                        j,
                    ) && resolves_to(desc.links@, desc.joints@[m].child@, i)));
                if resolves_to(desc.links@, desc.joints@[m].parent@, i) && resolves_to(
                    desc.links@,
                    desc.joints@[m].child@,
                    j,
                ) {
                    lemma_resolution_unique(
                        desc.links@,
                        desc.joints@[m].parent@,
                        i,
                        pairs[m].0 as int,
                    );
                    lemma_resolution_unique(
                        desc.links@,
                        desc.joints@[m].child@,
                        j,
                        pairs[m].1 as int,
                    );
                } else {
                    lemma_resolution_unique(
                        desc.links@,
                        desc.joints@[m].parent@,
                        j,
                        pairs[m].0 as int,
                    );
                    lemma_resolution_unique(
                        desc.links@,
                        desc.joints@[m].child@,
                        i,
                        pairs[m].1 as int,
                    );
                }
                assert(AdjacencyIndex::joined(pairs, i, j));
            }
        }
        if excl {
            lemma_exclude_word_bits(adj, n, i, j);
            lemma_exclude_word_bits(adj, n, j, i);
            if desc_joined(desc, i, j) {
                lemma_excluded_pair_not_allowed(
                    masks[i],
                    masks[j],
                    i as u32,
                    j as u32,
                    spec_exclude_word(adj, i),
                    spec_exclude_word(adj, j),
                );
            } else {
                lemma_free_pair_allowed(
                    masks[i],
                    masks[j],
                    i as u32,
                    j as u32,
                    spec_exclude_word(adj, i),
                    spec_exclude_word(adj, j),
                );
            }
        } else {
            assert(!get_bit(0u32, j as u32) && !get_bit(0u32, i as u32)) by (bit_vector);
            lemma_free_pair_allowed(masks[i], masks[j], i as u32, j as u32, 0u32, 0u32);
        }
    }
}

} // verus!
