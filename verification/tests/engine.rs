use robotsim::errors::BuildError;
use robotsim::errors::RobotError;
use robotsim::geometry::Geometry;
use robotsim::geometry::Pose;
use robotsim::geometry::Vec3;
use robotsim::robot::CollisionRecord;
use robotsim::robot::CollisionResult;
use robotsim::robot::JointDesc;
use robotsim::robot::JointKind;
use robotsim::robot::LinkDesc;
use robotsim::robot::MimicDecl;
use robotsim::robot::Robot;
use robotsim::robot::RobotDescription;
use robotsim::robot::UrdfRobotOption;
use robotsim::chain::JointLimit;

fn zero_pose() -> Pose {
    Pose { xyz: Vec3 { x: 0, y: 0, z: 0 }, rpy: Vec3 { x: 0, y: 0, z: 0 } }
}

fn unit_box() -> CollisionRecord {
    CollisionRecord {
        origin: zero_pose(),
        geometry: Geometry::Box { size_x: 1_000_000, size_y: 1_000_000, size_z: 1_000_000 },
    }
}

fn link(name: &str, with_box: bool) -> LinkDesc {
    LinkDesc {
        name: name.to_string(),
        collisions: if with_box { vec![unit_box()] } else { Vec::new() },
    }
}

fn revolute(name: &str, parent: &str, child: &str, limit: Option<JointLimit>) -> JointDesc {
    JointDesc {
        name: name.to_string(),
        parent: parent.to_string(),
        child: child.to_string(),
        kind: JointKind::Revolute,
        limit,
        mimic: None,
    }
}

/// A chain of `n` links named l0..l(n-1), each with one box, joined by
/// unlimited revolute joints.
fn chain_description(n: usize) -> RobotDescription {
    let mut links = Vec::new();
    let mut joints = Vec::new();
    for i in 0..n {
        links.push(link(&format!("l{}", i), true));
        if i + 1 < n {
            joints.push(revolute(
                &format!("j{}", i),
                &format!("l{}", i),
                &format!("l{}", i + 1),
                None,
            ));
        }
    }
    RobotDescription { name: "chain".to_string(), links, joints }
}

fn exclude(on: bool) -> UrdfRobotOption {
    UrdfRobotOption { collision_exclude_neighbour: on }
}

#[test]
fn build_succeeds_up_to_32_links() {
    for n in 1..=32 {
        let desc = chain_description(n);
        assert!(Robot::build(&desc, UrdfRobotOption::default()).is_ok(), "n = {}", n);
    }
}

#[test]
fn build_fails_with_33_links() {
    let desc = chain_description(33);
    match Robot::build(&desc, UrdfRobotOption::default()) {
        Err(BuildError::TooManyLinks) => {}
        other => panic!("expected TooManyLinks, got {:?}", other.map(|_| ())),
    }
}

#[test]
fn build_rejects_unknown_link_name() {
    let mut desc = chain_description(2);
    desc.joints[0].child = "nowhere".to_string();
    match Robot::build(&desc, UrdfRobotOption::default()) {
        Err(BuildError::MalformedJoint) => {}
        other => panic!("expected MalformedJoint, got {:?}", other.map(|_| ())),
    }
}

#[test]
fn build_rejects_unknown_mimic_source() {
    let mut desc = chain_description(3);
    desc.joints[1].mimic = Some(MimicDecl {
        source: "no_such_joint".to_string(),
        multiplier: 1_000_000,
        offset: 0,
    });
    match Robot::build(&desc, UrdfRobotOption::default()) {
        Err(BuildError::MalformedJoint) => {}
        other => panic!("expected MalformedJoint, got {:?}", other.map(|_| ())),
    }
}

#[test]
fn set_joints_within_limits_succeeds_and_out_of_limits_is_rejected() {
    let mut desc = chain_description(2);
    desc.joints[0].limit = Some(JointLimit { lower: -1_000_000, upper: 1_000_000 });
    let mut robot = Robot::build(&desc, UrdfRobotOption::default()).unwrap();

    assert!(robot.set_joints(&vec![500_000]).is_ok());

    match robot.set_joints(&vec![1_500_000]) {
        Err(RobotError::JointLimitViolation { joint_name }) => {
            assert_eq!(joint_name, "j0".to_string());
        }
        other => panic!("expected JointLimitViolation, got {:?}", other),
    }
    // the rejected call wrote nothing: the last successful configuration stands
    assert_eq!(robot.joint_positions(), vec![500_000]);
}

#[test]
fn set_joints_with_wrong_length_is_invalid_input() {
    let desc = chain_description(2);
    let mut robot = Robot::build(&desc, UrdfRobotOption::default()).unwrap();
    match robot.set_joints(&vec![1, 2, 3]) {
        Err(RobotError::InvalidInput) => {}
        other => panic!("expected InvalidInput, got {:?}", other),
    }
}

#[test]
fn rejected_configuration_leaves_collision_verdict_alone() {
    let mut desc = chain_description(2);
    desc.joints[0].limit = Some(JointLimit { lower: -1_000_000, upper: 1_000_000 });
    let mut robot = Robot::build(&desc, exclude(false)).unwrap();

    robot.set_joints(&vec![500_000]).unwrap();
    // the two boxes share a pose: the physics pass reports their pair
    robot.update_contacts(&vec![(0, 1)]);
    assert_eq!(robot.has_collision(), CollisionResult::Collision);

    assert!(robot.set_joints(&vec![1_500_000]).is_err());
    assert_eq!(robot.joint_positions(), vec![500_000]);
    assert_eq!(robot.has_collision(), CollisionResult::Collision);
}

#[test]
fn neighbor_exclusion_suppresses_adjacent_overlap() {
    // A and B are joined by a joint and their boxes always overlap
    let desc = chain_description(3);

    let mut on = Robot::build(&desc, exclude(true)).unwrap();
    on.update_contacts(&vec![(0, 1)]);
    assert_eq!(on.has_collision(), CollisionResult::Free);

    let mut off = Robot::build(&desc, exclude(false)).unwrap();
    off.update_contacts(&vec![(0, 1)]);
    assert_eq!(off.has_collision(), CollisionResult::Collision);
}

#[test]
fn non_adjacent_overlap_is_reported_with_either_setting() {
    // A and C are two joints apart: their contact always counts
    let desc = chain_description(3);
    for setting in [true, false] {
        let mut robot = Robot::build(&desc, exclude(setting)).unwrap();
        robot.update_contacts(&vec![(0, 2)]);
        assert_eq!(robot.has_collision(), CollisionResult::Collision, "setting = {}", setting);
    }
}

#[test]
fn same_link_contact_never_counts() {
    let desc = chain_description(2);
    let mut robot = Robot::build(&desc, exclude(false)).unwrap();
    robot.update_contacts(&vec![(0, 0)]);
    assert_eq!(robot.has_collision(), CollisionResult::Free);
}

#[test]
fn has_collision_is_idempotent() {
    let desc = chain_description(3);
    let mut robot = Robot::build(&desc, exclude(false)).unwrap();
    robot.update_contacts(&vec![(0, 2)]);
    let first = robot.has_collision();
    let second = robot.has_collision();
    assert_eq!(first, second);

    let mut free = Robot::build(&desc, exclude(true)).unwrap();
    free.update_contacts(&vec![(0, 1)]);
    assert_eq!(free.has_collision(), free.has_collision());
}

#[test]
fn joint_positions_round_trip_exactly() {
    let desc = chain_description(5);
    let mut robot = Robot::build(&desc, UrdfRobotOption::default()).unwrap();
    let v = vec![123_456, -789_012, 0, i64::MAX];
    robot.set_joints(&v).unwrap();
    assert_eq!(robot.joint_positions(), v);
}

#[test]
fn geometry_free_link_contributes_no_handles_and_no_verdict() {
    // B carries no collision geometry: its handles are empty and the
    // verdict only ever involves A and C
    let desc = RobotDescription {
        name: "gap".to_string(),
        links: vec![link("a", true), link("b", false), link("c", true)],
        joints: vec![revolute("j0", "a", "b", None), revolute("j1", "b", "c", None)],
    };
    let mut robot = Robot::build(&desc, exclude(true)).unwrap();
    assert!(robot.colliders_of_link(1).is_empty());
    assert_eq!(robot.colliders_of_link(0), vec![0]);
    assert_eq!(robot.colliders_of_link(2), vec![1]);

    // handles 0 and 1 are A and C, which are not joint-adjacent
    robot.update_contacts(&vec![(0, 1)]);
    assert_eq!(robot.has_collision(), CollisionResult::Collision);

    // the same scene without B behaves the same for A and C
    let two = RobotDescription {
        name: "pair".to_string(),
        links: vec![link("a", true), link("c", true)],
        joints: Vec::new(),
    };
    let mut pair = Robot::build(&two, exclude(true)).unwrap();
    pair.update_contacts(&vec![(0, 1)]);
    assert_eq!(pair.has_collision(), robot.has_collision());
}

#[test]
fn out_of_range_contact_handles_are_dropped() {
    let desc = chain_description(3);
    let mut robot = Robot::build(&desc, exclude(false)).unwrap();
    robot.update_contacts(&vec![(7, 9), (12, 0)]);
    assert_eq!(robot.has_collision(), CollisionResult::Free);
}

#[test]
fn mimic_positions_follow_their_source() {
    let mut desc = chain_description(3);
    desc.joints[1].mimic = Some(MimicDecl {
        source: "j0".to_string(),
        multiplier: 2_000_000,
        offset: 100,
    });
    let mut robot = Robot::build(&desc, UrdfRobotOption::default()).unwrap();
    // only j0 is settable now; j1 derives 2 * j0 + 100
    robot.set_joints(&vec![500_000]).unwrap();
    robot.update_contacts(&Vec::new());
    assert_eq!(robot.robot_chain.mimic_positions, vec![1_000_100]);
}

#[test]
fn accessors_report_names_and_limits() {
    let mut desc = chain_description(3);
    desc.joints[0].limit = Some(JointLimit { lower: -5, upper: 5 });
    let robot = Robot::build(&desc, UrdfRobotOption::default()).unwrap();
    assert_eq!(robot.name(), "chain");
    assert_eq!(robot.link_names().clone(), vec!["l0".to_string(), "l1".to_string(), "l2".to_string()]);
    assert_eq!(robot.joint_names(), vec!["j0".to_string(), "j1".to_string()]);
    let limits = robot.joint_limits();
    assert_eq!(limits.len(), 2);
    assert_eq!(limits[0].0, "j0".to_string());
    assert_eq!(limits[0].1, Some(JointLimit { lower: -5, upper: 5 }));
    assert_eq!(limits[1].1, None);
    assert_eq!(
        robot.joint_link_map().clone(),
        vec![
            ("j0".to_string(), "l1".to_string()),
            ("j1".to_string(), "l2".to_string()),
        ]
    );
}

#[test]
fn collision_result_folds_to_bool() {
    assert!(!bool::from(CollisionResult::Free));
    assert!(bool::from(CollisionResult::Collision));
    assert!(bool::from(CollisionResult::JointLimitViolation));
}

#[test]
fn default_option_excludes_neighbours() {
    assert!(UrdfRobotOption::default().collision_exclude_neighbour);
}
