use robotsim::geometry::Geometry;
use robotsim::geometry::Pose;
use robotsim::geometry::ShapeKind;
use robotsim::geometry::Vec3;
use robotsim::geometry::geometry_to_colliders;
use robotsim::groups::collision_group;
use robotsim::groups::group_flag_from_idx;
use robotsim::util::replace_package_with_base_dir;

fn pose(x: i64, y: i64, z: i64) -> Pose {
    Pose { xyz: Vec3 { x, y, z }, rpy: Vec3 { x: 0, y: 0, z: 0 } }
}

#[test]
fn box_becomes_one_cuboid_with_half_extents() {
    let g = Geometry::Box { size_x: 2_000_000, size_y: 1_000_000, size_z: 500_001 };
    let shapes = geometry_to_colliders(&g, &pose(1, 2, 3));
    assert_eq!(shapes.len(), 1);
    assert_eq!(
        shapes[0].kind,
        ShapeKind::Cuboid { half_x: 1_000_000, half_y: 500_000, half_z: 250_000 }
    );
    assert_eq!(shapes[0].origin, pose(1, 2, 3));
    assert!(!shapes[0].axis_corrected);
}

#[test]
fn cylinder_gets_half_length_and_axis_correction() {
    let g = Geometry::Cylinder { radius: 250_000, length: 3_000_000 };
    let shapes = geometry_to_colliders(&g, &pose(0, 0, 0));
    assert_eq!(shapes.len(), 1);
    assert_eq!(shapes[0].kind, ShapeKind::Cylinder { half_length: 1_500_000, radius: 250_000 });
    assert!(shapes[0].axis_corrected);
}

#[test]
fn sphere_radius_passes_through() {
    let g = Geometry::Sphere { radius: 750_000 };
    let shapes = geometry_to_colliders(&g, &pose(0, 0, 0));
    assert_eq!(shapes.len(), 1);
    assert_eq!(shapes[0].kind, ShapeKind::Ball { radius: 750_000 });
    assert!(!shapes[0].axis_corrected);
}

#[test]
fn failed_sub_meshes_are_dropped() {
    let g = Geometry::Mesh { sub_meshes: vec![true, false, true, false] };
    let shapes = geometry_to_colliders(&g, &pose(0, 0, 0));
    assert_eq!(shapes.len(), 2);
    assert_eq!(shapes[0].kind, ShapeKind::TriMesh { sub_index: 0 });
    assert_eq!(shapes[1].kind, ShapeKind::TriMesh { sub_index: 2 });
}

#[test]
fn mesh_with_no_buildable_sub_mesh_yields_no_shapes() {
    let g = Geometry::Mesh { sub_meshes: vec![false, false] };
    assert!(geometry_to_colliders(&g, &pose(0, 0, 0)).is_empty());
}

#[test]
fn group_flags_are_one_bit_per_link() {
    assert_eq!(group_flag_from_idx(0), 1);
    assert_eq!(group_flag_from_idx(5), 32);
    assert_eq!(group_flag_from_idx(31), 0x8000_0000);
}

#[test]
fn collision_group_clears_own_and_excluded_bits() {
    let g = collision_group(3, None);
    assert_eq!(g.memberships, 8);
    assert_eq!(g.filter, !8u32);

    let g = collision_group(0, Some(0b110));
    assert_eq!(g.memberships, 1);
    assert_eq!(g.filter, !0b111u32);
}

#[test]
fn package_prefix_is_stripped() {
    let r = replace_package_with_base_dir("package://meshes/arm.stl", &None);
    assert_eq!(r, "meshes/arm.stl".to_string());
    // the base directory is not applied to package-relative names
    let r = replace_package_with_base_dir("package://meshes/arm.stl", &Some("base".to_string()));
    assert_eq!(r, "meshes/arm.stl".to_string());
}

#[test]
fn base_dir_is_joined_in_front() {
    let r = replace_package_with_base_dir("meshes/arm.stl", &Some("/robots/r1".to_string()));
    assert_eq!(r, "/robots/r1/meshes/arm.stl".to_string());
}

#[test]
fn plain_names_pass_through_without_base_dir() {
    let r = replace_package_with_base_dir("arm.stl", &None);
    assert_eq!(r, "arm.stl".to_string());
    let r = replace_package_with_base_dir("package:/arm.stl", &None);
    assert_eq!(r, "package:/arm.stl".to_string());
}
