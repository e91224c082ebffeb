//! Geometry records and their conversion into collidable shape descriptors.
//!
//! Lengths are fixed-point integers in millionths of a metre, angles in
//! millionths of a radian. A geometry record together with its local
//! placement pose becomes zero or more shape descriptors, each expressed in
//! the owning link's frame; placing them in the world happens only at query
//! time, outside this crate.

use vstd::prelude::*;

verus! {

/// A fixed-point 3-vector, in millionths of the description's unit.
#[derive(Clone, Copy, Debug, PartialEq, Eq, Structural)]
pub struct Vec3 {
    pub x: i64,
    pub y: i64,
    pub z: i64,
}

/// A local placement: translation plus roll-pitch-yaw, fixed point.
#[derive(Clone, Copy, Debug, PartialEq, Eq, Structural)]
pub struct Pose {
    pub xyz: Vec3,
    pub rpy: Vec3,
}

/// One collision geometry record of a link. Dimensions are full sizes as
/// the description states them. A mesh is carried as the outcome of the
/// externally loaded scene: one flag per sub-mesh, true when triangle-mesh
/// construction succeeded for it.
#[derive(Clone, Debug)]
pub enum Geometry {
    Box { size_x: u64, size_y: u64, size_z: u64 },
    Cylinder { radius: u64, length: u64 },
    Sphere { radius: u64 },
    Mesh { sub_meshes: Vec<bool> },
}

/// A physics-ready collision primitive.
#[derive(Clone, Copy, Debug, PartialEq, Eq, Structural)]
pub enum ShapeKind {
    /// A box by half-extents.
    Cuboid { half_x: u64, half_y: u64, half_z: u64 },
    /// A cylinder by half-length and radius.
    Cylinder { half_length: u64, radius: u64 },
    /// A sphere by radius.
    Ball { radius: u64 },
    /// The triangle mesh built from sub-mesh `sub_index` of the record's
    /// loaded scene.
    TriMesh { sub_index: usize },
}

/// A converted shape: primitive, placement in the owning link's frame, and
/// whether the placement carries the cylinder's fixed axis-correction
/// pre-rotation (a quarter turn about the x axis, turning the primitive's
/// native length axis into the description's).
#[derive(Clone, Copy, Debug, PartialEq, Eq, Structural)]
pub struct ShapeDescriptor {
    pub kind: ShapeKind,
    pub origin: Pose,
    pub axis_corrected: bool,
}

/// The shapes a mesh record yields: one triangle mesh per successfully
/// built sub-mesh, in sub-mesh order; failed ones are dropped.
pub open spec fn spec_mesh_shapes(subs: Seq<bool>, origin: Pose) -> Seq<ShapeDescriptor>
    decreases subs.len(),
{
    if subs.len() == 0 {
        Seq::empty()
    } else {
        spec_mesh_shapes(subs.drop_last(), origin) + if subs.last() {
            seq![
                ShapeDescriptor {
                    kind: ShapeKind::TriMesh { sub_index: (subs.len() - 1) as usize },
                    origin,
                    axis_corrected: false,
                },
            ]
        } else {
            Seq::empty()
        }
    }
}

/// What a geometry record converts to: box, cylinder and sphere each one
/// analytic shape with the sizes passed through (half-extents are half the
/// stated size, rounded down in fixed point), the cylinder with the axis
/// correction; a mesh one shape per successfully built sub-mesh.
pub open spec fn spec_convert(g: Geometry, origin: Pose) -> Seq<ShapeDescriptor> {
    match g {
        Geometry::Box { size_x, size_y, size_z } => seq![
            ShapeDescriptor {
                kind: ShapeKind::Cuboid {
                    half_x: (size_x / 2) as u64,
                    half_y: (size_y / 2) as u64,
                    half_z: (size_z / 2) as u64,
                },
                origin,
                axis_corrected: false,
            },
        ],
        Geometry::Cylinder { radius, length } => seq![
            ShapeDescriptor {
                kind: ShapeKind::Cylinder { half_length: (length / 2) as u64, radius },
                origin,
                axis_corrected: true,
            },
        ],
        Geometry::Sphere { radius } => seq![
            ShapeDescriptor { kind: ShapeKind::Ball { radius }, origin, axis_corrected: false },
        ],
        Geometry::Mesh { sub_meshes } => spec_mesh_shapes(sub_meshes@, origin),
    }
}

/// Converts one geometry record with its local placement into the shapes it
/// contributes, exactly as `spec_convert` states. Deterministic, no side
/// effects.
pub fn geometry_to_colliders(geometry: &Geometry, origin: &Pose) -> (v: Vec<ShapeDescriptor>)
    ensures
        v@ == spec_convert(*geometry, *origin),
{
    let mut out: Vec<ShapeDescriptor> = Vec::new();
    match geometry {
        Geometry::Box { size_x, size_y, size_z } => {
            out.push(
                ShapeDescriptor {
                    kind: ShapeKind::Cuboid {
                        half_x: *size_x / 2,
                        half_y: *size_y / 2,
                        half_z: *size_z / 2,
                    },
                    origin: *origin,
                    axis_corrected: false,
                },
            );
            assert(out@ =~= spec_convert(*geometry, *origin));
        },
        Geometry::Cylinder { radius, length } => {
            out.push(
                ShapeDescriptor {
                    kind: ShapeKind::Cylinder { half_length: *length / 2, radius: *radius },
                    origin: *origin,
                    axis_corrected: true,
                },
            );
            assert(out@ =~= spec_convert(*geometry, *origin));
        },
        Geometry::Sphere { radius } => {
            out.push(
                ShapeDescriptor {
                    kind: ShapeKind::Ball { radius: *radius },
                    origin: *origin,
                    axis_corrected: false,
                },
            );
            assert(out@ =~= spec_convert(*geometry, *origin));
        },
        Geometry::Mesh { sub_meshes } => {
            let n = sub_meshes.len();
            let mut k: usize = 0;
            while k < n
                invariant
                    k <= n,
                    n == sub_meshes@.len(),
                    out@ == spec_mesh_shapes(sub_meshes@.take(k as int), *origin),
                decreases n - k,
            {
                let ghost prefix = sub_meshes@.take(k as int);
                let ghost next = sub_meshes@.take(k as int + 1);
                assert(next.drop_last() =~= prefix);
                assert(next.last() == sub_meshes@[k as int]);
                if sub_meshes[k] {
                    out.push(
                        ShapeDescriptor {
                            kind: ShapeKind::TriMesh { sub_index: k },
                            origin: *origin,
                            axis_corrected: false,
                        },
                    );
                }
                assert(out@ =~= spec_mesh_shapes(next, *origin));
                k += 1;
            }
            assert(sub_meshes@.take(n as int) =~= sub_meshes@);
        },
    }
    out
}

} // verus!
