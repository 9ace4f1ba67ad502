//! The primitive shapes that the editor places, and telling them apart by
//! their meshes when a scene is saved.

use vstd::prelude::*;

verus! {

/// A primitive shape of the editor.
#[derive(Debug, Clone, Copy, PartialEq, Eq, Structural)]
pub enum PrimitiveType {
    Cube,
    Sphere,
    Plane,
    Cylinder,
    Capsule,
    PlayerSpawn,
}

/// The shape guessed from the number of vertex positions of a mesh: a cube
/// has 24 (four for each face), a plane 4, an ico sphere more than 100, a
/// cylinder more than 40; anything else is taken for a capsule.
pub open spec fn shape_of_vertex_count(n: nat) -> PrimitiveType {
    if n == 24 {
        PrimitiveType::Cube
    } else if n == 4 {
        PrimitiveType::Plane
    } else if n > 100 {
        PrimitiveType::Sphere
    } else if n > 40 {
        PrimitiveType::Cylinder
    } else {
        PrimitiveType::Capsule
    }
}

/// The shape of a mesh with `vertex_count` vertex positions (0 for a mesh
/// without positions).
pub fn identify_primitive_type(vertex_count: usize) -> (t: PrimitiveType)
    ensures
        t == shape_of_vertex_count(vertex_count as nat),
{
    if vertex_count == 24 {
        PrimitiveType::Cube
    } else if vertex_count == 4 {
        PrimitiveType::Plane
    } else if vertex_count > 100 {
        PrimitiveType::Sphere
    } else if vertex_count > 40 {
        PrimitiveType::Cylinder
    } else {
        PrimitiveType::Capsule
    }
}

} // verus!
