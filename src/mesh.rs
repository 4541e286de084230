//! Faces of a triangle mesh, read from a flat list of vertex indices.
use vstd::prelude::*;

verus! {

/// Why the faces of a mesh could not be read.
#[derive(Clone, Copy, Debug, PartialEq, Eq, Structural)]
pub enum MeshError {
    /// A corner of face `face` (the first such) names a vertex past the end
    /// of the vertex list.
    VertexOutOfRange { face: usize },
}

/// The three vertex indices of face `f`: indices `3f`, `3f + 1`, `3f + 2`.
pub open spec fn face_of(indices: Seq<u32>, f: int) -> (usize, usize, usize) {
    (indices[3 * f] as usize, indices[3 * f + 1] as usize, indices[3 * f + 2] as usize)
}

/// Every corner of face `f` names one of the `vertex_count` vertices.
pub open spec fn face_in_range(indices: Seq<u32>, f: int, vertex_count: nat) -> bool {
    &&& (indices[3 * f] as nat) < vertex_count
    &&& (indices[3 * f + 1] as nat) < vertex_count
    &&& (indices[3 * f + 2] as nat) < vertex_count
}

/// Splits `indices` into faces of three vertex indices each; a trailing
/// one or two indices that make no whole face are left out. Every corner
/// must name one of the `vertex_count` vertices.
pub fn mesh_faces(indices: &Vec<u32>, vertex_count: usize) -> (r: Result<Vec<(usize, usize, usize)>, MeshError>)
    ensures
        r matches Ok(faces) ==> faces@.len() == indices@.len() / 3 && forall|f: int|
            0 <= f < faces@.len() ==> #[trigger] faces@[f] == face_of(indices@, f),
        r is Ok <==> forall|f: int|
            0 <= f < indices@.len() / 3 ==> #[trigger] face_in_range(indices@, f, vertex_count as nat),
        r matches Err(MeshError::VertexOutOfRange { face }) ==> {
            &&& face < indices@.len() / 3
            &&& !face_in_range(indices@, face as int, vertex_count as nat)
            &&& forall|f: int| 0 <= f < face ==> #[trigger] face_in_range(indices@, f, vertex_count as nat)
        },
{
    let count = indices.len() / 3;
    let mut faces: Vec<(usize, usize, usize)> = Vec::new();
    let mut f: usize = 0;
    while f < count
        invariant
            count == indices@.len() / 3,
            f <= count,
            faces@.len() == f,
            forall|g: int| 0 <= g < f ==> #[trigger] faces@[g] == face_of(indices@, g),
            forall|g: int| 0 <= g < f ==> #[trigger] face_in_range(indices@, g, vertex_count as nat),
        decreases count - f,
    {
        assert(3 * f + 2 < indices@.len()) by (nonlinear_arith)
            requires
                f < count,
                count == indices@.len() / 3,
        ;
        assert(indices@.len() == indices.len());
        let base: usize = 3 * f;
        let a = indices[base] as usize;
        let b = indices[base + 1] as usize;
        let c = indices[base + 2] as usize;
        if a >= vertex_count || b >= vertex_count || c >= vertex_count {
            assert(!face_in_range(indices@, f as int, vertex_count as nat));
            return Err(MeshError::VertexOutOfRange { face: f });
        }
        faces.push((a, b, c));
        f = f + 1;
    }
    Ok(faces)
}

} // verus!
