use vstd::prelude::*;

use crate::meshlet::{MAX_TRIANGLES, MAX_VERTICES};

verus! {

/// A cluster of a mesh: the mesh vertices it uses, and its triangles as three indices each
/// into that local vertex list.
#[derive(Clone, Debug, PartialEq, Eq)]
pub struct Meshlet {
    pub vertices: Vec<u32>,
    pub triangles: Vec<u8>,
}

/// Why a mesh could not be partitioned.
#[derive(Clone, Copy, Debug, PartialEq, Eq)]
pub enum PartitionError {
    /// The index list does not hold whole triangles.
    NotTriangles,
    /// An index names a vertex past the end of the vertex list.
    IndexOutOfRange,
}

/// The mesh vertex indices of the triangles of `m`, three per triangle, in order.
pub open spec fn meshlet_mesh_indices(m: Meshlet) -> Seq<u32> {
    Seq::new(m.triangles@.len(), |t: int| m.vertices@[m.triangles@[t] as int])
}

/// The mesh vertex indices of the triangles of all of `ms`, meshlet after meshlet.
pub open spec fn flatten_mesh_indices(ms: Seq<Meshlet>) -> Seq<u32>
    decreases ms.len(),
{
    if ms.len() == 0 {
        Seq::empty()
    } else {
        flatten_mesh_indices(ms.drop_last()) + meshlet_mesh_indices(ms.last())
    }
}

/// `m` holds at most `max_vertices` vertices, all below `vertex_count`, and between one and
/// `max_triangles` whole triangles that index its own vertex list.
pub open spec fn meshlet_within(m: Meshlet, vertex_count: nat, max_vertices: nat, max_triangles: nat) -> bool {
    &&& m.vertices@.len() <= max_vertices
    &&& m.triangles@.len() % 3 == 0
    &&& 1 <= m.triangles@.len() / 3 <= max_triangles
    &&& forall|t: int| 0 <= t < m.triangles@.len() ==> (#[trigger] m.triangles@[t]) < m.vertices@.len()
    &&& forall|j: int| 0 <= j < m.vertices@.len() ==> (#[trigger] m.vertices@[j]) < vertex_count
}

/// One more than the largest local index among the first `t` corners of `tris`, or zero: the
/// number of local vertices met so far when they are numbered in order of first use.
pub open spec fn first_use_bound(tris: Seq<u8>, t: int) -> nat
    decreases t,
{
    if t <= 0 {
        0
    } else {
        let before = first_use_bound(tris, t - 1);
        if tris[t - 1] as nat + 1 > before {
            tris[t - 1] as nat + 1
        } else {
            before
        }
    }
}

/// The local vertices of `m` are distinct mesh vertices, numbered in the order in which its
/// corners first use them: each corner names a vertex already met or the next new one, and
/// every local vertex is used.
pub open spec fn numbered_by_first_use(m: Meshlet) -> bool {
    &&& forall|t: int|
        0 <= t < m.triangles@.len() ==> (#[trigger] m.triangles@[t]) <= first_use_bound(
            m.triangles@,
            t,
        )
    &&& m.vertices@.len() == first_use_bound(m.triangles@, m.triangles@.len() as int)
    &&& forall|a: int, b: int|
        0 <= a < b < m.vertices@.len() ==> #[trigger] m.vertices@[a] != #[trigger] m.vertices@[b]
}

pub open spec fn indices_in_range(indices: Seq<u32>, vertex_count: nat) -> bool {
    forall|i: int| 0 <= i < indices.len() ==> (#[trigger] indices[i]) < vertex_count
}

/// Relies on `meshopt::build_meshlets` (meshoptimizer's `meshopt_buildMeshlets`), which walks
/// the triangles in order and starts a new meshlet whenever the next triangle would take the
/// current one past `max_vertices` vertices or `max_triangles` triangles. A meshlet appends a
/// mesh vertex to its list the first time one of its corners uses it, once. Its C source
/// asserts what `requires` states. Each meshlet is handed out as its used vertices and
/// triangle list.
#[verifier::external_body]
fn clusterize(indices: &[u32], vertex_count: usize, max_vertices: usize, max_triangles: usize) -> (r:
    Vec<Meshlet>)
    requires
        indices@.len() % 3 == 0,
        3 <= max_vertices <= 64,
        1 <= max_triangles <= 126,
        indices_in_range(indices@, vertex_count as nat),
    ensures
        forall|k: int|
            0 <= k < r@.len() ==> meshlet_within(
                #[trigger] r@[k],
                vertex_count as nat,
                max_vertices as nat,
                max_triangles as nat,
            ),
        forall|k: int| 0 <= k < r@.len() ==> numbered_by_first_use(#[trigger] r@[k]),
        flatten_mesh_indices(r@) == indices@,
{
    meshopt::build_meshlets(indices, vertex_count, max_vertices, max_triangles)
        .iter()
        .map(|m| Meshlet {
            vertices: m.vertices[..m.vertex_count as usize].to_vec(),
            triangles: m.indices[..m.triangle_count as usize].concat(),
        })
        .collect()
}

/// Splits an indexed triangle mesh into meshlets of at most 64 vertices and 124 triangles,
/// keeping the triangles in order and numbering each meshlet's vertices in order of first use.
pub fn partition_mesh(indices: &[u32], vertex_count: usize) -> (r: Result<
    Vec<Meshlet>,
    PartitionError,
>)
    ensures
        match r {
            Ok(ms) => {
                &&& indices@.len() % 3 == 0
                &&& indices_in_range(indices@, vertex_count as nat)
                &&& forall|k: int|
                    0 <= k < ms@.len() ==> meshlet_within(
                        #[trigger] ms@[k],
                        vertex_count as nat,
                        MAX_VERTICES as nat,
                        MAX_TRIANGLES as nat,
                    )
                &&& forall|k: int| 0 <= k < ms@.len() ==> numbered_by_first_use(#[trigger] ms@[k])
                &&& flatten_mesh_indices(ms@) == indices@
            },
            Err(PartitionError::NotTriangles) => indices@.len() % 3 != 0,
            Err(PartitionError::IndexOutOfRange) => indices@.len() % 3 == 0
                && !indices_in_range(indices@, vertex_count as nat),
        },
{
    if indices.len() % 3 != 0 {
        return Err(PartitionError::NotTriangles);
    }
    let mut i: usize = 0;
    while i < indices.len()
        invariant
            i <= indices@.len(),
            indices@.len() % 3 == 0,
            forall|j: int| 0 <= j < i ==> (#[trigger] indices@[j]) < vertex_count,
        decreases indices@.len() - i,
    {
        if indices[i] as usize >= vertex_count {
            return Err(PartitionError::IndexOutOfRange);
        }
        i = i + 1;
    }
    Ok(clusterize(indices, vertex_count, MAX_VERTICES, MAX_TRIANGLES))
}

} // verus!
