use vstd::prelude::*;

verus! {

/// A mesh vertex: position, texture coordinate and normal, each component held as the
/// IEEE-754 bit pattern of its `f32`. Two vertices are the same when their bits are.
#[derive(Clone, Copy, Debug, Default, PartialEq, Eq)]
pub struct Vertex {
    pub position: [u32; 3],
    pub tex_coord: [u32; 2],
    pub normal: [u32; 3],
}

impl Vertex {
    #[inline]
    pub fn new(position: [u32; 3], tex_coord: [u32; 2], normal: [u32; 3]) -> (r: Self)
        ensures
            r.position == position,
            r.tex_coord == tex_coord,
            r.normal == normal,
    {
        Self { position, tex_coord, normal }
    }
}

/// An indexed triangle mesh: its vertices, and three vertex indices per triangle.
#[derive(Clone, Debug)]
pub struct Mesh {
    pub vertices: Vec<Vertex>,
    pub indices: Vec<u32>,
}

/// `remap` sends equal vertices, and only those, to one slot each among `count` slots, with
/// no slot left unused.
pub open spec fn is_vertex_remap(vertices: Seq<Vertex>, count: nat, remap: Seq<u32>) -> bool {
    &&& remap.len() == vertices.len()
    &&& count <= vertices.len()
    &&& forall|i: int| 0 <= i < remap.len() ==> (#[trigger] remap[i]) < count
    &&& forall|i: int, j: int|
        0 <= i < remap.len() && 0 <= j < remap.len() ==> (#[trigger] remap[i] == #[trigger] remap[j]
            <==> vertices[i] == vertices[j])
    &&& forall|r: int| 0 <= r < count ==> #[trigger] slot_used(remap, r)
}

/// Some vertex goes to slot `r`.
pub open spec fn slot_used(remap: Seq<u32>, r: int) -> bool {
    exists|i: int| 0 <= i < remap.len() && #[trigger] remap[i] == r
}

/// Relies on `meshopt::generate_vertex_remap` without an index buffer
/// (`meshopt_generateVertexRemap`): vertices whose bytes are equal share a slot, slots are
/// numbered from zero in order of first appearance, and their count comes back. Its C source
/// asserts that the count of vertices is a multiple of three, and numbers slots in 32 bits.
#[verifier::external_body]
fn vertex_remap(vertices: &[Vertex]) -> (r: (usize, Vec<u32>))
    requires
        vertices@.len() % 3 == 0,
        vertices@.len() <= u32::MAX,
    ensures
        is_vertex_remap(vertices@, r.0 as nat, r.1@),
{
    meshopt::generate_vertex_remap(vertices, None)
}

/// Relies on `meshopt::remap_vertex_buffer` (`meshopt_remapVertexBuffer`): vertex `i` is
/// copied to slot `remap[i]` of a buffer of `count` vertices.
#[verifier::external_body]
fn remap_vertices(vertices: &[Vertex], count: usize, remap: &[u32]) -> (r: Vec<Vertex>)
    requires
        remap@.len() == vertices@.len(),
        count <= vertices@.len(),
        forall|i: int| 0 <= i < remap@.len() ==> (#[trigger] remap@[i]) < count,
    ensures
        r@.len() == count,
        forall|i: int|
            0 <= i < remap@.len() && (forall|j: int|
                0 <= j < remap@.len() && remap@[j] == remap@[i] ==> vertices@[j] == vertices@[i])
                ==> r@[#[trigger] remap@[i] as int] == vertices@[i],
{
    meshopt::remap_vertex_buffer(vertices, count, remap)
}

/// Relies on `meshopt::remap_index_buffer` without an index buffer
/// (`meshopt_remapIndexBuffer`): index `i` becomes `remap[i]`. Its C source asserts that the
/// count is a multiple of three and that no entry is the unused mark `u32::MAX`.
#[verifier::external_body]
fn remap_indices(count: usize, remap: &[u32]) -> (r: Vec<u32>)
    requires
        count == remap@.len(),
        count % 3 == 0,
        forall|i: int| 0 <= i < remap@.len() ==> (#[trigger] remap@[i]) < u32::MAX,
    ensures
        r@ == remap@,
{
    meshopt::remap_index_buffer(None, count, remap)
}

/// Merges equal vertices of a triangle list given as three vertices per triangle, and indexes
/// the triangles into the merged vertices, or nothing when the corners do not make whole
/// triangles or are too many for 32-bit indices.
pub fn deduplicate(corners: &[Vertex]) -> (r: Option<Mesh>)
    ensures
        r is Some <==> corners@.len() % 3 == 0 && corners@.len() <= u32::MAX,
        r matches Some(mesh) ==> {
            &&& mesh.indices@.len() == corners@.len()
            &&& forall|i: int|
                0 <= i < corners@.len() ==> (#[trigger] mesh.indices@[i]) < mesh.vertices@.len()
                    && mesh.vertices@[mesh.indices@[i] as int] == corners@[i]
            &&& forall|a: int, b: int|
                0 <= a < b < mesh.vertices@.len() ==> #[trigger] mesh.vertices@[a]
                    != #[trigger] mesh.vertices@[b]
        },
{
    if corners.len() % 3 != 0 || corners.len() > u32::MAX as usize {
        return None;
    }
    let (count, remap) = vertex_remap(corners);
    let vertices = remap_vertices(corners, count, &remap);
    let indices = remap_indices(corners.len(), &remap);
    proof {
        assert forall|a: int, b: int| 0 <= a < b < vertices@.len() implies #[trigger] vertices@[a]
            != #[trigger] vertices@[b] by {
            assert(slot_used(remap@, a));
            assert(slot_used(remap@, b));
            let i = choose|i: int| 0 <= i < remap@.len() && #[trigger] remap@[i] == a;
            let j = choose|j: int| 0 <= j < remap@.len() && #[trigger] remap@[j] == b;
            assert(vertices@[remap@[i] as int] == corners@[i]);
            assert(vertices@[remap@[j] as int] == corners@[j]);
        }
    }
    Some(Mesh { vertices, indices })
}

} // verus!

verus! {

/// Where the attributes of one face corner are found: a position, a texture coordinate and a
/// normal index.
#[derive(Clone, Copy, Debug, Default, PartialEq, Eq)]
pub struct CornerIndex {
    pub p: u32,
    pub t: u32,
    pub n: u32,
}

/// The attribute indices of `c` lie inside arrays of `np` positions, `nt` texture
/// coordinates and `nn` normals, given as flat component arrays.
pub open spec fn corner_in_range(c: CornerIndex, np: nat, nt: nat, nn: nat) -> bool {
    &&& 3 * c.p + 3 <= np
    &&& 2 * c.t + 2 <= nt
    &&& 3 * c.n + 3 <= nn
}

/// The vertex that corner `c` names.
pub open spec fn corner_vertex(
    positions: Seq<u32>,
    tex_coords: Seq<u32>,
    normals: Seq<u32>,
    c: CornerIndex,
    v: Vertex,
) -> bool {
    &&& v.position[0] == positions[3 * c.p] && v.position[1] == positions[3 * c.p + 1]
        && v.position[2] == positions[3 * c.p + 2]
    &&& v.tex_coord[0] == tex_coords[2 * c.t] && v.tex_coord[1] == tex_coords[2 * c.t + 1]
    &&& v.normal[0] == normals[3 * c.n] && v.normal[1] == normals[3 * c.n + 1] && v.normal[2]
        == normals[3 * c.n + 2]
}

/// Builds one vertex per face corner from flat attribute arrays (three position, two texture
/// coordinate and three normal components per entry), or nothing when a corner names an
/// entry past the end of its array.
pub fn assemble_corners(
    positions: &[u32],
    tex_coords: &[u32],
    normals: &[u32],
    corners: &[CornerIndex],
) -> (r: Option<Vec<Vertex>>)
    ensures
        r is Some <==> forall|i: int|
            0 <= i < corners@.len() ==> corner_in_range(
                #[trigger] corners@[i],
                positions@.len(),
                tex_coords@.len(),
                normals@.len(),
            ),
        r matches Some(vs) ==> {
            &&& vs@.len() == corners@.len()
            &&& forall|i: int|
                0 <= i < corners@.len() ==> corner_vertex(
                    positions@,
                    tex_coords@,
                    normals@,
                    corners@[i],
                    #[trigger] vs@[i],
                )
        },
{
    let mut vertices: Vec<Vertex> = Vec::new();
    let mut i: usize = 0;
    while i < corners.len()
        invariant
            i <= corners@.len(),
            vertices@.len() == i,
            forall|j: int|
                0 <= j < i ==> corner_in_range(
                    #[trigger] corners@[j],
                    positions@.len(),
                    tex_coords@.len(),
                    normals@.len(),
                ),
            forall|j: int|
                0 <= j < i ==> corner_vertex(
                    positions@,
                    tex_coords@,
                    normals@,
                    corners@[j],
                    #[trigger] vertices@[j],
                ),
        decreases corners@.len() - i,
    {
        let c = corners[i];
        let p = c.p as usize;
        let t = c.t as usize;
        let n = c.n as usize;
        if p >= positions.len() / 3 || t >= tex_coords.len() / 2 || n >= normals.len() / 3 {
            assert(!corner_in_range(corners@[i as int], positions@.len(), tex_coords@.len(), normals@.len()));
            return None;
        }
        let v = Vertex {
            position: [positions[3 * p], positions[3 * p + 1], positions[3 * p + 2]],
            tex_coord: [tex_coords[2 * t], tex_coords[2 * t + 1]],
            normal: [normals[3 * n], normals[3 * n + 1], normals[3 * n + 2]],
        };
        vertices.push(v);
        i = i + 1;
    }
    Some(vertices)
}

} // verus!
