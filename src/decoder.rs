use vstd::arithmetic::power2::lemma2_to64;
use vstd::bits::lemma_u32_shr_is_div;
use vstd::prelude::*;

use crate::bit_reader::BitReader;
use crate::bits::{bit_of, byte_bits, field, lemma_bits_value_bound, word_bits};
use crate::meshlet::{MeshletHeader, Vec3Bits, QuantizedVertex, AABB, HEADER_BITS};

verus! {

/// The header of the meshlet whose header starts at bit `base` of `s` reads as `h`: each
/// width and count is its field plus one.
pub open spec fn header_decodes(s: Seq<bool>, base: int, h: MeshletHeader) -> bool {
    &&& h.aabb.min.x == field(s, base, 32)
    &&& h.aabb.min.y == field(s, base + 32, 32)
    &&& h.aabb.min.z == field(s, base + 64, 32)
    &&& h.aabb.max.x == field(s, base + 96, 32)
    &&& h.aabb.max.y == field(s, base + 128, 32)
    &&& h.aabb.max.z == field(s, base + 160, 32)
    &&& h.num_bits_x == field(s, base + 192, 5) + 1
    &&& h.num_bits_y == field(s, base + 197, 5) + 1
    &&& h.num_bits_z == field(s, base + 202, 5) + 1
    &&& h.num_bits_tex_x == field(s, base + 207, 5) + 1
    &&& h.num_bits_tex_y == field(s, base + 212, 5) + 1
    &&& h.num_bits_normal == field(s, base + 217, 3) + 1
    &&& h.num_bits_idx == field(s, base + 220, 5) + 1
    &&& h.num_vertices == field(s, base + 225, 6) + 1
    &&& h.num_primitives == field(s, base + 231, 7) + 1
    &&& h.data_offset == field(s, base + 238, 32)
}

/// Widths that a reader can take: each at most 32 bits.
pub open spec fn header_widths_ok(h: MeshletHeader) -> bool {
    &&& h.num_bits_x <= 32 && h.num_bits_y <= 32 && h.num_bits_z <= 32
    &&& h.num_bits_tex_x <= 32 && h.num_bits_tex_y <= 32
    &&& h.num_bits_normal <= 32 && h.num_bits_idx <= 32
}

/// Bits of one vertex record, by the widths that a header declares.
pub open spec fn header_vertex_cost(h: MeshletHeader) -> nat {
    (h.num_bits_x + h.num_bits_y + h.num_bits_z + h.num_bits_tex_x + h.num_bits_tex_y + 3
        * h.num_bits_normal) as nat
}

/// QuantizedVertex `i` of the meshlet that `h` heads reads as `v` from `s`.
pub open spec fn vertex_decodes(s: Seq<bool>, h: MeshletHeader, i: int, v: QuantizedVertex) -> bool {
    let base = h.data_offset + i * header_vertex_cost(h);
    let at_y = base + h.num_bits_x;
    let at_z = at_y + h.num_bits_y;
    let at_tex = at_z + h.num_bits_z;
    let at_tex_y = at_tex + h.num_bits_tex_x;
    let at_nx = at_tex_y + h.num_bits_tex_y;
    let at_ny = at_nx + h.num_bits_normal;
    let at_nz = at_ny + h.num_bits_normal;
    &&& v.position[0] == field(s, base, h.num_bits_x as nat)
    &&& v.position[1] == field(s, at_y, h.num_bits_y as nat)
    &&& v.position[2] == field(s, at_z, h.num_bits_z as nat)
    &&& v.tex_coord[0] == field(s, at_tex, h.num_bits_tex_x as nat)
    &&& v.tex_coord[1] == field(s, at_tex_y, h.num_bits_tex_y as nat)
    &&& v.normal[0] == field(s, at_nx, h.num_bits_normal as nat)
    &&& v.normal[1] == field(s, at_ny, h.num_bits_normal as nat)
    &&& v.normal[2] == field(s, at_nz, h.num_bits_normal as nat)
}

/// Where the triangle indices of the meshlet that `h` heads begin.
pub open spec fn index_offset(h: MeshletHeader) -> int {
    h.data_offset + h.num_vertices * header_vertex_cost(h)
}

/// Triangle `t` of the meshlet that `h` heads reads as `tri` from `s`.
pub open spec fn triangle_decodes(s: Seq<bool>, h: MeshletHeader, t: int, tri: [u32; 3]) -> bool {
    let w = h.num_bits_idx as int;
    let base = index_offset(h) + t * 3 * w;
    &&& tri[0] == field(s, base, w as nat)
    &&& tri[1] == field(s, base + w, w as nat)
    &&& tri[2] == field(s, base + 2 * w, w as nat)
}

/// Reads the header of meshlet `meshlet_index`; headers lie one after another from bit 0.
#[verifier::rlimit(30)]
pub fn read_header(buffer: &[u32], meshlet_index: usize) -> (h: MeshletHeader)
    requires
        HEADER_BITS * (meshlet_index + 1) <= 32 * buffer@.len(),
        HEADER_BITS * (meshlet_index + 1) <= usize::MAX,
    ensures
        header_decodes(word_bits(buffer@), HEADER_BITS * meshlet_index, h),
        header_widths_ok(h),
{
    let ghost s = word_bits(buffer@);
    let mut reader = BitReader::new(buffer, meshlet_index * HEADER_BITS);
    let min_x = reader.read_bits_unchecked(32);
    let min_y = reader.read_bits_unchecked(32);
    let min_z = reader.read_bits_unchecked(32);
    let max_x = reader.read_bits_unchecked(32);
    let max_y = reader.read_bits_unchecked(32);
    let max_z = reader.read_bits_unchecked(32);
    let bits_x = reader.read_bits_unchecked(5);
    let bits_y = reader.read_bits_unchecked(5);
    let bits_z = reader.read_bits_unchecked(5);
    let bits_tex_x = reader.read_bits_unchecked(5);
    let bits_tex_y = reader.read_bits_unchecked(5);
    let bits_normal = reader.read_bits_unchecked(3);
    let bits_idx = reader.read_bits_unchecked(5);
    let num_vertices = reader.read_bits_unchecked(6);
    let num_primitives = reader.read_bits_unchecked(7);
    let data_offset = reader.read_bits_unchecked(32);
    proof {
        let base = meshlet_index * 270;
        lemma2_to64();
        lemma_bits_value_bound(s.subrange(base + 192, base + 197));
        lemma_bits_value_bound(s.subrange(base + 197, base + 202));
        lemma_bits_value_bound(s.subrange(base + 202, base + 207));
        lemma_bits_value_bound(s.subrange(base + 207, base + 212));
        lemma_bits_value_bound(s.subrange(base + 212, base + 217));
        lemma_bits_value_bound(s.subrange(base + 217, base + 220));
        lemma_bits_value_bound(s.subrange(base + 220, base + 225));
        lemma_bits_value_bound(s.subrange(base + 225, base + 231));
        lemma_bits_value_bound(s.subrange(base + 231, base + 238));
    }
    MeshletHeader {
        aabb: AABB {
            min: Vec3Bits { x: min_x, y: min_y, z: min_z },
            max: Vec3Bits { x: max_x, y: max_y, z: max_z },
        },
        num_bits_x: bits_x + 1,
        num_bits_y: bits_y + 1,
        num_bits_z: bits_z + 1,
        num_bits_tex_x: bits_tex_x + 1,
        num_bits_tex_y: bits_tex_y + 1,
        num_bits_normal: bits_normal + 1,
        num_bits_idx: bits_idx + 1,
        num_vertices: num_vertices + 1,
        num_primitives: num_primitives + 1,
        data_offset,
    }
}

/// Reads the codes of vertex `i` of the meshlet that `header` heads.
pub fn read_vertex(buffer: &[u32], header: &MeshletHeader, i: usize) -> (v: QuantizedVertex)
    requires
        header_widths_ok(*header),
        header.data_offset + (i + 1) * header_vertex_cost(*header) <= 32 * buffer@.len(),
        header.data_offset + (i + 1) * header_vertex_cost(*header) <= usize::MAX,
    ensures
        vertex_decodes(word_bits(buffer@), *header, i as int, v),
{
    let h = *header;
    let cost = (h.num_bits_x + h.num_bits_y + h.num_bits_z + h.num_bits_tex_x + h.num_bits_tex_y
        + 3 * h.num_bits_normal) as usize;
    assert((i + 1) * cost == i * cost + cost) by (nonlinear_arith);
    let mut reader = BitReader::new(buffer, h.data_offset as usize + i * cost);
    let x = reader.read_bits_unchecked(h.num_bits_x);
    let y = reader.read_bits_unchecked(h.num_bits_y);
    let z = reader.read_bits_unchecked(h.num_bits_z);
    let tex_x = reader.read_bits_unchecked(h.num_bits_tex_x);
    let tex_y = reader.read_bits_unchecked(h.num_bits_tex_y);
    let normal_x = reader.read_bits_unchecked(h.num_bits_normal);
    let normal_y = reader.read_bits_unchecked(h.num_bits_normal);
    let normal_z = reader.read_bits_unchecked(h.num_bits_normal);
    QuantizedVertex { position: [x, y, z], tex_coord: [tex_x, tex_y], normal: [normal_x, normal_y, normal_z] }
}

/// Reads the three local vertex indices of triangle `t` of the meshlet that `header` heads.
pub fn read_triangle(buffer: &[u32], header: &MeshletHeader, t: usize) -> (tri: [u32; 3])
    requires
        header_widths_ok(*header),
        index_offset(*header) + (t + 1) * 3 * header.num_bits_idx <= 32 * buffer@.len(),
        index_offset(*header) + (t + 1) * 3 * header.num_bits_idx <= usize::MAX,
    ensures
        triangle_decodes(word_bits(buffer@), *header, t as int, tri),
{
    let h = *header;
    let cost = (h.num_bits_x + h.num_bits_y + h.num_bits_z + h.num_bits_tex_x + h.num_bits_tex_y
        + 3 * h.num_bits_normal) as usize;
    let w = h.num_bits_idx as usize;
    let nv = h.num_vertices as usize;
    assert((t + 1) * 3 * w == t * (3 * w) + 3 * w) by (nonlinear_arith);
    assert(t * 3 * w == t * (3 * w)) by (nonlinear_arith);
    let start = h.data_offset as usize + nv * cost + t * (3 * w);
    let mut reader = BitReader::new(buffer, start);
    let a = reader.read_bits_unchecked(h.num_bits_idx);
    let b = reader.read_bits_unchecked(h.num_bits_idx);
    let c = reader.read_bits_unchecked(h.num_bits_idx);
    [a, b, c]
}

proof fn lemma_bit_of_u32(x: u32, k: u32)
    requires
        k < 32,
    ensures
        bit_of(x as nat, k as nat) == ((x >> k) & 1u32 == 1u32),
{
    lemma_u32_shr_is_div(x, k);
    let y = x >> k;
    assert(y & 1u32 == y % 2) by (bit_vector);
}

proof fn lemma_word_of_bytes(b0: u32, b1: u32, b2: u32, b3: u32, w: u32, t: u32)
    by (bit_vector)
    requires
        b0 < 256 && b1 < 256 && b2 < 256 && b3 < 256,
        t < 8,
        w == b0 | (b1 << 8u32) | (b2 << 16u32) | (b3 << 24u32),
    ensures
        (w >> t) & 1u32 == (b0 >> t) & 1u32,
        (w >> (t + 8) as u32) & 1u32 == (b1 >> t) & 1u32,
        (w >> (t + 16) as u32) & 1u32 == (b2 >> t) & 1u32,
        (w >> (t + 24) as u32) & 1u32 == (b3 >> t) & 1u32,
{
}

/// Reads a byte buffer as the little-endian 32-bit words that the GPU sees; the bit stream
/// stays the same.
#[verifier::rlimit(30)]
pub fn words_from_bytes(bytes: &[u8]) -> (words: Vec<u32>)
    requires
        bytes@.len() % 4 == 0,
    ensures
        4 * words@.len() == bytes@.len(),
        word_bits(words@) == byte_bits(bytes@),
{
    let mut words: Vec<u32> = Vec::new();
    let mut j: usize = 0;
    while j < bytes.len()
        invariant
            bytes@.len() % 4 == 0,
            j <= bytes@.len(),
            j % 4 == 0,
            4 * words@.len() == j,
            forall|k: int|
                0 <= k < 8 * j ==> #[trigger] word_bits(words@)[k] == byte_bits(bytes@)[k],
        decreases bytes@.len() - j,
    {
        let b0 = bytes[j] as u32;
        let b1 = bytes[j + 1] as u32;
        let b2 = bytes[j + 2] as u32;
        let b3 = bytes[j + 3] as u32;
        let w = b0 | (b1 << 8u32) | (b2 << 16u32) | (b3 << 24u32);
        let ghost old_words = words@;
        let ghost i = words@.len() as int;
        words.push(w);
        proof {
            assert forall|k: int| 0 <= k < 8 * (j + 4) implies #[trigger] word_bits(words@)[k]
                == byte_bits(bytes@)[k] by {
                if k < 8 * j {
                    assert(word_bits(words@)[k] == word_bits(old_words)[k]);
                } else {
                    let d = k - 32 * i;
                    let q = d / 8;
                    let t = (d % 8) as u32;
                    assert(k / 32 == i);
                    assert(k / 8 == 4 * i + q);
                    lemma_word_of_bytes(b0, b1, b2, b3, w, t);
                    lemma_bit_of_u32(w, d as u32);
                    lemma_bit_of_u32(bytes@[k / 8] as u32, t);
                }
            }
        }
        j = j + 4;
    }
    assert(word_bits(words@) =~= byte_bits(bytes@));
    words
}

} // verus!

verus! {

/// A meshlet read back from a packed buffer.
#[derive(Clone, Debug)]
pub struct DecodedMeshlet {
    pub header: MeshletHeader,
    pub vertices: Vec<QuantizedVertex>,
    pub triangles: Vec<[u32; 3]>,
}

/// The bit just past the triangle indices of the meshlet that `h` heads.
pub open spec fn payload_end(h: MeshletHeader) -> int {
    index_offset(h) + h.num_primitives * 3 * h.num_bits_idx
}

fn read_vertices(buffer: &[u32], h: &MeshletHeader) -> (r: Vec<QuantizedVertex>)
    requires
        header_widths_ok(*h),
        h.data_offset + h.num_vertices * header_vertex_cost(*h) <= 32 * buffer@.len(),
        32 * buffer@.len() <= usize::MAX,
    ensures
        r@.len() == h.num_vertices,
        forall|j: int| 0 <= j < r@.len() ==> vertex_decodes(word_bits(buffer@), *h, j, #[trigger] r@[j]),
{
    let cost = (h.num_bits_x + h.num_bits_y + h.num_bits_z + h.num_bits_tex_x + h.num_bits_tex_y
        + 3 * h.num_bits_normal) as u64;
    let nv = h.num_vertices as usize;
    let mut vertices: Vec<QuantizedVertex> = Vec::new();
    let mut i: usize = 0;
    while i < nv
        invariant
            header_widths_ok(*h),
            cost == header_vertex_cost(*h),
            nv == h.num_vertices,
            h.data_offset + nv * cost <= 32 * buffer@.len(),
            32 * buffer@.len() <= usize::MAX,
            i <= nv,
            vertices@.len() == i,
            forall|j: int| 0 <= j < i ==> vertex_decodes(word_bits(buffer@), *h, j, #[trigger] vertices@[j]),
        decreases nv - i,
    {
        assert((i + 1) * cost <= nv * cost) by (nonlinear_arith)
            requires
                i + 1 <= nv,
        ;
        let v = read_vertex(buffer, h, i);
        vertices.push(v);
        i = i + 1;
    }
    vertices
}

fn read_triangles(buffer: &[u32], h: &MeshletHeader) -> (r: Vec<[u32; 3]>)
    requires
        header_widths_ok(*h),
        payload_end(*h) <= 32 * buffer@.len(),
        32 * buffer@.len() <= usize::MAX,
    ensures
        r@.len() == h.num_primitives,
        forall|j: int| 0 <= j < r@.len() ==> triangle_decodes(word_bits(buffer@), *h, j, #[trigger] r@[j]),
{
    let np = h.num_primitives as usize;
    let w = h.num_bits_idx as u64;
    let mut triangles: Vec<[u32; 3]> = Vec::new();
    let mut t: usize = 0;
    while t < np
        invariant
            header_widths_ok(*h),
            np == h.num_primitives,
            w == h.num_bits_idx,
            payload_end(*h) <= 32 * buffer@.len(),
            32 * buffer@.len() <= usize::MAX,
            t <= np,
            triangles@.len() == t,
            forall|j: int| 0 <= j < t ==> triangle_decodes(word_bits(buffer@), *h, j, #[trigger] triangles@[j]),
        decreases np - t,
    {
        assert((t + 1) * 3 * w <= np * 3 * w) by (nonlinear_arith)
            requires
                t + 1 <= np,
        ;
        let tri = read_triangle(buffer, h, t);
        triangles.push(tri);
        t = t + 1;
    }
    triangles
}

/// `m` is meshlet `k` as read from `s`: its header, and every vertex and triangle that the
/// header declares.
pub open spec fn meshlet_decodes(s: Seq<bool>, k: int, m: DecodedMeshlet) -> bool {
    &&& header_decodes(s, HEADER_BITS * k, m.header)
    &&& m.vertices@.len() == m.header.num_vertices
    &&& m.triangles@.len() == m.header.num_primitives
    &&& forall|i: int|
        0 <= i < m.vertices@.len() ==> vertex_decodes(s, m.header, i, #[trigger] m.vertices@[i])
    &&& forall|t: int|
        0 <= t < m.triangles@.len() ==> triangle_decodes(s, m.header, t, #[trigger] m.triangles@[t])
}

/// The bit just past the payload that the header at bit `base` of `s` declares: its offset,
/// plus its vertex count times the record width, plus three indices per triangle.
pub open spec fn declared_end(s: Seq<bool>, base: int) -> int {
    let cost = field(s, base + 192, 5) + field(s, base + 197, 5) + field(s, base + 202, 5)
        + field(s, base + 207, 5) + field(s, base + 212, 5) + 3 * (field(s, base + 217, 3) + 1)
        + 5;
    (field(s, base + 238, 32) + (field(s, base + 225, 6) + 1) * cost + (field(s, base + 231, 7)
        + 1) * 3 * (field(s, base + 220, 5) + 1)) as int
}

/// Reads meshlet `meshlet_index` whole: its header, then every vertex and every triangle that
/// the header declares, or nothing when the header or the payload it declares runs past the
/// end of the buffer.
#[verifier::rlimit(30)]
pub fn decode_meshlet(buffer: &[u32], meshlet_index: usize) -> (r: Option<DecodedMeshlet>)
    requires
        32 * buffer@.len() <= usize::MAX,
    ensures
        r is None <==> HEADER_BITS * (meshlet_index + 1) > 32 * buffer@.len()
            || declared_end(word_bits(buffer@), HEADER_BITS * meshlet_index) > 32 * buffer@.len(),
        r matches Some(m) ==> meshlet_decodes(word_bits(buffer@), meshlet_index as int, m),
{
    let ghost s = word_bits(buffer@);
    let bits: usize = 32 * buffer.len();
    if meshlet_index >= bits / HEADER_BITS {
        assert(HEADER_BITS * (meshlet_index + 1) > bits) by (nonlinear_arith)
            requires
                meshlet_index >= bits / 270,
                HEADER_BITS == 270,
        ;
        return None;
    }
    assert(HEADER_BITS * (meshlet_index + 1) <= bits) by (nonlinear_arith)
        requires
            meshlet_index < bits / 270,
            HEADER_BITS == 270,
    ;
    let h = read_header(buffer, meshlet_index);
    let cost = (h.num_bits_x + h.num_bits_y + h.num_bits_z + h.num_bits_tex_x + h.num_bits_tex_y
        + 3 * h.num_bits_normal) as u64;
    let nv = h.num_vertices as u64;
    let np = h.num_primitives as u64;
    let w = h.num_bits_idx as u64;
    proof {
        let base = meshlet_index * 270;
        lemma_bits_value_bound(s.subrange(base + 225, base + 231));
        lemma_bits_value_bound(s.subrange(base + 231, base + 238));
        lemma2_to64();
    }
    assert(nv * cost <= 64 * 256) by (nonlinear_arith)
        requires
            nv <= 64,
            cost <= 256,
    ;
    assert(np * 3 * w <= 128 * 3 * 32) by (nonlinear_arith)
        requires
            np <= 128,
            w <= 32,
    ;
    let end = h.data_offset as u64 + nv * cost + np * 3 * w;
    assert(end == declared_end(s, HEADER_BITS * meshlet_index));
    assert(end == payload_end(h));
    if end > bits as u64 {
        return None;
    }
    let vertices = read_vertices(buffer, &h);
    let triangles = read_triangles(buffer, &h);
    Some(DecodedMeshlet { header: h, vertices, triangles })
}

} // verus!
