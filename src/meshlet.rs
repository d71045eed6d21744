use vstd::arithmetic::power2::pow2;
use vstd::prelude::*;

use crate::bits::{bit_of, bits_of};
use crate::quantize::index_bits;

verus! {

/// Most vertices a meshlet may hold.
pub const MAX_VERTICES: usize = 64;

/// Most triangles a meshlet may hold.
pub const MAX_TRIANGLES: usize = 124;

/// Bits of one meshlet header on the wire.
pub const HEADER_BITS: usize = 270;

/// Bits of each texture coordinate code.
pub const TEX_COORD_BITS: u32 = 32;

/// Bits of each normal component code.
pub const NORMAL_BITS: u32 = 8;

/// A 3D vector held as the IEEE-754 bit patterns of its `f32` components.
#[derive(Clone, Copy, Debug, PartialEq, Eq, Default)]
pub struct Vec3Bits {
    pub x: u32,
    pub y: u32,
    pub z: u32,
}

/// An axis-aligned bounding box, its corners held as `f32` bit patterns.
#[derive(Clone, Copy, Debug, PartialEq, Eq, Default)]
pub struct AABB {
    pub min: Vec3Bits,
    pub max: Vec3Bits,
}

impl AABB {
    #[inline]
    pub fn new(min: Vec3Bits, max: Vec3Bits) -> (r: Self)
        ensures
            r.min == min,
            r.max == max,
    {
        Self { min, max }
    }
}

/// A vertex as a meshlet's payload stores it: position codes at the meshlet's widths,
/// texture coordinate codes of 32 bits and normal codes of 8 bits.
#[derive(Clone, Copy, Debug, PartialEq, Eq, Default)]
pub struct QuantizedVertex {
    pub position: [u32; 3],
    pub tex_coord: [u32; 2],
    pub normal: [u32; 3],
}

impl QuantizedVertex {
    #[inline]
    pub fn new(position: [u32; 3], tex_coord: [u32; 2], normal: [u32; 3]) -> (r: Self)
        ensures
            r.position == position,
            r.tex_coord == tex_coord,
            r.normal == normal,
    {
        Self { position, tex_coord, normal }
    }
}

/// The bit width of each position axis of a meshlet.
#[derive(Clone, Copy, Debug, PartialEq, Eq, Default)]
pub struct VertexSizeDesc {
    pub num_bits_x: u32,
    pub num_bits_y: u32,
    pub num_bits_z: u32,
}

/// A meshlet ready to be written: its bounds, its position widths, its vertices and its
/// triangles as three local vertex indices each.
#[derive(Clone, Debug)]
pub struct QuantizedMeshlet {
    pub aabb: AABB,
    pub vertex_size: VertexSizeDesc,
    pub vertices: Vec<QuantizedVertex>,
    pub triangles: Vec<u8>,
}

/// A meshlet header as read back from the wire.
#[derive(Clone, Copy, Debug, PartialEq, Eq, Default)]
pub struct MeshletHeader {
    pub aabb: AABB,
    pub num_bits_x: u32,
    pub num_bits_y: u32,
    pub num_bits_z: u32,
    pub num_bits_tex_x: u32,
    pub num_bits_tex_y: u32,
    pub num_bits_normal: u32,
    pub num_bits_idx: u32,
    pub num_vertices: u32,
    pub num_primitives: u32,
    pub data_offset: u32,
}

pub open spec fn width_ok(bits: u32) -> bool {
    4 <= bits <= 32
}

/// What a meshlet must satisfy to be written: the capacity limits, at least two vertices so
/// that an index takes at least one bit, local indices inside the vertex list, position widths
/// in `[4, 32]`, and codes that fit their widths.
pub open spec fn meshlet_valid(m: QuantizedMeshlet) -> bool {
    let nv = m.vertices@.len();
    let vs = m.vertex_size;
    &&& 2 <= nv <= MAX_VERTICES
    &&& m.triangles@.len() % 3 == 0
    &&& 3 <= m.triangles@.len() <= 3 * MAX_TRIANGLES
    &&& forall|t: int| 0 <= t < m.triangles@.len() ==> (#[trigger] m.triangles@[t]) < nv
    &&& width_ok(vs.num_bits_x) && width_ok(vs.num_bits_y) && width_ok(vs.num_bits_z)
    &&& forall|i: int| 0 <= i < nv ==> vertex_fits(vs, #[trigger] m.vertices@[i])
}

pub open spec fn vertex_fits(vs: VertexSizeDesc, v: QuantizedVertex) -> bool {
    &&& v.position[0] < pow2(vs.num_bits_x as nat)
    &&& v.position[1] < pow2(vs.num_bits_y as nat)
    &&& v.position[2] < pow2(vs.num_bits_z as nat)
    &&& v.normal[0] < 256 && v.normal[1] < 256 && v.normal[2] < 256
}

/// Bits of one vertex record at the given position widths.
pub open spec fn vertex_cost(vs: VertexSizeDesc) -> nat {
    (vs.num_bits_x + vs.num_bits_y + vs.num_bits_z + 2 * TEX_COORD_BITS + 3 * NORMAL_BITS) as nat
}

/// Bits of a meshlet's payload: its vertex records, then three indices per triangle.
pub open spec fn payload_len(m: QuantizedMeshlet) -> nat {
    m.vertices@.len() * vertex_cost(m.vertex_size) + m.triangles@.len() * index_bits(
        m.vertices@.len(),
    )
}

/// Bits of the payloads of `ms`, one after another.
pub open spec fn payloads_len(ms: Seq<QuantizedMeshlet>) -> nat
    decreases ms.len(),
{
    if ms.len() == 0 {
        0
    } else {
        payloads_len(ms.drop_last()) + payload_len(ms.last())
    }
}

/// Where the payload of meshlet `k` begins: after all headers and the payloads before it.
pub open spec fn data_offset(ms: Seq<QuantizedMeshlet>, k: int) -> nat {
    (HEADER_BITS * ms.len() + payloads_len(ms.take(k))) as nat
}

/// The bit length of the whole stream of `ms`.
pub open spec fn stream_len(ms: Seq<QuantizedMeshlet>) -> nat {
    (HEADER_BITS * ms.len() + payloads_len(ms)) as nat
}

/// Bit `i` of the header of `m` whose payload starts at `off`: the box corners (six fields
/// of 32 bits), the three position widths, the two texture coordinate widths and the normal
/// width, the index width, each less one (5, 5, 5, 5, 5, 3 and 5 bits), the vertex count less
/// one (6 bits), the triangle count less one (7 bits) and the payload offset (32 bits).
pub open spec fn header_bit(m: QuantizedMeshlet, off: nat, i: int) -> bool {
    let vs = m.vertex_size;
    let nv = m.vertices@.len();
    if i < 32 {
        bit_of(m.aabb.min.x as nat, i as nat)
    } else if i < 64 {
        bit_of(m.aabb.min.y as nat, (i - 32) as nat)
    } else if i < 96 {
        bit_of(m.aabb.min.z as nat, (i - 64) as nat)
    } else if i < 128 {
        bit_of(m.aabb.max.x as nat, (i - 96) as nat)
    } else if i < 160 {
        bit_of(m.aabb.max.y as nat, (i - 128) as nat)
    } else if i < 192 {
        bit_of(m.aabb.max.z as nat, (i - 160) as nat)
    } else if i < 197 {
        bit_of((vs.num_bits_x - 1) as nat, (i - 192) as nat)
    } else if i < 202 {
        bit_of((vs.num_bits_y - 1) as nat, (i - 197) as nat)
    } else if i < 207 {
        bit_of((vs.num_bits_z - 1) as nat, (i - 202) as nat)
    } else if i < 212 {
        bit_of((TEX_COORD_BITS - 1) as nat, (i - 207) as nat)
    } else if i < 217 {
        bit_of((TEX_COORD_BITS - 1) as nat, (i - 212) as nat)
    } else if i < 220 {
        bit_of((NORMAL_BITS - 1) as nat, (i - 217) as nat)
    } else if i < 225 {
        bit_of((index_bits(nv) - 1) as nat, (i - 220) as nat)
    } else if i < 231 {
        bit_of((nv - 1) as nat, (i - 225) as nat)
    } else if i < 238 {
        bit_of((m.triangles@.len() / 3 - 1) as nat, (i - 231) as nat)
    } else {
        bit_of(off, (i - 238) as nat)
    }
}

pub open spec fn header_bits(m: QuantizedMeshlet, off: nat) -> Seq<bool> {
    Seq::new(HEADER_BITS as nat, |i: int| header_bit(m, off, i))
}

/// Bit `i` of the record of `v`: position x, y and z at the meshlet's widths, the two texture
/// coordinates and the three normal components.
pub open spec fn vertex_bit(vs: VertexSizeDesc, v: QuantizedVertex, i: int) -> bool {
    let bx = vs.num_bits_x as int;
    let bxy = bx + vs.num_bits_y;
    let bxyz = bxy + vs.num_bits_z;
    if i < bx {
        bit_of(v.position[0] as nat, i as nat)
    } else if i < bxy {
        bit_of(v.position[1] as nat, (i - bx) as nat)
    } else if i < bxyz {
        bit_of(v.position[2] as nat, (i - bxy) as nat)
    } else if i < bxyz + 32 {
        bit_of(v.tex_coord[0] as nat, (i - bxyz) as nat)
    } else if i < bxyz + 64 {
        bit_of(v.tex_coord[1] as nat, (i - bxyz - 32) as nat)
    } else if i < bxyz + 72 {
        bit_of(v.normal[0] as nat, (i - bxyz - 64) as nat)
    } else if i < bxyz + 80 {
        bit_of(v.normal[1] as nat, (i - bxyz - 72) as nat)
    } else {
        bit_of(v.normal[2] as nat, (i - bxyz - 80) as nat)
    }
}

pub open spec fn vertex_bits(vs: VertexSizeDesc, v: QuantizedVertex) -> Seq<bool> {
    Seq::new(vertex_cost(vs), |i: int| vertex_bit(vs, v, i))
}

/// The bit strings of `ss`, one after another.
pub open spec fn concat(ss: Seq<Seq<bool>>) -> Seq<bool>
    decreases ss.len(),
{
    if ss.len() == 0 {
        Seq::empty()
    } else {
        concat(ss.drop_last()) + ss.last()
    }
}

pub open spec fn vertex_records(m: QuantizedMeshlet) -> Seq<Seq<bool>> {
    Seq::new(m.vertices@.len(), |i: int| vertex_bits(m.vertex_size, m.vertices@[i]))
}

pub open spec fn index_records(m: QuantizedMeshlet) -> Seq<Seq<bool>> {
    Seq::new(
        m.triangles@.len(),
        |t: int| bits_of(m.triangles@[t] as nat, index_bits(m.vertices@.len())),
    )
}

/// A meshlet's payload: all its vertex records, then all its triangle indices.
pub open spec fn payload_bits(m: QuantizedMeshlet) -> Seq<bool> {
    concat(vertex_records(m)) + concat(index_records(m))
}

pub open spec fn header_records(ms: Seq<QuantizedMeshlet>) -> Seq<Seq<bool>> {
    Seq::new(ms.len(), |k: int| header_bits(ms[k], data_offset(ms, k)))
}

pub open spec fn payload_records(ms: Seq<QuantizedMeshlet>) -> Seq<Seq<bool>> {
    Seq::new(ms.len(), |k: int| payload_bits(ms[k]))
}

/// The stream of `ms`: every header in order, then every payload in order.
pub open spec fn encoded_stream(ms: Seq<QuantizedMeshlet>) -> Seq<bool> {
    concat(header_records(ms)) + concat(payload_records(ms))
}

} // verus!

verus! {

pub proof fn lemma_concat_take_next(ss: Seq<Seq<bool>>, k: int)
    requires
        0 <= k < ss.len(),
    ensures
        concat(ss.take(k + 1)) == concat(ss.take(k)) + ss[k],
{
    assert(ss.take(k + 1).drop_last() =~= ss.take(k));
}

pub proof fn lemma_concat_all(ss: Seq<Seq<bool>>)
    ensures
        ss.take(ss.len() as int) == ss,
{
    assert(ss.take(ss.len() as int) =~= ss);
}

/// Strings of one length `l` make a string `l` times as long as their number.
pub proof fn lemma_concat_uniform_len(ss: Seq<Seq<bool>>, l: nat)
    requires
        forall|j: int| 0 <= j < ss.len() ==> (#[trigger] ss[j]).len() == l,
    ensures
        concat(ss).len() == ss.len() * l,
    decreases ss.len(),
{
    if ss.len() > 0 {
        lemma_concat_uniform_len(ss.drop_last(), l);
        assert(ss.len() * l == (ss.len() - 1) * l + l) by (nonlinear_arith);
    }
}

/// Piece `k` of a concatenation starts where the pieces before it end.
pub proof fn lemma_concat_piece(ss: Seq<Seq<bool>>, k: int)
    requires
        0 <= k < ss.len(),
    ensures
        concat(ss).subrange(
            concat(ss.take(k)).len() as int,
            (concat(ss.take(k)).len() + ss[k].len()) as int,
        ) == ss[k],
        concat(ss.take(k)).len() + ss[k].len() <= concat(ss).len(),
    decreases ss.len(),
{
    let n = ss.len();
    if k == n - 1 {
        assert(ss.take(k) =~= ss.drop_last());
        assert(concat(ss).subrange(concat(ss.take(k)).len() as int, concat(ss).len() as int)
            =~= ss[k]);
    } else {
        lemma_concat_piece(ss.drop_last(), k);
        assert(ss.drop_last().take(k) =~= ss.take(k));
        let p = concat(ss.take(k)).len() as int;
        assert(concat(ss).subrange(p, p + ss[k].len()) =~= concat(ss.drop_last()).subrange(
            p,
            p + ss[k].len(),
        ));
    }
}

pub proof fn lemma_payloads_take_next(ms: Seq<QuantizedMeshlet>, k: int)
    requires
        0 <= k < ms.len(),
    ensures
        payloads_len(ms.take(k + 1)) == payloads_len(ms.take(k)) + payload_len(ms[k]),
{
    assert(ms.take(k + 1).drop_last() =~= ms.take(k));
}

pub proof fn lemma_payloads_monotone(ms: Seq<QuantizedMeshlet>, j: int, k: int)
    requires
        0 <= j <= k <= ms.len(),
    ensures
        payloads_len(ms.take(j)) <= payloads_len(ms.take(k)),
    decreases k - j,
{
    if j < k {
        lemma_payloads_monotone(ms, j, k - 1);
        lemma_payloads_take_next(ms, k - 1);
    }
}

/// Each vertex record and the payload have the lengths the layout gives them.
pub proof fn lemma_payload_bits_len(m: QuantizedMeshlet)
    ensures
        concat(vertex_records(m)).len() == m.vertices@.len() * vertex_cost(m.vertex_size),
        concat(index_records(m)).len() == m.triangles@.len() * index_bits(m.vertices@.len()),
        payload_bits(m).len() == payload_len(m),
{
    lemma_concat_uniform_len(vertex_records(m), vertex_cost(m.vertex_size));
    lemma_concat_uniform_len(index_records(m), index_bits(m.vertices@.len()));
}

} // verus!
