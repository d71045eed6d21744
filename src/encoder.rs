use vstd::arithmetic::power2::{lemma2_to64, pow2};
use vstd::bits::{lemma_u64_pow2_no_overflow, lemma_u64_shl_is_mul};
use vstd::prelude::*;

use crate::bit_writer::{
    align_writer, byte_padding, new_writer, pack_bytes, write_bits, writer_bytes, written_bits,
    BitSink,
};
use crate::bits::{bit_of, bits_of, bits_value, lemma_bits_value_of, zero_bits};
use crate::meshlet::{
    concat, data_offset, encoded_stream, header_bits, header_records, index_records,
    lemma_concat_all, lemma_concat_take_next, lemma_concat_uniform_len, lemma_payload_bits_len,
    lemma_payloads_monotone, lemma_payloads_take_next, meshlet_valid, payload_bits, payload_len,
    payload_records, payloads_len, stream_len, vertex_bits, vertex_fits,
    vertex_records, QuantizedMeshlet, QuantizedVertex, VertexSizeDesc, HEADER_BITS, MAX_TRIANGLES,
    MAX_VERTICES, NORMAL_BITS, TEX_COORD_BITS,
};
use crate::quantize::{get_bits_per_index, index_bits, lemma_index_bits_at_most, lemma_index_fits};

verus! {

/// Why a set of meshlets could not be encoded.
#[derive(Clone, Copy, Debug, PartialEq, Eq)]
pub enum EncodeError {
    /// A meshlet breaks the capacity limits, indexes past its vertices, has a position width
    /// outside `[4, 32]` or a code that does not fit its width.
    InvalidMeshlet,
    /// The stream would be longer than a 32-bit payload offset can address.
    TooLarge,
}

pub open spec fn all_valid(ms: Seq<QuantizedMeshlet>) -> bool {
    forall|k: int| 0 <= k < ms.len() ==> meshlet_valid(#[trigger] ms[k])
}

/// The number of zero bits that carry a stream of `len` bits to a 32-bit word boundary.
pub open spec fn word_padding(len: nat) -> nat {
    ((32 - len % 32) % 32) as nat
}

/// The bytes of the encoded buffer: the stream, zero-padded to whole 32-bit words.
pub open spec fn encoded_bytes(ms: Seq<QuantizedMeshlet>) -> Seq<u8> {
    pack_bytes(encoded_stream(ms) + zero_bits(word_padding(stream_len(ms))))
}

/// Whether `v` fits in `bits` bits, for widths up to 32.
fn fits_width(v: u32, bits: u32) -> (r: bool)
    requires
        bits <= 32,
    ensures
        r == (v < pow2(bits as nat)),
{
    proof {
        lemma_u64_pow2_no_overflow(bits as nat);
        lemma_u64_shl_is_mul(1, bits as u64);
    }
    (v as u64) < (1u64 << bits as u64)
}

fn width_is_ok(bits: u32) -> (r: bool)
    ensures
        r == (4 <= bits <= 32),
{
    4 <= bits && bits <= 32
}

/// Whether a meshlet can be written.
pub fn meshlet_is_valid(m: &QuantizedMeshlet) -> (r: bool)
    ensures
        r == meshlet_valid(*m),
{
    let nv = m.vertices.len();
    let nt = m.triangles.len();
    let vs = m.vertex_size;
    if nv < 2 || nv > MAX_VERTICES || nt % 3 != 0 || nt < 3 || nt > 3 * MAX_TRIANGLES {
        return false;
    }
    if !width_is_ok(vs.num_bits_x) || !width_is_ok(vs.num_bits_y) || !width_is_ok(
        vs.num_bits_z,
    ) {
        return false;
    }
    let mut t: usize = 0;
    while t < nt
        invariant
            nt == m.triangles@.len(),
            nv == m.vertices@.len(),
            forall|j: int| 0 <= j < t ==> (#[trigger] m.triangles@[j]) < nv,
        decreases nt - t,
    {
        if m.triangles[t] as usize >= nv {
            return false;
        }
        t = t + 1;
    }
    let mut i: usize = 0;
    while i < nv
        invariant
            nv == m.vertices@.len(),
            vs == m.vertex_size,
            vs.num_bits_x <= 32 && vs.num_bits_y <= 32 && vs.num_bits_z <= 32,
            forall|j: int| 0 <= j < i ==> vertex_fits(vs, #[trigger] m.vertices@[j]),
        decreases nv - i,
    {
        let v = m.vertices[i];
        if !fits_width(v.position[0], vs.num_bits_x) || !fits_width(v.position[1], vs.num_bits_y)
            || !fits_width(v.position[2], vs.num_bits_z) || v.normal[0] >= 256 || v.normal[1]
            >= 256 || v.normal[2] >= 256 {
            assert(!vertex_fits(vs, m.vertices@[i as int]));
            return false;
        }
        i = i + 1;
    }
    true
}

/// The payload length of a valid meshlet, in bits.
fn payload_size(m: &QuantizedMeshlet) -> (r: u64)
    requires
        meshlet_valid(*m),
    ensures
        r == payload_len(*m),
        r <= 0x1_0000,
{
    let nv = m.vertices.len() as u64;
    let vs = m.vertex_size;
    let cost = (vs.num_bits_x + vs.num_bits_y + vs.num_bits_z + 2 * TEX_COORD_BITS + 3
        * NORMAL_BITS) as u64;
    let idx = get_bits_per_index(m.vertices.len()) as u64;
    proof {
        lemma2_to64();
        assert(idx <= 6) by {
            if idx > 6 {
                vstd::arithmetic::power2::lemma_pow2_strictly_increases(6, (idx - 1) as nat);
            }
        }
    }
    assert(nv * cost <= 64 * 184) by (nonlinear_arith)
        requires
            nv <= 64,
            cost <= 184,
    ;
    assert(m.triangles.len() as u64 * idx <= 372 * 6) by (nonlinear_arith)
        requires
            m.triangles.len() <= 372,
            idx <= 6,
    ;
    nv * cost + m.triangles.len() as u64 * idx
}

/// Writes `bits` bits of `value` that stand at `pos` in `target`, after the first `pos`
/// bits of `target` that were written after `base`.
fn put(
    w: &mut BitSink,
    bits: u32,
    value: u32,
    Ghost(target): Ghost<Seq<bool>>,
    Ghost(base): Ghost<Seq<bool>>,
    Ghost(pos): Ghost<int>,
)
    requires
        bits <= 32,
        value < pow2(bits as nat),
        0 <= pos,
        pos + bits <= target.len(),
        written_bits(*old(w)) == base + target.subrange(0, pos),
        forall|i: int| 0 <= i < bits ==> target[pos + i] == #[trigger] bit_of(value as nat, i as nat),
    ensures
        written_bits(*final(w)) == base + target.subrange(0, pos + bits),
{
    let ok = write_bits(w, bits, value);
    assert(ok);
    proof {
        let piece = bits_of(value as nat, bits as nat);
        assert(target.subrange(0, pos + bits) =~= target.subrange(0, pos) + piece);
        assert(base + target.subrange(0, pos + bits) =~= (base + target.subrange(0, pos)) + piece);
    }
}

/// Writes the header of `m`, whose payload starts at bit `off`.
#[verifier::rlimit(30)]
fn write_header(w: &mut BitSink, m: &QuantizedMeshlet, off: u32)
    requires
        meshlet_valid(*m),
    ensures
        written_bits(*final(w)) == written_bits(*old(w)) + header_bits(*m, off as nat),
{
    let ghost base = written_bits(*w);
    let ghost t = header_bits(*m, off as nat);
    proof {
        assert(base + t.subrange(0, 0) =~= base);
    }
    let vs = m.vertex_size;
    let nv = m.vertices.len();
    let idx = get_bits_per_index(nv);
    proof {
        lemma2_to64();
        lemma_index_bits_at_most(nv as nat, 6);
    }
    let b = m.aabb;
    put(w, 32, b.min.x, Ghost(t), Ghost(base), Ghost(0));
    put(w, 32, b.min.y, Ghost(t), Ghost(base), Ghost(32));
    put(w, 32, b.min.z, Ghost(t), Ghost(base), Ghost(64));
    put(w, 32, b.max.x, Ghost(t), Ghost(base), Ghost(96));
    put(w, 32, b.max.y, Ghost(t), Ghost(base), Ghost(128));
    put(w, 32, b.max.z, Ghost(t), Ghost(base), Ghost(160));
    put(w, 5, vs.num_bits_x - 1, Ghost(t), Ghost(base), Ghost(192));
    put(w, 5, vs.num_bits_y - 1, Ghost(t), Ghost(base), Ghost(197));
    put(w, 5, vs.num_bits_z - 1, Ghost(t), Ghost(base), Ghost(202));
    put(w, 5, TEX_COORD_BITS - 1, Ghost(t), Ghost(base), Ghost(207));
    put(w, 5, TEX_COORD_BITS - 1, Ghost(t), Ghost(base), Ghost(212));
    put(w, 3, NORMAL_BITS - 1, Ghost(t), Ghost(base), Ghost(217));
    put(w, 5, idx - 1, Ghost(t), Ghost(base), Ghost(220));
    put(w, 6, (nv - 1) as u32, Ghost(t), Ghost(base), Ghost(225));
    put(w, 7, (m.triangles.len() / 3 - 1) as u32, Ghost(t), Ghost(base), Ghost(231));
    put(w, 32, off, Ghost(t), Ghost(base), Ghost(238));
    proof {
        assert(t.subrange(0, 270) =~= t);
    }
}

/// Writes the record of `v` at the position widths `vs`.
#[verifier::rlimit(30)]
fn write_vertex(w: &mut BitSink, vs: VertexSizeDesc, v: QuantizedVertex)
    requires
        vertex_fits(vs, v),
        vs.num_bits_x <= 32,
        vs.num_bits_y <= 32,
        vs.num_bits_z <= 32,
    ensures
        written_bits(*final(w)) == written_bits(*old(w)) + vertex_bits(vs, v),
{
    let ghost base = written_bits(*w);
    let ghost t = vertex_bits(vs, v);
    proof {
        lemma2_to64();
        assert(base + t.subrange(0, 0) =~= base);
    }
    let bx = vs.num_bits_x;
    let bxy = bx + vs.num_bits_y;
    let bxyz = bxy + vs.num_bits_z;
    put(w, bx, v.position[0], Ghost(t), Ghost(base), Ghost(0));
    put(w, vs.num_bits_y, v.position[1], Ghost(t), Ghost(base), Ghost(bx as int));
    put(w, vs.num_bits_z, v.position[2], Ghost(t), Ghost(base), Ghost(bxy as int));
    put(w, TEX_COORD_BITS, v.tex_coord[0], Ghost(t), Ghost(base), Ghost(bxyz as int));
    put(w, TEX_COORD_BITS, v.tex_coord[1], Ghost(t), Ghost(base), Ghost(bxyz + 32));
    put(w, NORMAL_BITS, v.normal[0], Ghost(t), Ghost(base), Ghost(bxyz + 64));
    put(w, NORMAL_BITS, v.normal[1], Ghost(t), Ghost(base), Ghost(bxyz + 72));
    put(w, NORMAL_BITS, v.normal[2], Ghost(t), Ghost(base), Ghost(bxyz + 80));
    proof {
        assert(t.subrange(0, bxyz + 88) =~= t);
    }
}

/// Writes the payload of `m`: its vertex records, then its triangle indices.
#[verifier::rlimit(30)]
fn write_payload(w: &mut BitSink, m: &QuantizedMeshlet)
    requires
        meshlet_valid(*m),
    ensures
        written_bits(*final(w)) == written_bits(*old(w)) + payload_bits(*m),
{
    let ghost base = written_bits(*w);
    let ghost vr = vertex_records(*m);
    let ghost ir = index_records(*m);
    proof {
        assert(vr.take(0) =~= Seq::<Seq<bool>>::empty());
        assert(base + concat(vr.take(0)) =~= base);
    }
    let nv = m.vertices.len();
    let mut i: usize = 0;
    while i < nv
        invariant
            nv == m.vertices@.len(),
            i <= nv,
            meshlet_valid(*m),
            vr == vertex_records(*m),
            written_bits(*w) == base + concat(vr.take(i as int)),
        decreases nv - i,
    {
        let ghost before = written_bits(*w);
        write_vertex(w, m.vertex_size, m.vertices[i]);
        proof {
            lemma_concat_take_next(vr, i as int);
            assert(base + concat(vr.take(i + 1)) =~= before + vr[i as int]);
        }
        i = i + 1;
    }
    let idx = get_bits_per_index(nv);
    proof {
        lemma_concat_all(vr);
        assert(ir.take(0) =~= Seq::<Seq<bool>>::empty());
        assert(base + concat(vr) + concat(ir.take(0)) =~= base + concat(vr));
        lemma2_to64();
        if idx > 6 {
            vstd::arithmetic::power2::lemma_pow2_strictly_increases(6, (idx - 1) as nat);
        }
    }
    let nt = m.triangles.len();
    let mut t: usize = 0;
    while t < nt
        invariant
            nt == m.triangles@.len(),
            nv == m.vertices@.len(),
            t <= nt,
            idx == index_bits(nv as nat),
            idx <= 32,
            meshlet_valid(*m),
            ir == index_records(*m),
            written_bits(*w) == base + concat(vr) + concat(ir.take(t as int)),
        decreases nt - t,
    {
        let ghost before = written_bits(*w);
        proof {
            lemma_index_fits(nv as nat, m.triangles@[t as int] as nat);
        }
        let ok = write_bits(w, idx, m.triangles[t] as u32);
        assert(ok);
        proof {
            lemma_concat_take_next(ir, t as int);
            assert(base + concat(vr) + concat(ir.take(t + 1)) =~= before + ir[t as int]);
        }
        t = t + 1;
    }
    proof {
        lemma_concat_all(ir);
        assert(base + concat(vr) + concat(ir) =~= base + payload_bits(*m));
    }
}

pub proof fn lemma_payload_records_len(ms: Seq<QuantizedMeshlet>)
    ensures
        concat(payload_records(ms)).len() == payloads_len(ms),
    decreases ms.len(),
{
    if ms.len() > 0 {
        assert(payload_records(ms).drop_last() =~= payload_records(ms.drop_last()));
        lemma_payload_records_len(ms.drop_last());
        lemma_payload_bits_len(ms.last());
    }
}

/// The encoded stream is as long as the layout says.
pub proof fn lemma_encoded_stream_len(ms: Seq<QuantizedMeshlet>)
    ensures
        encoded_stream(ms).len() == stream_len(ms),
{
    lemma_concat_uniform_len(header_records(ms), HEADER_BITS as nat);
    lemma_payload_records_len(ms);
}

proof fn lemma_zero_bits_value(n: nat)
    ensures
        bits_value(zero_bits(n)) == 0,
{
    lemma2_to64();
    assert(bits_of(0, n) =~= zero_bits(n)) by {
        assert forall|i: int| 0 <= i < n implies !#[trigger] bit_of(0, i as nat) by {
            vstd::arithmetic::power2::lemma_pow2_pos(i as nat);
        }
    }
    lemma_bits_value_of(0, n);
    vstd::arithmetic::power2::lemma_pow2_pos(n);
}

proof fn lemma_pack_push_zero(x: Seq<bool>)
    requires
        x.len() % 8 == 0,
    ensures
        pack_bytes(x + zero_bits(8)) == pack_bytes(x).push(0),
{
    let y = x + zero_bits(8);
    assert forall|i: int| 0 <= i < x.len() / 8 implies #[trigger] y.subrange(8 * i, 8 * i + 8) == x.subrange(
        8 * i,
        8 * i + 8,
    ) by {
        assert(8 * i + 8 <= x.len());
        assert(y.subrange(8 * i, 8 * i + 8) =~= x.subrange(8 * i, 8 * i + 8));
    }
    let last = (x.len() / 8) as int;
    assert(y.subrange(8 * last, 8 * last + 8) =~= zero_bits(8));
    lemma_zero_bits_value(8);
    assert(pack_bytes(y) =~= pack_bytes(x).push(0));
}

proof fn lemma_padding_start(len: nat)
    ensures
        byte_padding(len) <= word_padding(len),
        (len + byte_padding(len)) % 8 == 0,
{
}

proof fn lemma_padding_step(len: nat, j: nat)
    requires
        (len + j) % 8 == 0,
        j <= word_padding(len),
        (len + j) % 32 != 0,
    ensures
        j + 8 <= word_padding(len),
{
}

proof fn lemma_padding_done(len: nat, j: nat)
    requires
        (len + j) % 8 == 0,
        j <= word_padding(len),
        ((len + j) / 8) % 4 == 0,
    ensures
        j == word_padding(len),
{
}

/// `r` is what encoding `ms` gives: the encoded bytes exactly when every meshlet is valid and
/// the stream fits 32-bit offsets, else the error that says which of the two fails.
pub open spec fn encoded_as(ms: Seq<QuantizedMeshlet>, r: Result<Vec<u8>, EncodeError>) -> bool {
    &&& (all_valid(ms) && stream_len(ms) <= u32::MAX) <==> r is Ok
    &&& match r {
        Ok(bytes) => bytes@ == encoded_bytes(ms),
        Err(EncodeError::InvalidMeshlet) => !all_valid(ms),
        Err(EncodeError::TooLarge) => all_valid(ms) && stream_len(ms) > u32::MAX,
    }
}

/// Encodes meshlets into one buffer: every header in meshlet order, then every payload in
/// meshlet order, each header holding the bit offset of its payload, the whole zero-padded
/// to a multiple of four bytes.
#[verifier::rlimit(30)]
pub fn encode_meshlets(meshlets: &Vec<QuantizedMeshlet>) -> (r: Result<Vec<u8>, EncodeError>)
    ensures
        encoded_as(meshlets@, r),
{
    let ghost ms = meshlets@;
    let n = meshlets.len();
    let mut k: usize = 0;
    while k < n
        invariant
            n == ms.len(),
            ms == meshlets@,
            forall|j: int| 0 <= j < k ==> meshlet_valid(#[trigger] ms[j]),
        decreases n - k,
    {
        if !meshlet_is_valid(&meshlets[k]) {
            return Err(EncodeError::InvalidMeshlet);
        }
        k = k + 1;
    }
    let limit: u64 = 0xffff_ffff;
    if n as u64 > limit / 270 {
        proof {
            assert(ms.take(n as int) =~= ms);
        }
        return Err(EncodeError::TooLarge);
    }
    let mut total: u64 = 270 * n as u64;
    proof {
        assert(ms.take(0) =~= Seq::<QuantizedMeshlet>::empty());
    }
    k = 0;
    while k < n
        invariant
            n == ms.len(),
            ms == meshlets@,
            all_valid(ms),
            k <= n,
            total == HEADER_BITS * n + payloads_len(ms.take(k as int)),
            total <= limit,
            limit == 0xffff_ffff,
        decreases n - k,
    {
        let p = payload_size(&meshlets[k]);
        proof {
            lemma_payloads_take_next(ms, k as int);
        }
        if total + p > limit {
            proof {
                lemma_payloads_monotone(ms, k + 1, n as int);
                assert(ms.take(n as int) =~= ms);
            }
            return Err(EncodeError::TooLarge);
        }
        total = total + p;
        k = k + 1;
    }
    proof {
        assert(ms.take(n as int) =~= ms);
    }
    let mut w = new_writer();
    let ghost hr = header_records(ms);
    let ghost pr = payload_records(ms);
    let mut offset: u32 = (270 * n) as u32;
    proof {
        assert(hr.take(0) =~= Seq::<Seq<bool>>::empty());
    }
    k = 0;
    while k < n
        invariant
            n == ms.len(),
            ms == meshlets@,
            all_valid(ms),
            k <= n,
            hr == header_records(ms),
            total == stream_len(ms),
            total <= 0xffff_ffff,
            offset == data_offset(ms, k as int),
            written_bits(w) == concat(hr.take(k as int)),
        decreases n - k,
    {
        let ghost before = written_bits(w);
        write_header(&mut w, &meshlets[k], offset);
        let p = payload_size(&meshlets[k]);
        proof {
            lemma_concat_take_next(hr, k as int);
            lemma_payloads_take_next(ms, k as int);
            lemma_payloads_monotone(ms, k + 1, n as int);
            assert(ms.take(n as int) =~= ms);
        }
        offset = offset + p as u32;
        k = k + 1;
    }
    proof {
        lemma_concat_all(hr);
        assert(pr.take(0) =~= Seq::<Seq<bool>>::empty());
        assert(concat(hr) + concat(pr.take(0)) =~= concat(hr));
    }
    k = 0;
    while k < n
        invariant
            n == ms.len(),
            ms == meshlets@,
            all_valid(ms),
            k <= n,
            hr == header_records(ms),
            pr == payload_records(ms),
            total == stream_len(ms),
            total <= 0xffff_ffff,
            written_bits(w) == concat(hr) + concat(pr.take(k as int)),
        decreases n - k,
    {
        let ghost before = written_bits(w);
        write_payload(&mut w, &meshlets[k]);
        proof {
            lemma_concat_take_next(pr, k as int);
            assert(concat(hr) + concat(pr.take(k + 1)) =~= before + pr[k as int]);
        }
        k = k + 1;
    }
    let ghost s = encoded_stream(ms);
    proof {
        lemma_concat_all(pr);
        lemma_encoded_stream_len(ms);
    }
    let aligned = align_writer(&mut w);
    assert(aligned);
    let ghost len = s.len();
    proof {
        lemma_padding_start(len);
    }
    let mut bytes = writer_bytes(w);
    let ghost mut j: nat = byte_padding(len);
    while bytes.len() % 4 != 0
        invariant
            len == s.len(),
            (len + j) % 8 == 0,
            j <= word_padding(len),
            bytes@ == pack_bytes(s + zero_bits(j)),
        decreases word_padding(len) - j,
    {
        proof {
            lemma_padding_step(len, j);
            lemma_pack_push_zero(s + zero_bits(j));
            assert(s + zero_bits(j) + zero_bits(8) =~= s + zero_bits(j + 8));
        }
        bytes.push(0);
        proof {
            j = j + 8;
        }
    }
    proof {
        lemma_padding_done(len, j);
    }
    Ok(bytes)
}

} // verus!
