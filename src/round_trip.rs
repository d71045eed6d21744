use vstd::arithmetic::power2::{lemma2_to64, pow2};
use vstd::prelude::*;

use crate::bit_writer::pack_bytes;
use crate::bits::{
    bit_of, bits_of, byte_bits, field, lemma_bit_of_value, lemma_bits_round_trip, word_bits,
    zero_bits,
};
use crate::decoder::{
    header_decodes, meshlet_decodes, triangle_decodes, vertex_decodes, DecodedMeshlet,
};
use crate::encoder::{
    all_valid, encoded_as, encoded_bytes, lemma_encoded_stream_len, lemma_payload_records_len,
    word_padding, EncodeError,
};
use crate::meshlet::{
    concat, data_offset, encoded_stream, header_bits, header_records, index_records,
    lemma_concat_piece, lemma_concat_uniform_len, lemma_payload_bits_len, lemma_payloads_monotone,
    meshlet_valid, payload_bits, payload_len, payload_records, stream_len, vertex_bits,
    vertex_cost, vertex_fits, vertex_records, width_ok, MeshletHeader, QuantizedMeshlet,
    QuantizedVertex, VertexSizeDesc, HEADER_BITS, NORMAL_BITS, TEX_COORD_BITS,
};
use crate::quantize::{index_bits, lemma_index_bits_at_most, lemma_index_fits};

verus! {

/// `h` is the header that the encoder writes for `m` with its payload at bit `off`.
pub open spec fn header_matches(h: MeshletHeader, m: QuantizedMeshlet, off: nat) -> bool {
    &&& h.aabb == m.aabb
    &&& h.num_bits_x == m.vertex_size.num_bits_x
    &&& h.num_bits_y == m.vertex_size.num_bits_y
    &&& h.num_bits_z == m.vertex_size.num_bits_z
    &&& h.num_bits_tex_x == TEX_COORD_BITS
    &&& h.num_bits_tex_y == TEX_COORD_BITS
    &&& h.num_bits_normal == NORMAL_BITS
    &&& h.num_bits_idx == index_bits(m.vertices@.len())
    &&& h.num_vertices == m.vertices@.len()
    &&& h.num_primitives == m.triangles@.len() / 3
    &&& h.data_offset == off
}

pub open spec fn same_vertex(a: QuantizedVertex, b: QuantizedVertex) -> bool {
    &&& a.position[0] == b.position[0]
    &&& a.position[1] == b.position[1]
    &&& a.position[2] == b.position[2]
    &&& a.tex_coord[0] == b.tex_coord[0]
    &&& a.tex_coord[1] == b.tex_coord[1]
    &&& a.normal[0] == b.normal[0]
    &&& a.normal[1] == b.normal[1]
    &&& a.normal[2] == b.normal[2]
}

/// `s` begins with the encoded stream of `ms`.
pub open spec fn starts_with_stream(s: Seq<bool>, ms: Seq<QuantizedMeshlet>) -> bool {
    &&& stream_len(ms) <= s.len()
    &&& s.subrange(0, stream_len(ms) as int) == encoded_stream(ms)
}

proof fn lemma_read_in_window(s: Seq<bool>, b: int, win: Seq<bool>, c: int, x: nat, w: nat)
    requires
        0 <= b,
        b + win.len() <= s.len(),
        s.subrange(b, b + win.len()) == win,
        0 <= c,
        c + w <= win.len(),
        x < pow2(w),
        forall|i: int| 0 <= i < w ==> win[c + i] == #[trigger] bit_of(x, i as nat),
    ensures
        field(s, b + c, w) == x,
{
    assert forall|i: int| 0 <= i < w implies s.subrange(b + c, b + c + w)[i] == bits_of(x, w)[i] by {
        assert(s.subrange(b, b + win.len())[c + i] == s[b + c + i]);
    }
    assert(s.subrange(b + c, b + c + w) =~= bits_of(x, w));
    lemma_bits_round_trip(x, w);
}

proof fn lemma_window(s: Seq<bool>, a: int, x: Seq<bool>, e: int, y: Seq<bool>)
    requires
        0 <= a,
        a + x.len() <= s.len(),
        s.subrange(a, a + x.len()) == x,
        0 <= e,
        e + y.len() <= x.len(),
        x.subrange(e, e + y.len()) == y,
    ensures
        s.subrange(a + e, a + e + y.len()) == y,
{
    assert forall|i: int| 0 <= i < y.len() implies s.subrange(a + e, a + e + y.len())[i] == y[i] by {
        assert(s.subrange(a, a + x.len())[e + i] == s[a + e + i]);
        assert(x.subrange(e, e + y.len())[i] == x[e + i]);
    }
    assert(s.subrange(a + e, a + e + y.len()) =~= y);
}

/// Where the header of meshlet `k` lies in a stream that begins with the encoding of `ms`.
#[verifier::rlimit(30)]
proof fn lemma_header_window(ms: Seq<QuantizedMeshlet>, s: Seq<bool>, k: int)
    requires
        starts_with_stream(s, ms),
        0 <= k < ms.len(),
    ensures
        HEADER_BITS * k + HEADER_BITS <= s.len(),
        s.subrange(HEADER_BITS * k, HEADER_BITS * k + HEADER_BITS) == header_bits(
            ms[k],
            data_offset(ms, k),
        ),
{
    let hr = header_records(ms);
    let es = encoded_stream(ms);
    lemma_encoded_stream_len(ms);
    lemma_concat_piece(hr, k);
    lemma_concat_uniform_len(hr.take(k), HEADER_BITS as nat);
    lemma_concat_uniform_len(hr, HEADER_BITS as nat);
    let b = HEADER_BITS * k;
    assert(es.subrange(0, concat(hr).len() as int) =~= concat(hr));
    lemma_window(s, 0, es, 0, concat(hr));
    lemma_window(s, 0, concat(hr), b, hr[k]);
}

/// Where the payload of meshlet `k` lies in a stream that begins with the encoding of `ms`.
#[verifier::rlimit(30)]
proof fn lemma_payload_window(ms: Seq<QuantizedMeshlet>, s: Seq<bool>, k: int)
    requires
        starts_with_stream(s, ms),
        0 <= k < ms.len(),
    ensures
        data_offset(ms, k) + payload_len(ms[k]) <= s.len(),
        payload_bits(ms[k]).len() == payload_len(ms[k]),
        s.subrange(data_offset(ms, k) as int, (data_offset(ms, k) + payload_len(ms[k])) as int)
            == payload_bits(ms[k]),
{
    let hr = header_records(ms);
    let pr = payload_records(ms);
    let es = encoded_stream(ms);
    lemma_encoded_stream_len(ms);
    lemma_concat_uniform_len(hr, HEADER_BITS as nat);
    lemma_concat_piece(pr, k);
    assert(pr.take(k) =~= payload_records(ms.take(k)));
    lemma_payload_records_len(ms.take(k));
    lemma_payload_bits_len(ms[k]);
    let h = concat(hr).len() as int;
    assert(es.subrange(h, es.len() as int) =~= concat(pr));
    lemma_window(s, 0, es, h, concat(pr));
    lemma_window(s, h, concat(pr), concat(pr.take(k)).len() as int, pr[k]);
}

/// Decoding header `k` of a stream that begins with the encoding of valid meshlets gives
/// back the bounds, widths and counts of meshlet `k` and the offset of its payload.
#[verifier::rlimit(30)]
pub proof fn lemma_header_round_trip(
    ms: Seq<QuantizedMeshlet>,
    s: Seq<bool>,
    k: int,
    h: MeshletHeader,
)
    requires
        all_valid(ms),
        stream_len(ms) <= u32::MAX,
        starts_with_stream(s, ms),
        0 <= k < ms.len(),
        header_decodes(s, HEADER_BITS * k, h),
    ensures
        header_matches(h, ms[k], data_offset(ms, k)),
{
    let m = ms[k];
    assert(meshlet_valid(m));
    let off = data_offset(ms, k);
    let win = header_bits(m, off);
    let b = HEADER_BITS * k;
    let nv = m.vertices@.len();
    lemma_header_window(ms, s, k);
    lemma_payloads_monotone(ms, k, ms.len() as int);
    assert(ms.take(ms.len() as int) =~= ms);
    lemma2_to64();
    lemma_index_bits_at_most(nv, 6);
    lemma_read_in_window(s, b, win, 0, m.aabb.min.x as nat, 32);
    lemma_read_in_window(s, b, win, 32, m.aabb.min.y as nat, 32);
    lemma_read_in_window(s, b, win, 64, m.aabb.min.z as nat, 32);
    lemma_read_in_window(s, b, win, 96, m.aabb.max.x as nat, 32);
    lemma_read_in_window(s, b, win, 128, m.aabb.max.y as nat, 32);
    lemma_read_in_window(s, b, win, 160, m.aabb.max.z as nat, 32);
    lemma_read_in_window(s, b, win, 192, (m.vertex_size.num_bits_x - 1) as nat, 5);
    lemma_read_in_window(s, b, win, 197, (m.vertex_size.num_bits_y - 1) as nat, 5);
    lemma_read_in_window(s, b, win, 202, (m.vertex_size.num_bits_z - 1) as nat, 5);
    lemma_read_in_window(s, b, win, 207, (TEX_COORD_BITS - 1) as nat, 5);
    lemma_read_in_window(s, b, win, 212, (TEX_COORD_BITS - 1) as nat, 5);
    lemma_read_in_window(s, b, win, 217, (NORMAL_BITS - 1) as nat, 3);
    lemma_read_in_window(s, b, win, 220, (index_bits(nv) - 1) as nat, 5);
    lemma_read_in_window(s, b, win, 225, (nv - 1) as nat, 6);
    lemma_read_in_window(s, b, win, 231, (m.triangles@.len() / 3 - 1) as nat, 7);
    lemma_read_in_window(s, b, win, 238, off, 32);
}

/// Where vertex `i` of meshlet `k` lies in a stream that begins with the encoding of `ms`.
#[verifier::rlimit(30)]
proof fn lemma_vertex_window(ms: Seq<QuantizedMeshlet>, s: Seq<bool>, k: int, i: int)
    requires
        starts_with_stream(s, ms),
        0 <= k < ms.len(),
        0 <= i < ms[k].vertices@.len(),
    ensures
        ({
            let b = data_offset(ms, k) + i * vertex_cost(ms[k].vertex_size);
            let c = vertex_cost(ms[k].vertex_size);
            &&& b + c <= s.len()
            &&& s.subrange(b, b + c) == vertex_bits(ms[k].vertex_size, ms[k].vertices@[i])
        }),
{
    let m = ms[k];
    let d = data_offset(ms, k) as int;
    let cost = vertex_cost(m.vertex_size);
    let vr = vertex_records(m);
    lemma_payload_window(ms, s, k);
    lemma_payload_bits_len(m);
    lemma_concat_piece(vr, i);
    lemma_concat_uniform_len(vr.take(i), cost);
    assert(payload_bits(m).subrange(0, concat(vr).len() as int) =~= concat(vr));
    lemma_window(s, d, payload_bits(m), 0, concat(vr));
    lemma_window(s, d, concat(vr), i * cost, vr[i]);
}

/// The fields of a vertex record read back as the vertex's codes.
proof fn lemma_read_vertex_record(s: Seq<bool>, b: int, vs: VertexSizeDesc, u: QuantizedVertex)
    requires
        0 <= b,
        b + vertex_cost(vs) <= s.len(),
        s.subrange(b, b + vertex_cost(vs)) == vertex_bits(vs, u),
        width_ok(vs.num_bits_x) && width_ok(vs.num_bits_y) && width_ok(vs.num_bits_z),
        vertex_fits(vs, u),
    ensures
        ({
            let at_y = b + vs.num_bits_x;
            let at_z = at_y + vs.num_bits_y;
            let at_tex = at_z + vs.num_bits_z;
            &&& field(s, b, vs.num_bits_x as nat) == u.position[0]
            &&& field(s, at_y, vs.num_bits_y as nat) == u.position[1]
            &&& field(s, at_z, vs.num_bits_z as nat) == u.position[2]
            &&& field(s, at_tex, 32) == u.tex_coord[0]
            &&& field(s, at_tex + 32, 32) == u.tex_coord[1]
            &&& field(s, at_tex + 64, 8) == u.normal[0]
            &&& field(s, at_tex + 72, 8) == u.normal[1]
            &&& field(s, at_tex + 80, 8) == u.normal[2]
        }),
{
    let win = vertex_bits(vs, u);
    let bx = vs.num_bits_x as int;
    let bxy = bx + vs.num_bits_y;
    let bxyz = bxy + vs.num_bits_z;
    lemma2_to64();
    lemma_read_in_window(s, b, win, 0, u.position[0] as nat, vs.num_bits_x as nat);
    lemma_read_in_window(s, b, win, bx, u.position[1] as nat, vs.num_bits_y as nat);
    lemma_read_in_window(s, b, win, bxy, u.position[2] as nat, vs.num_bits_z as nat);
    lemma_read_in_window(s, b, win, bxyz, u.tex_coord[0] as nat, 32);
    lemma_read_in_window(s, b, win, bxyz + 32, u.tex_coord[1] as nat, 32);
    lemma_read_in_window(s, b, win, bxyz + 64, u.normal[0] as nat, 8);
    lemma_read_in_window(s, b, win, bxyz + 72, u.normal[1] as nat, 8);
    lemma_read_in_window(s, b, win, bxyz + 80, u.normal[2] as nat, 8);
}

/// Decoding vertex `i` of meshlet `k`, at the header's offset and widths, gives back that
/// vertex's codes.
#[verifier::rlimit(30)]
pub proof fn lemma_vertex_round_trip(
    ms: Seq<QuantizedMeshlet>,
    s: Seq<bool>,
    k: int,
    h: MeshletHeader,
    i: int,
    v: QuantizedVertex,
)
    requires
        all_valid(ms),
        stream_len(ms) <= u32::MAX,
        starts_with_stream(s, ms),
        0 <= k < ms.len(),
        header_decodes(s, HEADER_BITS * k, h),
        0 <= i < ms[k].vertices@.len(),
        vertex_decodes(s, h, i, v),
    ensures
        same_vertex(v, ms[k].vertices@[i]),
{
    let m = ms[k];
    assert(meshlet_valid(m));
    let vs = m.vertex_size;
    let b = data_offset(ms, k) + i * vertex_cost(vs);
    lemma_header_round_trip(ms, s, k, h);
    lemma_vertex_window(ms, s, k, i);
    lemma_read_vertex_record(s, b, vs, m.vertices@[i]);
    assert(b == h.data_offset + i * crate::decoder::header_vertex_cost(h));
}

/// Decoding triangle `t` of meshlet `k`, at the header's offset and index width, gives back
/// that triangle's three local indices in order.
#[verifier::rlimit(30)]
pub proof fn lemma_triangle_round_trip(
    ms: Seq<QuantizedMeshlet>,
    s: Seq<bool>,
    k: int,
    h: MeshletHeader,
    t: int,
    tri: [u32; 3],
)
    requires
        all_valid(ms),
        stream_len(ms) <= u32::MAX,
        starts_with_stream(s, ms),
        0 <= k < ms.len(),
        header_decodes(s, HEADER_BITS * k, h),
        0 <= t < ms[k].triangles@.len() / 3,
        triangle_decodes(s, h, t, tri),
    ensures
        tri[0] == ms[k].triangles@[3 * t],
        tri[1] == ms[k].triangles@[3 * t + 1],
        tri[2] == ms[k].triangles@[3 * t + 2],
{
    let m = ms[k];
    assert(meshlet_valid(m));
    let nv = m.vertices@.len();
    let w = index_bits(nv);
    let d = data_offset(ms, k) as int;
    let vr = vertex_records(m);
    let ir = index_records(m);
    lemma_header_round_trip(ms, s, k, h);
    lemma_payload_window(ms, s, k);
    lemma_payload_bits_len(m);
    let vlen = concat(vr).len() as int;
    assert(payload_bits(m).subrange(vlen, payload_bits(m).len() as int) =~= concat(ir));
    lemma_window(s, d, payload_bits(m), vlen, concat(ir));
    assert(vlen == h.num_vertices * crate::decoder::header_vertex_cost(h));
    assert(3 * t + 2 < m.triangles@.len());
    assert forall|j: int| 0 <= j < 3 implies field(s, crate::decoder::index_offset(h) + t * 3 * w
        + j * w, w) == #[trigger] m.triangles@[3 * t + j] by {
        let q = 3 * t + j;
        lemma_concat_piece(ir, q);
        lemma_concat_uniform_len(ir.take(q), w);
        assert(q * w == t * 3 * w + j * w) by (nonlinear_arith)
            requires
                q == 3 * t + j,
        ;
        lemma_window(s, d + vlen, concat(ir), q * w, ir[q]);
        assert(m.triangles@[q] < nv);
        lemma_index_fits(nv, m.triangles@[q] as nat);
        lemma_read_in_window(s, d + vlen + q * w, ir[q], 0, m.triangles@[q] as nat, w);
    }
    assert(field(s, crate::decoder::index_offset(h) + t * 3 * w + 0 * w, w) == m.triangles@[3 * t + 0]);
    assert(field(s, crate::decoder::index_offset(h) + t * 3 * w + 1 * w, w) == m.triangles@[3 * t + 1]);
    assert(field(s, crate::decoder::index_offset(h) + t * 3 * w + 2 * w, w) == m.triangles@[3 * t + 2]);
}

/// The bytes of a stream of whole bytes carry that stream.
#[verifier::rlimit(30)]
pub proof fn lemma_unpack_bytes(x: Seq<bool>)
    requires
        x.len() % 8 == 0,
    ensures
        byte_bits(pack_bytes(x)) == x,
{
    let p = pack_bytes(x);
    assert forall|k: int| 0 <= k < x.len() implies #[trigger] byte_bits(p)[k] == x[k] by {
        let i = k / 8;
        let t = k % 8;
        assert(8 * i + 8 <= x.len());
        let piece = x.subrange(8 * i, 8 * i + 8);
        crate::bits::lemma_bits_value_bound(piece);
        lemma2_to64();
        lemma_bit_of_value(piece, t as nat);
    }
    assert(byte_bits(p) =~= x);
}

proof fn lemma_padded_prefix(es: Seq<bool>, pad: nat)
    requires
        (es.len() + pad) % 8 == 0,
    ensures
        es.len() <= byte_bits(pack_bytes(es + zero_bits(pad))).len(),
        byte_bits(pack_bytes(es + zero_bits(pad))).subrange(0, es.len() as int) == es,
{
    let padded = es + zero_bits(pad);
    lemma_unpack_bytes(padded);
    assert(padded.subrange(0, es.len() as int) =~= es);
}

/// The encoded bytes, read as a bit stream, begin with the encoded stream.
#[verifier::rlimit(30)]
pub proof fn lemma_encoded_bytes_hold_stream(ms: Seq<QuantizedMeshlet>)
    ensures
        starts_with_stream(byte_bits(encoded_bytes(ms)), ms),
{
    lemma_encoded_stream_len(ms);
    lemma_padded_prefix(encoded_stream(ms), word_padding(stream_len(ms)));
}

proof fn lemma_all_vertices_round_trip(
    ms: Seq<QuantizedMeshlet>,
    s: Seq<bool>,
    k: int,
    h: MeshletHeader,
    vs: Seq<QuantizedVertex>,
)
    requires
        all_valid(ms),
        stream_len(ms) <= u32::MAX,
        starts_with_stream(s, ms),
        0 <= k < ms.len(),
        header_decodes(s, HEADER_BITS * k, h),
        vs.len() <= ms[k].vertices@.len(),
        forall|i: int| 0 <= i < vs.len() ==> vertex_decodes(s, h, i, #[trigger] vs[i]),
    ensures
        forall|i: int| 0 <= i < vs.len() ==> same_vertex(#[trigger] vs[i], ms[k].vertices@[i]),
{
    assert forall|i: int| 0 <= i < vs.len() implies same_vertex(#[trigger] vs[i], ms[k].vertices@[i]) by {
        lemma_vertex_round_trip(ms, s, k, h, i, vs[i]);
    }
}

proof fn lemma_all_triangles_round_trip(
    ms: Seq<QuantizedMeshlet>,
    s: Seq<bool>,
    k: int,
    h: MeshletHeader,
    ts: Seq<[u32; 3]>,
)
    requires
        all_valid(ms),
        stream_len(ms) <= u32::MAX,
        starts_with_stream(s, ms),
        0 <= k < ms.len(),
        header_decodes(s, HEADER_BITS * k, h),
        3 * ts.len() <= ms[k].triangles@.len(),
        forall|t: int| 0 <= t < ts.len() ==> triangle_decodes(s, h, t, #[trigger] ts[t]),
    ensures
        forall|t: int, j: int|
            0 <= t < ts.len() && 0 <= j < 3 ==> #[trigger] ts[t][j] == ms[k].triangles@[3 * t + j],
{
    assert forall|t: int, j: int| 0 <= t < ts.len() && 0 <= j < 3 implies #[trigger] ts[t][j]
        == ms[k].triangles@[3 * t + j] by {
        lemma_triangle_round_trip(ms, s, k, h, t, ts[t]);
    }
}

/// Meshlet `k` read whole from the words of an encoded buffer is meshlet `k` of what was
/// encoded: the same bounds, widths and counts, its payload at the offset the encoder gave
/// it, the same vertex codes and the same triangles in order.
#[verifier::rlimit(30)]
pub proof fn lemma_decoded_meshlet_round_trip(
    ms: Seq<QuantizedMeshlet>,
    words: Seq<u32>,
    k: int,
    d: DecodedMeshlet,
)
    requires
        all_valid(ms),
        stream_len(ms) <= u32::MAX,
        word_bits(words) == byte_bits(encoded_bytes(ms)),
        0 <= k < ms.len(),
        meshlet_decodes(word_bits(words), k, d),
    ensures
        header_matches(d.header, ms[k], data_offset(ms, k)),
        d.vertices@.len() == ms[k].vertices@.len(),
        forall|i: int|
            0 <= i < d.vertices@.len() ==> same_vertex(
                #[trigger] d.vertices@[i],
                ms[k].vertices@[i],
            ),
        d.triangles@.len() * 3 == ms[k].triangles@.len(),
        forall|t: int, j: int|
            0 <= t < d.triangles@.len() && 0 <= j < 3 ==> #[trigger] d.triangles@[t][j]
                == ms[k].triangles@[3 * t + j],
{
    let s = word_bits(words);
    lemma_encoded_bytes_hold_stream(ms);
    assert(starts_with_stream(s, ms));
    lemma_header_round_trip(ms, s, k, d.header);
    assert(meshlet_valid(ms[k]));
    lemma_all_vertices_round_trip(ms, s, k, d.header, d.vertices@);
    lemma_all_triangles_round_trip(ms, s, k, d.header, d.triangles@);
}

/// Encoding the same meshlets twice gives the same outcome: the same bytes, or the same error.
pub proof fn lemma_encoding_is_deterministic(
    ms: Seq<QuantizedMeshlet>,
    first: Result<Vec<u8>, EncodeError>,
    second: Result<Vec<u8>, EncodeError>,
)
    requires
        encoded_as(ms, first),
        encoded_as(ms, second),
    ensures
        match (first, second) {
            (Ok(a), Ok(b)) => a@ == b@,
            (Err(e), Err(f)) => e == f,
            _ => false,
        },
{
}

} // verus!
