use tort_meshlet::decoder::{
    decode_meshlet, read_header, read_triangle, read_vertex, words_from_bytes,
};
use tort_meshlet::encoder::{encode_meshlets, meshlet_is_valid, EncodeError};
use tort_meshlet::meshlet::{QuantizedMeshlet, Vec3Bits, QuantizedVertex, VertexSizeDesc, AABB};
use tort_meshlet::quantize::get_bits_per_index;

const ONE: u32 = 0x3f80_0000;

fn full_width() -> VertexSizeDesc {
    VertexSizeDesc { num_bits_x: 32, num_bits_y: 32, num_bits_z: 32 }
}

fn unit_box() -> AABB {
    AABB::new(Vec3Bits { x: 0, y: 0, z: 0 }, Vec3Bits { x: ONE, y: ONE, z: ONE })
}

fn single_triangle() -> QuantizedMeshlet {
    QuantizedMeshlet {
        aabb: unit_box(),
        vertex_size: full_width(),
        vertices: vec![
            QuantizedVertex::new([0, 0, 0], [0, 0], [128, 128, 255]),
            QuantizedVertex::new([u32::MAX, 0, 0], [u32::MAX, 0], [128, 128, 255]),
            QuantizedVertex::new([0, u32::MAX, 0], [0, u32::MAX], [128, 128, 255]),
        ],
        triangles: vec![0, 1, 2],
    }
}

const SINGLE_TRIANGLE_BYTES: [u8; 104] = [
    0, 0, 0, 0, 0, 0, 0, 0, 0, 0, 0, 0, 0, 0, 128, 63, 0, 0, 128, 63, 0, 0, 128, 63, 255, 255,
    255, 31, 4, 128, 67, 0, 0, 0, 0, 0, 0, 0, 0, 0, 0, 0, 0, 0, 0, 0, 0, 0, 0, 0, 0, 0, 0, 0, 32,
    224, 255, 255, 255, 255, 63, 0, 0, 0, 0, 0, 0, 0, 192, 255, 255, 255, 63, 0, 0, 0, 0, 32, 224,
    63, 0, 0, 0, 192, 255, 255, 255, 63, 0, 0, 0, 0, 0, 0, 0, 192, 255, 255, 255, 63, 32, 224, 63,
    9,
];

#[test]
fn single_triangle_encodes_to_golden_bytes() {
    let bytes = encode_meshlets(&vec![single_triangle()]).unwrap();
    assert_eq!(bytes.len(), 104);
    assert_eq!(bytes, SINGLE_TRIANGLE_BYTES.to_vec());
}

#[test]
fn single_triangle_decodes_exactly() {
    let m = single_triangle();
    let bytes = encode_meshlets(&vec![m.clone()]).unwrap();
    let words = words_from_bytes(&bytes);
    let h = read_header(&words, 0);
    assert_eq!(h.aabb, m.aabb);
    assert_eq!((h.num_bits_x, h.num_bits_y, h.num_bits_z), (32, 32, 32));
    assert_eq!((h.num_bits_tex_x, h.num_bits_tex_y, h.num_bits_normal), (32, 32, 8));
    assert_eq!(h.num_bits_idx, 2);
    assert_eq!(h.num_vertices, 3);
    assert_eq!(h.num_primitives, 1);
    assert_eq!(h.data_offset, 270);
    for i in 0..3 {
        assert_eq!(read_vertex(&words, &h, i), m.vertices[i]);
    }
    assert_eq!(read_triangle(&words, &h, 0), [0, 1, 2]);
}

fn small_meshlet(seed: u32, bits: u32, n: usize) -> QuantizedMeshlet {
    let mask = if bits == 32 { u32::MAX } else { (1u32 << bits) - 1 };
    let vertices = (0..n as u32)
        .map(|i| {
            let v = seed.wrapping_mul(2654435761).wrapping_add(i.wrapping_mul(40503));
            QuantizedVertex::new(
                [v & mask, (v >> 3) & mask, (v >> 7) & mask],
                [v, !v],
                [v & 0xff, (v >> 8) & 0xff, (v >> 16) & 0xff],
            )
        })
        .collect::<Vec<_>>();
    let mut triangles = Vec::new();
    for t in 0..(n - 2) {
        triangles.extend_from_slice(&[t as u8, (t + 1) as u8, (t + 2) as u8]);
    }
    QuantizedMeshlet {
        aabb: AABB::new(
            Vec3Bits { x: seed, y: seed + 1, z: seed + 2 },
            Vec3Bits { x: seed + 3, y: seed + 4, z: seed + 5 },
        ),
        vertex_size: VertexSizeDesc { num_bits_x: bits, num_bits_y: bits, num_bits_z: bits },
        vertices,
        triangles,
    }
}

#[test]
fn every_meshlet_reads_back_from_its_offset() {
    let meshlets = vec![
        small_meshlet(1, 4, 5),
        small_meshlet(2, 13, 64),
        small_meshlet(3, 32, 3),
        small_meshlet(4, 30, 17),
    ];
    let bytes = encode_meshlets(&meshlets).unwrap();
    assert_eq!(bytes.len() % 4, 0);
    let words = words_from_bytes(&bytes);
    let mut offset = 270 * meshlets.len() as u32;
    for (k, m) in meshlets.iter().enumerate() {
        let h = read_header(&words, k);
        assert_eq!(h.aabb, m.aabb);
        assert_eq!(h.num_bits_x, m.vertex_size.num_bits_x);
        assert_eq!(h.num_vertices as usize, m.vertices.len());
        assert_eq!(h.num_primitives as usize, m.triangles.len() / 3);
        assert_eq!(h.num_bits_idx, get_bits_per_index(m.vertices.len()));
        assert_eq!(h.data_offset, offset);
        for (i, v) in m.vertices.iter().enumerate() {
            assert_eq!(read_vertex(&words, &h, i), *v);
        }
        for t in 0..m.triangles.len() / 3 {
            let tri = read_triangle(&words, &h, t);
            let expected = [
                m.triangles[3 * t] as u32,
                m.triangles[3 * t + 1] as u32,
                m.triangles[3 * t + 2] as u32,
            ];
            assert_eq!(tri, expected);
        }
        let cost = 3 * m.vertex_size.num_bits_x + 88;
        offset += cost * m.vertices.len() as u32 + h.num_bits_idx * m.triangles.len() as u32;
    }
}

#[test]
fn encoding_twice_gives_the_same_bytes() {
    let meshlets = vec![small_meshlet(9, 11, 40), small_meshlet(5, 7, 6)];
    let first = encode_meshlets(&meshlets).unwrap();
    let second = encode_meshlets(&meshlets).unwrap();
    assert_eq!(first, second);
}

#[test]
fn empty_input_encodes_to_nothing() {
    assert_eq!(encode_meshlets(&Vec::new()), Ok(Vec::new()));
}

#[test]
fn capacity_violations_are_refused() {
    let mut one_vertex = single_triangle();
    one_vertex.vertices.truncate(1);
    one_vertex.triangles = vec![0, 0, 0];
    assert_eq!(encode_meshlets(&vec![one_vertex]), Err(EncodeError::InvalidMeshlet));

    let too_many_vertices = small_meshlet(1, 8, 65);
    assert!(!meshlet_is_valid(&too_many_vertices));
    assert_eq!(encode_meshlets(&vec![too_many_vertices]), Err(EncodeError::InvalidMeshlet));

    let mut too_many_triangles = small_meshlet(1, 8, 10);
    too_many_triangles.triangles = [0u8, 1, 2].repeat(125);
    assert_eq!(encode_meshlets(&vec![too_many_triangles]), Err(EncodeError::InvalidMeshlet));

    let mut max_triangles = small_meshlet(1, 8, 10);
    max_triangles.triangles = [0u8, 1, 2].repeat(124);
    assert!(encode_meshlets(&vec![max_triangles]).is_ok());
}

#[test]
fn malformed_meshlets_are_refused() {
    let mut bad_index = single_triangle();
    bad_index.triangles = vec![0, 1, 3];
    assert_eq!(encode_meshlets(&vec![bad_index]), Err(EncodeError::InvalidMeshlet));

    let mut narrow = small_meshlet(1, 4, 5);
    narrow.vertex_size.num_bits_y = 3;
    assert_eq!(encode_meshlets(&vec![narrow]), Err(EncodeError::InvalidMeshlet));

    let mut code_too_wide = small_meshlet(1, 4, 5);
    code_too_wide.vertices[2].position[1] = 16;
    assert_eq!(encode_meshlets(&vec![code_too_wide]), Err(EncodeError::InvalidMeshlet));

    let mut normal_too_wide = small_meshlet(1, 4, 5);
    normal_too_wide.vertices[0].normal[2] = 256;
    assert_eq!(encode_meshlets(&vec![normal_too_wide]), Err(EncodeError::InvalidMeshlet));

    let mut partial_triangle = single_triangle();
    partial_triangle.triangles = vec![0, 1, 2, 0];
    assert_eq!(encode_meshlets(&vec![partial_triangle]), Err(EncodeError::InvalidMeshlet));

    let mut a_good_one_after = vec![single_triangle(), single_triangle()];
    a_good_one_after[1].vertex_size.num_bits_z = 33;
    assert_eq!(encode_meshlets(&a_good_one_after), Err(EncodeError::InvalidMeshlet));
}

#[test]
fn whole_meshlets_decode_from_the_buffer() {
    let meshlets = vec![small_meshlet(7, 9, 12), single_triangle()];
    let words = words_from_bytes(&encode_meshlets(&meshlets).unwrap());
    for (k, m) in meshlets.iter().enumerate() {
        let d = decode_meshlet(&words, k).unwrap();
        assert_eq!(d.header.aabb, m.aabb);
        assert_eq!(d.vertices, m.vertices);
        let flat: Vec<u32> = d.triangles.iter().flatten().copied().collect();
        let expected: Vec<u32> = m.triangles.iter().map(|&t| t as u32).collect();
        assert_eq!(flat, expected);
    }
    assert!(decode_meshlet(&words, 2).is_none());
}

#[test]
fn a_truncated_payload_is_not_decoded() {
    let words = words_from_bytes(&encode_meshlets(&vec![single_triangle()]).unwrap());
    assert!(decode_meshlet(&words, 0).is_some());
    assert!(decode_meshlet(&words[..words.len() - 1], 0).is_none());
    assert!(decode_meshlet(&words[..8], 0).is_none());
    assert!(decode_meshlet(&[], 0).is_none());
}

#[test]
fn valid_meshlets_always_encode() {
    for bits in [4u32, 9, 17, 30, 32] {
        let m = small_meshlet(bits, bits, 8);
        assert!(encode_meshlets(&vec![m.clone(), m]).is_ok());
    }
}
