use tort_meshlet::partition::{partition_mesh, PartitionError};

fn grid_indices(n: u32) -> (Vec<u32>, usize) {
    let mut indices = Vec::new();
    for y in 0..n {
        for x in 0..n {
            let a = y * (n + 1) + x;
            let b = a + 1;
            let c = a + n + 1;
            let d = c + 1;
            indices.extend_from_slice(&[a, b, c, b, d, c]);
        }
    }
    (indices, ((n + 1) * (n + 1)) as usize)
}

#[test]
fn meshlets_respect_the_caps_and_keep_every_triangle() {
    let (indices, vertex_count) = grid_indices(20);
    let meshlets = partition_mesh(&indices, vertex_count).unwrap();
    assert!(meshlets.len() > 1);
    let mut flat = Vec::new();
    for m in &meshlets {
        assert!(m.vertices.len() <= 64);
        assert_eq!(m.triangles.len() % 3, 0);
        assert!(m.triangles.len() / 3 >= 1 && m.triangles.len() / 3 <= 124);
        for &t in &m.triangles {
            assert!((t as usize) < m.vertices.len());
            flat.push(m.vertices[t as usize]);
        }
    }
    assert_eq!(flat, indices);
}

#[test]
fn disjoint_triangles_fill_meshlets_to_the_vertex_cap() {
    let indices: Vec<u32> = (0..600).collect();
    let meshlets = partition_mesh(&indices, 600).unwrap();
    for m in &meshlets {
        assert!(m.vertices.len() <= 64);
        assert!(m.triangles.len() / 3 <= 124);
    }
    assert_eq!(meshlets[0].vertices.len(), 63);
    assert_eq!(meshlets.iter().map(|m| m.triangles.len()).sum::<usize>(), 600);
}

#[test]
fn an_empty_mesh_has_no_meshlets() {
    assert_eq!(partition_mesh(&[], 0), Ok(Vec::new()));
}

#[test]
fn bad_index_lists_are_refused() {
    assert_eq!(partition_mesh(&[0, 1], 3), Err(PartitionError::NotTriangles));
    assert_eq!(partition_mesh(&[0, 1, 3], 3), Err(PartitionError::IndexOutOfRange));
}

#[test]
fn a_single_triangle_keeps_its_corner_order() {
    let meshlets = partition_mesh(&[0, 1, 2], 3).unwrap();
    assert_eq!(meshlets.len(), 1);
    assert_eq!(meshlets[0].vertices, vec![0, 1, 2]);
    assert_eq!(meshlets[0].triangles, vec![0, 1, 2]);
    let meshlets = partition_mesh(&[2, 0, 1, 1, 0, 3], 4).unwrap();
    assert_eq!(meshlets[0].vertices, vec![2, 0, 1, 3]);
    assert_eq!(meshlets[0].triangles, vec![0, 1, 2, 2, 1, 3]);
}

#[test]
fn local_vertices_are_numbered_in_order_of_first_use() {
    let (indices, vertex_count) = grid_indices(12);
    for m in partition_mesh(&indices, vertex_count).unwrap() {
        let mut next = 0u8;
        for &t in &m.triangles {
            assert!(t <= next);
            if t == next {
                next += 1;
            }
        }
        assert_eq!(next as usize, m.vertices.len());
    }
}
