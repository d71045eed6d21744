use tort_meshlet::mesh::{assemble_corners, deduplicate, CornerIndex, Vertex};

fn v(x: u32) -> Vertex {
    Vertex::new([x, x + 1, x + 2], [x + 3, x + 4], [x + 5, x + 6, x + 7])
}

#[test]
fn equal_vertices_are_merged() {
    let corners = vec![v(0), v(10), v(20), v(20), v(10), v(30)];
    let mesh = deduplicate(&corners).unwrap();
    assert_eq!(mesh.vertices, vec![v(0), v(10), v(20), v(30)]);
    assert_eq!(mesh.indices, vec![0, 1, 2, 2, 1, 3]);
    for (i, &index) in mesh.indices.iter().enumerate() {
        assert_eq!(mesh.vertices[index as usize], corners[i]);
    }
}

#[test]
fn distinct_vertices_are_kept() {
    let corners = vec![v(0), v(1), v(2)];
    let mesh = deduplicate(&corners).unwrap();
    assert_eq!(mesh.vertices, corners);
    assert_eq!(mesh.indices, vec![0, 1, 2]);
}

#[test]
fn partial_triangles_are_refused() {
    assert!(deduplicate(&[v(0), v(1)]).is_none());
    assert_eq!(deduplicate(&[]).map(|m| m.indices), Some(Vec::new()));
}

#[test]
fn corners_gather_their_attributes() {
    let positions = [1, 2, 3, 4, 5, 6];
    let tex_coords = [7, 8, 9, 10];
    let normals = [11, 12, 13, 14, 15, 16];
    let corners = [CornerIndex { p: 1, t: 0, n: 1 }, CornerIndex { p: 0, t: 1, n: 0 }];
    let vertices = assemble_corners(&positions, &tex_coords, &normals, &corners).unwrap();
    assert_eq!(vertices[0], Vertex::new([4, 5, 6], [7, 8], [14, 15, 16]));
    assert_eq!(vertices[1], Vertex::new([1, 2, 3], [9, 10], [11, 12, 13]));
}

#[test]
fn corners_past_the_attributes_are_refused() {
    let positions = [1, 2, 3];
    let tex_coords = [7, 8];
    let normals = [11, 12, 13];
    let corners = [CornerIndex { p: 0, t: 0, n: 1 }];
    assert!(assemble_corners(&positions, &tex_coords, &normals, &corners).is_none());
    let corners = [CornerIndex { p: 1, t: 0, n: 0 }];
    assert!(assemble_corners(&positions, &tex_coords, &normals, &corners).is_none());
}
