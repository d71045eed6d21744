use tort_meshlet::hash::{murmur_hash_11, murmur_hash_11_color};
use tort_meshlet::meshlet::{Vec3Bits, QuantizedVertex, AABB};
use tort_meshlet::types::{Extent2D, Extent3D, Offset2D, Offset3D, Rect2D};

#[test]
fn murmur_hash_matches_known_values() {
    assert_eq!(murmur_hash_11(0), 0x223b_6db4);
    assert_eq!(murmur_hash_11(1), 0xceab_5635);
    assert_eq!(murmur_hash_11(12345), 0x8222_58b9);
}

#[test]
fn meshlet_colour_takes_three_bytes_of_the_hash() {
    assert_eq!(murmur_hash_11_color(0), [59, 109, 180]);
    assert_eq!(murmur_hash_11_color(7), [172, 181, 115]);
}

#[test]
fn constructors_keep_their_arguments() {
    assert_eq!(Offset2D::new(-3, 4), Offset2D { x: -3, y: 4 });
    assert_eq!(Extent2D::new(1600, 900), Extent2D { width: 1600, height: 900 });
    let r = Rect2D::new(1, 2, 3, 4);
    assert_eq!(r.offset, Offset2D { x: 1, y: 2 });
    assert_eq!(r.extent, Extent2D { width: 3, height: 4 });
    assert_eq!(Offset3D::new(1, -2, 3), Offset3D { x: 1, y: -2, z: 3 });
    assert_eq!(Extent3D::new(5, 6, 7), Extent3D { width: 5, height: 6, depth: 7 });
    let v = QuantizedVertex::new([1, 2, 3], [4, 5], [6, 7, 8]);
    assert_eq!((v.position, v.tex_coord, v.normal), ([1, 2, 3], [4, 5], [6, 7, 8]));
    let b = AABB::new(Vec3Bits { x: 1, y: 2, z: 3 }, Vec3Bits { x: 4, y: 5, z: 6 });
    assert_eq!(b.min.z, 3);
    assert_eq!(b.max.x, 4);
}
