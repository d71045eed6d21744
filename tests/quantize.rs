use tort_meshlet::quantize::{choose_axis_bits, choose_vertex_size, get_bits_per_index};

#[test]
fn index_width_is_the_ceiling_of_the_logarithm() {
    assert_eq!(get_bits_per_index(0), 0);
    assert_eq!(get_bits_per_index(1), 0);
    assert_eq!(get_bits_per_index(2), 1);
    assert_eq!(get_bits_per_index(3), 2);
    assert_eq!(get_bits_per_index(4), 2);
    assert_eq!(get_bits_per_index(5), 3);
    assert_eq!(get_bits_per_index(33), 6);
    assert_eq!(get_bits_per_index(64), 6);
    assert_eq!(get_bits_per_index(65), 7);
    assert_eq!(get_bits_per_index(usize::MAX), 64);
}

fn meets_from(first: usize) -> Vec<bool> {
    (0..27).map(|j| j >= first).collect()
}

#[test]
fn the_narrowest_precise_width_wins() {
    assert_eq!(choose_axis_bits(&meets_from(0)), 4);
    assert_eq!(choose_axis_bits(&meets_from(5)), 9);
    assert_eq!(choose_axis_bits(&meets_from(26)), 30);
    assert_eq!(choose_axis_bits(&[false; 27]), 32);
    let mut gaps = vec![false; 27];
    gaps[20] = true;
    gaps[7] = true;
    assert_eq!(choose_axis_bits(&gaps), 11);
}

#[test]
fn a_zero_tolerance_keeps_full_precision() {
    let none = [false; 27];
    let vs = choose_vertex_size(&none, &none, &none);
    assert_eq!((vs.num_bits_x, vs.num_bits_y, vs.num_bits_z), (32, 32, 32));
}

#[test]
fn a_looser_tolerance_never_widens() {
    // each width that meets the strict tolerance meets the loose one
    let strict = meets_from(12);
    let mut loose = meets_from(12);
    loose[3] = true;
    assert!(choose_axis_bits(&loose) <= choose_axis_bits(&strict));
    assert_eq!(choose_axis_bits(&loose), 7);
    let vs = choose_vertex_size(&meets_from(1), &meets_from(2), &meets_from(30));
    assert_eq!((vs.num_bits_x, vs.num_bits_y, vs.num_bits_z), (5, 6, 32));
}
