use lbvh::{expand_bits, morton_3d, Morton, find_split, normalize_and_encode, Vertex, Triangle};

#[test]
fn expand_bits_exact_values() {
    assert_eq!(expand_bits(0), 0);
    assert_eq!(expand_bits(1), 1);
    assert_eq!(expand_bits(2), 0b1000);
    assert_eq!(expand_bits(3), 0b1001);
    assert_eq!(expand_bits(5), 0b1000001);
    assert_eq!(expand_bits(1023), 0x0924_9249);
}

#[test]
fn morton_axis_offsets() {
    assert_eq!(morton_3d(1, 0, 0).0, 4);
    assert_eq!(morton_3d(0, 1, 0).0, 2);
    assert_eq!(morton_3d(0, 0, 1).0, 1);
    assert_eq!(morton_3d(1, 1, 1).0, 7);
}

#[test]
fn morton_interleaves_bits() {
    // dilate(3) = 9, dilate(5) = 65, dilate(9) = 513
    assert_eq!(morton_3d(3, 5, 9).0, 9 * 4 + 65 * 2 + 513);
    // the largest lattice point uses exactly 30 bits
    assert_eq!(morton_3d(1023, 1023, 1023).0, 0x3FFF_FFFF);
}

#[test]
fn morton_xor_and_leading_zeros() {
    let a = Morton(0b1010);
    let b = Morton(0b0110);
    assert_eq!(a.bitxor(b).0, 0b1100);
    assert_eq!(Morton(0).leading_zeros(), 32);
    assert_eq!(Morton(1).leading_zeros(), 31);
    assert_eq!(Morton(0x3FFF_FFFF).leading_zeros(), 2);
}

#[test]
fn find_split_prefix_rule() {
    // codes 1,3,5,7: the whole range shares 29 leading zero bits; only
    // position 1 still shares bit 2 with code 1, so the split is 1
    let codes = vec![Morton(1), Morton(3), Morton(5), Morton(7)];
    assert_eq!(find_split(&codes, 0, 3), 1);
    assert_eq!(find_split(&codes, 0, 1), 0);
    assert_eq!(find_split(&codes, 2, 3), 2);
}

#[test]
fn find_split_duplicate_codes_midpoint() {
    let codes = vec![Morton(5), Morton(5), Morton(5), Morton(5)];
    assert_eq!(find_split(&codes, 0, 3), 1);
    let codes2 = vec![Morton(9); 9];
    assert_eq!(find_split(&codes2, 0, 8), 4);
}

#[test]
fn find_split_highest_bit_divergence() {
    let codes = vec![Morton(1), Morton(2), Morton(3), Morton(4)];
    assert_eq!(find_split(&codes, 0, 3), 2);
}

#[test]
fn normalize_maps_extremes_to_lattice_ends() {
    // two corner vertices span the global box; each point triangle sits on
    // a corner of the unit cube
    let vertices = vec![
        Vertex { x: 0, y: 0, z: 0 },
        Vertex { x: 1023, y: 1023, z: 1023 },
    ];
    let triangles = vec![
        Triangle { a: 0, b: 0, c: 0 },
        Triangle { a: 1, b: 1, c: 1 },
    ];
    let codes = normalize_and_encode(&vertices, &triangles);
    // the far corner quantises to 1024 before the clamp to the lattice
    assert_eq!(codes[0].0, morton_3d(0, 0, 0).0);
    assert_eq!(codes[1].0, morton_3d(1023, 1023, 1023).0);
}

#[test]
fn normalize_degenerate_axis_is_zero() {
    // zero extent in z: that axis normalises to 0 rather than dividing by 0
    let vertices = vec![
        Vertex { x: 0, y: 0, z: 5 },
        Vertex { x: 1023, y: 1023, z: 5 },
    ];
    let triangles = vec![
        Triangle { a: 0, b: 0, c: 0 },
        Triangle { a: 1, b: 1, c: 1 },
    ];
    let codes = normalize_and_encode(&vertices, &triangles);
    assert_eq!(codes[0].0, morton_3d(0, 0, 0).0);
    assert_eq!(codes[1].0, morton_3d(1023, 1023, 0).0);
}

#[test]
fn normalize_reference_point_is_box_midpoint() {
    // a triangle spanning the whole box: its reference point is the
    // midpoint of its own bounding box, not the centroid
    let vertices = vec![
        Vertex { x: 0, y: 0, z: 0 },
        Vertex { x: 1023, y: 0, z: 0 },
        Vertex { x: 1023, y: 1023, z: 0 },
    ];
    let triangles = vec![Triangle { a: 0, b: 1, c: 2 }];
    let codes = normalize_and_encode(&vertices, &triangles);
    // midpoint (511.5, 511.5, 0) floors to 511 per axis, and
    // 511 * 1024 / 1023 = 511
    assert_eq!(codes[0].0, morton_3d(511, 511, 0).0);
}
