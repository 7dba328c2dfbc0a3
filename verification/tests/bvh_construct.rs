use lbvh::{construct_bvh, BvhError, Node, NodeData, Aabb, Vertex, Triangle, Object};

fn point(x: i32, y: i32, z: i32) -> Vertex {
    Vertex { x, y, z }
}

// recomputes a node's box from raw vertex data alone, walking children
fn recompute_bb(nodes: &Vec<Node>, j: usize, vertices: &Vec<Vertex>) -> Aabb {
    match nodes[j].data {
        NodeData::Leaf(t) => {
            let va = vertices[t.a as usize];
            let vb = vertices[t.b as usize];
            let vc = vertices[t.c as usize];
            Aabb {
                x_min: va.x.min(vb.x).min(vc.x),
                x_max: va.x.max(vb.x).max(vc.x),
                y_min: va.y.min(vb.y).min(vc.y),
                y_max: va.y.max(vb.y).max(vc.y),
                z_min: va.z.min(vb.z).min(vc.z),
                z_max: va.z.max(vb.z).max(vc.z),
            }
        }
        NodeData::Node(ind) => {
            let l = recompute_bb(nodes, ind.left_child as usize, vertices);
            let r = recompute_bb(nodes, ind.right_child as usize, vertices);
            Aabb {
                x_min: l.x_min.min(r.x_min),
                x_max: l.x_max.max(r.x_max),
                y_min: l.y_min.min(r.y_min),
                y_max: l.y_max.max(r.y_max),
                z_min: l.z_min.min(r.z_min),
                z_max: l.z_max.max(r.z_max),
            }
        }
    }
}

fn scenario_mesh() -> (Vec<Vertex>, Vec<Triangle>) {
    // corner vertices pin the global box; four point triangles map to
    // Morton codes 1, 3, 5 and 7
    let vertices = vec![
        point(0, 0, 0),
        point(1023, 1023, 1023),
        point(0, 0, 1),
        point(0, 1, 1),
        point(1, 0, 1),
        point(1, 1, 1),
    ];
    let triangles = vec![
        Triangle { a: 2, b: 2, c: 2 },
        Triangle { a: 3, b: 3, c: 3 },
        Triangle { a: 4, b: 4, c: 4 },
        Triangle { a: 5, b: 5, c: 5 },
    ];
    (vertices, triangles)
}

#[test]
fn empty_mesh_is_refused() {
    let vertices = vec![point(0, 0, 0)];
    let triangles: Vec<Triangle> = vec![];
    assert_eq!(construct_bvh(&vertices, &triangles), Err(BvhError::EmptyMesh));
}

#[test]
fn out_of_range_index_is_refused() {
    let vertices = vec![point(0, 0, 0), point(1, 1, 1)];
    let triangles = vec![Triangle { a: 0, b: 1, c: 2 }];
    assert_eq!(construct_bvh(&vertices, &triangles), Err(BvhError::IndexOutOfRange));
}

#[test]
fn single_triangle_gives_one_leaf() {
    let vertices = vec![point(0, 0, 0), point(4, 0, 0), point(0, 4, 0)];
    let triangles = vec![Triangle { a: 0, b: 1, c: 2 }];
    let nodes = construct_bvh(&vertices, &triangles).unwrap();
    assert_eq!(nodes.len(), 1);
    assert!(nodes[0].is_leaf());
    assert_eq!(nodes[0].data, NodeData::Leaf(triangles[0]));
    assert_eq!(nodes[0].parent, 0);
}

#[test]
fn node_count_is_two_leaves_minus_one() {
    let (vertices, triangles) = scenario_mesh();
    let nodes = construct_bvh(&vertices, &triangles).unwrap();
    assert_eq!(nodes.len(), 2 * triangles.len() - 1);
}

#[test]
fn coincident_triangles_terminate() {
    // eight triangles share one reference point, so all codes are equal;
    // the split rule must still make progress
    let vertices = vec![point(0, 0, 0), point(8, 0, 0), point(0, 8, 0)];
    let triangles = vec![Triangle { a: 0, b: 1, c: 2 }; 8];
    let nodes = construct_bvh(&vertices, &triangles).unwrap();
    assert_eq!(nodes.len(), 15);
    let leaves = nodes.iter().filter(|n| n.is_leaf()).count();
    assert_eq!(leaves, 8);
}

#[test]
fn scenario_split_indices() {
    // sorted codes are 1, 3, 5, 7: the root splits after position 1 (the
    // divergence of the highest-order bit), each half after its first
    let (vertices, triangles) = scenario_mesh();
    let nodes = construct_bvh(&vertices, &triangles).unwrap();
    assert_eq!(nodes.len(), 7);
    // post-order layout: leaf leaf inner, leaf leaf inner, root
    for (j, leaf) in [(0, true), (1, true), (2, false), (3, true), (4, true), (5, false), (6, false)] {
        assert_eq!(nodes[j].is_leaf(), leaf);
    }
    match nodes[6].data {
        NodeData::Node(ind) => {
            assert_eq!((ind.left_child, ind.right_child), (2, 5));
        }
        NodeData::Leaf(_) => panic!("root must be an inner node"),
    }
    match nodes[2].data {
        NodeData::Node(ind) => assert_eq!((ind.left_child, ind.right_child), (0, 1)),
        NodeData::Leaf(_) => panic!("expected an inner node"),
    }
    match nodes[5].data {
        NodeData::Node(ind) => assert_eq!((ind.left_child, ind.right_child), (3, 4)),
        NodeData::Leaf(_) => panic!("expected an inner node"),
    }
    // the leaves keep the sorted triangle order
    for (j, t) in [(0usize, 0usize), (1, 1), (3, 2), (4, 3)] {
        assert_eq!(nodes[j].data, NodeData::Leaf(triangles[t]));
    }
}

#[test]
fn scenario_bounding_boxes() {
    let (vertices, triangles) = scenario_mesh();
    let nodes = construct_bvh(&vertices, &triangles).unwrap();
    let expect = |j: usize, bb: (i32, i32, i32, i32, i32, i32)| match nodes[j].data {
        NodeData::Node(ind) => {
            let b = ind.bounding_box;
            assert_eq!((b.x_min, b.x_max, b.y_min, b.y_max, b.z_min, b.z_max), bb);
        }
        NodeData::Leaf(_) => panic!("expected an inner node"),
    };
    expect(2, (0, 0, 0, 1, 1, 1));
    expect(5, (1, 1, 0, 1, 1, 1));
    expect(6, (0, 1, 0, 1, 1, 1));
}

#[test]
fn scenario_parent_links() {
    let (vertices, triangles) = scenario_mesh();
    let nodes = construct_bvh(&vertices, &triangles).unwrap();
    let parents: Vec<u32> = nodes.iter().map(|n| n.parent).collect();
    assert_eq!(parents, vec![2, 2, 6, 5, 5, 6, 0]);
}

#[test]
fn inner_boxes_match_recomputation() {
    // a less regular mesh: boxes recomputed independently from the raw
    // vertices must equal every inner node's stored box
    let vertices = vec![
        point(-40, 3, 17),
        point(25, -9, 2),
        point(60, 44, -31),
        point(-5, 12, 90),
        point(7, 7, 7),
        point(101, -55, 43),
        point(-88, 21, 0),
    ];
    let triangles = vec![
        Triangle { a: 0, b: 1, c: 2 },
        Triangle { a: 2, b: 3, c: 4 },
        Triangle { a: 4, b: 5, c: 6 },
        Triangle { a: 1, b: 3, c: 5 },
        Triangle { a: 0, b: 4, c: 6 },
        Triangle { a: 2, b: 5, c: 0 },
    ];
    let nodes = construct_bvh(&vertices, &triangles).unwrap();
    assert_eq!(nodes.len(), 11);
    for j in 0..nodes.len() {
        if let NodeData::Node(ind) = nodes[j].data {
            assert!((ind.left_child as usize) < j && (ind.right_child as usize) < j);
            assert_eq!(ind.bounding_box, recompute_bb(&nodes, j, &vertices));
        }
    }
}

#[test]
fn parent_links_point_back() {
    let (vertices, triangles) = scenario_mesh();
    let nodes = construct_bvh(&vertices, &triangles).unwrap();
    let root = nodes.len() - 1;
    for j in 0..nodes.len() {
        if j == root {
            continue;
        }
        let p = nodes[j].parent as usize;
        match nodes[p].data {
            NodeData::Node(ind) => {
                assert!(ind.left_child as usize == j || ind.right_child as usize == j);
            }
            NodeData::Leaf(_) => panic!("a parent must be an inner node"),
        }
    }
}

#[test]
fn leaves_are_a_permutation_of_the_input() {
    let vertices = vec![point(0, 0, 0), point(50, 1, 2), point(3, 60, 4), point(5, 6, 70)];
    let triangles = vec![
        Triangle { a: 0, b: 1, c: 2 },
        Triangle { a: 1, b: 2, c: 3 },
        Triangle { a: 0, b: 2, c: 3 },
        Triangle { a: 0, b: 1, c: 3 },
        Triangle { a: 0, b: 1, c: 2 },
    ];
    let nodes = construct_bvh(&vertices, &triangles).unwrap();
    let mut found: Vec<(u32, u32, u32)> = nodes
        .iter()
        .filter_map(|n| match n.data {
            NodeData::Leaf(t) => Some((t.a, t.b, t.c)),
            NodeData::Node(_) => None,
        })
        .collect();
    let mut given: Vec<(u32, u32, u32)> = triangles.iter().map(|t| (t.a, t.b, t.c)).collect();
    found.sort();
    given.sort();
    assert_eq!(found, given);
}

#[test]
fn construction_is_deterministic() {
    let (vertices, triangles) = scenario_mesh();
    let first = construct_bvh(&vertices, &triangles).unwrap();
    let second = construct_bvh(&vertices, &triangles).unwrap();
    assert_eq!(first, second);
}

#[test]
fn object_bundles_mesh_and_hierarchy() {
    let (vertices, triangles) = scenario_mesh();
    let nodes = construct_bvh(&vertices, &triangles).unwrap();
    let o = Object::new(vertices.clone(), triangles.clone()).unwrap();
    assert_eq!(o.vertices, vertices);
    assert_eq!(o.indices, triangles);
    assert_eq!(o.bvh, nodes);
}

#[test]
fn object_refuses_bad_meshes() {
    assert!(matches!(
        Object::new(vec![point(0, 0, 0)], vec![]),
        Err(BvhError::EmptyMesh)
    ));
    assert!(matches!(
        Object::new(vec![point(0, 0, 0)], vec![Triangle { a: 0, b: 0, c: 9 }]),
        Err(BvhError::IndexOutOfRange)
    ));
}
