use lbvh::{sort_coded, CodedTriangle, Morton, Triangle};

fn coded(code: u32, tag: u32) -> CodedTriangle {
    CodedTriangle { code: Morton(code), tri: Triangle { a: tag, b: tag, c: tag } }
}

#[test]
fn sort_orders_codes_ascending() {
    let v = vec![coded(9, 0), coded(1, 1), coded(7, 2), coded(3, 3)];
    let s = sort_coded(v);
    let codes: Vec<u32> = s.iter().map(|ct| ct.code.0).collect();
    assert_eq!(codes, vec![1, 3, 7, 9]);
}

#[test]
fn sort_moves_triangles_with_their_codes() {
    let v = vec![coded(9, 0), coded(1, 1), coded(7, 2), coded(3, 3)];
    let s = sort_coded(v);
    let tags: Vec<u32> = s.iter().map(|ct| ct.tri.a).collect();
    assert_eq!(tags, vec![1, 3, 2, 0]);
}

#[test]
fn sort_keeps_ties_in_input_order() {
    let v = vec![coded(5, 0), coded(3, 1), coded(5, 2), coded(3, 3), coded(5, 4)];
    let s = sort_coded(v);
    let pairs: Vec<(u32, u32)> = s.iter().map(|ct| (ct.code.0, ct.tri.a)).collect();
    assert_eq!(pairs, vec![(3, 1), (3, 3), (5, 0), (5, 2), (5, 4)]);
}

#[test]
fn sort_of_empty_is_empty() {
    let v: Vec<CodedTriangle> = vec![];
    assert_eq!(sort_coded(v).len(), 0);
}
