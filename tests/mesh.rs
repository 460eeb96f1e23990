use rusterizer::mesh::{get_adj_vertices, triangle_indices};

#[test]
fn adjacency_of_two_triangles() {
    let indices: Vec<u32> = vec![0, 1, 2, 2, 1, 3];
    let map = get_adj_vertices(&indices);
    assert_eq!(map.len(), 4);
    assert_eq!(map[&0], vec![(1, 2)]);
    assert_eq!(map[&1], vec![(2, 0), (3, 2)]);
    assert_eq!(map[&2], vec![(0, 1), (1, 3)]);
    assert_eq!(map[&3], vec![(2, 1)]);
}

#[test]
fn adjacency_of_no_triangles_is_empty() {
    let indices: Vec<u32> = Vec::new();
    assert!(get_adj_vertices(&indices).is_empty());
}

#[test]
fn triangle_corners_in_range() {
    let indices: Vec<u32> = vec![0, 1, 2, 2, 1, 3];
    assert_eq!(triangle_indices(&indices, 4), Some(vec![[0, 1, 2], [2, 1, 3]]));
}

#[test]
fn triangle_corner_out_of_range() {
    let indices: Vec<u32> = vec![0, 1, 2, 2, 1, 3];
    assert_eq!(triangle_indices(&indices, 3), None);
}
