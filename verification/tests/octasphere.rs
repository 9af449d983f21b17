use apollo18_renderer::octasphere::{base_octahedron, generate, subdivide};

#[test]
fn subdivision_has_expected_topology_counts() {
    for level in 0..=5 {
        let mesh = generate(level);
        let expected_triangles = 8 * 4_usize.pow(level);
        let expected_vertices = expected_triangles / 2 + 2;

        assert_eq!(mesh.triangles.len(), expected_triangles);
        assert_eq!(mesh.vertex_count as usize, expected_vertices);
        assert_eq!(mesh.vertex_parents.len() + 6, expected_vertices);
    }
}

#[test]
fn generation_is_deterministic() {
    assert_eq!(generate(4), generate(4));
}

#[test]
fn first_subdivision_splits_each_octahedron_edge_once() {
    let base = base_octahedron();
    let (mesh, parents) = subdivide(&base);

    assert_eq!(mesh.vertex_count, 18);
    assert_eq!(parents.len(), 12);
    assert_eq!(parents[0], (0, 3));
    assert_eq!(parents[1], (2, 3));
    assert_eq!(parents[2], (0, 2));
    assert_eq!(mesh.triangles[0], (0, 6, 8));
    assert_eq!(mesh.triangles[1], (6, 3, 7));
    assert_eq!(mesh.triangles[2], (8, 7, 2));
    assert_eq!(mesh.triangles[3], (6, 7, 8));
}

#[test]
fn midpoints_only_refer_to_earlier_vertices() {
    let mesh = generate(3);
    for (offset, (first, second)) in mesh.vertex_parents.iter().enumerate() {
        assert!(first < second);
        assert!((*second as usize) < 6 + offset);
    }
    for (a, b, c) in &mesh.triangles {
        assert!(*a < mesh.vertex_count && *b < mesh.vertex_count && *c < mesh.vertex_count);
    }
}

#[test]
fn every_edge_of_a_subdivided_sphere_borders_two_triangles() {
    let mesh = generate(3);
    let mut directed = std::collections::HashSet::new();
    for &(a, b, c) in &mesh.triangles {
        assert!(a != b && b != c && c != a);
        for edge in [(a, b), (b, c), (c, a)] {
            assert!(directed.insert(edge), "directed edge {:?} occurs twice", edge);
        }
    }
    for &(from, to) in &directed {
        assert!(directed.contains(&(to, from)));
    }
    let mut corner_sets = std::collections::HashSet::new();
    for &(a, b, c) in &mesh.triangles {
        let mut corners = [a, b, c];
        corners.sort();
        assert!(corner_sets.insert(corners));
    }
    assert_eq!(directed.len(), 3 * mesh.triangles.len());
    assert_eq!(mesh.vertex_count as usize, mesh.triangles.len() / 2 + 2);
}

#[test]
fn an_edge_shared_by_two_triangles_gets_one_midpoint() {
    let base = base_octahedron();
    let (mesh, parents) = subdivide(&base);
    // The first two octahedron triangles share the edge between vertices 0 and 3.
    let first = mesh.triangles[0];
    let fourth_of_second = mesh.triangles[4 + 2];
    assert_eq!(first.1, 6);
    assert_eq!(parents[0], (0, 3));
    assert_eq!(fourth_of_second.0, 6);
}
