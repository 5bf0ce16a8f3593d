use kernel::primitives::cube;
use kernel::topology::{Face, FaceId, HalfEdge, HalfEdgeId, Shell, Vertex, VertexId};

type Point = [f64; 3];

/// The eight corners of an axis-aligned cube of edge `size` centred on the
/// origin, numbered as the cube constructors expect.
fn corners(size: f64) -> [Point; 8] {
    let h = size / 2.0;
    [
        [-h, -h, -h],
        [h, -h, -h],
        [h, h, -h],
        [-h, h, -h],
        [-h, -h, h],
        [h, -h, h],
        [h, h, h],
        [-h, h, h],
    ]
}

#[test]
fn cube_is_a_valid_closed_solid() {
    let shell = cube(corners(2.0));
    assert_eq!(shell.vertices.len(), 8);
    assert_eq!(shell.faces.len(), 6);
    assert_eq!(shell.half_edges.len(), 24); // 12 edges * 2
    assert!(shell.is_closed());
    // V - E + F = 8 - 12 + 6 = 2  (genus-0 solid)
    assert_eq!(shell.euler_characteristic(), 2);
}

#[test]
fn every_face_loop_has_four_edges() {
    let shell = cube(corners(1.0));
    for f in 0..shell.faces.len() {
        assert_eq!(shell.face_loop(FaceId(f)).len(), 4);
    }
}

#[test]
fn cube_face_loops_follow_the_vertex_lists() {
    let shell = cube(corners(2.0));
    let expected = [
        [1, 2, 6, 5],
        [0, 4, 7, 3],
        [3, 7, 6, 2],
        [0, 1, 5, 4],
        [4, 5, 6, 7],
        [0, 3, 2, 1],
    ];
    for f in 0..6 {
        let origins: Vec<usize> = shell
            .face_loop(FaceId(f))
            .iter()
            .map(|&he| shell.half_edge(he).origin.0)
            .collect();
        assert_eq!(origins, expected[f].to_vec());
        assert_eq!(shell.face(FaceId(f)).half_edge, HalfEdgeId(4 * f));
    }
}

#[test]
fn cube_twins_pair_opposite_edges() {
    let shell = cube(corners(2.0));
    let twins = [22, 10, 17, 13, 15, 19, 8, 20, 6, 18, 1, 21, 23, 3, 16, 4, 14, 2, 9, 5, 7, 11, 0, 12];
    for (i, &t) in twins.iter().enumerate() {
        let he = shell.half_edge(HalfEdgeId(i));
        assert_eq!(he.twin, Some(HalfEdgeId(t)));
        let twin = shell.half_edge(HalfEdgeId(t));
        assert_eq!(twin.origin, shell.destination(HalfEdgeId(i)));
        assert_eq!(shell.destination(HalfEdgeId(t)), he.origin);
    }
}

#[test]
fn cube_vertices_keep_positions_and_first_outgoing_edge() {
    let c = corners(2.0);
    let shell = cube(c);
    let first = [4, 0, 1, 7, 5, 3, 2, 6];
    for v in 0..8 {
        let vertex = shell.vertex(VertexId(v));
        assert_eq!(vertex.position, c[v]);
        assert_eq!(vertex.half_edge, Some(HalfEdgeId(first[v])));
    }
}

#[test]
fn single_triangle_soup_is_open() {
    let positions = [[0.0, 0.0, 0.0], [1.0, 0.0, 0.0], [0.0, 1.0, 0.0]];
    let shell = Shell::from_polygons(&positions, &[vec![0, 1, 2]]);
    assert_eq!(shell.half_edges.len(), 3);
    assert!(!shell.is_closed());
    // V - E + F = 3 - 1 + 1, with E counted as half the half-edges.
    assert_eq!(shell.euler_characteristic(), 3);
    assert!(shell.validate().is_ok());
    assert_eq!(shell.half_edge(HalfEdgeId(0)).next, HalfEdgeId(1));
    assert_eq!(shell.half_edge(HalfEdgeId(0)).prev, HalfEdgeId(2));
    assert_eq!(shell.destination(HalfEdgeId(2)), VertexId(0));
}

#[test]
fn unused_vertex_has_no_half_edge() {
    let positions = [[0.0; 3], [1.0, 0.0, 0.0], [0.0, 1.0, 0.0], [5.0, 5.0, 5.0]];
    let shell = Shell::from_polygons(&positions, &[vec![0, 1, 2], vec![0, 2, 1]]);
    assert!(shell.is_closed());
    assert_eq!(shell.vertex(VertexId(3)).half_edge, None);
    assert_eq!(shell.vertex(VertexId(2)).half_edge, Some(HalfEdgeId(2)));
    // The back face pairs with the front one edge by edge.
    assert_eq!(shell.half_edge(HalfEdgeId(0)).twin, Some(HalfEdgeId(5)));
    assert_eq!(shell.euler_characteristic(), 4 - 3 + 2);
}

#[test]
fn default_shell_is_empty() {
    let shell: Shell<Point> = Shell::default();
    assert!(shell.vertices.is_empty() && shell.half_edges.is_empty() && shell.faces.is_empty());
    assert!(shell.is_closed());
    assert_eq!(shell.euler_characteristic(), 0);
}

#[test]
fn hand_built_pair_of_faces() {
    // Two half-edges forming a single edge loop on two faces.
    let shell = Shell {
        vertices: vec![
            Vertex { position: [0.0; 3], half_edge: Some(HalfEdgeId(0)) },
            Vertex { position: [1.0; 3], half_edge: Some(HalfEdgeId(1)) },
        ],
        half_edges: vec![
            HalfEdge { origin: VertexId(0), twin: Some(HalfEdgeId(1)), next: HalfEdgeId(0), prev: HalfEdgeId(0), face: Some(FaceId(0)) },
            HalfEdge { origin: VertexId(1), twin: Some(HalfEdgeId(0)), next: HalfEdgeId(1), prev: HalfEdgeId(1), face: Some(FaceId(1)) },
        ],
        faces: vec![Face { half_edge: HalfEdgeId(0) }, Face { half_edge: HalfEdgeId(1) }],
    };
    assert_eq!(shell.face_loop(FaceId(1)), vec![HalfEdgeId(1)]);
    assert_eq!(shell.destination(HalfEdgeId(0)), VertexId(0));
    // The twin of half-edge 0 starts at vertex 1, not at 0's destination.
    assert_eq!(shell.validate(), Err("he 0: twin.origin != destination".to_string()));
}

#[test]
fn soup_twin_is_the_reversed_edge_or_none() {
    let positions = [[0.0, 0.0, 0.0], [1.0, 0.0, 0.0], [0.0, 1.0, 0.0], [0.0, 0.0, 1.0]];
    // Two triangles sharing only the edge 0-2, run opposite ways.
    let shell = Shell::from_polygons(&positions, &[vec![0, 1, 2], vec![0, 2, 3]]);
    assert!(!shell.is_closed());
    // 2 -> 0 (half-edge 2) and 0 -> 2 (half-edge 3) pair; the rest are open.
    assert_eq!(shell.half_edge(HalfEdgeId(2)).twin, Some(HalfEdgeId(3)));
    assert_eq!(shell.half_edge(HalfEdgeId(3)).twin, Some(HalfEdgeId(2)));
    for j in [0, 1, 4, 5] {
        assert_eq!(shell.half_edge(HalfEdgeId(j)).twin, None);
    }
    assert!(shell.validate().is_ok());
    // Every vertex keeps its position.
    for (v, pos) in positions.iter().enumerate() {
        assert_eq!(shell.vertex(VertexId(v)).position, *pos);
    }
}
