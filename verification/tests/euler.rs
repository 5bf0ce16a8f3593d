use kernel::primitives::cube_euler;
use kernel::topology::{Face, FaceId, HalfEdge, HalfEdgeId, Shell, Vertex, VertexId};

type Point = [f64; 3];

fn p(x: f64, y: f64, z: f64) -> Point {
    [x, y, z]
}

/// The eight corners of an axis-aligned cube of edge `size` centred on the
/// origin, numbered as the cube constructors expect.
fn corners(size: f64) -> [Point; 8] {
    let h = size / 2.0;
    [
        [-h, -h, -h],
        [h, -h, -h],
        [h, h, -h],
        [-h, h, -h],
        [-h, -h, h],
        [h, -h, h],
        [h, h, h],
        [-h, h, h],
    ]
}

#[test]
fn mvfs_seed_is_valid() {
    let (shell, _v, _f, _h) = Shell::mvfs(p(0.0, 0.0, 0.0));
    assert_eq!(shell.vertices.len(), 1);
    assert_eq!(shell.faces.len(), 1);
    assert_eq!(shell.euler_characteristic(), 2); // 1 - 0 + 1
    assert!(shell.validate().is_ok());
}

#[test]
fn build_cube_via_euler_operators() {
    let s = cube_euler(corners(2.0));
    assert!(s.validate().is_ok(), "invariant violation: {:?}", s.validate());
    assert_eq!(s.vertices.len(), 8, "vertices");
    assert_eq!(s.faces.len(), 6, "faces");
    assert_eq!(s.half_edges.len(), 24, "half-edges (12 edges * 2)");
    assert!(s.is_closed(), "cube should be watertight");
    assert_eq!(s.euler_characteristic(), 2, "V - E + F");
    for f in 0..s.faces.len() {
        assert_eq!(
            s.face_loop(FaceId(f)).len(),
            4,
            "every cube face is a quad"
        );
    }
}

#[test]
fn build_triangle_solid() {
    // Two triangular faces back-to-back: V=3, E=3, F=2.
    let (mut s, _v0, f0, h0) = Shell::mvfs(p(0.0, 0.0, 0.0));
    let (_v1, h1) = s.mev(h0, p(1.0, 0.0, 0.0));
    let (_v2, h2) = s.mev(h1, p(0.0, 1.0, 0.0));
    // Close the loop: edge from origin(h2)=v2 back to origin(h0-side)=v0.
    let ha = h2;
    let hb = s.find_in_face(f0, _v0);
    s.mef(ha, hb);

    assert!(s.validate().is_ok());
    assert_eq!(s.vertices.len(), 3);
    assert_eq!(s.faces.len(), 2);
    assert_eq!(s.half_edges.len(), 6); // 3 edges * 2
    assert!(s.is_closed());
    assert_eq!(s.euler_characteristic(), 2);
}

#[test]
fn every_step_keeps_euler_characteristic_two() {
    let (mut s, v0, f0, h0) = Shell::mvfs(p(0.0, 0.0, 0.0));
    assert_eq!(s.euler_characteristic(), 2);
    let (_v1, h1) = s.mev(h0, p(1.0, 0.0, 0.0));
    assert_eq!((s.vertices.len(), s.half_edges.len(), s.faces.len()), (2, 2, 1));
    assert_eq!(s.euler_characteristic(), 2);
    let (_v2, h2) = s.mev(h1, p(0.0, 1.0, 0.0));
    assert_eq!((s.vertices.len(), s.half_edges.len(), s.faces.len()), (3, 4, 1));
    assert_eq!(s.euler_characteristic(), 2);
    assert!(s.validate().is_ok());
    let hb = s.find_in_face(f0, v0);
    let f1 = s.mef(h2, hb);
    assert_eq!(f1, FaceId(1));
    assert_eq!((s.vertices.len(), s.half_edges.len(), s.faces.len()), (3, 6, 2));
    assert_eq!(s.euler_characteristic(), 2);
    assert!(s.validate().is_ok());
}

#[test]
fn mvfs_seed_is_a_twinless_self_loop() {
    let (s, v, f, h) = Shell::mvfs(p(1.0, 2.0, 3.0));
    assert_eq!((v, f, h), (VertexId(0), FaceId(0), HalfEdgeId(0)));
    let he = s.half_edge(h);
    assert_eq!((he.origin, he.twin, he.next, he.prev, he.face), (v, None, h, h, Some(f)));
    assert_eq!(s.vertex(v).half_edge, Some(h));
    assert_eq!(s.vertex(v).position, p(1.0, 2.0, 3.0));
    assert!(!s.is_closed());
}

#[test]
fn mev_on_seed_reuses_it_as_the_outgoing_half() {
    let (mut s, v0, f0, h0) = Shell::mvfs(p(0.0, 0.0, 0.0));
    let (w, back) = s.mev(h0, p(1.0, 0.0, 0.0));
    assert_eq!((w, back), (VertexId(1), HalfEdgeId(1)));
    let seed = s.half_edge(h0);
    assert_eq!((seed.twin, seed.next, seed.prev), (Some(back), back, back));
    let b = s.half_edge(back);
    assert_eq!((b.origin, b.twin, b.next, b.prev, b.face), (w, Some(h0), h0, h0, Some(f0)));
    assert_eq!(s.face_loop(f0), vec![h0, back]);
    assert_eq!(s.destination(h0), w);
    assert_eq!(s.destination(back), v0);
    assert!(s.is_closed());
}

#[test]
fn mev_splices_a_spur_before_at() {
    let (mut s, _v0, f0, h0) = Shell::mvfs(p(0.0, 0.0, 0.0));
    let (_v1, h1) = s.mev(h0, p(1.0, 0.0, 0.0));
    let (w, back) = s.mev(h1, p(2.0, 0.0, 0.0));
    // prev(h1) = h0 -> h_out (2) -> h_back (3) -> h1
    assert_eq!((w, back), (VertexId(2), HalfEdgeId(3)));
    assert_eq!(s.face_loop(f0), vec![h0, HalfEdgeId(2), HalfEdgeId(3), h1]);
    assert_eq!(s.half_edge(HalfEdgeId(2)).origin, VertexId(1));
    assert_eq!(s.half_edge(HalfEdgeId(2)).twin, Some(HalfEdgeId(3)));
    assert_eq!(s.vertex(w).half_edge, Some(back));
}

#[test]
fn mef_splits_the_loop_in_two() {
    let (mut s, v0, f0, h0) = Shell::mvfs(p(0.0, 0.0, 0.0));
    let (_v1, h1) = s.mev(h0, p(1.0, 0.0, 0.0));
    let (_v2, h2) = s.mev(h1, p(1.0, 1.0, 0.0));
    let (_v3, h3) = s.mev(h2, p(0.0, 1.0, 0.0));
    let hb = s.find_in_face(f0, v0);
    assert_eq!(hb, h0);
    let f1 = s.mef(h3, hb);
    // The new face runs from ha round to the new b -> a half-edge.
    assert_eq!(s.face_loop(f1), vec![HalfEdgeId(5), HalfEdgeId(3), HalfEdgeId(1), HalfEdgeId(7)]);
    // The old face keeps a -> b and the rest of the old loop.
    assert_eq!(s.face(f0).half_edge, HalfEdgeId(6));
    assert_eq!(s.face_loop(f0), vec![HalfEdgeId(6), HalfEdgeId(0), HalfEdgeId(2), HalfEdgeId(4)]);
    for he in s.face_loop(f1) {
        assert_eq!(s.half_edge(he).face, Some(f1));
    }
    assert!(s.validate().is_ok());
}

#[test]
fn find_in_face_returns_first_match() {
    let (mut s, v0, f0, h0) = Shell::mvfs(p(0.0, 0.0, 0.0));
    let (v1, h1) = s.mev(h0, p(1.0, 0.0, 0.0));
    let (_v2, _h2) = s.mev(h1, p(2.0, 0.0, 0.0));
    // Loop: h0 (v0), 2 (v1), 3 (v2), h1 (v1): v1 occurs twice.
    assert_eq!(s.find_in_face(f0, v1), HalfEdgeId(2));
    assert_eq!(s.find_in_face(f0, v0), h0);
}

#[test]
fn euler_cube_faces_match_polygon_cube() {
    let s = cube_euler(corners(2.0));
    let corner_of = [0, 1, 2, 3, 7, 4, 5, 6];
    let expected = [[6, 7, 4, 5], [3, 2, 1, 0], [7, 3, 0, 4], [4, 0, 1, 5], [5, 1, 2, 6], [6, 2, 3, 7]];
    for f in 0..6 {
        let got: Vec<usize> = s
            .face_loop(FaceId(f))
            .iter()
            .map(|&he| corner_of[s.half_edge(he).origin.0])
            .collect();
        assert_eq!(got, expected[f].to_vec());
    }
    let c = corners(2.0);
    for v in 0..8 {
        assert_eq!(s.vertex(VertexId(v)).position, c[corner_of[v]]);
    }
}

fn two_loop_shell(edit: impl Fn(&mut Vec<HalfEdge>)) -> Shell<Point> {
    let mut half_edges = vec![
        HalfEdge { origin: VertexId(0), twin: Some(HalfEdgeId(1)), next: HalfEdgeId(0), prev: HalfEdgeId(0), face: Some(FaceId(0)) },
        HalfEdge { origin: VertexId(0), twin: Some(HalfEdgeId(0)), next: HalfEdgeId(1), prev: HalfEdgeId(1), face: Some(FaceId(1)) },
    ];
    edit(&mut half_edges);
    Shell {
        vertices: vec![Vertex { position: p(0.0, 0.0, 0.0), half_edge: Some(HalfEdgeId(0)) }],
        half_edges,
        faces: vec![Face { half_edge: HalfEdgeId(0) }, Face { half_edge: HalfEdgeId(1) }],
    }
}

#[test]
fn validate_accepts_two_self_loops() {
    assert_eq!(two_loop_shell(|_| {}).validate(), Ok(()));
}

#[test]
fn validate_reports_next_prev() {
    let s = two_loop_shell(|h| h[0].next = HalfEdgeId(1));
    assert_eq!(s.validate(), Err("he 0: next.prev != self".to_string()));
}

#[test]
fn validate_reports_prev_next() {
    // A two-edge loop 0 -> 1 -> 0 whose first half-edge names itself as prev.
    let s = two_loop_shell(|h| {
        h[0] = HalfEdge { origin: VertexId(0), twin: None, next: HalfEdgeId(1), prev: HalfEdgeId(0), face: None };
        h[1] = HalfEdge { origin: VertexId(0), twin: None, next: HalfEdgeId(0), prev: HalfEdgeId(0), face: None };
    });
    assert_eq!(s.validate(), Err("he 0: prev.next != self".to_string()));
}

#[test]
fn validate_reports_asymmetric_twin() {
    let s = two_loop_shell(|h| h[1].twin = None);
    assert_eq!(s.validate(), Err("he 0: twin not symmetric".to_string()));
}

#[test]
fn validate_reports_twin_origin() {
    let s = two_loop_shell(|h| h[1].origin = VertexId(7));
    assert_eq!(s.validate(), Err("he 0: twin.origin != destination".to_string()));
}

#[test]
fn validate_reports_face_mismatch() {
    let mut s = two_loop_shell(|_| {});
    // Twelve self-loops so that the index has two digits.
    for i in 2..12 {
        s.half_edges.push(HalfEdge { origin: VertexId(0), twin: None, next: HalfEdgeId(i), prev: HalfEdgeId(i), face: None });
    }
    s.half_edges[11].next = HalfEdgeId(10);
    s.half_edges[10].prev = HalfEdgeId(11);
    s.half_edges[10].next = HalfEdgeId(11);
    s.half_edges[11].prev = HalfEdgeId(10);
    s.half_edges[11].face = Some(FaceId(1));
    assert_eq!(s.validate(), Err("he 10: face differs across next link".to_string()));
}

#[test]
fn mev_splices_spur_just_before_at() {
    let (mut s, v0, f0, h0) = Shell::mvfs(p(0.0, 0.0, 0.0));
    let (v1, h1) = s.mev(h0, p(1.0, 0.0, 0.0));
    assert_eq!(s.face_loop(f0), vec![HalfEdgeId(0), HalfEdgeId(1)]);
    assert_eq!(s.half_edge(h1).origin, v1);
    // h1 has a twin, so the spur v1 -> v2 -> v1 goes in just before h1.
    let (v2, back) = s.mev(h1, p(0.0, 1.0, 0.0));
    assert_eq!(back, HalfEdgeId(3));
    assert_eq!(
        s.face_loop(f0),
        vec![HalfEdgeId(0), HalfEdgeId(2), HalfEdgeId(3), HalfEdgeId(1)]
    );
    assert_eq!(s.half_edge(HalfEdgeId(2)).origin, v1);
    assert_eq!(s.half_edge(HalfEdgeId(3)).origin, v2);
    assert_eq!(s.half_edge(HalfEdgeId(2)).twin, Some(HalfEdgeId(3)));
    assert_eq!(s.half_edge(HalfEdgeId(3)).twin, Some(HalfEdgeId(2)));
    assert_eq!(s.half_edge(HalfEdgeId(2)).face, Some(f0));
    assert_eq!(s.half_edge(HalfEdgeId(3)).face, Some(f0));
    assert_eq!(s.half_edge(HalfEdgeId(0)).origin, v0);
    assert!(s.validate().is_ok());
}

#[test]
fn mef_on_a_triangle_keeps_old_face_on_a_to_b() {
    let (mut s, v0, f0, h0) = Shell::mvfs(p(0.0, 0.0, 0.0));
    let (_v1, h1) = s.mev(h0, p(1.0, 0.0, 0.0));
    let (v2, h2) = s.mev(h1, p(0.0, 1.0, 0.0));
    // The loop of f0 is 0 -> 2 -> 3 -> 1; read from h2 = 3 it is 3, 1, 0, 2.
    let hb = s.find_in_face(f0, v0);
    assert_eq!((h2, hb), (HalfEdgeId(3), HalfEdgeId(0)));
    let nf = s.mef(h2, hb);
    assert_eq!(nf, FaceId(1));
    // New face: from h2 up to hb, exclusive, closed by b -> a.
    assert_eq!(
        s.face_loop(nf),
        vec![HalfEdgeId(3), HalfEdgeId(1), HalfEdgeId(5)]
    );
    // Old face: a -> b, then from hb round to the half-edge before h2.
    assert_eq!(s.face(f0).half_edge, HalfEdgeId(4));
    assert_eq!(
        s.face_loop(f0),
        vec![HalfEdgeId(4), HalfEdgeId(0), HalfEdgeId(2)]
    );
    for he in s.face_loop(nf) {
        assert_eq!(s.half_edge(he).face, Some(nf));
    }
    for he in s.face_loop(f0) {
        assert_eq!(s.half_edge(he).face, Some(f0));
    }
    assert_eq!(s.half_edge(HalfEdgeId(4)).origin, v2);
    assert_eq!(s.half_edge(HalfEdgeId(5)).origin, v0);
    assert!(s.validate().is_ok());
    assert!(s.is_closed());
}
