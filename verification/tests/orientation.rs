//! Confirms the Euler-operator cube has consistently outward-facing loops, so
//! it renders lit rather than inside-out.

use kernel::primitives::{cube, cube_euler};
use kernel::topology::{FaceId, Shell};

type Point = [f64; 3];

fn corners(size: f64) -> [Point; 8] {
    let h = size / 2.0;
    [
        [-h, -h, -h],
        [h, -h, -h],
        [h, h, -h],
        [-h, h, -h],
        [-h, -h, h],
        [h, -h, h],
        [h, h, h],
        [-h, h, h],
    ]
}

#[test]
fn euler_cube_normals_point_outward() {
    let s = cube_euler(corners(2.0));
    for f in 0..s.faces.len() {
        let pts: Vec<Point> = s
            .face_loop(FaceId(f))
            .iter()
            .map(|&he| s.vertex(s.half_edge(he).origin).position)
            .collect();

        // Newell normal of the face loop.
        let mut n = [0.0f64; 3];
        let c = pts.len();
        for i in 0..c {
            let a = pts[i];
            let b = pts[(i + 1) % c];
            n[0] += (a[1] - b[1]) * (a[2] + b[2]);
            n[1] += (a[2] - b[2]) * (a[0] + b[0]);
            n[2] += (a[0] - b[0]) * (a[1] + b[1]);
        }

        // For a convex solid centred at the origin, an outward normal has a
        // positive dot product with the face centroid.
        let mut centroid = [0.0f64; 3];
        for p in &pts {
            for k in 0..3 {
                centroid[k] += p[k];
            }
        }
        for k in 0..3 {
            centroid[k] /= pts.len() as f64;
        }
        let dot = n[0] * centroid[0] + n[1] * centroid[1] + n[2] * centroid[2];
        assert!(dot > 0.0, "face {f} normal points inward (dot = {dot:.3})");
    }
}

#[test]
fn euler_cube_faces_match_polygon_cube_faces() {
    let a = cube(corners(2.0));
    let b = cube_euler(corners(2.0));
    let positions = |s: &Shell<Point>, f: usize| -> Vec<Point> {
        s.face_loop(FaceId(f))
            .iter()
            .map(|&he| s.vertex(s.half_edge(he).origin).position)
            .collect()
    };
    // +Z, -Z, -X, -Y, +X, +Y of the polygon cube, in the Euler cube's order.
    let matching = [4, 5, 1, 3, 0, 2];
    for g in 0..6 {
        let pa = positions(&a, matching[g]);
        let pb = positions(&b, g);
        assert_eq!(pa.len(), 4);
        assert_eq!(pb.len(), 4);
        let rotated = (0..4).any(|r| (0..4).all(|i| pb[i] == pa[(i + r) % 4]));
        assert!(rotated, "face {g} of the Euler cube is not a rotation of face {}", matching[g]);
    }
}
