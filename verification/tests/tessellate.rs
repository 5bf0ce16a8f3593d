use kernel::primitives::{cube, cube_euler};
use kernel::tessellate::{tessellate, TriMesh};
use kernel::topology::{FaceId, Shell};

type Point = [f64; 3];

/// The eight corners of an axis-aligned cube of edge `size` centred on the
/// origin, numbered as the cube constructors expect.
fn corners(size: f64) -> [Point; 8] {
    let h = size / 2.0;
    [
        [-h, -h, -h],
        [h, -h, -h],
        [h, h, -h],
        [-h, h, -h],
        [-h, -h, h],
        [h, -h, h],
        [h, h, h],
        [-h, h, h],
    ]
}

/// Newell's method: the normal of a planar polygon, normalised (zero for a
/// degenerate loop).
fn newell_normal(points: &[Point]) -> [f64; 3] {
    let mut n = [0.0f64; 3];
    let count = points.len();
    for i in 0..count {
        let cur = points[i];
        let next = points[(i + 1) % count];
        n[0] += (cur[1] - next[1]) * (cur[2] + next[2]);
        n[1] += (cur[2] - next[2]) * (cur[0] + next[0]);
        n[2] += (cur[0] - next[0]) * (cur[1] + next[1]);
    }
    let len = (n[0] * n[0] + n[1] * n[1] + n[2] * n[2]).sqrt();
    if len == 0.0 {
        [0.0; 3]
    } else {
        [n[0] / len, n[1] / len, n[2] / len]
    }
}

fn mesh_of(shell: &Shell<Point>) -> TriMesh<f32> {
    tessellate(
        shell,
        |p: Point| [p[0] as f32, p[1] as f32, p[2] as f32],
        |pts: &[Point]| {
            let n = newell_normal(pts);
            [n[0] as f32, n[1] as f32, n[2] as f32]
        },
    )
}

fn dot(a: [f64; 3], b: [f64; 3]) -> f64 {
    a[0] * b[0] + a[1] * b[1] + a[2] * b[2]
}

#[test]
fn cube_tessellates_to_twelve_triangles() {
    let mesh = mesh_of(&cube(corners(2.0)));
    // 6 faces * 2 triangles * 3 indices.
    assert_eq!(mesh.indices.len(), 36);
    // 6 faces * 4 vertices, no sharing.
    assert_eq!(mesh.positions.len(), 6 * 4 * 3);
}

#[test]
fn euler_cube_matches_polygon_cube() {
    // The operator-built cube should tessellate to the same triangle count
    // as the hand-authored one — a sanity check that it's a real 6-quad box.
    let mesh = mesh_of(&cube_euler(corners(2.0)));
    assert_eq!(mesh.indices.len(), 36);
    assert_eq!(mesh.positions.len(), 6 * 4 * 3);
}

#[test]
fn outward_normals_point_away_from_centre() {
    // For a cube centred at the origin, each face normal should point in
    // roughly the same direction as the face centroid (i.e. outward).
    let shell = cube(corners(2.0));
    for f in 0..shell.faces.len() {
        let pts: Vec<Point> = shell
            .face_loop(FaceId(f))
            .iter()
            .map(|&he| shell.vertex(shell.half_edge(he).origin).position)
            .collect();
        let normal = newell_normal(&pts);
        let mut centroid = [0.0; 3];
        for p in &pts {
            for k in 0..3 {
                centroid[k] += p[k] / pts.len() as f64;
            }
        }
        assert!(dot(normal, centroid) > 0.0, "face {f} normal points inward");
    }
}

#[test]
fn fan_indices_and_flat_normals() {
    let mesh = mesh_of(&cube(corners(2.0)));
    // Face 0 (+X) is emitted first as vertices 0..4: fan (0,1,2), (0,2,3).
    assert_eq!(&mesh.indices[0..6], &[0, 1, 2, 0, 2, 3]);
    // Face 5 starts at vertex 20.
    assert_eq!(&mesh.indices[30..36], &[20, 21, 22, 20, 22, 23]);
    // First vertex of face 0 is corner 1 = (1, -1, -1); its normal is +X.
    assert_eq!(&mesh.positions[0..3], &[1.0, -1.0, -1.0]);
    for v in 0..4 {
        assert_eq!(&mesh.normals[3 * v..3 * v + 3], &[1.0, 0.0, 0.0]);
    }
    // Face 4 (+Z) has normal +Z on all its vertices.
    for v in 16..20 {
        assert_eq!(&mesh.normals[3 * v..3 * v + 3], &[0.0, 0.0, 1.0]);
    }
}

#[test]
fn pentagon_fans_into_three_triangles() {
    let positions = [[0.0, 0.0, 0.0], [2.0, 0.0, 0.0], [3.0, 1.0, 0.0], [1.0, 2.0, 0.0], [-1.0, 1.0, 0.0]];
    let shell = Shell::from_polygons(&positions, &[vec![0, 1, 2, 3, 4]]);
    let mesh = mesh_of(&shell);
    assert_eq!(mesh.indices, vec![0, 1, 2, 0, 2, 3, 0, 3, 4]);
    assert_eq!(mesh.positions.len(), 15);
    assert_eq!(&mesh.normals[12..15], &[0.0, 0.0, 1.0]);
}

#[test]
fn faces_with_fewer_than_three_vertices_are_skipped() {
    // The two faces of a single spur edge each have a two-half-edge loop.
    let (mut s, _v, _f, h) = Shell::mvfs([0.0, 0.0, 0.0]);
    s.mev(h, [1.0, 0.0, 0.0]);
    let mesh = mesh_of(&s);
    assert!(mesh.indices.is_empty() && mesh.positions.is_empty() && mesh.normals.is_empty());
}

#[test]
fn default_mesh_is_empty_and_clones() {
    let mesh: TriMesh<f32> = TriMesh::default();
    assert!(mesh.positions.is_empty() && mesh.normals.is_empty() && mesh.indices.is_empty());
    let copy = mesh.clone();
    assert!(copy.indices.is_empty());
    assert!(format!("{:?}", copy).contains("TriMesh"));
}
