//! Tessellation: converting a shell into a triangle mesh for display.
//!
//! Each face's boundary loop is walked and fan-triangulated from its first
//! vertex (exact for planar convex faces). Vertices are emitted once per face,
//! not shared, and every vertex carries its face's normal, which gives flat
//! shading. The coordinates of a position and the normal of a face loop are
//! computed by the caller's functions: the mesh layout is what is built here.
use vstd::prelude::*;
use crate::topology::{
    has_loop, lemma_loop_basics, loop_from, period, walk, Face, FaceId, HalfEdge, HalfEdgeId, Shell,
    Vertex,
};

verus! {

/// A renderable triangle mesh: flat `xyz` arrays (three scalars per vertex)
/// for positions and normals, plus triangle indices into the vertices.
#[derive(Clone, Debug)]
pub struct TriMesh<S> {
    pub positions: Vec<S>,
    pub normals: Vec<S>,
    pub indices: Vec<u32>,
}

/// The three scalars of `s` from index `k`.
pub open spec fn triple<S>(s: Seq<S>, k: int) -> [S; 3] {
    [s[k], s[k + 1], s[k + 2]]
}

/// `r` is a result the normal function may give for a loop with points `pts`.
pub open spec fn normal_of<P, S, N: Fn(&[P]) -> [S; 3]>(normal: N, pts: Seq<P>, r: [S; 3]) -> bool {
    exists|s: &[P]| s@ == pts && #[trigger] normal.ensures((s,), r)
}

/// The positions of the boundary vertices of face `f`, in loop order.
pub open spec fn face_points<P>(vs: Seq<Vertex<P>>, hes: Seq<HalfEdge>, fs: Seq<Face>, f: int) -> Seq<P> {
    let l = loop_from(hes, fs[f].half_edge.0 as int);
    Seq::new(l.len(), |i: int| vs[hes[l[i].0 as int].origin.0 as int].position)
}

/// The points emitted for faces `0 .. f`: those of every face with at least
/// three vertices, one face after the other.
pub open spec fn corner_points<P>(vs: Seq<Vertex<P>>, hes: Seq<HalfEdge>, fs: Seq<Face>, f: int) -> Seq<P>
    decreases f,
{
    if f <= 0 {
        Seq::empty()
    } else {
        let pts = face_points(vs, hes, fs, f - 1);
        if pts.len() >= 3 {
            corner_points(vs, hes, fs, f - 1) + pts
        } else {
            corner_points(vs, hes, fs, f - 1)
        }
    }
}

/// The first `m` triangles of the fan over vertices `base, base + 1, ...`:
/// `(base, base + i, base + i + 1)` for `i` in `1 ..= m`.
pub open spec fn fan(base: int, m: int) -> Seq<u32>
    decreases m,
{
    if m <= 0 {
        Seq::empty()
    } else {
        fan(base, m - 1) + seq![base as u32, (base + m) as u32, (base + m + 1) as u32]
    }
}

/// The triangle indices emitted for faces `0 .. f`.
pub open spec fn fan_indices<P>(vs: Seq<Vertex<P>>, hes: Seq<HalfEdge>, fs: Seq<Face>, f: int) -> Seq<u32>
    decreases f,
{
    if f <= 0 {
        Seq::empty()
    } else {
        let pts = face_points(vs, hes, fs, f - 1);
        if pts.len() >= 3 {
            fan_indices(vs, hes, fs, f - 1) + fan(
                corner_points(vs, hes, fs, f - 1).len() as int,
                pts.len() - 2,
            )
        } else {
            fan_indices(vs, hes, fs, f - 1)
        }
    }
}

/// What `tessellate` needs of a shell: every face has a loop, and every
/// half-edge on it leaves an existing vertex.
pub open spec fn loops_ok(vs_len: nat, hes: Seq<HalfEdge>, fs: Seq<Face>) -> bool {
    forall|f: int|
        0 <= f < fs.len() ==> {
            &&& has_loop(hes, (#[trigger] fs[f]).half_edge.0 as int)
            &&& forall|k: int|
                0 <= k < loop_from(hes, fs[f].half_edge.0 as int).len() ==> hes[loop_from(
                    hes,
                    fs[f].half_edge.0 as int,
                )[k].0 as int].origin.0 < vs_len
        }
}

proof fn lemma_triple_eq<S>(a: Seq<S>, b: Seq<S>, k: int)
    requires
        a[k] == b[k],
        a[k + 1] == b[k + 1],
        a[k + 2] == b[k + 2],
    ensures
        triple(a, k) == triple(b, k),
{
    assert(triple(a, k) =~= triple(b, k));
}

proof fn lemma_corner_points_prefix<P>(vs: Seq<Vertex<P>>, hes: Seq<HalfEdge>, fs: Seq<Face>, f: int, g: int)
    requires
        0 <= f <= g,
    ensures
        corner_points(vs, hes, fs, f).len() <= corner_points(vs, hes, fs, g).len(),
        forall|k: int|
            0 <= k < corner_points(vs, hes, fs, f).len() ==> #[trigger] corner_points(vs, hes, fs, g)[k]
                == corner_points(vs, hes, fs, f)[k],
    decreases g - f,
{
    if f < g {
        lemma_corner_points_prefix(vs, hes, fs, f, g - 1);
    }
}

/// Tessellates a whole shell into one triangle mesh. `coords` gives the
/// three scalars written for a position, `normal` the normal written for
/// every vertex of a face, from the positions of the face's loop.
pub fn tessellate<P: Copy, S: Copy, C: Fn(P) -> [S; 3], N: Fn(&[P]) -> [S; 3]>(
    shell: &Shell<P>,
    coords: C,
    normal: N,
) -> (mesh: TriMesh<S>)
    requires
        loops_ok(shell.vertices@.len(), shell.half_edges@, shell.faces@),
        corner_points(shell.vertices@, shell.half_edges@, shell.faces@, shell.faces@.len() as int).len()
            <= u32::MAX,
        forall|p: P| #[trigger] coords.requires((p,)),
        forall|s: &[P]| #[trigger] normal.requires((s,)),
    ensures
        ({
            let vs = shell.vertices@;
            let hes = shell.half_edges@;
            let fs = shell.faces@;
            let pts = corner_points(vs, hes, fs, fs.len() as int);
            &&& mesh.positions@.len() == 3 * pts.len()
            &&& mesh.normals@.len() == 3 * pts.len()
            &&& forall|k: int| 0 <= k < pts.len() ==> coords.ensures((#[trigger] pts[k],), triple(mesh.positions@, 3 * k))
            &&& forall|g: int|
                0 <= g < fs.len() && #[trigger] face_points(vs, hes, fs, g).len() >= 3 ==> exists|r: [S; 3]|
                    normal_of(normal, face_points(vs, hes, fs, g), r) && forall|c: int|
                        0 <= c < face_points(vs, hes, fs, g).len() ==> #[trigger] triple(
                            mesh.normals@,
                            3 * (corner_points(vs, hes, fs, g).len() + c),
                        ) == r
            &&& mesh.indices@ == fan_indices(vs, hes, fs, fs.len() as int)
            &&& mesh.indices@.len() == 3 * triangle_count(vs, hes, fs, fs.len() as int)
            &&& forall|g: int, q: int|
                #![trigger triangle_at(mesh.indices@, triangle_count(vs, hes, fs, g), q)]
                0 <= g < fs.len() && 0 <= q && q + 2 < face_points(vs, hes, fs, g).len() ==> triangle_at(
                    mesh.indices@,
                    triangle_count(vs, hes, fs, g),
                    q,
                ) == fan_triangle(vs, hes, fs, g, q)
            &&& forall|g: int, q: int|
                0 <= g < fs.len() && 0 <= q && q + 2 < face_points(vs, hes, fs, g).len() ==> occurs(
                    mesh.indices@,
                    #[trigger] fan_triangle(vs, hes, fs, g, q),
                )
            &&& forall|t: nat|
                3 * t + 2 < mesh.indices@.len() ==> is_fan_triangle(
                    vs,
                    hes,
                    fs,
                    fs.len() as int,
                    #[trigger] triangle_at(mesh.indices@, t, 0),
                )
        }),
{
    let ghost vs = shell.vertices@;
    let ghost hes = shell.half_edges@;
    let ghost fs = shell.faces@;
    let ghost nf = fs.len() as int;
    let mut mesh = TriMesh { positions: Vec::new(), normals: Vec::new(), indices: Vec::new() };
    let mut f: usize = 0;
    while f < shell.faces.len()
        invariant
            vs == shell.vertices@,
            hes == shell.half_edges@,
            fs == shell.faces@,
            nf == fs.len(),
            loops_ok(vs.len(), hes, fs),
            corner_points(vs, hes, fs, nf).len() <= u32::MAX,
            forall|p: P| #[trigger] coords.requires((p,)),
            forall|s: &[P]| #[trigger] normal.requires((s,)),
            f <= nf,
            mesh.positions@.len() == 3 * corner_points(vs, hes, fs, f as int).len(),
            mesh.normals@.len() == 3 * corner_points(vs, hes, fs, f as int).len(),
            forall|k: int|
                0 <= k < corner_points(vs, hes, fs, f as int).len() ==> coords.ensures(
                    (#[trigger] corner_points(vs, hes, fs, f as int)[k],),
                    triple(mesh.positions@, 3 * k),
                ),
            forall|g: int|
                0 <= g < f && #[trigger] face_points(vs, hes, fs, g).len() >= 3 ==> exists|r: [S; 3]|
                    normal_of(normal, face_points(vs, hes, fs, g), r) && forall|c: int|
                        0 <= c < face_points(vs, hes, fs, g).len() ==> #[trigger] triple(
                            mesh.normals@,
                            3 * (corner_points(vs, hes, fs, g).len() + c),
                        ) == r,
            mesh.indices@ == fan_indices(vs, hes, fs, f as int),
        decreases nf - f,
    {
        let face = FaceId(f);
        let ghost h = fs[f as int].half_edge.0 as int;
        let ghost pts = face_points(vs, hes, fs, f as int);
        let ghost before = corner_points(vs, hes, fs, f as int);
        proof {
            assert(has_loop(hes, h));
            lemma_loop_basics(hes, h);
            lemma_corner_points_prefix(vs, hes, fs, f as int, f + 1);
            lemma_corner_points_prefix(vs, hes, fs, f + 1, nf);
        }

        // Gather the face's boundary vertices in loop order.
        let lp = shell.face_loop(face);
        let mut loop_points: Vec<P> = Vec::new();
        let mut i: usize = 0;
        while i < lp.len()
            invariant
                vs == shell.vertices@,
                hes == shell.half_edges@,
                fs == shell.faces@,
                f < fs.len(),
                loops_ok(vs.len(), hes, fs),
                h == fs[f as int].half_edge.0,
                lp@ == loop_from(hes, h),
                pts == face_points(vs, hes, fs, f as int),
                forall|j: nat| j <= period(hes, h) ==> 0 <= #[trigger] walk(hes, h, j) < hes.len(),
                i <= lp@.len(),
                loop_points@ == pts.take(i as int),
            decreases lp@.len() - i,
        {
            let he = lp[i];
            assert(he.0 < hes.len()) by {
                assert(lp@[i as int] == HalfEdgeId(walk(hes, h, i as nat) as usize));
            }
            assert(hes[he.0 as int].origin.0 < vs.len());
            let v = shell.half_edge(he).origin;
            loop_points.push(shell.vertex(v).position);
            assert(loop_points@ =~= pts.take(i + 1));
            i += 1;
        }
        assert(loop_points@ =~= pts);

        if loop_points.len() >= 3 {
            let nrm = normal(loop_points.as_slice());
            assert(normal_of(normal, pts, nrm));

            // Emit this face's vertices, recording the index of the first one.
            let base = (mesh.positions.len() / 3) as u32;
            assert(base == before.len());
            let ghost old_normals = mesh.normals@;
            let ghost old_positions = mesh.positions@;
            let mut c: usize = 0;
            while c < loop_points.len()
                invariant
                    forall|p: P| #[trigger] coords.requires((p,)),
                    loop_points@ == pts,
                    pts.len() >= 3,
                    c <= pts.len(),
                    old_positions.len() == 3 * before.len(),
                    old_normals.len() == 3 * before.len(),
                    mesh.positions@.len() == 3 * (before.len() + c),
                    mesh.normals@.len() == 3 * (before.len() + c),
                    forall|k: int| 0 <= k < old_positions.len() ==> mesh.positions@[k] == old_positions[k],
                    forall|k: int| 0 <= k < old_normals.len() ==> mesh.normals@[k] == old_normals[k],
                    forall|k: int|
                        0 <= k < c ==> coords.ensures(
                            (#[trigger] pts[k],),
                            triple(mesh.positions@, 3 * (before.len() + k)),
                        ),
                    forall|k: int| 0 <= k < c ==> #[trigger] triple(mesh.normals@, 3 * (before.len() + k)) == nrm,
                    mesh.indices@ == fan_indices(vs, hes, fs, f as int),
                decreases pts.len() - c,
            {
                let xyz = coords(loop_points[c]);
                let ghost pre_p = mesh.positions@;
                let ghost pre_n = mesh.normals@;
                mesh.positions.push(xyz[0]);
                mesh.positions.push(xyz[1]);
                mesh.positions.push(xyz[2]);
                mesh.normals.push(nrm[0]);
                mesh.normals.push(nrm[1]);
                mesh.normals.push(nrm[2]);
                assert(triple(mesh.positions@, 3 * (before.len() + c)) =~= xyz);
                assert(triple(mesh.normals@, 3 * (before.len() + c)) =~= nrm);
                proof {
                    assert forall|k: int| 0 <= k < c implies #[trigger] triple(mesh.normals@, 3 * (before.len() + k)) == nrm by {
                        assert(triple(pre_n, 3 * (before.len() + k)) == nrm);
                        lemma_triple_eq(mesh.normals@, pre_n, 3 * (before.len() + k));
                    }
                    assert forall|k: int| 0 <= k < c implies coords.ensures(
                        (#[trigger] pts[k],),
                        triple(mesh.positions@, 3 * (before.len() + k)),
                    ) by {
                        assert(coords.ensures((pts[k],), triple(pre_p, 3 * (before.len() + k))));
                        lemma_triple_eq(mesh.positions@, pre_p, 3 * (before.len() + k));
                    }
                }
                c += 1;
            }

            // Fan triangulate: (0, i, i + 1) for i in 1 .. n - 1.
            let n = loop_points.len() as u32;
            let ghost emitted_positions = mesh.positions@;
            let ghost emitted_normals = mesh.normals@;
            let mut i: u32 = 1;
            while i < n - 1
                invariant
                    n == pts.len(),
                    pts.len() >= 3,
                    1 <= i <= n - 1,
                    base == before.len(),
                    before.len() + pts.len() <= u32::MAX,
                    mesh.indices@ == fan_indices(vs, hes, fs, f as int) + fan(base as int, i - 1),
                    mesh.positions@ == emitted_positions,
                    mesh.normals@ == emitted_normals,
                decreases n - 1 - i,
            {
                mesh.indices.push(base);
                mesh.indices.push(base + i);
                mesh.indices.push(base + i + 1);
                assert(mesh.indices@ =~= fan_indices(vs, hes, fs, f as int) + fan(base as int, i as int));
                i += 1;
            }
            proof {
                let after = corner_points(vs, hes, fs, f + 1);
                assert(after == before + pts);
                assert forall|k: int| 0 <= k < after.len() implies coords.ensures(
                    (#[trigger] after[k],),
                    triple(mesh.positions@, 3 * k),
                ) by {
                    if k < before.len() {
                        lemma_triple_eq(mesh.positions@, old_positions, 3 * k);
                    } else {
                        assert(after[k] == pts[k - before.len()]);
                        assert(3 * k == 3 * (before.len() + (k - before.len())));
                    }
                }
                assert forall|g: int|
                    0 <= g < f + 1 && #[trigger] face_points(vs, hes, fs, g).len() >= 3 implies exists|r: [S; 3]|
                    normal_of(normal, face_points(vs, hes, fs, g), r) && forall|c: int|
                        0 <= c < face_points(vs, hes, fs, g).len() ==> #[trigger] triple(
                            mesh.normals@,
                            3 * (corner_points(vs, hes, fs, g).len() + c),
                        ) == r by {
                    if g < f {
                        let r = choose|r: [S; 3]|
                            normal_of(normal, face_points(vs, hes, fs, g), r) && forall|c: int|
                                0 <= c < face_points(vs, hes, fs, g).len() ==> #[trigger] triple(
                                    old_normals,
                                    3 * (corner_points(vs, hes, fs, g).len() + c),
                                ) == r;
                        lemma_corner_points_prefix(vs, hes, fs, g + 1, f as int);
                        assert forall|c: int| 0 <= c < face_points(vs, hes, fs, g).len() implies #[trigger] triple(
                            mesh.normals@,
                            3 * (corner_points(vs, hes, fs, g).len() + c),
                        ) == r by {
                            lemma_triple_eq(
                                mesh.normals@,
                                old_normals,
                                3 * (corner_points(vs, hes, fs, g).len() + c),
                            );
                        }
                    } else {
                        assert(normal_of(normal, face_points(vs, hes, fs, g), nrm));
                    }
                }
            }
        } else {
            assert(corner_points(vs, hes, fs, f + 1) == before);
        }
        f += 1;
    }
    proof {
        law_fan_triangles(vs, hes, fs, nf);
        law_fan_triangles_occur(vs, hes, fs, nf);
    }
    mesh
}

/// The fan over `base ..` with `m` triangles has `3 m` indices, all between
/// `base` and `base + m + 1`.
proof fn lemma_fan(base: int, m: int)
    requires
        0 <= base,
        0 <= m,
        base + m + 1 <= u32::MAX,
    ensures
        fan(base, m).len() == 3 * m,
        forall|t: int| 0 <= t < 3 * m ==> base <= #[trigger] fan(base, m)[t] <= base + m + 1,
    decreases m,
{
    if m > 0 {
        lemma_fan(base, m - 1);
    }
}

/// Every triangle index of the mesh names an emitted vertex, and the indices
/// come in whole triangles.
pub proof fn law_mesh_indices_in_range<P>(vs: Seq<Vertex<P>>, hes: Seq<HalfEdge>, fs: Seq<Face>, f: int)
    requires
        0 <= f,
        corner_points(vs, hes, fs, f).len() <= u32::MAX,
    ensures
        fan_indices(vs, hes, fs, f).len() % 3 == 0,
        forall|k: int|
            0 <= k < fan_indices(vs, hes, fs, f).len() ==> (#[trigger] fan_indices(vs, hes, fs, f)[k]) < corner_points(
                vs,
                hes,
                fs,
                f,
            ).len(),
    decreases f,
{
    if f > 0 {
        lemma_corner_points_prefix(vs, hes, fs, f - 1, f);
        law_mesh_indices_in_range(vs, hes, fs, f - 1);
        let pts = face_points(vs, hes, fs, f - 1);
        if pts.len() >= 3 {
            let base = corner_points(vs, hes, fs, f - 1).len() as int;
            let m = pts.len() - 2;
            lemma_fan(base, m);
            let prev = fan_indices(vs, hes, fs, f - 1);
            assert forall|k: int| 0 <= k < fan_indices(vs, hes, fs, f).len() implies (#[trigger] fan_indices(
                vs,
                hes,
                fs,
                f,
            )[k]) < corner_points(vs, hes, fs, f).len() by {
                if k >= prev.len() {
                    assert(fan_indices(vs, hes, fs, f)[k] == fan(base, m)[k - prev.len()]);
                }
            }
        }
    }
}

/// How many triangles a fan over faces `0 .. f` has: `n - 2` for each face
/// whose loop has `n >= 3` corners, none for the others.
pub open spec fn triangle_count<P>(vs: Seq<Vertex<P>>, hes: Seq<HalfEdge>, fs: Seq<Face>, f: int) -> nat
    decreases f,
{
    if f <= 0 {
        0
    } else {
        let n = face_points(vs, hes, fs, f - 1).len();
        triangle_count(vs, hes, fs, f - 1) + if n >= 3 {
            (n - 2) as nat
        } else {
            0
        }
    }
}

/// Triangle number `t + q` of a flat index list: its three indices.
pub open spec fn triangle_at(s: Seq<u32>, t: nat, q: int) -> (u32, u32, u32) {
    (s[3 * (t + q)], s[3 * (t + q) + 1], s[3 * (t + q) + 2])
}

/// The fan over `base, base + 1, ...` with `m` triangles: triangle `q` is
/// `(base, base + q + 1, base + q + 2)`.
proof fn lemma_fan_triangles(base: int, m: int)
    requires
        0 <= m,
    ensures
        fan(base, m).len() == 3 * m,
        forall|q: int|
            0 <= q < m ==> #[trigger] triangle_at(fan(base, m), 0, q) == (
                base as u32,
                (base + q + 1) as u32,
                (base + q + 2) as u32,
            ),
    decreases m,
{
    if m > 0 {
        lemma_fan_triangles(base, m - 1);
        assert forall|q: int| 0 <= q < m implies #[trigger] triangle_at(fan(base, m), 0, q) == (
            base as u32,
            (base + q + 1) as u32,
            (base + q + 2) as u32,
        ) by {
            if q < m - 1 {
                assert(triangle_at(fan(base, m - 1), 0, q) == (
                    base as u32,
                    (base + q + 1) as u32,
                    (base + q + 2) as u32,
                ));
            }
        }
    }
}

proof fn lemma_triangle_count_mono<P>(vs: Seq<Vertex<P>>, hes: Seq<HalfEdge>, fs: Seq<Face>, g: int, f: int)
    requires
        0 <= g <= f,
    ensures
        triangle_count(vs, hes, fs, g) <= triangle_count(vs, hes, fs, f),
    decreases f - g,
{
    if g < f {
        lemma_triangle_count_mono(vs, hes, fs, g, f - 1);
    }
}

/// Triangle `q` of the fan over face `g`: its first emitted vertex `b`, then
/// `b + q + 1` and `b + q + 2`.
pub open spec fn fan_triangle<P>(vs: Seq<Vertex<P>>, hes: Seq<HalfEdge>, fs: Seq<Face>, g: int, q: int) -> (
    u32,
    u32,
    u32,
) {
    let b = corner_points(vs, hes, fs, g).len();
    (b as u32, (b + q + 1) as u32, (b + q + 2) as u32)
}

/// The triangle `tri` is one of the triangles of the flat index list `s`.
pub open spec fn occurs(s: Seq<u32>, tri: (u32, u32, u32)) -> bool {
    exists|t: nat| 3 * t + 2 < s.len() && #[trigger] triangle_at(s, t, 0) == tri
}

/// `tri` is a fan triangle of one of the faces `0 .. f` that has three or
/// more corners.
pub open spec fn is_fan_triangle<P>(
    vs: Seq<Vertex<P>>,
    hes: Seq<HalfEdge>,
    fs: Seq<Face>,
    f: int,
    tri: (u32, u32, u32),
) -> bool {
    exists|g: int, q: int|
        0 <= g < f && 0 <= q && q + 2 < face_points(vs, hes, fs, g).len() && tri == #[trigger] fan_triangle(
            vs,
            hes,
            fs,
            g,
            q,
        )
}

proof fn lemma_fan_triangle_occurs<P>(vs: Seq<Vertex<P>>, hes: Seq<HalfEdge>, fs: Seq<Face>, f: int, g: int, q: int)
    requires
        0 <= g < f,
        0 <= q,
        q + 2 < face_points(vs, hes, fs, g).len(),
        fan_indices(vs, hes, fs, f).len() == 3 * triangle_count(vs, hes, fs, f),
        triangle_at(fan_indices(vs, hes, fs, f), triangle_count(vs, hes, fs, g), q) == fan_triangle(
            vs,
            hes,
            fs,
            g,
            q,
        ),
    ensures
        occurs(fan_indices(vs, hes, fs, f), fan_triangle(vs, hes, fs, g, q)),
{
    let t = (triangle_count(vs, hes, fs, g) + q) as nat;
    lemma_triangle_count_mono(vs, hes, fs, g + 1, f);
    assert(triangle_at(fan_indices(vs, hes, fs, f), t, 0) == triangle_at(
        fan_indices(vs, hes, fs, f),
        triangle_count(vs, hes, fs, g),
        q,
    ));
}

/// The fan triangulation of faces `0 .. f`: every face whose loop has
/// `n >= 3` corners gets exactly `n - 2` triangles, in face order, and the
/// `q`-th of them is `(b, b + q + 1, b + q + 2)`, where `b` is the index of the
/// face's first emitted vertex; faces with fewer corners get none. So the
/// index list holds `3 * (sum of n - 2)` indices, every fan triangle of every
/// face with three or more corners occurs in it, and every triangle in it is
/// a fan triangle of some face.
pub proof fn law_fan_triangles<P>(vs: Seq<Vertex<P>>, hes: Seq<HalfEdge>, fs: Seq<Face>, f: int)
    requires
        0 <= f,
    ensures
        fan_indices(vs, hes, fs, f).len() == 3 * triangle_count(vs, hes, fs, f),
        forall|g: int, q: int|
            #![trigger triangle_at(fan_indices(vs, hes, fs, f), triangle_count(vs, hes, fs, g), q)]
            0 <= g < f && 0 <= q && q + 2 < face_points(vs, hes, fs, g).len() ==> triangle_at(
                fan_indices(vs, hes, fs, f),
                triangle_count(vs, hes, fs, g),
                q,
            ) == fan_triangle(vs, hes, fs, g, q),
        forall|t: nat|
            3 * t + 2 < fan_indices(vs, hes, fs, f).len() ==> is_fan_triangle(
                vs,
                hes,
                fs,
                f,
                #[trigger] triangle_at(fan_indices(vs, hes, fs, f), t, 0),
            ),
    decreases f,
{
    let cur = fan_indices(vs, hes, fs, f);
    if f > 0 {
        law_fan_triangles(vs, hes, fs, f - 1);
        let prev = fan_indices(vs, hes, fs, f - 1);
        let pts = face_points(vs, hes, fs, f - 1);
        let base = corner_points(vs, hes, fs, f - 1).len() as int;
        if pts.len() >= 3 {
            let m = pts.len() - 2;
            lemma_fan_triangles(base, m);
            assert(cur == prev + fan(base, m));
        } else {
            assert(cur == prev);
        }
        assert forall|g: int, q: int|
            0 <= g < f && 0 <= q && q + 2 < face_points(vs, hes, fs, g).len() implies #[trigger] triangle_at(
            cur,
            triangle_count(vs, hes, fs, g),
            q,
        ) == fan_triangle(vs, hes, fs, g, q) by {
            let t = triangle_count(vs, hes, fs, g);
            if g < f - 1 {
                lemma_triangle_count_mono(vs, hes, fs, g + 1, f - 1);
                assert(triangle_at(prev, t, q) == triangle_at(cur, t, q));
            } else {
                let m = pts.len() - 2;
                assert(triangle_at(cur, t, q) == triangle_at(fan(base, m), 0, q));
            }
        }
        assert forall|t: nat| 3 * t + 2 < fan_indices(vs, hes, fs, f).len() implies is_fan_triangle(
            vs,
            hes,
            fs,
            f,
            #[trigger] triangle_at(fan_indices(vs, hes, fs, f), t, 0),
        ) by {
            let tp = triangle_count(vs, hes, fs, f - 1);
            if t < tp {
                assert(3 * t + 2 < prev.len());
                assert(triangle_at(fan_indices(vs, hes, fs, f - 1), t, 0) == triangle_at(cur, t, 0));
                assert(is_fan_triangle(vs, hes, fs, f - 1, triangle_at(prev, t, 0)));
                let (g, q) = choose|g: int, q: int|
                    0 <= g < f - 1 && 0 <= q && q + 2 < face_points(vs, hes, fs, g).len() && triangle_at(
                        prev,
                        t,
                        0,
                    ) == #[trigger] fan_triangle(vs, hes, fs, g, q);
                assert(fan_triangle(vs, hes, fs, g, q) == triangle_at(cur, t, 0));
            } else {
                let m = pts.len() - 2;
                let q = t - tp;
                assert(triangle_at(cur, t, 0) == triangle_at(cur, tp, q));
                assert(triangle_at(cur, tp, q) == fan_triangle(vs, hes, fs, f - 1, q));
                assert(triangle_at(cur, t, 0) == fan_triangle(vs, hes, fs, f - 1, q));
            }
        }
    }
}

/// Every fan triangle of every face with three or more corners occurs in
/// the index list of faces `0 .. f`.
pub proof fn law_fan_triangles_occur<P>(vs: Seq<Vertex<P>>, hes: Seq<HalfEdge>, fs: Seq<Face>, f: int)
    requires
        0 <= f,
    ensures
        forall|g: int, q: int|
            0 <= g < f && 0 <= q && q + 2 < face_points(vs, hes, fs, g).len() ==> occurs(
                fan_indices(vs, hes, fs, f),
                #[trigger] fan_triangle(vs, hes, fs, g, q),
            ),
{
    law_fan_triangles(vs, hes, fs, f);
    assert forall|g: int, q: int|
        0 <= g < f && 0 <= q && q + 2 < face_points(vs, hes, fs, g).len() implies occurs(
        fan_indices(vs, hes, fs, f),
        #[trigger] fan_triangle(vs, hes, fs, g, q),
    ) by {
        assert(triangle_at(fan_indices(vs, hes, fs, f), triangle_count(vs, hes, fs, g), q) == fan_triangle(vs, hes, fs, g, q));
        lemma_fan_triangle_occurs(vs, hes, fs, f, g, q);
    }
}

impl<S> Default for TriMesh<S> {
    /// The empty mesh.
    fn default() -> (m: Self)
        ensures
            m.positions@.len() == 0,
            m.normals@.len() == 0,
            m.indices@.len() == 0,
    {
        TriMesh { positions: Vec::new(), normals: Vec::new(), indices: Vec::new() }
    }
}

} // verus!
