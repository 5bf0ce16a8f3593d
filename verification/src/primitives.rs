//! Construction of basic primitive solids.
//!
//! Both cubes are built from the eight corner positions the caller supplies,
//! numbered as below; the connectivity is the same for every choice of
//! coordinates.
//! ```text
//!        7--------6
//!       /|       /|
//!      4--------5 |
//!      | |      | |        y
//!      | 3------|-2        |
//!      |/       |/         o--- x
//!      0--------1         /
//!                        z
//! ```
use vstd::prelude::*;
use crate::cube_build::{
    cube_build_faces, cube_build_half_edges, cube_build_vertices, cube_vertex_corner, lemma_wall,
};
use crate::euler::{check_half_edge, lemma_first_at, mef_links, outcome_from};
use crate::soup::{law_soup_face_loop, law_soup_valid};
use crate::laws::{
    elements_ok, euler_shape, faces_ok, law_valid_validates, sealed, vertices_ok,
};
use crate::topology::{
    dest, distinct_directed, first_leaving, has_loop, leaves_first, lemma_cycle,
    lemma_first_leaving_is, lemma_opposite_is, loop_from, offset, opposite, polygons, reverses, ring,
    rings, soup_faces, soup_half_edges, soup_ok, soup_vertices, FaceId, HalfEdge, HalfEdgeId, Shell,
    Vertex, VertexId, lemma_loop_basics, walk, lemma_offset_mono,
};

verus! {

/// The six faces of the cube as corner loops, each wound counter-clockwise
/// as seen from outside (+X, -X, +Y, -Y, +Z, -Z).
pub open spec fn cube_faces() -> Seq<Seq<usize>> {
    seq![
        seq![1usize, 2, 6, 5],
        seq![0usize, 4, 7, 3],
        seq![3usize, 7, 6, 2],
        seq![0usize, 1, 5, 4],
        seq![4usize, 5, 6, 7],
        seq![0usize, 3, 2, 1],
    ]
}

spec fn he(o: usize, n: usize, p: usize, f: usize) -> HalfEdge {
    HalfEdge { origin: VertexId(o), twin: None, next: HalfEdgeId(n), prev: HalfEdgeId(p), face: Some(FaceId(f)) }
}

spec fn quad(a: usize, b: usize, c: usize, d: usize, base: usize, f: usize) -> Seq<HalfEdge> {
    seq![
        he(a, (base + 1) as usize, (base + 3) as usize, f),
        he(b, (base + 2) as usize, base, f),
        he(c, (base + 3) as usize, (base + 1) as usize, f),
        he(d, base, (base + 2) as usize, f),
    ]
}

/// The cube's face rings before twins are paired.
spec fn cube_links() -> Seq<HalfEdge> {
    quad(1, 2, 6, 5, 0, 0) + quad(0, 4, 7, 3, 4, 1) + quad(3, 7, 6, 2, 8, 2) + quad(0, 1, 5, 4, 12, 3)
        + quad(4, 5, 6, 7, 16, 4) + quad(0, 3, 2, 1, 20, 5)
}

/// The twin of each half-edge of the cube.
spec fn cube_twins() -> Seq<usize> {
    seq![22usize, 10, 17, 13, 15, 19, 8, 20, 6, 18, 1, 21, 23, 3, 16, 4, 14, 2, 9, 5, 7, 11, 0, 12]
}

/// The first half-edge leaving each corner of the cube.
spec fn cube_first_out() -> Seq<usize> {
    seq![4usize, 0, 1, 7, 5, 3, 2, 6]
}

proof fn lemma_quad(lp: Seq<usize>, base: int, f: int)
    requires
        lp.len() == 4,
        0 <= base,
        base + 4 <= usize::MAX,
        0 <= f <= usize::MAX,
    ensures
        ring(lp, base, f) =~= quad(lp[0], lp[1], lp[2], lp[3], base as usize, f as usize),
{
    assert(1int % 4 == 1);
    assert(2int % 4 == 2);
    assert(3int % 4 == 3);
    assert(4int % 4 == 0);
    assert(5int % 4 == 1);
    assert(6int % 4 == 2);
}

proof fn lemma_cube_links()
    ensures
        rings(cube_faces(), 6) == cube_links(),
        forall|g: int| 0 <= g <= 6 ==> #[trigger] offset(cube_faces(), g) == 4 * g,
{
    let fs = cube_faces();
    reveal_with_fuel(offset, 7);
    reveal_with_fuel(rings, 7);
    lemma_quad(fs[0], 0, 0);
    lemma_quad(fs[1], 4, 1);
    lemma_quad(fs[2], 8, 2);
    lemma_quad(fs[3], 12, 3);
    lemma_quad(fs[4], 16, 4);
    lemma_quad(fs[5], 20, 5);
    assert(rings(fs, 6) =~= cube_links());
}

proof fn lemma_cube_soup_ok()
    ensures
        soup_ok(8, cube_faces()),
{
    let l = cube_links();
    lemma_cube_links();
    assert forall|j: int, k: int| 0 <= j < l.len() && 0 <= k < l.len() && j != k implies !(#[trigger] l[j].origin
            == #[trigger] l[k].origin && dest(l, j) == dest(l, k)) by {
    }
    assert(distinct_directed(l));
}

/// An axis-aligned cube from its eight corner positions, built as polygon
/// soup from the six faces of `cube_faces`.
pub fn cube<P: Copy>(corners: [P; 8]) -> (shell: Shell<P>)
    ensures
        shell.vertices@ == soup_vertices(corners@, cube_faces()),
        shell.half_edges@ == soup_half_edges(cube_faces()),
        shell.faces@ == soup_faces(cube_faces()),
{
    // Each face is wound counter-clockwise as seen from outside, so its
    // outward normal follows the right-hand rule around the loop.
    let faces = vec![
        vec![1, 2, 6, 5], // +X
        vec![0, 4, 7, 3], // -X
        vec![3, 7, 6, 2], // +Y
        vec![0, 1, 5, 4], // -Y
        vec![4, 5, 6, 7], // +Z
        vec![0, 3, 2, 1], // -Z
    ];
    assert(polygons(faces@) =~= cube_faces());
    proof {
        lemma_cube_soup_ok();
    }
    Shell::from_polygons(corners.as_slice(), faces.as_slice())
}

/// The cube is a solid of Euler shape (valid, closed, `8 - 12 + 6 = 2`),
/// and every face loop is its quad: four half-edges, leaving the face's
/// corners in order.
#[verifier::spinoff_prover]
#[verifier::rlimit(50)]
pub proof fn law_cube_shape<P>(corners: [P; 8])
    ensures
        euler_shape(
            soup_vertices(corners@, cube_faces()),
            soup_half_edges(cube_faces()),
            soup_faces(cube_faces()),
        ),
        soup_half_edges(cube_faces()).len() == 24,
        forall|g: int|
            0 <= g < 6 ==> has_loop(soup_half_edges(cube_faces()), #[trigger] soup_faces(cube_faces())[g].half_edge.0 as int)
                && loop_from(soup_half_edges(cube_faces()), soup_faces(cube_faces())[g].half_edge.0 as int).len() == 4,
{
    let fs = cube_faces();
    let l = cube_links();
    let hes = soup_half_edges(fs);
    let vs = soup_vertices(corners@, fs);
    let faces = soup_faces(fs);
    lemma_cube_soup_ok();
    lemma_cube_links();
    law_soup_valid(8, fs);
    let tw = cube_twins();
    assert forall|j: int| 0 <= j < 24 implies #[trigger] opposite(l, j) == Some(HalfEdgeId(tw[j])) by {
        assert(reverses(l, j, tw[j] as int));
        lemma_opposite_is(l, j, tw[j] as int);
    }
    let first = cube_first_out();
    assert forall|v: int| 0 <= v < 8 implies #[trigger] first_leaving(l, VertexId(v as usize)) == Some(
        HalfEdgeId(first[v]),
    ) by {
        assert(leaves_first(l, VertexId(v as usize), first[v] as int));
        lemma_first_leaving_is(l, VertexId(v as usize), first[v] as int);
    }
    assert forall|g: int| 0 <= g < 6 implies has_loop(hes, #[trigger] faces[g].half_edge.0 as int) && loop_from(
        hes,
        faces[g].half_edge.0 as int,
    ).len() == 4 by {
        law_soup_face_loop(8, fs, g);
    }
}

/// The same cube, constructed entirely through Euler operators: the bottom
/// square as a chain of spurs closed by `mef`, a vertical spur raised from
/// each bottom corner in the order of the outer loop, then the four side
/// walls stitched between consecutive top corners; the last wall leaves the
/// top face behind. Corner `v + 4` is the position above bottom corner `v`.
/// The shell after each step is `cube_build_*(k)`, and every one of those
/// states is a valid shell of Euler shape (`law_cube_build_states`).
pub fn cube_euler<P: Copy>(corners: [P; 8]) -> (shell: Shell<P>)
    ensures
        shell.half_edges@ == cube_build_half_edges(12),
        shell.faces@ == cube_build_faces(12),
        shell.vertices@ == cube_build_vertices(corners@, 12),
{
    // Bottom square as a chain of spurs: v0 -> v1 -> v2 -> v3.
    let (mut s, v0, f_outer, seed) = Shell::mvfs(corners[0]);
    assert(s.vertices@ =~= cube_build_vertices(corners@, 0));
    let (_v1, e1) = s.mev(seed, corners[1]);
    assert(s.half_edges@ =~= cube_build_half_edges(1));
    assert(s.vertices@ =~= cube_build_vertices(corners@, 1));
    let (_v2, e2) = s.mev(e1, corners[2]);
    assert(s.half_edges@ =~= cube_build_half_edges(2));
    assert(s.vertices@ =~= cube_build_vertices(corners@, 2));
    let (_v3, e3) = s.mev(e2, corners[3]);
    assert(s.half_edges@ =~= cube_build_half_edges(3));
    assert(s.vertices@ =~= cube_build_vertices(corners@, 3));

    // Close the bottom: edge from v3 back to v0. `f_outer` keeps the outer loop.
    proof {
        lemma_cycle(s.half_edges@, seq![0usize, 2, 4, 5, 3, 1]);
        assert(s.half_edges@[loop_from(s.half_edges@, 0)[0].0 as int].origin == v0);
    }
    let back_to_v0 = s.find_in_face(f_outer, v0);
    proof {
        lemma_first_at(s.half_edges@, 0, v0, back_to_v0, 0);
        lemma_cycle(mef_links(s.half_edges@, 5, 0, FaceId(0)), seq![5usize, 3, 1, 7]);
    }
    s.mef(e3, back_to_v0);
    assert(s.half_edges@ =~= cube_build_half_edges(4));
    assert(s.faces@ =~= cube_build_faces(4));
    assert(s.vertices@ =~= cube_build_vertices(corners@, 4));

    // Raise a vertical spur from each bottom corner, in the outer loop's
    // order, recording the new top vertices in that same order.
    proof {
        lemma_cycle(s.half_edges@, seq![6usize, 0, 2, 4]);
    }
    let outer = s.face_loop(f_outer);
    let mut order: Vec<VertexId> = Vec::new();
    let mut i: usize = 0;
    while i < outer.len()
        invariant
            s.half_edges@ == cube_build_half_edges(4),
            outer@ == seq![6usize, 0, 2, 4].map_values(|x: usize| HalfEdgeId(x)),
            i <= outer@.len(),
            order@ == seq![VertexId(3), VertexId(0), VertexId(1), VertexId(2)].take(i as int),
        decreases outer@.len() - i,
    {
        order.push(s.half_edge(outer[i]).origin);
        assert(order@ =~= seq![VertexId(3), VertexId(0), VertexId(1), VertexId(2)].take(i + 1));
        i += 1;
    }
    assert(order@ =~= seq![VertexId(3), VertexId(0), VertexId(1), VertexId(2)]);

    let mut tops: Vec<VertexId> = Vec::with_capacity(4);
    let mut i: usize = 0;
    while i < order.len()
        invariant
            order@ == seq![VertexId(3), VertexId(0), VertexId(1), VertexId(2)],
            i <= 4,
            f_outer == FaceId(0),
            s.half_edges@ == cube_build_half_edges(4 + i),
            s.faces@ == cube_build_faces(4),
            s.vertices@ == cube_build_vertices(corners@, 4 + i),
            tops@ == seq![VertexId(4), VertexId(5), VertexId(6), VertexId(7)].take(i as int),
        decreases 4 - i,
    {
        let v = order[i];
        let ghost hes = s.half_edges@;
        proof {
            let l = if i == 0 {
                seq![6usize, 0, 2, 4]
            } else if i == 1 {
                seq![6usize, 0, 2, 4, 8, 9]
            } else if i == 2 {
                seq![6usize, 10, 11, 0, 2, 4, 8, 9]
            } else {
                seq![6usize, 10, 11, 0, 12, 13, 2, 4, 8, 9]
            };
            let k0: int = if i == 0 {
                0
            } else if i == 1 {
                1
            } else if i == 2 {
                4
            } else {
                7
            };
            lemma_cycle(hes, l);
            assert(hes[loop_from(hes, 6)[k0].0 as int].origin == v);
        }
        let he = s.find_in_face(f_outer, v);
        proof {
            if i == 0 {
                lemma_first_at(hes, 6, v, he, 0);
            } else if i == 1 {
                lemma_first_at(hes, 6, v, he, 1);
            } else if i == 2 {
                lemma_first_at(hes, 6, v, he, 4);
            } else {
                lemma_first_at(hes, 6, v, he, 7);
            }
        }
        let (top, _) = s.mev(he, corners[v.0 + 4]);
        tops.push(top);
        assert(s.half_edges@ =~= cube_build_half_edges(4 + i + 1));
        assert(s.vertices@ =~= cube_build_vertices(corners@, 4 + i + 1));
        assert(tops@ =~= seq![VertexId(4), VertexId(5), VertexId(6), VertexId(7)].take(i + 1));
        i += 1;
    }
    assert(tops@ =~= seq![VertexId(4), VertexId(5), VertexId(6), VertexId(7)]);

    // Stitch the four walls between consecutive top corners. The last `mef`
    // closes the final wall and leaves the top quad as `f_outer`.
    let mut i: usize = 0;
    while i < 4
        invariant
            tops@ == seq![VertexId(4), VertexId(5), VertexId(6), VertexId(7)],
            i <= 4,
            f_outer == FaceId(0),
            s.half_edges@ == cube_build_half_edges(8 + i),
            s.faces@ == cube_build_faces(8 + i),
            s.vertices@ == cube_build_vertices(corners@, 8),
        decreases 4 - i,
    {
        proof {
            lemma_wall(i as int);
        }
        let a = s.find_in_face(f_outer, tops[i]);
        let b = s.find_in_face(f_outer, tops[(i + 1) % 4]);
        s.mef(a, b);
        i += 1;
    }
    s
}

/// `b` is `a` read from position `r` round: the same cycle, same winding.
pub open spec fn rotation_of<A>(a: Seq<A>, b: Seq<A>, r: int) -> bool {
    &&& a.len() == b.len()
    &&& 0 <= r < a.len()
    &&& forall|i: int| 0 <= i < a.len() ==> #[trigger] b[i] == a[(i + r) % (a.len() as int)]
}

/// Face `g` of the Euler-built cube runs round the corners of the matching
/// face of the polygon cube (+Z, -Z, -X, -Y, +X, +Y in turn), with the same
/// winding.
pub open spec fn matches_cube_face(g: int) -> bool {
    exists|r: int| rotation_of(cube_faces()[seq![4int, 5, 1, 3, 0, 2][g]], cube_euler_face_corners(g), r)
}

/// The corners met going round face `g` of the Euler-built cube.
pub open spec fn cube_euler_face_corners(g: int) -> Seq<usize> {
    let hes = cube_build_half_edges(12);
    let l = loop_from(hes, cube_build_faces(12)[g].half_edge.0 as int);
    Seq::new(l.len(), |i: int| cube_vertex_corner(hes[l[i].0 as int].origin.0 as int) as usize)
}

/// The Euler-built cube is a solid of Euler shape (valid, closed,
/// `8 - 12 + 6 = 2`), each of its six face loops has four half-edges, and
/// each runs round the same corners, with the same winding, as a face of the
/// polygon cube: the two constructions build the same solid.
#[verifier::spinoff_prover]
#[verifier::rlimit(50)]
pub proof fn law_cube_euler_shape<P>(corners: [P; 8])
    ensures
        euler_shape(
            cube_build_vertices(corners@, 12),
            cube_build_half_edges(12),
            cube_build_faces(12),
        ),
        cube_build_half_edges(12).len() == 24,
        cube_build_faces(12).len() == 6,
        forall|g: int|
            0 <= g < 6 ==> has_loop(cube_build_half_edges(12), #[trigger] cube_build_faces(12)[g].half_edge.0 as int)
                && loop_from(cube_build_half_edges(12), cube_build_faces(12)[g].half_edge.0 as int).len() == 4,
        forall|g: int| 0 <= g < 6 ==> #[trigger] matches_cube_face(g),
{
    let hes = cube_build_half_edges(12);
    let fs = cube_build_faces(12);
    let vs = cube_build_vertices(corners@, 12);
    assert forall|j: int| 0 <= j < hes.len() implies #[trigger] check_half_edge(hes, j) is Pass by {
    }
    lemma_cube_euler_loops();
    assert(vertices_ok(hes, vs));
    assert(faces_ok(hes, fs));
    assert(elements_ok(hes, vs.len(), fs.len()));
    assert(sealed(hes));
}

proof fn lemma_cube_euler_loops()
    ensures
        forall|g: int|
            0 <= g < 6 ==> has_loop(cube_build_half_edges(12), #[trigger] cube_build_faces(12)[g].half_edge.0 as int)
                && loop_from(cube_build_half_edges(12), cube_build_faces(12)[g].half_edge.0 as int).len() == 4,
        forall|g: int| 0 <= g < 6 ==> #[trigger] matches_cube_face(g),
{
    let hes = cube_build_half_edges(12);
    let loops = seq![
        seq![22usize, 16, 18, 20],
        seq![5usize, 3, 1, 7],
        seq![9usize, 6, 10, 17],
        seq![11usize, 0, 12, 19],
        seq![13usize, 2, 14, 21],
        seq![15usize, 4, 8, 23],
    ];
    let rots = seq![2int, 1, 2, 3, 3, 2];
    assert forall|g: int| 0 <= g < 6 implies has_loop(hes, #[trigger] cube_build_faces(12)[g].half_edge.0 as int)
        && loop_from(hes, cube_build_faces(12)[g].half_edge.0 as int).len() == 4 && rotation_of(
        cube_faces()[seq![4int, 5, 1, 3, 0, 2][g]],
        cube_euler_face_corners(g),
        rots[g],
    ) by {
        lemma_cycle(hes, loops[g]);
        assert(0int % 4 == 0);
        assert(1int % 4 == 1);
        assert(2int % 4 == 2);
        assert(3int % 4 == 3);
        assert(4int % 4 == 0);
        assert(5int % 4 == 1);
        assert(6int % 4 == 2);
    }
    assert forall|g: int| 0 <= g < 6 implies #[trigger] matches_cube_face(g) by {
        assert(rotation_of(cube_faces()[seq![4int, 5, 1, 3, 0, 2][g]], cube_euler_face_corners(g), rots[g]));
    }
}

/// The positions met going round the loop through `h`.
pub open spec fn loop_positions<P>(vs: Seq<Vertex<P>>, hes: Seq<HalfEdge>, h: int) -> Seq<P> {
    loop_from(hes, h).map_values(|e: HalfEdgeId| vs[hes[e.0 as int].origin.0 as int].position)
}

/// The positions met going round face `f` of the polygon cube.
pub open spec fn polygon_face_positions<P>(corners: Seq<P>, f: int) -> Seq<P> {
    loop_positions(
        soup_vertices(corners, cube_faces()),
        soup_half_edges(cube_faces()),
        soup_faces(cube_faces())[f].half_edge.0 as int,
    )
}

/// The positions met going round face `g` of the Euler-built cube.
pub open spec fn euler_face_positions<P>(corners: Seq<P>, g: int) -> Seq<P> {
    loop_positions(
        cube_build_vertices(corners, 12),
        cube_build_half_edges(12),
        cube_build_faces(12)[g].half_edge.0 as int,
    )
}

/// `b` is `a` read from some position round: the same cycle, same winding.
pub open spec fn same_cycle<A>(a: Seq<A>, b: Seq<A>) -> bool {
    exists|r: int| rotation_of(a, b, r)
}

/// The face of the polygon cube that face `g` of the Euler-built cube
/// matches (+Z, -Z, -X, -Y, +X, +Y in turn).
pub open spec fn matching_face(g: int) -> int {
    seq![4int, 5, 1, 3, 0, 2][g]
}

/// The two cubes are the same solid: the Euler-built cube's eight vertices
/// carry the eight corners, each once, and going round each of its faces
/// meets the same positions, in the same cyclic order, as going round the
/// matching face of the polygon cube; every face of the polygon cube is
/// matched once.
#[verifier::spinoff_prover]
#[verifier::rlimit(80)]
pub proof fn law_cube_same_solid<P>(corners: [P; 8])
    ensures
        ({
            let ev = cube_build_vertices(corners@, 12);
            let pv = soup_vertices(corners@, cube_faces());
            &&& ev.len() == 8
            &&& pv.len() == 8
            &&& forall|v: int|
                0 <= v < 8 ==> 0 <= #[trigger] cube_vertex_corner(v) < 8 && ev[v].position == pv[cube_vertex_corner(
                    v,
                )].position
            &&& forall|v: int, u: int|
                0 <= v < 8 && 0 <= u < 8 && v != u ==> #[trigger] cube_vertex_corner(v) != #[trigger] cube_vertex_corner(u)
            &&& forall|g: int, k: int|
                0 <= g < 6 && 0 <= k < 6 && g != k ==> #[trigger] matching_face(g) != #[trigger] matching_face(k)
            &&& forall|g: int| 0 <= g < 6 ==> 0 <= #[trigger] matching_face(g) < 6
        }),
        forall|g: int|
            0 <= g < 6 ==> same_cycle(
                polygon_face_positions(corners@, matching_face(g)),
                #[trigger] euler_face_positions(corners@, g),
            ),
{
    lemma_cube_soup_ok();
    law_cube_euler_shape(corners);
    law_cube_shape(corners);
    let fs = cube_faces();
    let eh = cube_build_half_edges(12);
    let ev = cube_build_vertices(corners@, 12);
    let ph = soup_half_edges(fs);
    let pv = soup_vertices(corners@, fs);
    assert forall|i: int| 0 <= i < eh.len() implies (#[trigger] eh[i]).origin.0 < 8 by {
        assert(elements_ok(eh, 8, 6));
    }
    assert forall|g: int| 0 <= g < 6 implies same_cycle(
        polygon_face_positions(corners@, matching_face(g)),
        #[trigger] euler_face_positions(corners@, g),
    ) by {
        assert(matches_cube_face(g));
        let pg = matching_face(g);
        let h = cube_build_faces(12)[g].half_edge.0 as int;
        let r = choose|r: int| rotation_of(fs[pg], cube_euler_face_corners(g), r);
        law_soup_face_loop(8, fs, pg);
        let base = offset(fs, pg) as int;
        assert(soup_faces(fs)[pg].half_edge.0 == base);
        lemma_offset_mono(fs, pg + 1, 6);
        assert(offset(fs, pg + 1) == base + 4);
        lemma_rotated_positions(corners@, pv, ph, base, fs[pg], ev, eh, h, cube_euler_face_corners(g), r);
    }
}

/// Two loops whose corner sequences are rotations of each other, over
/// vertex arenas that place the corners, meet the same positions rotated
/// the same way.
proof fn lemma_rotated_positions<P>(
    corners: Seq<P>,
    pv: Seq<Vertex<P>>,
    ph: Seq<HalfEdge>,
    base: int,
    poly: Seq<usize>,
    ev: Seq<Vertex<P>>,
    eh: Seq<HalfEdge>,
    h: int,
    ec: Seq<usize>,
    r: int,
)
    requires
        corners.len() == 8,
        poly.len() == 4,
        forall|i: int| 0 <= i < 4 ==> #[trigger] poly[i] < 8,
        has_loop(ph, base),
        base + 4 <= usize::MAX,
        loop_from(ph, base).len() == 4,
        forall|i: int| 0 <= i < 4 ==> #[trigger] loop_from(ph, base)[i] == HalfEdgeId((base + i) as usize),
        forall|i: int| 0 <= i < 4 ==> (#[trigger] ph[base + i]).origin == VertexId(poly[i]),
        forall|v: int| 0 <= v < 8 ==> (#[trigger] pv[v]).position == corners[v],
        has_loop(eh, h),
        loop_from(eh, h).len() == 4,
        forall|i: int| 0 <= i < eh.len() ==> (#[trigger] eh[i]).origin.0 < 8,
        forall|v: int| 0 <= v < 8 ==> (#[trigger] ev[v]).position == corners[cube_vertex_corner(v)],
        ec.len() == 4,
        forall|i: int|
            0 <= i < 4 ==> #[trigger] ec[i] == cube_vertex_corner(eh[loop_from(eh, h)[i].0 as int].origin.0 as int)
                as usize,
        rotation_of(poly, ec, r),
    ensures
        rotation_of(loop_positions(pv, ph, base), loop_positions(ev, eh, h), r),
{
    let a = loop_positions(pv, ph, base);
    let b = loop_positions(ev, eh, h);
    let eloop = loop_from(eh, h);
    lemma_loop_basics(eh, h);
    lemma_loop_basics(ph, base);
    assert forall|i: int| 0 <= i < 4 implies #[trigger] b[i] == a[(i + r) % 4] by {
        let k = (i + r) % 4;
        assert(loop_from(ph, base)[k].0 == walk(ph, base, k as nat));
        assert(0 <= walk(ph, base, k as nat) < ph.len());
        assert(walk(ph, base, k as nat) == base + k);
        assert(eloop[i].0 == walk(eh, h, i as nat));
        assert(0 <= walk(eh, h, i as nat) < eh.len());
        let v = eh[eloop[i].0 as int].origin.0 as int;
        assert(v < 8);
        assert(ec[i] == poly[k]);
        assert(0 <= cube_vertex_corner(v) < 8);
    }
}

/// Every intermediate state of `cube_euler` (after `mvfs`, after each of its
/// twelve Euler steps) is a shell of Euler shape: a valid half-edge graph
/// whose vertices, faces and half-edges refer to each other consistently,
/// closed once it has an edge, with `V - E + F = 2`; and `validate` accepts it.
pub proof fn law_cube_build_states<P>(corners: [P; 8], k: int)
    requires
        0 <= k <= 12,
    ensures
        euler_shape(
            cube_build_vertices(corners@, k),
            cube_build_half_edges(k),
            cube_build_faces(k),
        ),
        outcome_from(cube_build_half_edges(k), 0) is Valid,
{
    if k <= 4 {
        lemma_cube_bottom_states(corners, k);
    } else if k <= 8 {
        lemma_cube_spur_states(corners, k);
    } else {
        lemma_cube_wall_states(corners, k);
    }
    law_valid_validates(cube_build_half_edges(k));
}

/// The states of `cube_euler` up to the closed bottom (steps 0 to 4) are of Euler shape.
#[verifier::spinoff_prover]
#[verifier::rlimit(60)]
proof fn lemma_cube_bottom_states<P>(corners: [P; 8], k: int)
    requires
        0 <= k <= 4,
    ensures
        euler_shape(
            cube_build_vertices(corners@, k),
            cube_build_half_edges(k),
            cube_build_faces(k),
        ),
{
    let hes = cube_build_half_edges(k);
    let fs = cube_build_faces(k);
    let vs = cube_build_vertices(corners@, k);
    assert forall|j: int| 0 <= j < hes.len() implies #[trigger] check_half_edge(hes, j) is Pass by {
    }
    assert(vertices_ok(hes, vs));
    assert(faces_ok(hes, fs));
    assert(elements_ok(hes, vs.len(), fs.len()));
    assert(sealed(hes));
}

/// The states of `cube_euler` with the vertical spurs (steps 5 to 8) are of Euler shape.
#[verifier::spinoff_prover]
#[verifier::rlimit(60)]
proof fn lemma_cube_spur_states<P>(corners: [P; 8], k: int)
    requires
        5 <= k <= 8,
    ensures
        euler_shape(
            cube_build_vertices(corners@, k),
            cube_build_half_edges(k),
            cube_build_faces(k),
        ),
{
    let hes = cube_build_half_edges(k);
    let fs = cube_build_faces(k);
    let vs = cube_build_vertices(corners@, k);
    assert forall|j: int| 0 <= j < hes.len() implies #[trigger] check_half_edge(hes, j) is Pass by {
    }
    assert(vertices_ok(hes, vs));
    assert(faces_ok(hes, fs));
    assert(elements_ok(hes, vs.len(), fs.len()));
    assert(sealed(hes));
}

/// The states of `cube_euler` with the walls (steps 9 to 12) are of Euler shape.
#[verifier::spinoff_prover]
#[verifier::rlimit(60)]
proof fn lemma_cube_wall_states<P>(corners: [P; 8], k: int)
    requires
        9 <= k <= 12,
    ensures
        euler_shape(
            cube_build_vertices(corners@, k),
            cube_build_half_edges(k),
            cube_build_faces(k),
        ),
{
    let hes = cube_build_half_edges(k);
    let fs = cube_build_faces(k);
    let vs = cube_build_vertices(corners@, k);
    assert forall|j: int| 0 <= j < hes.len() implies #[trigger] check_half_edge(hes, j) is Pass by {
    }
    assert(vertices_ok(hes, vs));
    assert(faces_ok(hes, fs));
    assert(elements_ok(hes, vs.len(), fs.len()));
    assert(sealed(hes));
}

} // verus!
