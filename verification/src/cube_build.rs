//! The intermediate states of the Euler-operator cube: the arenas after each
//! construction step, and what each wall step finds and makes.
use vstd::prelude::*;
use crate::euler::{
    first_from_in_loop, lemma_first_at, loop_has_origin, mef_half_edges, mef_links, mef_ready,
    mvfs_half_edges,
};
use crate::topology::{
    has_loop, in_loop, is_cycle, lemma_cycle, loop_from, Face, FaceId, HalfEdge, HalfEdgeId,
    Vertex, VertexId,
};

verus! {

/// A half-edge of the Euler-built cube: it has a twin and bounds a face.
pub open spec fn e(origin: usize, twin: usize, next: usize, prev: usize, face: usize) -> HalfEdge {
    HalfEdge {
        origin: VertexId(origin),
        twin: Some(HalfEdgeId(twin)),
        next: HalfEdgeId(next),
        prev: HalfEdgeId(prev),
        face: Some(FaceId(face)),
    }
}

/// A face of the Euler-built cube, by its half-edge.
pub open spec fn f(half_edge: usize) -> Face {
    Face { half_edge: HalfEdgeId(half_edge) }
}

/// The half-edge arena of the Euler-built cube after step `k` of
/// `cube_euler` (0: `mvfs`; 1-3: the bottom spurs; 4: the bottom closed;
/// 5-8: the four vertical spurs; 9-12: the four walls).
pub open spec fn cube_build_half_edges(k: int) -> Seq<HalfEdge> {
    if k == 0 {
        mvfs_half_edges()
    } else if k == 1 {
        seq![
            e(0, 1, 1, 1, 0),
            e(1, 0, 0, 0, 0),
        ]
    } else if k == 2 {
        seq![
            e(0, 1, 2, 1, 0),
            e(1, 0, 0, 3, 0),
            e(1, 3, 3, 0, 0),
            e(2, 2, 1, 2, 0),
        ]
    } else if k == 3 {
        seq![
            e(0, 1, 2, 1, 0),
            e(1, 0, 0, 3, 0),
            e(1, 3, 4, 0, 0),
            e(2, 2, 1, 5, 0),
            e(2, 5, 5, 2, 0),
            e(3, 4, 3, 4, 0),
        ]
    } else if k == 4 {
        seq![
            e(0, 1, 2, 6, 0),
            e(1, 0, 7, 3, 1),
            e(1, 3, 4, 0, 0),
            e(2, 2, 1, 5, 1),
            e(2, 5, 6, 2, 0),
            e(3, 4, 3, 7, 1),
            e(3, 7, 0, 4, 0),
            e(0, 6, 5, 1, 1),
        ]
    } else if k == 5 {
        seq![
            e(0, 1, 2, 6, 0),
            e(1, 0, 7, 3, 1),
            e(1, 3, 4, 0, 0),
            e(2, 2, 1, 5, 1),
            e(2, 5, 8, 2, 0),
            e(3, 4, 3, 7, 1),
            e(3, 7, 0, 9, 0),
            e(0, 6, 5, 1, 1),
            e(3, 9, 9, 4, 0),
            e(4, 8, 6, 8, 0),
        ]
    } else if k == 6 {
        seq![
            e(0, 1, 2, 11, 0),
            e(1, 0, 7, 3, 1),
            e(1, 3, 4, 0, 0),
            e(2, 2, 1, 5, 1),
            e(2, 5, 8, 2, 0),
            e(3, 4, 3, 7, 1),
            e(3, 7, 10, 9, 0),
            e(0, 6, 5, 1, 1),
            e(3, 9, 9, 4, 0),
            e(4, 8, 6, 8, 0),
            e(0, 11, 11, 6, 0),
            e(5, 10, 0, 10, 0),
        ]
    } else if k == 7 {
        seq![
            e(0, 1, 12, 11, 0),
            e(1, 0, 7, 3, 1),
            e(1, 3, 4, 13, 0),
            e(2, 2, 1, 5, 1),
            e(2, 5, 8, 2, 0),
            e(3, 4, 3, 7, 1),
            e(3, 7, 10, 9, 0),
            e(0, 6, 5, 1, 1),
            e(3, 9, 9, 4, 0),
            e(4, 8, 6, 8, 0),
            e(0, 11, 11, 6, 0),
            e(5, 10, 0, 10, 0),
            e(1, 13, 13, 0, 0),
            e(6, 12, 2, 12, 0),
        ]
    } else if k == 8 {
        seq![
            e(0, 1, 12, 11, 0),
            e(1, 0, 7, 3, 1),
            e(1, 3, 14, 13, 0),
            e(2, 2, 1, 5, 1),
            e(2, 5, 8, 15, 0),
            e(3, 4, 3, 7, 1),
            e(3, 7, 10, 9, 0),
            e(0, 6, 5, 1, 1),
            e(3, 9, 9, 4, 0),
            e(4, 8, 6, 8, 0),
            e(0, 11, 11, 6, 0),
            e(5, 10, 0, 10, 0),
            e(1, 13, 13, 0, 0),
            e(6, 12, 2, 12, 0),
            e(2, 15, 15, 2, 0),
            e(7, 14, 4, 14, 0),
        ]
    } else if k == 9 {
        seq![
            e(0, 1, 12, 11, 0),
            e(1, 0, 7, 3, 1),
            e(1, 3, 14, 13, 0),
            e(2, 2, 1, 5, 1),
            e(2, 5, 8, 15, 0),
            e(3, 4, 3, 7, 1),
            e(3, 7, 10, 9, 2),
            e(0, 6, 5, 1, 1),
            e(3, 9, 16, 4, 0),
            e(4, 8, 6, 17, 2),
            e(0, 11, 17, 6, 2),
            e(5, 10, 0, 16, 0),
            e(1, 13, 13, 0, 0),
            e(6, 12, 2, 12, 0),
            e(2, 15, 15, 2, 0),
            e(7, 14, 4, 14, 0),
            e(4, 17, 11, 8, 0),
            e(5, 16, 9, 10, 2),
        ]
    } else if k == 10 {
        seq![
            e(0, 1, 12, 11, 3),
            e(1, 0, 7, 3, 1),
            e(1, 3, 14, 13, 0),
            e(2, 2, 1, 5, 1),
            e(2, 5, 8, 15, 0),
            e(3, 4, 3, 7, 1),
            e(3, 7, 10, 9, 2),
            e(0, 6, 5, 1, 1),
            e(3, 9, 16, 4, 0),
            e(4, 8, 6, 17, 2),
            e(0, 11, 17, 6, 2),
            e(5, 10, 0, 19, 3),
            e(1, 13, 19, 0, 3),
            e(6, 12, 2, 18, 0),
            e(2, 15, 15, 2, 0),
            e(7, 14, 4, 14, 0),
            e(4, 17, 18, 8, 0),
            e(5, 16, 9, 10, 2),
            e(5, 19, 13, 16, 0),
            e(6, 18, 11, 12, 3),
        ]
    } else if k == 11 {
        seq![
            e(0, 1, 12, 11, 3),
            e(1, 0, 7, 3, 1),
            e(1, 3, 14, 13, 4),
            e(2, 2, 1, 5, 1),
            e(2, 5, 8, 15, 0),
            e(3, 4, 3, 7, 1),
            e(3, 7, 10, 9, 2),
            e(0, 6, 5, 1, 1),
            e(3, 9, 16, 4, 0),
            e(4, 8, 6, 17, 2),
            e(0, 11, 17, 6, 2),
            e(5, 10, 0, 19, 3),
            e(1, 13, 19, 0, 3),
            e(6, 12, 2, 21, 4),
            e(2, 15, 21, 2, 4),
            e(7, 14, 4, 20, 0),
            e(4, 17, 18, 8, 0),
            e(5, 16, 9, 10, 2),
            e(5, 19, 20, 16, 0),
            e(6, 18, 11, 12, 3),
            e(6, 21, 15, 18, 0),
            e(7, 20, 13, 14, 4),
        ]
    } else {
        seq![
            e(0, 1, 12, 11, 3),
            e(1, 0, 7, 3, 1),
            e(1, 3, 14, 13, 4),
            e(2, 2, 1, 5, 1),
            e(2, 5, 8, 15, 5),
            e(3, 4, 3, 7, 1),
            e(3, 7, 10, 9, 2),
            e(0, 6, 5, 1, 1),
            e(3, 9, 23, 4, 5),
            e(4, 8, 6, 17, 2),
            e(0, 11, 17, 6, 2),
            e(5, 10, 0, 19, 3),
            e(1, 13, 19, 0, 3),
            e(6, 12, 2, 21, 4),
            e(2, 15, 21, 2, 4),
            e(7, 14, 4, 23, 5),
            e(4, 17, 18, 22, 0),
            e(5, 16, 9, 10, 2),
            e(5, 19, 20, 16, 0),
            e(6, 18, 11, 12, 3),
            e(6, 21, 22, 18, 0),
            e(7, 20, 13, 14, 4),
            e(7, 23, 16, 20, 0),
            e(4, 22, 15, 8, 5),
        ]
    }
}

/// The face arena of the Euler-built cube after step `k` of `cube_euler`.
pub open spec fn cube_build_faces(k: int) -> Seq<Face> {
    if k <= 3 {
        seq![f(0)]
    } else if k <= 8 {
        seq![f(6), f(5)]
    } else if k <= 9 {
        seq![f(16), f(5), f(9)]
    } else if k <= 10 {
        seq![f(18), f(5), f(9), f(11)]
    } else if k <= 11 {
        seq![f(20), f(5), f(9), f(11), f(13)]
    } else {
        seq![f(22), f(5), f(9), f(11), f(13), f(15)]
    }
}


/// How many vertices the Euler-built cube has after step `k`.
pub open spec fn cube_build_vertex_count(k: int) -> int {
    if k <= 3 {
        k + 1
    } else if k == 4 {
        4
    } else if k <= 8 {
        k
    } else {
        8
    }
}

/// The corner position given to each vertex of the Euler-built cube: the
/// bottom corners in order, then the top corner above each of `3, 0, 1, 2`.
pub open spec fn cube_vertex_corner(v: int) -> int {
    seq![0int, 1, 2, 3, 7, 4, 5, 6][v]
}

/// The half-edge each vertex of the Euler-built cube refers to.
pub open spec fn cube_vertex_half_edge(v: int) -> usize {
    seq![0usize, 1, 3, 5, 9, 11, 13, 15][v]
}

/// The vertex arena of the Euler-built cube after step `k` of `cube_euler`.
pub open spec fn cube_build_vertices<P>(corners: Seq<P>, k: int) -> Seq<Vertex<P>> {
    Seq::new(
        cube_build_vertex_count(k) as nat,
        |v: int|
            Vertex {
                position: corners[cube_vertex_corner(v)],
                half_edge: Some(HalfEdgeId(cube_vertex_half_edge(v))),
            },
    )
}

/// What one wall step of `cube_euler` needs and does, given the outer loop
/// `l` of the shell, the positions `ka`, `kb` of the first half-edges leaving
/// the two top corners on it, and the loop `nl` the new wall will have.
proof fn lemma_wall_step(
    hes: Seq<HalfEdge>,
    fs: Seq<Face>,
    l: Seq<usize>,
    va: VertexId,
    vb: VertexId,
    ka: int,
    kb: int,
    nl: Seq<usize>,
)
    requires
        is_cycle(hes, l),
        1 <= fs.len() < usize::MAX,
        fs[0].half_edge.0 == l[0],
        hes.len() + 2 <= usize::MAX,
        0 <= ka < l.len(),
        0 <= kb < l.len(),
        hes[l[ka] as int].origin == va,
        hes[l[kb] as int].origin == vb,
        forall|j: int| 0 <= j < ka ==> hes[#[trigger] l[j] as int].origin != va,
        forall|j: int| 0 <= j < kb ==> hes[#[trigger] l[j] as int].origin != vb,
        hes[l[ka] as int].face == Some(FaceId(0)),
        hes[l[ka] as int].prev.0 < hes.len(),
        hes[l[kb] as int].prev.0 < hes.len(),
        is_cycle(mef_links(hes, l[ka] as int, l[kb] as int, FaceId(0)), nl),
        nl[0] == l[ka],
    ensures
        has_loop(hes, fs[0].half_edge.0 as int),
        loop_has_origin(hes, fs[0].half_edge.0 as int, va),
        loop_has_origin(hes, fs[0].half_edge.0 as int, vb),
        forall|he: HalfEdgeId|
            #[trigger] first_from_in_loop(hes, fs[0].half_edge.0 as int, va, he) ==> he == HalfEdgeId(l[ka]),
        forall|he: HalfEdgeId|
            #[trigger] first_from_in_loop(hes, fs[0].half_edge.0 as int, vb, he) ==> he == HalfEdgeId(l[kb]),
        mef_ready(hes, fs.len(), l[ka] as int, l[kb] as int),
        forall|x: int|
            #[trigger] in_loop(mef_links(hes, l[ka] as int, l[kb] as int, FaceId(0)), l[ka] as int, x)
                <==> exists|i: int| 0 <= i < nl.len() && nl[i] == x,
{
    let h = l[0] as int;
    lemma_cycle(hes, l);
    assert(hes[loop_from(hes, h)[ka].0 as int].origin == va);
    assert(hes[loop_from(hes, h)[kb].0 as int].origin == vb);
    assert forall|he: HalfEdgeId| #[trigger] first_from_in_loop(hes, h, va, he) implies he == HalfEdgeId(l[ka]) by {
        lemma_first_at(hes, h, va, he, ka);
    }
    assert forall|he: HalfEdgeId| #[trigger] first_from_in_loop(hes, h, vb, he) implies he == HalfEdgeId(l[kb]) by {
        lemma_first_at(hes, h, vb, he, kb);
    }
    lemma_cycle(mef_links(hes, l[ka] as int, l[kb] as int, FaceId(0)), nl);
}

proof fn lemma_wall0()
    ensures
        wall_facts(0),
{
    let hes = cube_build_half_edges(8);
    lemma_wall_step(
        hes,
        cube_build_faces(8),
        seq![6usize, 10, 11, 0, 12, 13, 2, 14, 15, 4, 8, 9],
        VertexId(4),
        VertexId(5),
        11,
        2,
        seq![9usize, 6, 10, 17],
    );
    assert(mef_half_edges(hes, 9, 11, FaceId(2)) =~= cube_build_half_edges(9));
    assert(cube_build_faces(8).push(f(9)).update(0, f(16)) =~= cube_build_faces(9));
}

proof fn lemma_wall1()
    ensures
        wall_facts(1),
{
    let hes = cube_build_half_edges(9);
    lemma_wall_step(
        hes,
        cube_build_faces(9),
        seq![16usize, 11, 0, 12, 13, 2, 14, 15, 4, 8],
        VertexId(5),
        VertexId(6),
        1,
        4,
        seq![11usize, 0, 12, 19],
    );
    assert(mef_half_edges(hes, 11, 13, FaceId(3)) =~= cube_build_half_edges(10));
    assert(cube_build_faces(9).push(f(11)).update(0, f(18)) =~= cube_build_faces(10));
}

proof fn lemma_wall2()
    ensures
        wall_facts(2),
{
    let hes = cube_build_half_edges(10);
    lemma_wall_step(
        hes,
        cube_build_faces(10),
        seq![18usize, 13, 2, 14, 15, 4, 8, 16],
        VertexId(6),
        VertexId(7),
        1,
        4,
        seq![13usize, 2, 14, 21],
    );
    assert(mef_half_edges(hes, 13, 15, FaceId(4)) =~= cube_build_half_edges(11));
    assert(cube_build_faces(10).push(f(13)).update(0, f(20)) =~= cube_build_faces(11));
}

proof fn lemma_wall3()
    ensures
        wall_facts(3),
{
    let hes = cube_build_half_edges(11);
    lemma_wall_step(
        hes,
        cube_build_faces(11),
        seq![20usize, 15, 4, 8, 16, 18],
        VertexId(7),
        VertexId(4),
        1,
        4,
        seq![15usize, 4, 8, 23],
    );
    assert(mef_half_edges(hes, 15, 16, FaceId(5)) =~= cube_build_half_edges(12));
    assert(cube_build_faces(11).push(f(15)).update(0, f(22)) =~= cube_build_faces(12));
}

/// The half-edge that wall step `i` of `cube_euler` starts its new edge
/// from, and the one it ends it at.
pub open spec fn wall_ends(i: int) -> (usize, usize) {
    seq![(9usize, 11usize), (11, 13), (13, 15), (15, 16)][i]
}

/// What wall step `i` of `cube_euler` finds and makes.
pub open spec fn wall_facts(i: int) -> bool {
    let hes = cube_build_half_edges(8 + i);
    let fs = cube_build_faces(8 + i);
    let h = fs[0].half_edge.0 as int;
    let va = VertexId((4 + i) as usize);
    let vb = VertexId((4 + (i + 1) % 4) as usize);
    let (a, b) = wall_ends(i);
    &&& has_loop(hes, h)
    &&& loop_has_origin(hes, h, va)
    &&& loop_has_origin(hes, h, vb)
    &&& forall|he: HalfEdgeId| #[trigger] first_from_in_loop(hes, h, va, he) ==> he == HalfEdgeId(a)
    &&& forall|he: HalfEdgeId| #[trigger] first_from_in_loop(hes, h, vb, he) ==> he == HalfEdgeId(b)
    &&& mef_ready(hes, fs.len(), a as int, b as int)
    &&& mef_half_edges(hes, a as int, b as int, FaceId(fs.len() as usize)) == cube_build_half_edges(8 + i + 1)
    &&& fs.push(f(a)).update(0, f(hes.len() as usize)) == cube_build_faces(8 + i + 1)
}

/// What each of the four wall steps of `cube_euler` finds and makes.
pub proof fn lemma_wall(i: int)
    requires
        0 <= i < 4,
    ensures
        wall_facts(i),
{
    if i == 0 {
        lemma_wall0();
    } else if i == 1 {
        lemma_wall1();
    } else if i == 2 {
        lemma_wall2();
    } else {
        lemma_wall3();
    }
}

} // verus!
