//! Laws of `from_polygons`: what the half-edge graph built from polygon soup
//! says about the faces it was given.
use vstd::prelude::*;
use crate::euler::{check_half_edge, outcome_from, valid};
use crate::laws::law_valid_validates;
use crate::topology::{
    dest, has_loop, lemma_opposite_is, lemma_period_unique, lemma_ring_step, lemma_rings,
    lemma_rings_at, lemma_rings_index, loop_from, offset, opposite, period, returns_at, reverses, ring,
    rings, soup_half_edges, soup_ok, soup_vertices, walk, HalfEdgeId, VertexId,
};

verus! {

/// `from_polygons` on acceptable input builds a valid half-edge graph, which
/// `validate` accepts: each face is a cycle of half-edges bounding it, and
/// twins pair opposite directed edges.
pub proof fn law_soup_valid(nverts: nat, faces: Seq<Seq<usize>>)
    requires
        soup_ok(nverts, faces),
    ensures
        valid(soup_half_edges(faces)),
        outcome_from(soup_half_edges(faces), 0) is Valid,
{
    let nf = faces.len() as int;
    let links = rings(faces, nf);
    let hes = soup_half_edges(faces);
    lemma_rings(faces, nf, nverts);
    assert forall|j: int| 0 <= j < hes.len() implies #[trigger] check_half_edge(hes, j) is Pass by {
        lemma_rings_index(faces, nf, j, nverts);
        let (g, i) = choose|g: int, i: int|
            0 <= g < nf && 0 <= i < faces[g].len() && j == offset(faces, g) + i && #[trigger] links[j]
                == #[trigger] ring(faces[g], offset(faces, g) as int, g)[i];
        let n = faces[g].len() as int;
        let base = offset(faces, g) as int;
        lemma_ring_step(i, n);
        let inext = (i + 1) % n;
        let iprev = (i + n - 1) % n;
        lemma_ring_step(inext, n);
        lemma_ring_step(iprev, n);
        lemma_rings_at(faces, nf, g, inext, nverts);
        lemma_rings_at(faces, nf, g, iprev, nverts);
        assert(links[base + inext].prev.0 == j);
        assert(links[base + iprev].next.0 == j);
        if let Some(t) = opposite(links, j) {
            let k = choose|k: int| #[trigger] reverses(links, j, k);
            assert(reverses(links, j, k));
            assert(reverses(links, k, j));
            lemma_opposite_is(links, k, j);
        }
    }
    law_valid_validates(soup_half_edges(faces));
}

/// In the shell `from_polygons` builds, the loop of face `g` runs through the
/// face's own half-edges in the order of its vertex list: it has one
/// half-edge per corner, leaving the corners in turn: read as vertex
/// indices, it is the face's vertex list.
pub proof fn law_soup_face_loop(nverts: nat, faces: Seq<Seq<usize>>, g: int)
    requires
        soup_ok(nverts, faces),
        0 <= g < faces.len(),
    ensures
        has_loop(soup_half_edges(faces), offset(faces, g) as int),
        period(soup_half_edges(faces), offset(faces, g) as int) == faces[g].len(),
        forall|i: int|
            0 <= i < faces[g].len() ==> #[trigger] loop_from(soup_half_edges(faces), offset(faces, g) as int)[i]
                == HalfEdgeId((offset(faces, g) + i) as usize),
        forall|i: int|
            0 <= i < faces[g].len() ==> (#[trigger] soup_half_edges(faces)[offset(faces, g) + i]).origin
                == VertexId(faces[g][i]),
        loop_from(soup_half_edges(faces), offset(faces, g) as int).map_values(
            |e: HalfEdgeId| soup_half_edges(faces)[e.0 as int].origin.0,
        ) == faces[g],
{
    let nf = faces.len() as int;
    let hes = soup_half_edges(faces);
    let base = offset(faces, g) as int;
    let n = faces[g].len() as int;
    lemma_rings(faces, nf, nverts);
    assert forall|k: nat| k < n implies #[trigger] walk(hes, base, k) == base + k by {
        lemma_soup_walk(nverts, faces, g, k);
    }
    lemma_soup_walk(nverts, faces, g, (n - 1) as nat);
    lemma_rings_at(faces, nf, g, n - 1, nverts);
    lemma_ring_step(n - 1, n);
    assert(walk(hes, base, n as nat) == base);
    assert(returns_at(hes, base, n as nat));
    lemma_period_unique(hes, base, n as nat);
    assert forall|i: int| 0 <= i < n implies #[trigger] loop_from(hes, base)[i] == HalfEdgeId((base + i) as usize) by {
        assert(walk(hes, base, i as nat) == base + i);
    }
    assert forall|i: int| 0 <= i < n implies (#[trigger] hes[base + i]).origin == VertexId(faces[g][i]) by {
        lemma_rings_at(faces, nf, g, i, nverts);
    }
    assert forall|i: int| 0 <= i < n implies #[trigger] loop_from(hes, base)[i].0 == base + i by {
        lemma_rings_at(faces, nf, g, i, nverts);
    }
    assert(loop_from(hes, base).map_values(|e: HalfEdgeId| hes[e.0 as int].origin.0) =~= faces[g]);
}

proof fn lemma_soup_walk(nverts: nat, faces: Seq<Seq<usize>>, g: int, k: nat)
    requires
        soup_ok(nverts, faces),
        0 <= g < faces.len(),
        k < faces[g].len(),
    ensures
        walk(soup_half_edges(faces), offset(faces, g) as int, k) == offset(faces, g) + k,
    decreases k,
{
    let nf = faces.len() as int;
    let n = faces[g].len() as int;
    lemma_rings(faces, nf, nverts);
    if k > 0 {
        lemma_soup_walk(nverts, faces, g, (k - 1) as nat);
        lemma_rings_at(faces, nf, g, k - 1, nverts);
        lemma_ring_step(k - 1, n);
    }
}

/// The half-edge `from_polygons` lays down for corner `i` of face `f` runs
/// from that corner to the next one round the face.
proof fn lemma_soup_corner(nverts: nat, faces: Seq<Seq<usize>>, f: int, i: int)
    requires
        soup_ok(nverts, faces),
        0 <= f < faces.len(),
        0 <= i < faces[f].len(),
    ensures
        0 <= offset(faces, f) + i < soup_half_edges(faces).len(),
        soup_half_edges(faces)[offset(faces, f) + i].origin == VertexId(faces[f][i]),
        dest(soup_half_edges(faces), offset(faces, f) + i) == VertexId(
            faces[f][(i + 1) % (faces[f].len() as int)],
        ),
{
    let nf = faces.len() as int;
    let n = faces[f].len() as int;
    lemma_rings(faces, nf, nverts);
    lemma_rings_at(faces, nf, f, i, nverts);
    lemma_ring_step(i, n);
    lemma_rings_at(faces, nf, f, (i + 1) % n, nverts);
}

/// Every half-edge `from_polygons` lays down is the one for some corner.
proof fn lemma_soup_corner_of(nverts: nat, faces: Seq<Seq<usize>>, j: int) -> (fi: (int, int))
    requires
        soup_ok(nverts, faces),
        0 <= j < soup_half_edges(faces).len(),
    ensures
        0 <= fi.0 < faces.len(),
        0 <= fi.1 < faces[fi.0].len(),
        j == offset(faces, fi.0) + fi.1,
{
    let nf = faces.len() as int;
    lemma_rings(faces, nf, nverts);
    lemma_rings_index(faces, nf, j, nverts);
    choose|g: int, i: int|
        0 <= g < nf && 0 <= i < faces[g].len() && j == offset(faces, g) + i && #[trigger] rings(faces, nf)[j]
            == #[trigger] ring(faces[g], offset(faces, g) as int, g)[i]
}

/// Corner `i` of face `f` is run the other way, from the next corner back to
/// it, by some corner of some face.
pub open spec fn edge_reversed(faces: Seq<Seq<usize>>, f: int, i: int) -> bool {
    exists|g: int, k: int|
        0 <= g < faces.len() && 0 <= k < faces[g].len() && #[trigger] faces[g][k] == faces[f][(i + 1) % (
        faces[f].len() as int)] && faces[g][(k + 1) % (faces[g].len() as int)] == faces[f][i]
}

/// `from_polygons` gives each half-edge as twin the half-edge running the
/// opposite way, and no twin exactly when no face runs the edge the other
/// way. So the shell is closed exactly when every directed edge of every
/// face is run the other way by some face.
pub proof fn law_soup_twins(nverts: nat, faces: Seq<Seq<usize>>)
    requires
        soup_ok(nverts, faces),
    ensures
        ({
            let hes = soup_half_edges(faces);
            &&& forall|j: int, k: int|
                0 <= j < hes.len() && 0 <= k < hes.len() ==> (hes[j].twin == Some(HalfEdgeId(k as usize))
                    <==> #[trigger] reverses(hes, j, k))
            &&& forall|j: int|
                0 <= j < hes.len() ==> ((#[trigger] hes[j]).twin is None <==> !exists|k: int|
                    reverses(hes, j, k))
            &&& (forall|j: int| 0 <= j < hes.len() ==> (#[trigger] hes[j]).twin is Some) <==> (forall|f: int, i: int|
                0 <= f < faces.len() && 0 <= i < faces[f].len() ==> #[trigger] edge_reversed(faces, f, i))
        }),
{
    let nf = faces.len() as int;
    let links = rings(faces, nf);
    let hes = soup_half_edges(faces);
    lemma_rings(faces, nf, nverts);
    assert forall|j: int, k: int| 0 <= j < hes.len() && 0 <= k < hes.len() implies (hes[j].twin == Some(
        HalfEdgeId(k as usize),
    ) <==> #[trigger] reverses(hes, j, k)) by {
        assert(reverses(hes, j, k) == reverses(links, j, k));
        if reverses(links, j, k) {
            lemma_opposite_is(links, j, k);
        }
        if hes[j].twin == Some(HalfEdgeId(k as usize)) {
            let c = choose|c: int| #[trigger] reverses(links, j, c);
            assert(reverses(links, j, c));
        }
    }
    assert forall|j: int| 0 <= j < hes.len() implies ((#[trigger] hes[j]).twin is None <==> !exists|k: int|
        reverses(hes, j, k)) by {
        if exists|k: int| reverses(hes, j, k) {
            let k = choose|k: int| reverses(hes, j, k);
            assert(reverses(links, j, k));
        }
        if exists|k: int| #[trigger] reverses(links, j, k) {
            let k = choose|k: int| #[trigger] reverses(links, j, k);
            assert(reverses(hes, j, k));
        }
    }
    if forall|j: int| 0 <= j < hes.len() ==> (#[trigger] hes[j]).twin is Some {
        assert forall|f: int, i: int| 0 <= f < faces.len() && 0 <= i < faces[f].len() implies #[trigger] edge_reversed(
            faces,
            f,
            i,
        ) by {
            let j = offset(faces, f) + i;
            lemma_soup_corner(nverts, faces, f, i);
            assert(hes[j].twin is Some);
            let k = choose|k: int| reverses(hes, j, k);
            let (g, i2) = lemma_soup_corner_of(nverts, faces, k);
            lemma_soup_corner(nverts, faces, g, i2);
            assert(faces[g][i2] == faces[f][(i + 1) % (faces[f].len() as int)]);
        }
    }
    if forall|f: int, i: int| 0 <= f < faces.len() && 0 <= i < faces[f].len() ==> #[trigger] edge_reversed(faces, f, i) {
        assert forall|j: int| 0 <= j < hes.len() implies (#[trigger] hes[j]).twin is Some by {
            let (f, i) = lemma_soup_corner_of(nverts, faces, j);
            lemma_soup_corner(nverts, faces, f, i);
            assert(edge_reversed(faces, f, i));
            let (g, i2) = choose|g: int, k: int|
                0 <= g < faces.len() && 0 <= k < faces[g].len() && #[trigger] faces[g][k] == faces[f][(i + 1) % (
                faces[f].len() as int)] && faces[g][(k + 1) % (faces[g].len() as int)] == faces[f][i];
            lemma_soup_corner(nverts, faces, g, i2);
            assert(reverses(hes, j, offset(faces, g) + i2));
        }
    }
}

/// `from_polygons` gives vertex `v` the position `positions[v]`.
pub proof fn law_soup_positions<P>(positions: Seq<P>, faces: Seq<Seq<usize>>)
    ensures
        soup_vertices(positions, faces).len() == positions.len(),
        forall|v: int| 0 <= v < positions.len() ==> #[trigger] soup_vertices(positions, faces)[v].position == positions[v],
{
}

} // verus!
