//! Half-edge topology: the connectivity layer of the boundary representation.
//!
//! Every edge of a solid is split into two oppositely directed half-edges, one
//! on each of the two faces that share the edge. A half-edge records its
//! `origin` vertex, the `next` and `prev` half-edges around its face loop, its
//! `twin` on the neighbouring face and the `face` it bounds. Elements live in
//! `Vec` arenas and refer to each other by integer handles.
//!
//! The shell is generic over the vertex payload `P` (a point type chosen by the
//! caller): the connectivity below never looks inside a position.
use vstd::prelude::*;
use vstd::arithmetic::div_mod::{lemma_mod_add_multiples_vanish, lemma_small_mod};
use std::collections::HashMap;

verus! {

/// Handle of a vertex: its index in the shell's vertex arena.
#[derive(Clone, Copy, PartialEq, Eq, Hash, Debug, Structural)]
pub struct VertexId(pub usize);

/// Handle of a half-edge: its index in the shell's half-edge arena.
#[derive(Clone, Copy, PartialEq, Eq, Hash, Debug, Structural)]
pub struct HalfEdgeId(pub usize);

/// Handle of a face: its index in the shell's face arena.
#[derive(Clone, Copy, PartialEq, Eq, Hash, Debug, Structural)]
pub struct FaceId(pub usize);

#[derive(Clone, Debug)]
pub struct Vertex<P> {
    pub position: P,
    /// One half-edge that has this vertex as its origin.
    pub half_edge: Option<HalfEdgeId>,
}

#[derive(Clone, Debug)]
pub struct HalfEdge {
    pub origin: VertexId,
    pub twin: Option<HalfEdgeId>,
    pub next: HalfEdgeId,
    pub prev: HalfEdgeId,
    pub face: Option<FaceId>,
}

#[derive(Clone, Debug)]
pub struct Face {
    /// One half-edge on this face's boundary loop.
    pub half_edge: HalfEdgeId,
}

/// A connected boundary surface made of faces, edges and vertices.
#[derive(Clone, Debug)]
pub struct Shell<P> {
    pub vertices: Vec<Vertex<P>>,
    pub half_edges: Vec<HalfEdge>,
    pub faces: Vec<Face>,
}

// ---------------------------------------------------------------------------
// Walking `next` links.
// ---------------------------------------------------------------------------

/// The half-edge reached from `h` after `k` steps along `next` links.
/// A step from an index outside the arena lands on `-1` and stays there.
pub open spec fn walk(hes: Seq<HalfEdge>, h: int, k: nat) -> int
    decreases k,
{
    if k == 0 {
        h
    } else {
        let p = walk(hes, h, (k - 1) as nat);
        if 0 <= p < hes.len() {
            hes[p].next.0 as int
        } else {
            -1
        }
    }
}

/// `k` is the first positive number of steps after which the walk from `h`
/// is back at `h`.
pub open spec fn returns_at(hes: Seq<HalfEdge>, h: int, k: nat) -> bool {
    &&& k >= 1
    &&& walk(hes, h, k) == h
    &&& forall|j: nat| 1 <= j < k ==> #[trigger] walk(hes, h, j) != h
}

/// `h` is a half-edge of the arena and following `next` from it comes back to it.
pub open spec fn has_loop(hes: Seq<HalfEdge>, h: int) -> bool {
    &&& 0 <= h < hes.len()
    &&& exists|k: nat| returns_at(hes, h, k)
}

/// The length of the loop through `h` (meaningful when `has_loop(hes, h)`).
pub open spec fn period(hes: Seq<HalfEdge>, h: int) -> nat {
    choose|k: nat| returns_at(hes, h, k)
}

/// The half-edges of the loop through `h`, in `next` order, starting at `h`.
pub open spec fn loop_from(hes: Seq<HalfEdge>, h: int) -> Seq<HalfEdgeId> {
    Seq::new(period(hes, h), |i: int| HalfEdgeId(walk(hes, h, i as nat) as usize))
}

/// `x` lies on the loop through `h`.
pub open spec fn in_loop(hes: Seq<HalfEdge>, h: int, x: int) -> bool {
    exists|k: nat| k < period(hes, h) && #[trigger] walk(hes, h, k) == x
}

/// Once a walk has left the arena it never comes back.
pub proof fn lemma_walk_absorbs(hes: Seq<HalfEdge>, h: int, j: nat, m: nat)
    requires
        j <= m,
        !(0 <= walk(hes, h, j) < hes.len()),
    ensures
        !(0 <= walk(hes, h, m) < hes.len()),
    decreases m - j,
{
    if m > j {
        lemma_walk_absorbs(hes, h, j, (m - 1) as nat);
    }
}

/// A loop is closed at its period and every half-edge on it is in the arena.
pub proof fn lemma_loop_basics(hes: Seq<HalfEdge>, h: int)
    requires
        has_loop(hes, h),
    ensures
        returns_at(hes, h, period(hes, h)),
        period(hes, h) >= 1,
        forall|j: nat| j <= period(hes, h) ==> 0 <= #[trigger] walk(hes, h, j) < hes.len(),
{
    let p = period(hes, h);
    assert(returns_at(hes, h, p));
    assert forall|j: nat| j <= p implies 0 <= #[trigger] walk(hes, h, j) < hes.len() by {
        if !(0 <= walk(hes, h, j) < hes.len()) {
            lemma_walk_absorbs(hes, h, j, p);
        }
    }
}

/// The period is the unique first return.
pub proof fn lemma_period_unique(hes: Seq<HalfEdge>, h: int, k: nat)
    requires
        0 <= h < hes.len(),
        returns_at(hes, h, k),
    ensures
        has_loop(hes, h),
        period(hes, h) == k,
{
    let p = period(hes, h);
    assert(returns_at(hes, h, p));
    if p < k {
        assert(walk(hes, h, p) != h);
    } else if k < p {
        assert(walk(hes, h, k) != h);
    }
}

/// Any return to `h` yields a first return.
pub proof fn lemma_first_return(hes: Seq<HalfEdge>, h: int, k: nat)
    requires
        0 <= h < hes.len(),
        k >= 1,
        walk(hes, h, k) == h,
    ensures
        has_loop(hes, h),
        period(hes, h) <= k,
    decreases k,
{
    if exists|j: nat| 1 <= j < k && #[trigger] walk(hes, h, j) == h {
        let j = choose|j: nat| 1 <= j < k && #[trigger] walk(hes, h, j) == h;
        lemma_first_return(hes, h, j);
    } else {
        assert(returns_at(hes, h, k));
        lemma_period_unique(hes, h, k);
    }
}

// ---------------------------------------------------------------------------
// Polygon soup.
// ---------------------------------------------------------------------------

/// The number of corners of faces `0 .. f`: where face `f`'s half-edges start.
pub open spec fn offset(faces: Seq<Seq<usize>>, f: int) -> nat
    decreases f,
{
    if f <= 0 {
        0
    } else {
        offset(faces, f - 1) + faces[f - 1].len()
    }
}

/// The half-edges of one face loop `lp` laid down from index `base`, linked
/// in a cycle in the order of `lp`, not yet paired with twins.
pub open spec fn ring(lp: Seq<usize>, base: int, f: int) -> Seq<HalfEdge> {
    let n = lp.len() as int;
    Seq::new(
        lp.len(),
        |i: int|
            HalfEdge {
                origin: VertexId(lp[i]),
                twin: None,
                next: HalfEdgeId((base + (i + 1) % n) as usize),
                prev: HalfEdgeId((base + (i + n - 1) % n) as usize),
                face: Some(FaceId(f as usize)),
            },
    )
}

/// The rings of faces `0 .. f`, one after the other.
pub open spec fn rings(faces: Seq<Seq<usize>>, f: int) -> Seq<HalfEdge>
    decreases f,
{
    if f <= 0 {
        Seq::empty()
    } else {
        rings(faces, f - 1) + ring(faces[f - 1], offset(faces, f - 1) as int, f - 1)
    }
}

/// The vertex a half-edge points to: the origin of its `next`.
pub open spec fn dest(hes: Seq<HalfEdge>, j: int) -> VertexId {
    hes[hes[j].next.0 as int].origin
}

/// Half-edge `k` runs the opposite way to half-edge `j`.
pub open spec fn reverses(hes: Seq<HalfEdge>, j: int, k: int) -> bool {
    &&& 0 <= k < hes.len()
    &&& hes[k].origin == dest(hes, j)
    &&& dest(hes, k) == hes[j].origin
}

/// No two half-edges run from the same vertex to the same vertex.
pub open spec fn distinct_directed(hes: Seq<HalfEdge>) -> bool {
    forall|j: int, k: int|
        0 <= j < hes.len() && 0 <= k < hes.len() && j != k ==> !(#[trigger] hes[j].origin
            == #[trigger] hes[k].origin && dest(hes, j) == dest(hes, k))
}

/// The half-edge running opposite to `j`, if there is one.
pub open spec fn opposite(hes: Seq<HalfEdge>, j: int) -> Option<HalfEdgeId> {
    if exists|k: int| #[trigger] reverses(hes, j, k) {
        Some(HalfEdgeId((choose|k: int| #[trigger] reverses(hes, j, k)) as usize))
    } else {
        None
    }
}

/// `h` with its twin replaced.
pub open spec fn with_twin(h: HalfEdge, twin: Option<HalfEdgeId>) -> HalfEdge {
    HalfEdge { origin: h.origin, twin: twin, next: h.next, prev: h.prev, face: h.face }
}

/// `h` with its `next` link replaced.
pub open spec fn with_next(h: HalfEdge, next: HalfEdgeId) -> HalfEdge {
    HalfEdge { origin: h.origin, twin: h.twin, next: next, prev: h.prev, face: h.face }
}

/// `h` with its `prev` link replaced.
pub open spec fn with_prev(h: HalfEdge, prev: HalfEdgeId) -> HalfEdge {
    HalfEdge { origin: h.origin, twin: h.twin, next: h.next, prev: prev, face: h.face }
}

/// `h` with its face replaced.
pub open spec fn with_face(h: HalfEdge, face: Option<FaceId>) -> HalfEdge {
    HalfEdge { origin: h.origin, twin: h.twin, next: h.next, prev: h.prev, face: face }
}

/// The first half-edge that leaves `v`, if any.
pub open spec fn first_leaving(hes: Seq<HalfEdge>, v: VertexId) -> Option<HalfEdgeId> {
    if exists|j: int| 0 <= j < hes.len() && #[trigger] hes[j].origin == v {
        Some(
            HalfEdgeId(
                (choose|j: int|
                    0 <= j < hes.len() && #[trigger] hes[j].origin == v && forall|k: int|
                        0 <= k < j ==> hes[k].origin != v) as usize,
            ),
        )
    } else {
        None
    }
}

/// The half-edges `from_polygons` builds: the rings of all faces, each
/// half-edge paired with the one running the opposite way, if any.
pub open spec fn soup_half_edges(faces: Seq<Seq<usize>>) -> Seq<HalfEdge> {
    let links = rings(faces, faces.len() as int);
    Seq::new(links.len(), |j: int| with_twin(links[j], opposite(links, j)))
}

/// The vertices `from_polygons` builds: one per position, each referring to
/// the first half-edge that leaves it.
pub open spec fn soup_vertices<P>(positions: Seq<P>, faces: Seq<Seq<usize>>) -> Seq<Vertex<P>> {
    Seq::new(
        positions.len(),
        |v: int|
            Vertex {
                position: positions[v],
                half_edge: first_leaving(rings(faces, faces.len() as int), VertexId(v as usize)),
            },
    )
}

/// The faces `from_polygons` builds: each refers to the first half-edge of its ring.
pub open spec fn soup_faces(faces: Seq<Seq<usize>>) -> Seq<Face> {
    Seq::new(faces.len(), |f: int| Face { half_edge: HalfEdgeId(offset(faces, f) as usize) })
}

/// What `from_polygons` needs: every face has at least three corners, every
/// corner names a vertex, no directed edge occurs twice, and the half-edges
/// can be counted in a `usize`.
pub open spec fn soup_ok(nverts: nat, faces: Seq<Seq<usize>>) -> bool {
    &&& forall|f: int| 0 <= f < faces.len() ==> (#[trigger] faces[f]).len() >= 3
    &&& forall|f: int, i: int|
        0 <= f < faces.len() && 0 <= i < faces[f].len() ==> (#[trigger] faces[f][i]) < nverts
    &&& offset(faces, faces.len() as int) < usize::MAX
    &&& distinct_directed(rings(faces, faces.len() as int))
}

/// The loops of `faces` as sequences of vertex indices.
pub open spec fn polygons(faces: Seq<Vec<usize>>) -> Seq<Seq<usize>> {
    faces.map_values(|lp: Vec<usize>| lp@)
}

/// A face's ring part-way through being linked: `next` is set on its first
/// `i` half-edges and `prev` on the `i` half-edges after them.
pub open spec fn partial_ring(lp: Seq<usize>, base: int, f: int, i: int) -> Seq<HalfEdge> {
    let n = lp.len() as int;
    Seq::new(
        lp.len(),
        |k: int|
            HalfEdge {
                origin: VertexId(lp[k]),
                twin: None,
                next: HalfEdgeId(
                    (if k < i {
                        base + (k + 1) % n
                    } else {
                        base + k
                    }) as usize,
                ),
                prev: HalfEdgeId(
                    (if (1 <= k <= i) || (k == 0 && i == n) {
                        base + (k + n - 1) % n
                    } else {
                        base + k
                    }) as usize,
                ),
                face: Some(FaceId(f as usize)),
            },
    )
}

/// `j` is the first half-edge that leaves `v`.
pub open spec fn leaves_first(hes: Seq<HalfEdge>, v: VertexId, j: int) -> bool {
    &&& 0 <= j < hes.len()
    &&& hes[j].origin == v
    &&& forall|k: int| 0 <= k < j ==> hes[k].origin != v
}

/// The first half-edge leaving `v` is the one `first_leaving` names.
pub proof fn lemma_first_leaving_is(hes: Seq<HalfEdge>, v: VertexId, j: int)
    requires
        leaves_first(hes, v, j),
    ensures
        first_leaving(hes, v) == Some(HalfEdgeId(j as usize)),
{
    assert(0 <= j < hes.len() && hes[j].origin == v);
    let c = choose|c: int|
        0 <= c < hes.len() && #[trigger] hes[c].origin == v && forall|k: int|
            0 <= k < c ==> hes[k].origin != v;
    assert(leaves_first(hes, v, c));
    if c < j {
        assert(hes[c].origin != v);
    } else if j < c {
        assert(hes[j].origin != v);
    }
}

/// If some half-edge leaves `v`, a first one does.
proof fn lemma_first_leaving_exists(hes: Seq<HalfEdge>, v: VertexId, j: int)
    requires
        0 <= j < hes.len(),
        hes[j].origin == v,
    ensures
        exists|m: int| leaves_first(hes, v, m) && first_leaving(hes, v) == Some(HalfEdgeId(m as usize)),
    decreases j,
{
    if exists|k: int| 0 <= k < j && hes[k].origin == v {
        let k = choose|k: int| 0 <= k < j && hes[k].origin == v;
        lemma_first_leaving_exists(hes, v, k);
    } else {
        assert(leaves_first(hes, v, j));
        lemma_first_leaving_is(hes, v, j);
    }
}

/// Appending a half-edge keeps the first half-edge leaving each vertex, and
/// gives one to its origin if that vertex had none.
proof fn lemma_first_leaving_push(hes: Seq<HalfEdge>, h: HalfEdge, v: VertexId)
    requires
        hes.len() < usize::MAX,
    ensures
        first_leaving(hes.push(h), v) == (if first_leaving(hes, v) is Some {
            first_leaving(hes, v)
        } else if h.origin == v {
            Some(HalfEdgeId(hes.len() as usize))
        } else {
            None
        }),
{
    let s = hes.push(h);
    if exists|j: int| 0 <= j < hes.len() && #[trigger] hes[j].origin == v {
        let j = choose|j: int| 0 <= j < hes.len() && #[trigger] hes[j].origin == v;
        lemma_first_leaving_exists(hes, v, j);
        let m = choose|m: int| leaves_first(hes, v, m) && first_leaving(hes, v) == Some(HalfEdgeId(m as usize));
        assert(leaves_first(s, v, m));
        lemma_first_leaving_is(s, v, m);
    } else {
        if h.origin == v {
            assert(leaves_first(s, v, hes.len() as int));
            lemma_first_leaving_is(s, v, hes.len() as int);
        }
    }
}

/// Two arenas whose half-edges have the same origins agree on the first
/// half-edge leaving each vertex.
proof fn lemma_first_leaving_same_origins(a: Seq<HalfEdge>, b: Seq<HalfEdge>, v: VertexId)
    requires
        a.len() == b.len(),
        forall|j: int| 0 <= j < a.len() ==> (#[trigger] a[j]).origin == b[j].origin,
    ensures
        first_leaving(a, v) == first_leaving(b, v),
{
    if exists|j: int| 0 <= j < a.len() && #[trigger] a[j].origin == v {
        let j = choose|j: int| 0 <= j < a.len() && #[trigger] a[j].origin == v;
        lemma_first_leaving_exists(a, v, j);
        let m = choose|m: int| leaves_first(a, v, m) && first_leaving(a, v) == Some(HalfEdgeId(m as usize));
        assert(leaves_first(b, v, m)) by {
            assert forall|k: int| 0 <= k < m implies b[k].origin != v by {
                assert(a[k].origin == b[k].origin);
            }
        }
        lemma_first_leaving_is(b, v, m);
    } else {
        assert forall|j: int| 0 <= j < b.len() implies b[j].origin != v by {
            assert(a[j].origin == b[j].origin);
        }
    }
}

/// Stepping forward and back around a ring of `n` positions.
pub proof fn lemma_ring_step(k: int, n: int)
    requires
        0 <= k < n,
    ensures
        (k + 1) % n == (if k + 1 < n {
            k + 1
        } else {
            0
        }),
        (k + n - 1) % n == (if k >= 1 {
            k - 1
        } else {
            n - 1
        }),
{
    if k + 1 < n {
        lemma_small_mod((k + 1) as nat, n as nat);
    } else {
        lemma_mod_add_multiples_vanish(0, n);
        lemma_small_mod(0, n as nat);
    }
    if k >= 1 {
        lemma_mod_add_multiples_vanish(k - 1, n);
        lemma_small_mod((k - 1) as nat, n as nat);
    } else {
        lemma_small_mod((n - 1) as nat, n as nat);
    }
}

/// Without repeated directed edges, a half-edge running opposite to `j` is
/// the one `opposite` names.
pub proof fn lemma_opposite_is(hes: Seq<HalfEdge>, j: int, k: int)
    requires
        distinct_directed(hes),
        0 <= j < hes.len(),
        reverses(hes, j, k),
    ensures
        opposite(hes, j) == Some(HalfEdgeId(k as usize)),
{
    let c = choose|c: int| #[trigger] reverses(hes, j, c);
    assert(reverses(hes, j, c));
    if c != k {
        assert(hes[c].origin == hes[k].origin);
    }
}

/// Offsets grow with the face index.
pub proof fn lemma_offset_mono(faces: Seq<Seq<usize>>, f: int, g: int)
    requires
        0 <= f <= g <= faces.len(),
    ensures
        offset(faces, f) <= offset(faces, g),
    decreases g - f,
{
    if f < g {
        lemma_offset_mono(faces, f, g - 1);
    }
}

/// The rings of faces `0 .. f` hold `offset(f)` half-edges, each leaving a
/// vertex below `nverts` and linked to half-edges among them.
pub proof fn lemma_rings(faces: Seq<Seq<usize>>, f: int, nverts: nat)
    requires
        0 <= f <= faces.len(),
        forall|g: int| 0 <= g < faces.len() ==> (#[trigger] faces[g]).len() >= 3,
        forall|g: int, i: int|
            0 <= g < faces.len() && 0 <= i < faces[g].len() ==> (#[trigger] faces[g][i]) < nverts,
        offset(faces, faces.len() as int) < usize::MAX,
    ensures
        rings(faces, f).len() == offset(faces, f),
        forall|x: int|
            0 <= x < offset(faces, f) ==> {
                &&& (#[trigger] rings(faces, f)[x]).origin.0 < nverts
                &&& rings(faces, f)[x].next.0 < offset(faces, f)
                &&& rings(faces, f)[x].prev.0 < offset(faces, f)
                &&& rings(faces, f)[x].twin is None
            },
    decreases f,
{
    if f > 0 {
        lemma_rings(faces, f - 1, nverts);
        lemma_offset_mono(faces, f, faces.len() as int);
        let base = offset(faces, f - 1) as int;
        let lp = faces[f - 1];
        let n = lp.len() as int;
        let r = ring(lp, base, f - 1);
        assert forall|x: int| 0 <= x < offset(faces, f) implies {
            &&& (#[trigger] rings(faces, f)[x]).origin.0 < nverts
            &&& rings(faces, f)[x].next.0 < offset(faces, f)
            &&& rings(faces, f)[x].prev.0 < offset(faces, f)
            &&& rings(faces, f)[x].twin is None
        } by {
            if x >= base {
                let k = x - base;
                assert(rings(faces, f)[x] == r[k]);
                assert(0 <= (k + 1) % n < n);
                assert(0 <= (k + n - 1) % n < n);
            }
        }
    }
}

/// Half-edge `j` of the rings of faces `0 .. f` is corner `i` of face `g`.
pub proof fn lemma_rings_index(faces: Seq<Seq<usize>>, f: int, j: int, nverts: nat)
    requires
        0 <= f <= faces.len(),
        forall|g: int| 0 <= g < faces.len() ==> (#[trigger] faces[g]).len() >= 3,
        forall|g: int, i: int|
            0 <= g < faces.len() && 0 <= i < faces[g].len() ==> (#[trigger] faces[g][i]) < nverts,
        offset(faces, faces.len() as int) < usize::MAX,
        0 <= j < offset(faces, f),
    ensures
        exists|g: int, i: int|
            0 <= g < f && 0 <= i < faces[g].len() && j == offset(faces, g) + i && #[trigger] rings(faces, f)[j]
                == #[trigger] ring(faces[g], offset(faces, g) as int, g)[i],
    decreases f,
{
    lemma_rings(faces, f, nverts);
    lemma_rings(faces, f - 1, nverts);
    if j < offset(faces, f - 1) {
        lemma_rings_index(faces, f - 1, j, nverts);
        let (g, i) = choose|g: int, i: int|
            0 <= g < f - 1 && 0 <= i < faces[g].len() && j == offset(faces, g) + i && #[trigger] rings(
                faces,
                f - 1,
            )[j] == #[trigger] ring(faces[g], offset(faces, g) as int, g)[i];
        lemma_rings_prefix(faces, f - 1, f, j);
        assert(rings(faces, f)[j] == ring(faces[g], offset(faces, g) as int, g)[i]);
    } else {
        let g = f - 1;
        let i = j - offset(faces, g);
        assert(rings(faces, f)[j] == ring(faces[g], offset(faces, g) as int, g)[i]);
    }
}

/// Corner `i` of face `g` is half-edge `offset(g) + i` of the rings.
pub proof fn lemma_rings_at(faces: Seq<Seq<usize>>, f: int, g: int, i: int, nverts: nat)
    requires
        0 <= g < f <= faces.len(),
        0 <= i < faces[g].len(),
        forall|h: int| 0 <= h < faces.len() ==> (#[trigger] faces[h]).len() >= 3,
        forall|h: int, k: int|
            0 <= h < faces.len() && 0 <= k < faces[h].len() ==> (#[trigger] faces[h][k]) < nverts,
        offset(faces, faces.len() as int) < usize::MAX,
    ensures
        offset(faces, g) + i < offset(faces, f),
        rings(faces, f)[offset(faces, g) + i] == ring(faces[g], offset(faces, g) as int, g)[i],
{
    lemma_rings(faces, g, nverts);
    lemma_rings(faces, g + 1, nverts);
    lemma_offset_mono(faces, g + 1, f);
    assert(rings(faces, g + 1)[offset(faces, g) + i] == ring(faces[g], offset(faces, g) as int, g)[i]);
    lemma_rings_prefix(faces, g + 1, f, offset(faces, g) + i);
}

/// The rings of the first `f` faces are a prefix of the rings of more faces.
pub proof fn lemma_rings_prefix(faces: Seq<Seq<usize>>, f: int, g: int, x: int)
    requires
        0 <= f <= g <= faces.len(),
        0 <= x < rings(faces, f).len(),
    ensures
        x < rings(faces, g).len(),
        rings(faces, g)[x] == rings(faces, f)[x],
    decreases g - f,
{
    if f < g {
        lemma_rings_prefix(faces, f, g - 1, x);
    }
}

/// `l` lists a cycle of `next` links: each half-edge's `next` is the one
/// after it in `l`, the last one's is the first, and the first does not recur.
pub open spec fn is_cycle(hes: Seq<HalfEdge>, l: Seq<usize>) -> bool {
    &&& l.len() >= 1
    &&& forall|i: int| 0 <= i < l.len() ==> #[trigger] l[i] < hes.len()
    &&& forall|i: int| 0 <= i < l.len() - 1 ==> hes[#[trigger] l[i] as int].next.0 == l[i + 1]
    &&& hes[l[l.len() - 1] as int].next.0 == l[0]
    &&& forall|i: int| 1 <= i < l.len() ==> #[trigger] l[i] != l[0]
}

/// A listed cycle is the loop through its first half-edge.
pub proof fn lemma_cycle(hes: Seq<HalfEdge>, l: Seq<usize>)
    requires
        is_cycle(hes, l),
    ensures
        has_loop(hes, l[0] as int),
        period(hes, l[0] as int) == l.len(),
        loop_from(hes, l[0] as int) == l.map_values(|x: usize| HalfEdgeId(x)),
        forall|k: nat| k < l.len() ==> #[trigger] walk(hes, l[0] as int, k) == l[k as int],
        forall|x: int| #[trigger] in_loop(hes, l[0] as int, x) <==> exists|i: int| 0 <= i < l.len() && l[i] == x,
{
    let h = l[0] as int;
    let n = l.len();
    assert forall|k: nat| k < n implies #[trigger] walk(hes, h, k) == l[k as int] by {
        lemma_cycle_walk(hes, l, k);
    }
    lemma_cycle_walk(hes, l, (n - 1) as nat);
    assert(walk(hes, h, n) == h);
    assert(returns_at(hes, h, n));
    lemma_period_unique(hes, h, n);
    assert(loop_from(hes, h) =~= l.map_values(|x: usize| HalfEdgeId(x)));
    assert forall|x: int| #[trigger] in_loop(hes, h, x) <==> exists|i: int| 0 <= i < l.len() && l[i] == x by {
        if in_loop(hes, h, x) {
            let k = choose|k: nat| k < period(hes, h) && #[trigger] walk(hes, h, k) == x;
            assert(l[k as int] == x);
        }
        if exists|i: int| 0 <= i < l.len() && l[i] == x {
            let i = choose|i: int| 0 <= i < l.len() && l[i] == x;
            assert(walk(hes, h, i as nat) == x);
        }
    }
}

proof fn lemma_cycle_walk(hes: Seq<HalfEdge>, l: Seq<usize>, k: nat)
    requires
        is_cycle(hes, l),
        k < l.len(),
    ensures
        walk(hes, l[0] as int, k) == l[k as int],
    decreases k,
{
    if k > 0 {
        lemma_cycle_walk(hes, l, (k - 1) as nat);
        assert(l[k - 1] < hes.len());
    }
}

impl<P> Shell<P> {
    /// The vertex with the given handle.
    pub fn vertex(&self, id: VertexId) -> (v: &Vertex<P>)
        requires
            id.0 < self.vertices@.len(),
        ensures
            *v == self.vertices@[id.0 as int],
    {
        &self.vertices[id.0]
    }

    /// The half-edge with the given handle.
    pub fn half_edge(&self, id: HalfEdgeId) -> (he: &HalfEdge)
        requires
            id.0 < self.half_edges@.len(),
        ensures
            *he == self.half_edges@[id.0 as int],
    {
        &self.half_edges[id.0]
    }

    /// The face with the given handle.
    pub fn face(&self, id: FaceId) -> (f: &Face)
        requires
            id.0 < self.faces@.len(),
        ensures
            *f == self.faces@[id.0 as int],
    {
        &self.faces[id.0]
    }

    /// The destination vertex of a half-edge is the origin of its `next`.
    pub fn destination(&self, id: HalfEdgeId) -> (v: VertexId)
        requires
            id.0 < self.half_edges@.len(),
            self.half_edges@[id.0 as int].next.0 < self.half_edges@.len(),
        ensures
            v == self.half_edges@[self.half_edges@[id.0 as int].next.0 as int].origin,
    {
        let next = self.half_edge(id).next;
        self.half_edge(next).origin
    }

    /// Walk a face's boundary loop, returning its half-edges in order,
    /// starting with the face's own half-edge.
    pub fn face_loop(&self, face: FaceId) -> (out: Vec<HalfEdgeId>)
        requires
            face.0 < self.faces@.len(),
            has_loop(self.half_edges@, self.faces@[face.0 as int].half_edge.0 as int),
        ensures
            out@ == loop_from(self.half_edges@, self.faces@[face.0 as int].half_edge.0 as int),
    {
        let start = self.face(face).half_edge;
        let ghost hes = self.half_edges@;
        let ghost h = start.0 as int;
        proof {
            lemma_loop_basics(hes, h);
        }
        let mut out = vec![start];
        let mut cur = self.half_edge(start).next;
        let ghost mut i: nat = 1;
        assert(walk(hes, h, 0) == h);
        assert(cur.0 == walk(hes, h, 1));
        while cur.0 != start.0
            invariant
                hes == self.half_edges@,
                h == start.0,
                has_loop(hes, h),
                returns_at(hes, h, period(hes, h)),
                forall|j: nat| j <= period(hes, h) ==> 0 <= #[trigger] walk(hes, h, j) < hes.len(),
                1 <= i <= period(hes, h),
                cur.0 == walk(hes, h, i),
                out@.len() == i,
                forall|k: int| 0 <= k < i ==> out@[k] == HalfEdgeId(walk(hes, h, k as nat) as usize),
            decreases period(hes, h) - i,
        {
            assert(i < period(hes, h));
            out.push(cur);
            cur = self.half_edge(cur).next;
            proof {
                i = i + 1;
            }
        }
        assert(i == period(hes, h));
        assert(out@ =~= loop_from(hes, h));
        out
    }

    /// True if every half-edge has a twin, i.e. the shell has no boundary edges.
    pub fn is_closed(&self) -> (closed: bool)
        ensures
            closed == forall|i: int|
                0 <= i < self.half_edges@.len() ==> (#[trigger] self.half_edges@[i]).twin is Some,
    {
        let mut i: usize = 0;
        while i < self.half_edges.len()
            invariant
                i <= self.half_edges@.len(),
                forall|k: int| 0 <= k < i ==> (#[trigger] self.half_edges@[k]).twin is Some,
            decreases self.half_edges@.len() - i,
        {
            if self.half_edges[i].twin.is_none() {
                return false;
            }
            i += 1;
        }
        true
    }

    /// Euler–Poincaré count `V - E + F`, where `E` is half the number of
    /// half-edges (rounded down). For a single closed shell of genus 0 it is 2.
    pub fn euler_characteristic(&self) -> (chi: i64)
        requires
            self.half_edges@.len() <= i64::MAX,
            self.vertices@.len() + self.faces@.len() <= i64::MAX,
        ensures
            chi == euler_count(self.vertices@.len(), self.half_edges@.len(), self.faces@.len()),
            chi == self.vertices@.len() as int - self.half_edges@.len() as int / 2 + self.faces@.len() as int,
    {
        let v = self.vertices.len() as i64;
        let e = (self.half_edges.len() / 2) as i64;
        let f = self.faces.len() as i64;
        v - e + f
    }
}

/// `V - E + F` for `v` vertices, `h` half-edges and `f` faces.
pub open spec fn euler_count(v: nat, h: nat, f: nat) -> int {
    v - h / 2 + f
}

/// `V - E + F` is signed and additive: it is 0 for nothing at all, each vertex
/// and each face adds one, each edge (two half-edges) takes one away, so it
/// goes negative once edges outnumber vertices and faces (a closed shell of
/// genus `G` has `2 - 2G`).
pub proof fn law_euler_count_additive(v: nat, h: nat, f: nat)
    ensures
        euler_count(0, 0, 0) == 0,
        euler_count(v + 1, h, f) == euler_count(v, h, f) + 1,
        euler_count(v, h, f + 1) == euler_count(v, h, f) + 1,
        euler_count(v, h + 2, f) == euler_count(v, h, f) - 1,
        euler_count(v, h + 1, f) == euler_count(v, h, f) - (h % 2),
        euler_count(v, h, f) + h / 2 == v + f,
{
}

/// The key of a directed edge from vertex `a` to vertex `b`: `a` in the high
/// 64 bits, `b` in the low ones.
pub open spec fn key_of(a: usize, b: usize) -> u128 {
    (a as u128 * 0x1_0000_0000_0000_0000u128 + b as u128) as u128
}

/// The key of the directed edge of half-edge `j`.
pub open spec fn edge_key(hes: Seq<HalfEdge>, j: int) -> u128 {
    key_of(hes[j].origin.0, dest(hes, j).0)
}

/// Computes `key_of(a, b)`.
fn directed_edge_key(a: usize, b: usize) -> (key: u128)
    ensures
        key == key_of(a, b),
{
    assert(a as u128 * 0x1_0000_0000_0000_0000u128 + b as u128 <= u128::MAX) by (nonlinear_arith)
        requires
            a <= 0xffff_ffff_ffff_ffffu128,
            b <= 0xffff_ffff_ffff_ffffu128,
    ;
    (a as u128) * 0x1_0000_0000_0000_0000u128 + (b as u128)
}

/// Distinct edges have distinct keys.
proof fn lemma_key_of_injective(a: usize, b: usize, c: usize, d: usize)
    requires
        key_of(a, b) == key_of(c, d),
    ensures
        a == c,
        b == d,
{
    assert(a as int * 0x1_0000_0000_0000_0000 + b as int <= u128::MAX) by (nonlinear_arith)
        requires
            a <= 0xffff_ffff_ffff_ffffint,
            b <= 0xffff_ffff_ffff_ffffint,
    ;
    assert(c as int * 0x1_0000_0000_0000_0000 + d as int <= u128::MAX) by (nonlinear_arith)
        requires
            c <= 0xffff_ffff_ffff_ffffint,
            d <= 0xffff_ffff_ffff_ffffint,
    ;
    assert(a == c && b == d) by (nonlinear_arith)
        requires
            a as int * 0x1_0000_0000_0000_0000 + b as int == c as int * 0x1_0000_0000_0000_0000 + d as int,
            0 <= b <= 0xffff_ffff_ffff_ffffint,
            0 <= d <= 0xffff_ffff_ffff_ffffint,
            0 <= a,
            0 <= c,
    ;
}

/// Two half-edges with the same directed-edge key in a graph without
/// repeated directed edges are the same half-edge.
proof fn lemma_edge_key_injective(hes: Seq<HalfEdge>, j: int, k: int)
    requires
        distinct_directed(hes),
        0 <= j < hes.len(),
        0 <= k < hes.len(),
        edge_key(hes, j) == edge_key(hes, k),
    ensures
        j == k,
{
    lemma_key_of_injective(hes[j].origin.0, dest(hes, j).0, hes[k].origin.0, dest(hes, k).0);
    if j != k {
        assert(hes[j].origin == hes[k].origin);
    }
}

/// A half-edge whose key is that of the edge from `a` to `b` runs from `a` to `b`.
proof fn lemma_edge_key_parts(hes: Seq<HalfEdge>, k: int, a: usize, b: usize)
    requires
        edge_key(hes, k) == key_of(a, b),
    ensures
        hes[k].origin.0 == a,
        dest(hes, k).0 == b,
{
    lemma_key_of_injective(hes[k].origin.0, dest(hes, k).0, a, b);
}

impl<P: Copy> Shell<P> {
    /// Builds a shell from "polygon soup": vertex positions, and faces given
    /// as loops of vertex indices wound counter-clockwise as seen from outside
    /// the solid. Each face gets a ring of half-edges; then every half-edge is
    /// paired with the one running the opposite way, where there is one.
    /// This helper trusts its input; the Euler operators are the construction
    /// path that is valid by design.
    #[verifier::rlimit(40)]
    pub fn from_polygons(positions: &[P], faces: &[Vec<usize>]) -> (shell: Shell<P>)
        requires
            soup_ok(positions@.len(), polygons(faces@)),
        ensures
            shell.vertices@ == soup_vertices(positions@, polygons(faces@)),
            shell.half_edges@ == soup_half_edges(polygons(faces@)),
            shell.faces@ == soup_faces(polygons(faces@)),
    {
        broadcast use vstd::std_specs::hash::group_hash_axioms;

        let ghost fs = polygons(faces@);
        let ghost np = positions@.len();
        assert(np == positions.len());
        proof {
            lemma_rings(fs, fs.len() as int, np);
        }
        let mut vertices: Vec<Vertex<P>> = Vec::new();
        let mut k: usize = 0;
        while k < positions.len()
            invariant
                k <= positions@.len(),
                vertices@.len() == k,
                forall|v: int|
                    0 <= v < k ==> #[trigger] vertices@[v] == (Vertex {
                        position: positions@[v],
                        half_edge: None,
                    }),
            decreases positions@.len() - k,
        {
            vertices.push(Vertex { position: positions[k], half_edge: None });
            k += 1;
        }
        let mut shell = Shell { vertices, half_edges: Vec::new(), faces: Vec::new() };

        let mut f: usize = 0;
        while f < faces.len()
            invariant
                fs == polygons(faces@),
                np == positions@.len(),
                np <= usize::MAX,
                soup_ok(np, fs),
                f <= fs.len(),
                shell.half_edges@ == rings(fs, f as int),
                rings(fs, f as int).len() == offset(fs, f as int),
                offset(fs, f as int) <= offset(fs, fs.len() as int),
                shell.faces@ == soup_faces(fs).take(f as int),
                shell.vertices@.len() == np,
                forall|v: int|
                    0 <= v < np ==> #[trigger] shell.vertices@[v] == (Vertex {
                        position: positions@[v],
                        half_edge: first_leaving(shell.half_edges@, VertexId(v as usize)),
                    }),
            decreases fs.len() - f,
        {
            let loop_indices = &faces[f];
            let n = loop_indices.len();
            let base = shell.half_edges.len();
            let face_id = FaceId(shell.faces.len());
            let ghost lp = fs[f as int];
            let ghost before = shell.half_edges@;
            proof {
                lemma_rings(fs, f + 1, np);
                lemma_offset_mono(fs, f + 1, fs.len() as int);
                assert(lp == loop_indices@);
                assert(lp.len() >= 3);
                assert forall|k: int| 0 <= k < lp.len() implies #[trigger] lp[k] < np by {
                    assert(fs[f as int][k] < np);
                }
            }

            // First pass: the half-edges, with origin and face set and
            // next/prev pointing at themselves.
            let mut i: usize = 0;
            while i < n
                invariant
                    fs == polygons(faces@),
                    np == positions@.len(),
                    np <= usize::MAX,
                    forall|k: int| 0 <= k < lp.len() ==> #[trigger] lp[k] < np,
                    offset(fs, fs.len() as int) < usize::MAX,
                    f < fs.len(),
                    lp == fs[f as int],
                    lp == loop_indices@,
                    n == lp.len(),
                    base == before.len(),
                    before == rings(fs, f as int),
                    base + n == offset(fs, f + 1),
                    offset(fs, f + 1) <= offset(fs, fs.len() as int),
                    face_id == FaceId(f),
                    i <= n,
                    shell.half_edges@ == before + partial_ring(lp, base as int, f as int, 0).take(i as int),
                    shell.faces@ == soup_faces(fs).take(f as int),
                    shell.vertices@.len() == np,
                    forall|v: int|
                        0 <= v < np ==> #[trigger] shell.vertices@[v] == (Vertex {
                            position: positions@[v],
                            half_edge: first_leaving(shell.half_edges@, VertexId(v as usize)),
                        }),
                decreases n - i,
            {
                let v = loop_indices[i];
                let he_id = HalfEdgeId(base + i);
                let ghost old_hes = shell.half_edges@;
                let he = HalfEdge { origin: VertexId(v), twin: None, next: he_id, prev: he_id, face: Some(face_id) };
                assert(v < np);
                shell.half_edges.push(he);
                proof {
                    assert forall|u: int| 0 <= u < np implies #[trigger] first_leaving(shell.half_edges@, VertexId(u as usize))
                        == (if first_leaving(old_hes, VertexId(u as usize)) is Some {
                        first_leaving(old_hes, VertexId(u as usize))
                    } else if he.origin == VertexId(u as usize) {
                        Some(he_id)
                    } else {
                        None
                    }) by {
                        lemma_first_leaving_push(old_hes, he, VertexId(u as usize));
                    }
                }
                let ghost old_vs = shell.vertices@;
                if shell.vertices[v].half_edge.is_none() {
                    shell.vertices[v].half_edge = Some(he_id);
                }
                proof {
                    assert forall|u: int| 0 <= u < np implies #[trigger] shell.vertices@[u] == (Vertex {
                        position: positions@[u],
                        half_edge: first_leaving(shell.half_edges@, VertexId(u as usize)),
                    }) by {
                        if u != v {
                            assert(old_vs[u] == shell.vertices@[u]);
                            assert(he.origin != VertexId(u as usize));
                        }
                    }
                }
                assert(shell.half_edges@ =~= before + partial_ring(lp, base as int, f as int, 0).take(i + 1));
                i += 1;
            }
            assert(shell.half_edges@ =~= before + partial_ring(lp, base as int, f as int, 0));

            // Second pass: stitch the cyclic next/prev links.
            let ghost origins = shell.half_edges@;
            let mut i: usize = 0;
            while i < n
                invariant
                    fs == polygons(faces@),
                    np == positions@.len(),
                    np <= usize::MAX,
                    forall|k: int| 0 <= k < lp.len() ==> #[trigger] lp[k] < np,
                    offset(fs, fs.len() as int) < usize::MAX,
                    f < fs.len(),
                    lp == fs[f as int],
                    n == lp.len(),
                    n >= 3,
                    base == before.len(),
                    before == rings(fs, f as int),
                    base + n == offset(fs, f + 1),
                    offset(fs, f + 1) <= offset(fs, fs.len() as int),
                    face_id == FaceId(f),
                    i <= n,
                    shell.half_edges@ == before + partial_ring(lp, base as int, f as int, i as int),
                    origins == before + partial_ring(lp, base as int, f as int, 0),
                    shell.faces@ == soup_faces(fs).take(f as int),
                    shell.vertices@.len() == np,
                    forall|v: int|
                        0 <= v < np ==> #[trigger] shell.vertices@[v] == (Vertex {
                            position: positions@[v],
                            half_edge: first_leaving(origins, VertexId(v as usize)),
                        }),
                decreases n - i,
            {
                let cur = base + i;
                let nxt = base + (i + 1) % n;
                let ghost old_hes = shell.half_edges@;
                shell.half_edges[cur].next = HalfEdgeId(nxt);
                shell.half_edges[nxt].prev = HalfEdgeId(cur);
                proof {
                    let r0 = partial_ring(lp, base as int, f as int, i as int);
                    let r1 = partial_ring(lp, base as int, f as int, i + 1);
                    let m = (i + 1) % (n as int);
                    lemma_ring_step(i as int, n as int);
                    lemma_ring_step(m, n as int);
                    assert forall|k: int| 0 <= k < n implies r1[k] == (if k == i {
                        with_next(r0[k], HalfEdgeId(nxt))
                    } else if k == m {
                        with_prev(r0[k], HalfEdgeId(cur))
                    } else {
                        r0[k]
                    }) by {
                        lemma_ring_step(k, n as int);
                    }
                }
                assert(shell.half_edges@ =~= before + partial_ring(lp, base as int, f as int, i + 1));
                i += 1;
            }
            assert(partial_ring(lp, base as int, f as int, n as int) =~= ring(lp, base as int, f as int));
            assert(shell.half_edges@ =~= rings(fs, f + 1));
            proof {
                assert forall|v: int| 0 <= v < np implies #[trigger] first_leaving(origins, VertexId(v as usize))
                    == first_leaving(shell.half_edges@, VertexId(v as usize)) by {
                    lemma_first_leaving_same_origins(origins, shell.half_edges@, VertexId(v as usize));
                }
            }

            shell.faces.push(Face { half_edge: HalfEdgeId(base) });
            assert(shell.faces@ =~= soup_faces(fs).take(f + 1));
            f += 1;
        }
        assert(shell.faces@ =~= soup_faces(fs));

        // Pair each directed edge (a, b) with its opposite (b, a): index
        // every half-edge by the key of its directed edge, then look up the
        // key of the reversed edge.
        let total = shell.half_edges.len();
        let ghost links = shell.half_edges@;
        let mut directed: HashMap<u128, usize> = HashMap::new();
        let mut j: usize = 0;
        while j < total
            invariant
                fs == polygons(faces@),
                soup_ok(np, fs),
                links == rings(fs, fs.len() as int),
                links.len() == total,
                shell.half_edges@ == links,
                forall|x: int| 0 <= x < total ==> (#[trigger] links[x]).next.0 < total,
                j <= total,
                forall|k: int|
                    0 <= k < j ==> #[trigger] directed@.contains_key(edge_key(links, k))
                        && directed@[edge_key(links, k)] == k,
                forall|key: u128|
                    #[trigger] directed@.contains_key(key) ==> directed@[key] < j && edge_key(
                        links,
                        directed@[key] as int,
                    ) == key,
            decreases total - j,
        {
            let o = shell.half_edges[j].origin.0;
            let d = shell.half_edges[shell.half_edges[j].next.0].origin.0;
            let key = directed_edge_key(o, d);
            let ghost before = directed@;
            proof {
                assert(key == edge_key(links, j as int));
                if before.contains_key(key) {
                    let k = before[key] as int;
                    lemma_edge_key_injective(links, k, j as int);
                }
            }
            directed.insert(key, j);
            proof {
                assert forall|k: int| 0 <= k < j + 1 implies #[trigger] directed@.contains_key(
                    edge_key(links, k),
                ) && directed@[edge_key(links, k)] == k by {
                    if k < j {
                        if edge_key(links, k) == key {
                            lemma_edge_key_injective(links, k, j as int);
                        }
                    }
                }
            }
            j += 1;
        }

        let mut j: usize = 0;
        while j < total
            invariant
                fs == polygons(faces@),
                soup_ok(np, fs),
                links == rings(fs, fs.len() as int),
                links.len() == total,
                forall|x: int|
                    0 <= x < total ==> (#[trigger] links[x]).next.0 < total && links[x].twin is None,
                forall|k: int|
                    0 <= k < total ==> #[trigger] directed@.contains_key(edge_key(links, k))
                        && directed@[edge_key(links, k)] == k,
                forall|key: u128|
                    #[trigger] directed@.contains_key(key) ==> directed@[key] < total && edge_key(
                        links,
                        directed@[key] as int,
                    ) == key,
                j <= total,
                shell.half_edges@.len() == total,
                forall|x: int|
                    0 <= x < total ==> #[trigger] shell.half_edges@[x] == (if x < j {
                        with_twin(links[x], opposite(links, x))
                    } else {
                        links[x]
                    }),
                shell.vertices@ == soup_vertices(positions@, fs),
                shell.faces@ == soup_faces(fs),
            decreases total - j,
        {
            let o = shell.half_edges[j].origin.0;
            let d = shell.half_edges[shell.half_edges[j].next.0].origin.0;
            let key = directed_edge_key(d, o);
            let found = directed.get(&key);
            proof {
                match found {
                    Some(t) => {
                        let k = *t as int;
                        assert(edge_key(links, k) == key);
                        lemma_edge_key_parts(links, k, d, o);
                        assert(reverses(links, j as int, k));
                        lemma_opposite_is(links, j as int, k);
                    },
                    None => {
                        assert forall|k: int| !(#[trigger] reverses(links, j as int, k)) by {
                            if reverses(links, j as int, k) {
                                assert(directed@.contains_key(edge_key(links, k)));
                                assert(edge_key(links, k) == key);
                            }
                        }
                    },
                }
            }
            if let Some(t) = found {
                shell.half_edges[j].twin = Some(HalfEdgeId(*t));
            }
            j += 1;
        }
        assert(shell.half_edges@ =~= soup_half_edges(fs));
        shell
    }
}

impl<P> Default for Shell<P> {
    /// The empty shell.
    fn default() -> (s: Self)
        ensures
            s.vertices@.len() == 0,
            s.half_edges@.len() == 0,
            s.faces@.len() == 0,
    {
        Shell { vertices: Vec::new(), half_edges: Vec::new(), faces: Vec::new() }
    }
}

} // verus!
