//! Laws of the Euler operators: what every construction step preserves.
//!
//! Each operator moves `(V, E, F)` by a fixed amount that keeps
//! `V - E + F = 2`, and each keeps the structural invariants checked by
//! `validate`, so any shell assembled from `mvfs`, `mev` and `mef` alone is
//! topologically valid by construction.
use vstd::prelude::*;
use crate::euler::{
    check_half_edge, lemma_outcome, mef_half_edges, mef_links, mef_old_face, mef_ready, mev_back,
    mev_half_edges, mvfs_half_edges, outcome_from, paint_loop, valid,
};
use crate::tessellate::loops_ok;
use crate::topology::{
    euler_count, has_loop, in_loop, is_cycle, lemma_cycle, lemma_first_return, lemma_loop_basics,
    lemma_period_unique, loop_from, period, returns_at, walk, Face, FaceId, HalfEdge, HalfEdgeId,
    Vertex, VertexId,
};
use vstd::relations::injective_on;
use vstd::set_lib::{lemma_int_range, lemma_len_subset, lemma_map_size, set_int_range};

verus! {

/// The seed shell made by `mvfs` is valid, and `V - E + F = 1 - 0 + 1 = 2`.
pub proof fn law_mvfs_valid()
    ensures
        valid(mvfs_half_edges()),
        euler_count(1, mvfs_half_edges().len(), 1) == 2,
{
    let hes = mvfs_half_edges();
    assert(check_half_edge(hes, 0) is Pass);
}

/// `mev` keeps the half-edge graph valid, provided `at` is either an edge half
/// (it has a twin) or the seed self-loop.
pub proof fn law_mev_valid(hes: Seq<HalfEdge>, w: VertexId, at: int)
    requires
        valid(hes),
        0 <= at < hes.len(),
        hes.len() + 2 <= usize::MAX,
        hes[at].twin is Some || hes[at].next.0 == at,
    ensures
        valid(mev_half_edges(hes, w, at)),
{
    let new = mev_half_edges(hes, w, at);
    let n = hes.len() as int;
    assert(check_half_edge(hes, at) is Pass);
    if hes[at].twin is None {
        assert(hes[at].prev.0 == at);
        assert(check_half_edge(new, at) is Pass);
        assert(check_half_edge(new, n) is Pass);
        assert forall|i: int| 0 <= i < new.len() implies #[trigger] check_half_edge(new, i) is Pass by {
            if i != at && i != n {
                assert(check_half_edge(hes, i) is Pass);
                let x = hes[i];
                if x.twin is Some {
                    let t = x.twin.unwrap().0 as int;
                    assert(check_half_edge(hes, t) is Pass);
                }
            }
        }
    } else {
        let prev = hes[at].prev.0 as int;
        assert(check_half_edge(hes, prev) is Pass);
        assert(check_half_edge(new, at) is Pass);
        assert(check_half_edge(new, n) is Pass);
        assert(check_half_edge(new, n + 1) is Pass);
        assert(check_half_edge(new, prev) is Pass);
        assert forall|i: int| 0 <= i < new.len() implies #[trigger] check_half_edge(new, i) is Pass by {
            if i < n {
                assert(check_half_edge(hes, i) is Pass);
                let x = hes[i];
                if x.twin is Some {
                    let t = x.twin.unwrap().0 as int;
                    assert(check_half_edge(hes, t) is Pass);
                }
            }
        }
    }
}

/// In a valid graph a walk never leaves the arena.
pub proof fn lemma_valid_walk_in_range(hes: Seq<HalfEdge>, h: int, k: nat)
    requires
        valid(hes),
        0 <= h < hes.len(),
    ensures
        0 <= walk(hes, h, k) < hes.len(),
    decreases k,
{
    if k > 0 {
        lemma_valid_walk_in_range(hes, h, (k - 1) as nat);
        assert(check_half_edge(hes, walk(hes, h, (k - 1) as nat)) is Pass);
    }
}

/// In a valid graph `next` is injective, so two walks that meet stepped in
/// lockstep from the start.
proof fn lemma_valid_walk_cancel(hes: Seq<HalfEdge>, h: int, i: nat, j: nat)
    requires
        valid(hes),
        0 <= h < hes.len(),
        i <= j,
        walk(hes, h, i) == walk(hes, h, j),
    ensures
        walk(hes, h, (j - i) as nat) == h,
    decreases i,
{
    if i > 0 {
        let a = walk(hes, h, (i - 1) as nat);
        let b = walk(hes, h, (j - 1) as nat);
        lemma_valid_walk_in_range(hes, h, (i - 1) as nat);
        lemma_valid_walk_in_range(hes, h, (j - 1) as nat);
        assert(check_half_edge(hes, a) is Pass);
        assert(check_half_edge(hes, b) is Pass);
        lemma_valid_walk_cancel(hes, h, (i - 1) as nat, (j - 1) as nat);
    }
}

/// Every half-edge of a valid graph lies on a loop (of at most `len` steps):
/// `next` is a permutation of the arena.
pub proof fn law_valid_loops(hes: Seq<HalfEdge>, h: int)
    requires
        valid(hes),
        0 <= h < hes.len(),
    ensures
        has_loop(hes, h),
        period(hes, h) <= hes.len(),
{
    let n = hes.len() as int;
    let f = |k: int| walk(hes, h, k as nat);
    let xs = set_int_range(0, n + 1);
    let ys = set_int_range(0, n);
    lemma_int_range(0, n + 1);
    lemma_int_range(0, n);
    assert(xs.map(f).subset_of(ys)) by {
        assert forall|y: int| xs.map(f).contains(y) implies ys.contains(y) by {
            let k = choose|k: int| xs.contains(k) && f(k) == y;
            lemma_valid_walk_in_range(hes, h, k as nat);
        }
    }
    lemma_map_finite_int(xs, f);
    lemma_len_subset(xs.map(f), ys);
    if injective_on(f, xs) {
        lemma_map_size(xs, xs.map(f), f);
        assert(false);
    }
    let (i, j) = choose|i: int, j: int| xs.contains(i) && xs.contains(j) && f(i) == f(j) && i != j;
    if i < j {
        lemma_valid_walk_cancel(hes, h, i as nat, j as nat);
        lemma_first_return(hes, h, (j - i) as nat);
    } else {
        lemma_valid_walk_cancel(hes, h, j as nat, i as nat);
        lemma_first_return(hes, h, (i - j) as nat);
    }
}

proof fn lemma_map_finite_int(xs: Set<int>, f: spec_fn(int) -> int)
    requires
        xs.finite(),
    ensures
        xs.map(f).finite(),
{
    xs.lemma_map_finite(f);
}

/// The steps of a loop in a valid graph visit distinct half-edges.
proof fn lemma_valid_loop_distinct(hes: Seq<HalfEdge>, h: int, i: nat, j: nat)
    requires
        valid(hes),
        has_loop(hes, h),
        i < j < period(hes, h),
    ensures
        walk(hes, h, i) != walk(hes, h, j),
{
    lemma_loop_basics(hes, h);
    if walk(hes, h, i) == walk(hes, h, j) {
        lemma_valid_walk_cancel(hes, h, i, j);
        assert(walk(hes, h, (j - i) as nat) != h);
    }
}

/// In a valid graph the half-edge before step `k + 1` of a walk is step `k`.
proof fn lemma_valid_prev_step(hes: Seq<HalfEdge>, h: int, k: nat)
    requires
        valid(hes),
        0 <= h < hes.len(),
    ensures
        hes[walk(hes, h, k + 1)].prev.0 == walk(hes, h, k),
{
    lemma_valid_walk_in_range(hes, h, k);
    assert(check_half_edge(hes, walk(hes, h, k)) is Pass);
}

/// In a valid graph every half-edge of a loop bounds the same face.
proof fn lemma_valid_face_along(hes: Seq<HalfEdge>, h: int, k: nat)
    requires
        valid(hes),
        0 <= h < hes.len(),
    ensures
        hes[walk(hes, h, k)].face == hes[h].face,
    decreases k,
{
    if k > 0 {
        lemma_valid_face_along(hes, h, (k - 1) as nat);
        lemma_valid_walk_in_range(hes, h, (k - 1) as nat);
        assert(check_half_edge(hes, walk(hes, h, (k - 1) as nat)) is Pass);
    }
}

/// The link conditions of `validate` on half-edge `i`, all but the face one.
spec fn links_ok(hes: Seq<HalfEdge>, i: int) -> bool {
    let he = hes[i];
    let n = he.next.0 as int;
    let p = he.prev.0 as int;
    &&& n < hes.len()
    &&& hes[n].prev.0 == i
    &&& p < hes.len()
    &&& hes[p].next.0 == i
    &&& he.twin is Some ==> {
        let t = he.twin.unwrap().0 as int;
        &&& t < hes.len()
        &&& hes[t].twin == Some(HalfEdgeId(i as usize))
        &&& hes[t].origin == hes[n].origin
    }
}

proof fn lemma_check_pass(hes: Seq<HalfEdge>, i: int)
    requires
        0 <= i < hes.len(),
        i <= usize::MAX,
    ensures
        check_half_edge(hes, i) is Pass <==> (links_ok(hes, i) && hes[i].face == hes[hes[i].next.0 as int].face),
{
}

/// The facts about the arena after the splice of `mef(ha, hb)`, where `hb`
/// is `d` steps round the loop of `ha`, whose period is `p`.
proof fn lemma_mef_links(hes: Seq<HalfEdge>, ha: int, hb: int, f: FaceId, p: nat, d: nat)
    requires
        valid(hes),
        0 <= ha < hes.len(),
        hes.len() + 2 <= usize::MAX,
        has_loop(hes, ha),
        p == period(hes, ha),
        1 <= d < p,
        walk(hes, ha, d) == hb,
    ensures
        ({
            let l = mef_links(hes, ha, hb, f);
            let n = hes.len() as int;
            let pa = walk(hes, ha, (p - 1) as nat);
            let pb = walk(hes, ha, (d - 1) as nat);
            &&& hes[ha].prev.0 == pa
            &&& hes[hb].prev.0 == pb
            &&& hes[pa].next.0 == ha
            &&& hes[pb].next.0 == hb
            &&& 0 <= pa < n
            &&& 0 <= pb < n
            &&& 0 <= hb < n
            &&& pa != pb
            &&& pa != ha
            &&& pb != hb
            &&& ha != hb
            &&& l.len() == n + 2
            &&& forall|x: int|
                0 <= x < n ==> {
                    &&& (#[trigger] l[x]).origin == hes[x].origin
                    &&& l[x].twin == hes[x].twin
                    &&& l[x].face == hes[x].face
                    &&& l[x].next == (if x == pb {
                        HalfEdgeId((n + 1) as usize)
                    } else if x == pa {
                        HalfEdgeId(n as usize)
                    } else {
                        hes[x].next
                    })
                    &&& l[x].prev == (if x == ha {
                        HalfEdgeId((n + 1) as usize)
                    } else if x == hb {
                        HalfEdgeId(n as usize)
                    } else {
                        hes[x].prev
                    })
                }
            &&& l[n] == HalfEdge {
                origin: hes[ha].origin,
                twin: Some(HalfEdgeId((n + 1) as usize)),
                next: HalfEdgeId(hb as usize),
                prev: HalfEdgeId(pa as usize),
                face: Some(f),
            }
            &&& l[n + 1] == HalfEdge {
                origin: hes[hb].origin,
                twin: Some(HalfEdgeId(n as usize)),
                next: HalfEdgeId(ha as usize),
                prev: HalfEdgeId(pb as usize),
                face: None,
            }
        }),
{
    lemma_loop_basics(hes, ha);
    lemma_valid_prev_step(hes, ha, (p - 1) as nat);
    lemma_valid_prev_step(hes, ha, (d - 1) as nat);
    lemma_valid_loop_distinct(hes, ha, (d - 1) as nat, (p - 1) as nat);
    lemma_valid_loop_distinct(hes, ha, (d - 1) as nat, d);
    lemma_valid_loop_distinct(hes, ha, 0, d);
    lemma_valid_loop_distinct(hes, ha, 0, (p - 1) as nat);
    assert((d - 1) as nat + 1 == d);
    assert((p - 1) as nat + 1 == p);
}

/// After the splice of `mef(ha, hb)` the loop of `ha` is the stretch of its
/// old loop from `ha` to the half-edge before `hb`, closed by the new `b -> a`.
proof fn lemma_mef_new_loop(hes: Seq<HalfEdge>, ha: int, hb: int, f: FaceId, p: nat, d: nat)
    requires
        valid(hes),
        0 <= ha < hes.len(),
        hes.len() + 2 <= usize::MAX,
        has_loop(hes, ha),
        p == period(hes, ha),
        1 <= d < p,
        walk(hes, ha, d) == hb,
    ensures
        ({
            let l = mef_links(hes, ha, hb, f);
            let n = hes.len() as int;
            &&& forall|k: nat| k < d ==> #[trigger] walk(l, ha, k) == walk(hes, ha, k)
            &&& walk(l, ha, d) == n + 1
            &&& has_loop(l, ha)
            &&& period(l, ha) == d + 1
            &&& forall|x: int|
                #[trigger] in_loop(l, ha, x) <==> (x == n + 1 || exists|k: nat|
                    k < d && #[trigger] walk(hes, ha, k) == x)
        }),
{
    let l = mef_links(hes, ha, hb, f);
    let n = hes.len() as int;
    let pa = walk(hes, ha, (p - 1) as nat);
    let pb = walk(hes, ha, (d - 1) as nat);
    lemma_mef_links(hes, ha, hb, f, p, d);
    lemma_loop_basics(hes, ha);
    assert forall|k: nat| k < d implies #[trigger] walk(l, ha, k) == walk(hes, ha, k) by {
        lemma_mef_walk_prefix(hes, ha, hb, f, p, d, k);
    }
    assert(walk(l, ha, (d - 1) as nat) == pb);
    assert(walk(l, ha, d) == n + 1);
    assert(walk(l, ha, d + 1) == ha);
    assert forall|j: nat| 1 <= j < d + 1 implies #[trigger] walk(l, ha, j) != ha by {
        if j < d {
            lemma_valid_loop_distinct(hes, ha, 0, j);
        }
    }
    assert(returns_at(l, ha, d + 1));
    lemma_period_unique(l, ha, d + 1);
    assert forall|x: int|
        #[trigger] in_loop(l, ha, x) <==> (x == n + 1 || exists|k: nat|
            k < d && #[trigger] walk(hes, ha, k) == x) by {
        if in_loop(l, ha, x) {
            let k = choose|k: nat| k < period(l, ha) && #[trigger] walk(l, ha, k) == x;
            if k < d {
                assert(walk(hes, ha, k) == x);
            }
        }
        if x == n + 1 {
            assert(walk(l, ha, d) == x);
        }
        if exists|k: nat| k < d && #[trigger] walk(hes, ha, k) == x {
            let k = choose|k: nat| k < d && #[trigger] walk(hes, ha, k) == x;
            assert(walk(l, ha, k) == x);
        }
    }
}

proof fn lemma_mef_walk_prefix(hes: Seq<HalfEdge>, ha: int, hb: int, f: FaceId, p: nat, d: nat, k: nat)
    requires
        valid(hes),
        0 <= ha < hes.len(),
        hes.len() + 2 <= usize::MAX,
        has_loop(hes, ha),
        p == period(hes, ha),
        1 <= d < p,
        walk(hes, ha, d) == hb,
        k < d,
    ensures
        walk(mef_links(hes, ha, hb, f), ha, k) == walk(hes, ha, k),
    decreases k,
{
    if k > 0 {
        let l = mef_links(hes, ha, hb, f);
        lemma_mef_walk_prefix(hes, ha, hb, f, p, d, (k - 1) as nat);
        lemma_mef_links(hes, ha, hb, f, p, d);
        lemma_loop_basics(hes, ha);
        lemma_valid_loop_distinct(hes, ha, (k - 1) as nat, (d - 1) as nat);
        lemma_valid_loop_distinct(hes, ha, (k - 1) as nat, (p - 1) as nat);
        assert(0 <= walk(hes, ha, (k - 1) as nat) < hes.len());
    }
}

/// The splice of `mef` keeps every link condition of `validate`.
proof fn lemma_mef_links_ok(hes: Seq<HalfEdge>, ha: int, hb: int, f: FaceId, p: nat, d: nat)
    requires
        valid(hes),
        0 <= ha < hes.len(),
        hes.len() + 2 <= usize::MAX,
        has_loop(hes, ha),
        p == period(hes, ha),
        1 <= d < p,
        walk(hes, ha, d) == hb,
    ensures
        forall|i: int| 0 <= i < hes.len() + 2 ==> #[trigger] links_ok(mef_links(hes, ha, hb, f), i),
{
    let l = mef_links(hes, ha, hb, f);
    let n = hes.len() as int;
    lemma_mef_links(hes, ha, hb, f, p, d);
    assert forall|i: int| 0 <= i < n + 2 implies #[trigger] links_ok(l, i) by {
        if i < n {
            assert(check_half_edge(hes, i) is Pass);
            let y = hes[i].next.0 as int;
            let z = hes[i].prev.0 as int;
            assert(check_half_edge(hes, y) is Pass);
            assert(check_half_edge(hes, z) is Pass);
            if hes[i].twin is Some {
                let t = hes[i].twin.unwrap().0 as int;
                assert(check_half_edge(hes, t) is Pass);
            }
        }
    }
}

/// `mev` at an edge half (or at the seed self-loop) adds one vertex and one
/// edge, no face, so `V - E + F` is unchanged: two new half-edges at an edge
/// half, one when the seed becomes the first edge.
pub proof fn law_mev_counts(hes: Seq<HalfEdge>, w: VertexId, at: int, nv: nat, nf: nat)
    requires
        0 <= at < hes.len(),
        hes[at].prev.0 < hes.len(),
        hes[at].twin is Some || hes.len() == 1,
    ensures
        mev_half_edges(hes, w, at).len() == hes.len() + (if hes[at].twin is None {
            1int
        } else {
            2int
        }),
        euler_count(nv + 1, mev_half_edges(hes, w, at).len(), nf) == euler_count(nv, hes.len(), nf),
{
    let n = hes.len() as int;
    if hes[at].twin is None {
        assert(n == 1);
    } else {
        assert((n + 2) / 2 == n / 2 + 1);
    }
}

/// `mef` adds one edge (two half-edges) and one face, no vertex, so
/// `V - E + F` is unchanged.
pub proof fn law_mef_counts(hes: Seq<HalfEdge>, ha: int, hb: int, new_face: FaceId, nv: nat, nf: nat)
    requires
        0 <= ha < hes.len(),
        0 <= hb < hes.len(),
        hes[ha].prev.0 < hes.len(),
        hes[hb].prev.0 < hes.len(),
    ensures
        mef_half_edges(hes, ha, hb, new_face).len() == hes.len() + 2,
        euler_count(nv, mef_half_edges(hes, ha, hb, new_face).len(), nf + 1) == euler_count(
            nv,
            hes.len(),
            nf,
        ),
{
    let n = hes.len() as int;
    assert(mef_links(hes, ha, hb, mef_old_face(hes, ha)).len() == n + 2);
    assert((n + 2) / 2 == n / 2 + 1);
}

/// `mef(ha, hb)` keeps the half-edge graph valid when `hb` is another
/// half-edge on the loop of `ha` and that loop has a face: it can run (its
/// precondition holds), and the new face's loop is the stretch of the old loop
/// from `ha` up to `hb`, exclusive, closed by the new half-edge `b -> a`.
pub proof fn law_mef_valid(hes: Seq<HalfEdge>, nfaces: nat, ha: int, hb: int, new_face: FaceId)
    requires
        valid(hes),
        0 <= ha < hes.len(),
        0 <= hb < hes.len(),
        ha != hb,
        in_loop(hes, ha, hb),
        hes[ha].face is Some,
        hes[ha].face.unwrap().0 < nfaces,
        hes.len() + 2 <= usize::MAX,
    ensures
        mef_ready(hes, nfaces, ha, hb),
        valid(mef_half_edges(hes, ha, hb, new_face)),
        ({
            let l = mef_links(hes, ha, hb, mef_old_face(hes, ha));
            let d = choose|k: nat| k < period(hes, ha) && #[trigger] walk(hes, ha, k) == hb;
            &&& period(l, ha) == d + 1
            &&& loop_from(l, ha) == loop_from(hes, ha).take(d as int).push(
                HalfEdgeId((hes.len() + 1) as usize),
            )
        }),
{
    let f = mef_old_face(hes, ha);
    let l = mef_links(hes, ha, hb, f);
    let r = mef_half_edges(hes, ha, hb, new_face);
    let n = hes.len() as int;
    law_valid_loops(hes, ha);
    lemma_loop_basics(hes, ha);
    let p = period(hes, ha);
    let d = choose|k: nat| k < period(hes, ha) && #[trigger] walk(hes, ha, k) == hb;
    assert(d >= 1) by {
        if d == 0 {
            assert(walk(hes, ha, 0) == ha);
        }
    }
    lemma_mef_links(hes, ha, hb, f, p, d);
    lemma_mef_new_loop(hes, ha, hb, f, p, d);
    lemma_mef_links_ok(hes, ha, hb, f, p, d);
    lemma_valid_face_along(hes, ha, (p - 1) as nat);
    lemma_valid_face_along(hes, ha, d);
    let pa = walk(hes, ha, (p - 1) as nat);
    let pb = walk(hes, ha, (d - 1) as nat);
    assert(mef_ready(hes, nfaces, ha, hb));
    // A half-edge is on the new loop exactly when its successor is.
    assert forall|i: int| 0 <= i < n + 2 implies #[trigger] in_loop(l, ha, i) == in_loop(
        l,
        ha,
        l[i].next.0 as int,
    ) by {
        let y = l[i].next.0 as int;
        assert(links_ok(l, i));
        if in_loop(l, ha, i) {
            if i != n + 1 {
                let k = choose|k: nat| k < d && #[trigger] walk(hes, ha, k) == i;
                assert(walk(l, ha, k) == i);
                assert(walk(l, ha, k + 1) == y);
                if k + 1 < d {
                    assert(walk(l, ha, k + 1) == walk(hes, ha, k + 1));
                }
            } else {
                assert(walk(hes, ha, 0) == y);
            }
        }
        if in_loop(l, ha, y) {
            if y == n + 1 {
                assert(walk(hes, ha, (d - 1) as nat) == i);
            } else {
                let k = choose|k: nat| k < d && #[trigger] walk(hes, ha, k) == y;
                if k == 0 {
                    assert(i == n + 1);
                } else {
                    lemma_valid_prev_step(hes, ha, (k - 1) as nat);
                    assert((k - 1) as nat + 1 == k);
                    lemma_valid_loop_distinct(hes, ha, 0, k);
                    lemma_valid_loop_distinct(hes, ha, k, d);
                    assert(walk(hes, ha, (k - 1) as nat) == i);
                }
            }
        }
    }
    assert forall|i: int| 0 <= i < n + 2 implies #[trigger] check_half_edge(r, i) is Pass by {
        let y = l[i].next.0 as int;
        assert(links_ok(l, i));
        assert(links_ok(r, i));
        lemma_check_pass(r, i);
        assert(in_loop(l, ha, i) == in_loop(l, ha, y));
        if !in_loop(l, ha, i) && i < n && i != pa {
            assert(check_half_edge(hes, i) is Pass);
        }
    }
    assert(loop_from(l, ha) =~= loop_from(hes, ha).take(d as int).push(HalfEdgeId((n + 1) as usize)));
}

/// Every face refers to a half-edge of the arena that bounds that face.
pub open spec fn faces_ok(hes: Seq<HalfEdge>, fs: Seq<Face>) -> bool {
    forall|g: int|
        0 <= g < fs.len() ==> {
            let h = (#[trigger] fs[g]).half_edge.0 as int;
            &&& h < hes.len()
            &&& hes[h].face == Some(FaceId(g as usize))
        }
}

/// Every vertex refers to a half-edge of the arena that leaves it.
pub open spec fn vertices_ok<P>(hes: Seq<HalfEdge>, vs: Seq<Vertex<P>>) -> bool {
    forall|v: int|
        0 <= v < vs.len() ==> {
            &&& (#[trigger] vs[v]).half_edge is Some
            &&& vs[v].half_edge.unwrap().0 < hes.len()
            &&& hes[vs[v].half_edge.unwrap().0 as int].origin == VertexId(v as usize)
        }
}

/// Every half-edge leaves an existing vertex and bounds an existing face.
pub open spec fn elements_ok(hes: Seq<HalfEdge>, nv: nat, nf: nat) -> bool {
    forall|i: int|
        0 <= i < hes.len() ==> {
            &&& (#[trigger] hes[i]).origin.0 < nv
            &&& hes[i].face is Some
            &&& hes[i].face.unwrap().0 < nf
        }
}

/// Either the seed of `mvfs` (a lone twin-less half-edge) or closed.
pub open spec fn sealed(hes: Seq<HalfEdge>) -> bool {
    ||| (hes.len() == 1 && hes[0].twin is None)
    ||| forall|i: int| 0 <= i < hes.len() ==> (#[trigger] hes[i]).twin is Some
}

/// The shape every shell built from `mvfs`, `mev` and `mef` has: a valid
/// half-edge graph whose vertices, faces and half-edges refer to each other
/// consistently, closed once it has an edge, with `V - E + F = 2`.
pub open spec fn euler_shape<P>(vs: Seq<Vertex<P>>, hes: Seq<HalfEdge>, fs: Seq<Face>) -> bool {
    &&& valid(hes)
    &&& faces_ok(hes, fs)
    &&& vertices_ok(hes, vs)
    &&& elements_ok(hes, vs.len(), fs.len())
    &&& sealed(hes)
    &&& euler_count(vs.len(), hes.len(), fs.len()) == 2
}

/// `mvfs` makes a shell of Euler shape.
pub proof fn law_mvfs_shape<P>(position: P)
    ensures
        euler_shape(
            seq![Vertex { position: position, half_edge: Some(HalfEdgeId(0)) }],
            mvfs_half_edges(),
            seq![Face { half_edge: HalfEdgeId(0) }],
        ),
{
    law_mvfs_valid();
}

/// `mev` at any half-edge of a shell of Euler shape can run and keeps the
/// shape: one more vertex, one more edge (two half-edges, or one when the
/// seed becomes the first edge), the same faces.
pub proof fn law_mev_shape<P>(vs: Seq<Vertex<P>>, hes: Seq<HalfEdge>, fs: Seq<Face>, at: int, position: P)
    requires
        euler_shape(vs, hes, fs),
        0 <= at < hes.len(),
        hes.len() + 2 <= usize::MAX,
        vs.len() < usize::MAX,
    ensures
        hes[at].twin is Some ==> hes[at].prev.0 < hes.len(),
        mev_half_edges(hes, VertexId(vs.len() as usize), at).len() == hes.len() + (if hes[at].twin is None {
            1int
        } else {
            2int
        }),
        euler_shape(
            vs.push(Vertex { position: position, half_edge: Some(mev_back(hes, at)) }),
            mev_half_edges(hes, VertexId(vs.len() as usize), at),
            fs,
        ),
{
    let w = VertexId(vs.len() as usize);
    let new = mev_half_edges(hes, w, at);
    let nvs = vs.push(Vertex { position: position, half_edge: Some(mev_back(hes, at)) });
    assert(check_half_edge(hes, at) is Pass);
    if hes[at].twin is None {
        assert(hes.len() == 1) by {
            if hes.len() != 1 {
                assert(hes[at].twin is Some);
            }
        }
    }
    law_mev_valid(hes, w, at);
    assert forall|i: int| 0 <= i < new.len() implies (#[trigger] new[i]).twin is Some by {
        if i < hes.len() && i != at {
            assert(hes[i].twin is Some);
        }
    }
    assert(faces_ok(new, fs)) by {
        assert forall|g: int| 0 <= g < fs.len() implies {
            let h = (#[trigger] fs[g]).half_edge.0 as int;
            &&& h < new.len()
            &&& new[h].face == Some(FaceId(g as usize))
        } by {
            let h = fs[g].half_edge.0 as int;
            assert(hes[h].face == Some(FaceId(g as usize)));
        }
    }
    assert(vertices_ok(new, nvs)) by {
        assert forall|v: int| 0 <= v < nvs.len() implies {
            &&& (#[trigger] nvs[v]).half_edge is Some
            &&& nvs[v].half_edge.unwrap().0 < new.len()
            &&& new[nvs[v].half_edge.unwrap().0 as int].origin == VertexId(v as usize)
        } by {
            if v < vs.len() {
                assert(vs[v] == nvs[v]);
            }
        }
    }
    assert(elements_ok(new, nvs.len(), fs.len())) by {
        assert forall|i: int| 0 <= i < new.len() implies {
            &&& (#[trigger] new[i]).origin.0 < nvs.len()
            &&& new[i].face is Some
            &&& new[i].face.unwrap().0 < fs.len()
        } by {
            if i < hes.len() {
                assert(hes[i].origin.0 < vs.len());
            }
        }
    }
}

/// `mef(ha, hb)` with `hb` another half-edge on the loop of `ha` can run on a
/// shell of Euler shape and keeps the shape: one more edge, one more face.
pub proof fn law_mef_shape<P>(vs: Seq<Vertex<P>>, hes: Seq<HalfEdge>, fs: Seq<Face>, ha: int, hb: int)
    requires
        euler_shape(vs, hes, fs),
        0 <= ha < hes.len(),
        0 <= hb < hes.len(),
        ha != hb,
        in_loop(hes, ha, hb),
        hes.len() + 2 <= usize::MAX,
        fs.len() < usize::MAX,
    ensures
        mef_ready(hes, fs.len(), ha, hb),
        mef_half_edges(hes, ha, hb, FaceId(fs.len() as usize)).len() == hes.len() + 2,
        euler_shape(
            vs,
            mef_half_edges(hes, ha, hb, FaceId(fs.len() as usize)),
            fs.push(Face { half_edge: HalfEdgeId(ha as usize) }).update(
                mef_old_face(hes, ha).0 as int,
                Face { half_edge: HalfEdgeId(hes.len() as usize) },
            ),
        ),
{
    let nf = FaceId(fs.len() as usize);
    let f = mef_old_face(hes, ha);
    let l = mef_links(hes, ha, hb, f);
    let r = mef_half_edges(hes, ha, hb, nf);
    let nfs = fs.push(Face { half_edge: HalfEdgeId(ha as usize) }).update(
        f.0 as int,
        Face { half_edge: HalfEdgeId(hes.len() as usize) },
    );
    let n = hes.len() as int;
    assert(hes[ha].origin.0 < vs.len());
    law_mef_valid(hes, fs.len(), ha, hb, nf);
    law_valid_loops(hes, ha);
    lemma_loop_basics(hes, ha);
    let p = period(hes, ha);
    let d = choose|k: nat| k < period(hes, ha) && #[trigger] walk(hes, ha, k) == hb;
    assert(d >= 1) by {
        if d == 0 {
            assert(walk(hes, ha, 0) == ha);
        }
    }
    lemma_mef_links(hes, ha, hb, f, p, d);
    lemma_mef_new_loop(hes, ha, hb, f, p, d);
    assert(in_loop(l, ha, ha)) by {
        assert(walk(l, ha, 0) == ha);
    }
    assert(in_loop(l, ha, n + 1));
    assert(!in_loop(l, ha, n)) by {
        if in_loop(l, ha, n) {
            let k = choose|k: nat| k < d && #[trigger] walk(hes, ha, k) == n;
            lemma_valid_walk_in_range(hes, ha, k);
        }
    }
    // Every half-edge on the new loop used to bound the split face.
    assert forall|x: int| 0 <= x < n && #[trigger] in_loop(l, ha, x) implies hes[x].face == Some(f) by {
        let k = choose|k: nat| k < d && #[trigger] walk(hes, ha, k) == x;
        lemma_valid_face_along(hes, ha, k);
    }
    assert forall|i: int| 0 <= i < r.len() implies (#[trigger] r[i]).twin is Some by {
        if i < n {
            assert(hes[i].twin is Some);
        }
    }
    assert(faces_ok(r, nfs)) by {
        assert forall|g: int| 0 <= g < nfs.len() implies {
            let h = (#[trigger] nfs[g]).half_edge.0 as int;
            &&& h < r.len()
            &&& r[h].face == Some(FaceId(g as usize))
        } by {
            if g < fs.len() && g != f.0 {
                let h = fs[g].half_edge.0 as int;
                assert(hes[h].face == Some(FaceId(g as usize)));
                assert(!in_loop(l, ha, h));
            }
        }
    }
    assert(vertices_ok(r, vs)) by {
        assert forall|v: int| 0 <= v < vs.len() implies {
            &&& (#[trigger] vs[v]).half_edge is Some
            &&& vs[v].half_edge.unwrap().0 < r.len()
            &&& r[vs[v].half_edge.unwrap().0 as int].origin == VertexId(v as usize)
        } by {
        }
    }
    assert(elements_ok(r, vs.len(), nfs.len())) by {
        assert forall|i: int| 0 <= i < r.len() implies {
            &&& (#[trigger] r[i]).origin.0 < vs.len()
            &&& r[i].face is Some
            &&& r[i].face.unwrap().0 < nfs.len()
        } by {
            if i < n {
                assert(hes[i].origin.0 < vs.len());
            }
        }
    }
}


/// Every face of a shell of Euler shape has a loop of half-edges leaving
/// existing vertices, so its loop can be walked and the shell tessellated.
pub proof fn law_euler_shape_loops<P>(vs: Seq<Vertex<P>>, hes: Seq<HalfEdge>, fs: Seq<Face>)
    requires
        euler_shape(vs, hes, fs),
    ensures
        loops_ok(vs.len(), hes, fs),
{
    assert forall|f: int| 0 <= f < fs.len() implies {
        &&& has_loop(hes, (#[trigger] fs[f]).half_edge.0 as int)
        &&& forall|k: int|
            0 <= k < loop_from(hes, fs[f].half_edge.0 as int).len() ==> hes[loop_from(
                hes,
                fs[f].half_edge.0 as int,
            )[k].0 as int].origin.0 < vs.len()
    } by {
        let h = fs[f].half_edge.0 as int;
        law_valid_loops(hes, h);
        lemma_loop_basics(hes, h);
        assert forall|k: int| 0 <= k < loop_from(hes, h).len() implies hes[loop_from(hes, h)[k].0 as int].origin.0
            < vs.len() by {
            assert(0 <= walk(hes, h, k as nat) < hes.len());
        }
    }
}

/// `validate` can check every valid graph without leaving the arena, and
/// accepts it.
pub proof fn law_valid_validates(hes: Seq<HalfEdge>)
    requires
        valid(hes),
    ensures
        outcome_from(hes, 0) is Valid,
{
    lemma_outcome(hes, 0);
}

/// `l` with `ins` spliced in just before position `j`, the sequence read
/// cyclically from `l[0]` (so before position 0 means at the end).
pub open spec fn splice_before<A>(l: Seq<A>, j: int, ins: Seq<A>) -> Seq<A> {
    if j == 0 {
        l + ins
    } else {
        l.take(j) + ins + l.skip(j)
    }
}

/// The loop through `h` as half-edge indices.
spec fn loop_indices(hes: Seq<HalfEdge>, h: int) -> Seq<usize> {
    Seq::new(period(hes, h), |i: int| walk(hes, h, i as nat) as usize)
}

/// Splicing `a, b` into a listed cycle just before position `j`, where the
/// half-edge before `j` now leads to `a`, `a` to `b` and `b` to `ls[j]`, gives
/// a listed cycle again.
#[verifier::spinoff_prover]
#[verifier::rlimit(30)]
proof fn lemma_splice_cycle(new: Seq<HalfEdge>, ls: Seq<usize>, j: int, a: usize, b: usize)
    requires
        ls.len() >= 1,
        0 <= j < ls.len(),
        forall|i: int, i2: int| 0 <= i < ls.len() && 0 <= i2 < ls.len() && i != i2 ==> #[trigger] ls[i] != #[trigger] ls[i2],
        forall|i: int| 0 <= i < ls.len() ==> #[trigger] ls[i] < new.len() && ls[i] != a && ls[i] != b,
        a < new.len(),
        b < new.len(),
        a != b,
        forall|i: int|
            0 <= i < ls.len() - 1 && i != (if j == 0 { ls.len() - 1 } else { j - 1 }) ==> new[#[trigger] ls[i] as int].next.0 == ls[i + 1],
        (if j == 0 { ls.len() - 1 } else { j - 1 }) != ls.len() - 1 ==> new[ls[ls.len() - 1] as int].next.0 == ls[0],
        new[ls[(if j == 0 { ls.len() - 1 } else { j - 1 })] as int].next.0 == a,
        new[a as int].next.0 == b,
        new[b as int].next.0 == ls[j],
    ensures
        is_cycle(new, splice_before(ls, j, seq![a, b])),
{
    let nl = splice_before(ls, j, seq![a, b]);
    let p = ls.len() as int;
    assert(nl.len() == p + 2);
    assert forall|i: int| 0 <= i < nl.len() implies #[trigger] nl[i] < new.len() by {
        if j == 0 {
            if i < p { assert(nl[i] == ls[i]); }
        } else if i < j {
            assert(nl[i] == ls[i]);
        } else if i >= j + 2 {
            assert(nl[i] == ls[i - 2]);
        }
    }
    assert forall|i: int| 0 <= i < nl.len() - 1 implies new[#[trigger] nl[i] as int].next.0 == nl[i + 1] by {
        if j == 0 {
            if i < p {
                assert(nl[i] == ls[i]);
            }
            if i + 1 < p {
                assert(nl[i + 1] == ls[i + 1]);
            }
        } else {
            if i < j {
                assert(nl[i] == ls[i]);
            }
            if i + 1 < j {
                assert(nl[i + 1] == ls[i + 1]);
            }
            if i >= j + 2 {
                assert(nl[i] == ls[i - 2]);
                assert(nl[i + 1] == ls[i - 1]);
            }
            if i == j + 1 {
                assert(nl[i + 1] == ls[j]);
            }
        }
    }
    assert(new[nl[nl.len() - 1] as int].next.0 == nl[0]) by {
        if j != 0 {
            assert(nl[nl.len() - 1] == ls[p - 1]);
            assert(nl[0] == ls[0]);
        }
    }
    assert forall|i: int| 1 <= i < nl.len() implies #[trigger] nl[i] != nl[0] by {
        if j == 0 {
            assert(nl[0] == ls[0]);
            if i < p { assert(nl[i] == ls[i]); }
        } else {
            assert(nl[0] == ls[0]);
            if i < j {
                assert(nl[i] == ls[i]);
            } else if i >= j + 2 {
                assert(nl[i] == ls[i - 2]);
            }
        }
    }
}

/// The links `mev` at an edge half `at` leaves: the half-edge before `at`
/// leads to `v -> w`, which leads to `w -> v`, which leads to `at`; every
/// other `next` link is unchanged.
proof fn lemma_mev_links(hes: Seq<HalfEdge>, w: VertexId, at: int)
    requires
        valid(hes),
        0 <= at < hes.len(),
        hes[at].twin is Some,
        hes.len() + 2 <= usize::MAX,
    ensures
        ({
            let new = mev_half_edges(hes, w, at);
            let n = hes.len() as int;
            let prev = hes[at].prev.0 as int;
            &&& new.len() == n + 2
            &&& 0 <= prev < n
            &&& forall|x: int| 0 <= x < n && x != prev ==> (#[trigger] new[x]).next == hes[x].next
            &&& new[prev].next.0 == n
            &&& new[n].next.0 == n + 1
            &&& new[n + 1].next.0 == at
            &&& new[n].origin == hes[at].origin
            &&& new[n + 1].origin == w
            &&& new[n].twin == Some(HalfEdgeId((n + 1) as usize))
            &&& new[n + 1].twin == Some(HalfEdgeId(n as usize))
            &&& new[n].face == hes[at].face
            &&& new[n + 1].face == hes[at].face
        }),
{
    assert(check_half_edge(hes, at) is Pass);
}

/// The loop through `h` in a valid graph, listed: its half-edges are
/// distinct, each leads to the next, the last back to the first, and each
/// one's `prev` is the one before it.
proof fn lemma_valid_loop_list(hes: Seq<HalfEdge>, h: int)
    requires
        valid(hes),
        0 <= h < hes.len(),
    ensures
        ({
            let ls = loop_indices(hes, h);
            let p = ls.len() as int;
            &&& has_loop(hes, h)
            &&& p == period(hes, h)
            &&& p >= 1
            &&& ls[0] == h
            &&& loop_from(hes, h) == ls.map_values(|x: usize| HalfEdgeId(x))
            &&& forall|i: int| 0 <= i < p ==> #[trigger] ls[i] < hes.len()
            &&& forall|i: int| 0 <= i < p - 1 ==> hes[#[trigger] ls[i] as int].next.0 == ls[i + 1]
            &&& hes[ls[p - 1] as int].next.0 == ls[0]
            &&& forall|i: int| 1 <= i < p ==> hes[#[trigger] ls[i] as int].prev.0 == ls[i - 1]
            &&& hes[ls[0] as int].prev.0 == ls[p - 1]
            &&& forall|i: int, i2: int|
                0 <= i < p && 0 <= i2 < p && i != i2 ==> #[trigger] ls[i] != #[trigger] ls[i2]
            &&& forall|x: int| #[trigger] in_loop(hes, h, x) <==> exists|i: int| 0 <= i < p && ls[i] == x
        }),
{
    law_valid_loops(hes, h);
    lemma_loop_basics(hes, h);
    let p = period(hes, h);
    let ls = loop_indices(hes, h);
    assert forall|i: int| 0 <= i < p implies #[trigger] ls[i] == walk(hes, h, i as nat) && hes[walk(
        hes,
        h,
        i as nat,
    )].next.0 == walk(hes, h, (i + 1) as nat) && 0 <= walk(hes, h, i as nat) < hes.len() by {
        lemma_valid_walk_in_range(hes, h, i as nat);
    }
    assert forall|i: int| 1 <= i < p implies hes[#[trigger] ls[i] as int].prev.0 == ls[i - 1] by {
        lemma_valid_prev_step(hes, h, (i - 1) as nat);
    }
    lemma_valid_prev_step(hes, h, (p - 1) as nat);
    assert(walk(hes, h, p) == h);
    assert forall|i: int, i2: int| 0 <= i < p && 0 <= i2 < p && i != i2 implies #[trigger] ls[i] != #[trigger] ls[i2] by {
        if i < i2 {
            lemma_valid_loop_distinct(hes, h, i as nat, i2 as nat);
        } else {
            lemma_valid_loop_distinct(hes, h, i2 as nat, i as nat);
        }
    }
    assert(loop_from(hes, h) =~= ls.map_values(|x: usize| HalfEdgeId(x)));
    assert forall|x: int| #[trigger] in_loop(hes, h, x) <==> exists|i: int| 0 <= i < p && ls[i] == x by {
        if in_loop(hes, h, x) {
            let k = choose|k: nat| k < period(hes, h) && #[trigger] walk(hes, h, k) == x;
            assert(ls[k as int] == x);
        }
        if exists|i: int| 0 <= i < p && ls[i] == x {
            let i = choose|i: int| 0 <= i < p && ls[i] == x;
            assert(walk(hes, h, i as nat) == x);
        }
    }
}

proof fn lemma_mev_loop_core(hes: Seq<HalfEdge>, new: Seq<HalfEdge>, ls: Seq<usize>, at: int, j: int)
    requires
        ls.len() >= 1,
        0 <= j < ls.len(),
        ls[j] == at,
        forall|i: int| 0 <= i < ls.len() ==> #[trigger] ls[i] < hes.len(),
        forall|i: int| 0 <= i < ls.len() - 1 ==> hes[#[trigger] ls[i] as int].next.0 == ls[i + 1],
        hes[ls[ls.len() - 1] as int].next.0 == ls[0],
        forall|i: int, i2: int|
            0 <= i < ls.len() && 0 <= i2 < ls.len() && i != i2 ==> #[trigger] ls[i] != #[trigger] ls[i2],
        hes[at].prev.0 == ls[(if j == 0 { ls.len() - 1 } else { j - 1 })],
        hes.len() + 2 <= usize::MAX,
        new.len() == hes.len() + 2,
        forall|x: int| 0 <= x < hes.len() && x != hes[at].prev.0 ==> (#[trigger] new[x]).next == hes[x].next,
        new[hes[at].prev.0 as int].next.0 == hes.len(),
        new[hes.len() as int].next.0 == hes.len() + 1,
        new[hes.len() + 1int].next.0 == at,
    ensures
        is_cycle(new, splice_before(ls, j, seq![hes.len() as usize, (hes.len() + 1) as usize])),
{
    let p = ls.len() as int;
    let n = hes.len() as int;
    let prev = hes[at].prev.0 as int;
    let jm: int = if j == 0 { p - 1 } else { j - 1 };
    assert forall|i: int| 0 <= i < p - 1 && i != jm implies new[#[trigger] ls[i] as int].next.0 == ls[i + 1] by {
        assert(ls[i] != ls[jm]);
    }
    if jm != p - 1 {
        assert(ls[p - 1] != ls[jm]);
    }
    lemma_splice_cycle(new, ls, j, n as usize, (n + 1) as usize);
}

/// A listed loop `ls` (read as `l`) through `at`, in a graph `new` whose links
/// splice `a, b` in just before `at`, reads as `l` with those two inserted
/// just before `at`.
#[verifier::spinoff_prover]
#[verifier::rlimit(60)]
proof fn lemma_mev_loop_listed(
    hes: Seq<HalfEdge>,
    new: Seq<HalfEdge>,
    ls: Seq<usize>,
    l: Seq<HalfEdgeId>,
    at: int,
    h: int,
    j: int,
)
    requires
        ls.len() >= 1,
        ls[0] == h,
        l == ls.map_values(|x: usize| HalfEdgeId(x)),
        0 <= j < ls.len(),
        ls[j] == at,
        forall|i: int| 0 <= i < ls.len() ==> #[trigger] ls[i] < hes.len(),
        forall|i: int| 0 <= i < ls.len() - 1 ==> hes[#[trigger] ls[i] as int].next.0 == ls[i + 1],
        hes[ls[ls.len() - 1] as int].next.0 == ls[0],
        forall|i: int| 1 <= i < ls.len() ==> hes[#[trigger] ls[i] as int].prev.0 == ls[i - 1],
        hes[ls[0] as int].prev.0 == ls[ls.len() - 1],
        forall|i: int, i2: int|
            0 <= i < ls.len() && 0 <= i2 < ls.len() && i != i2 ==> #[trigger] ls[i] != #[trigger] ls[i2],
        0 <= at < hes.len(),
        hes.len() + 2 <= usize::MAX,
        new.len() == hes.len() + 2,
        forall|x: int| 0 <= x < hes.len() && x != hes[at].prev.0 ==> (#[trigger] new[x]).next == hes[x].next,
        new[hes[at].prev.0 as int].next.0 == hes.len(),
        new[hes.len() as int].next.0 == hes.len() + 1,
        new[hes.len() + 1int].next.0 == at,
    ensures
        has_loop(new, h),
        loop_from(new, h) == splice_before(
            l,
            j,
            seq![HalfEdgeId(hes.len() as usize), HalfEdgeId((hes.len() + 1) as usize)],
        ),
{
    let n = hes.len() as int;
    let p = ls.len() as int;
    let jm: int = if j == 0 { p - 1 } else { j - 1 };
    assert(hes[at].prev.0 == ls[jm]);
    lemma_mev_loop_core(hes, new, ls, at, j);
    let nl = splice_before(ls, j, seq![n as usize, (n + 1) as usize]);
    lemma_cycle(new, nl);
    assert(nl[0] == h);
    assert(nl.map_values(|x: usize| HalfEdgeId(x)) =~= splice_before(
        l,
        j,
        seq![HalfEdgeId(n as usize), HalfEdgeId((n + 1) as usize)],
    ));
}

/// In a valid graph, `mev` at an edge half `at` splices the new spur into the
/// loop of `at` just before `at`: read from any half-edge `h` of that loop,
/// the new loop is the old one with `v -> w` (the first new half-edge) and
/// `w -> v` (the second) inserted just before `at`. Both new half-edges are
/// twins of each other and bound the face of `at`.
#[verifier::spinoff_prover]
#[verifier::rlimit(30)]
pub proof fn law_mev_loop(hes: Seq<HalfEdge>, w: VertexId, at: int, h: int)
    requires
        valid(hes),
        0 <= at < hes.len(),
        hes[at].twin is Some,
        hes.len() + 2 <= usize::MAX,
        0 <= h < hes.len(),
        in_loop(hes, h, at),
    ensures
        ({
            let new = mev_half_edges(hes, w, at);
            let n = hes.len() as int;
            let l = loop_from(hes, h);
            &&& has_loop(new, h)
            &&& exists|j: int| 0 <= j < l.len() && l[j] == HalfEdgeId(at as usize)
            &&& forall|j: int|
                #![trigger l[j]]
                0 <= j < l.len() && l[j] == HalfEdgeId(at as usize) ==> loop_from(new, h) == splice_before(
                    l,
                    j,
                    seq![HalfEdgeId(n as usize), HalfEdgeId((n + 1) as usize)],
                )
            &&& new[n].origin == hes[at].origin
            &&& new[n + 1].origin == w
            &&& new[n].twin == Some(HalfEdgeId((n + 1) as usize))
            &&& new[n + 1].twin == Some(HalfEdgeId(n as usize))
            &&& new[n].face == hes[at].face
            &&& new[n + 1].face == hes[at].face
        }),
{
    let l = loop_from(hes, h);
    lemma_mev_links(hes, w, at);
    lemma_valid_loop_list(hes, h);
    let ls = loop_indices(hes, h);
    assert(in_loop(hes, h, at));
    let k = choose|i: int| 0 <= i < ls.len() && ls[i] == at;
    assert(l[k] == HalfEdgeId(at as usize));
    lemma_mev_loop_listed(hes, mev_half_edges(hes, w, at), ls, l, at, h, k);
    assert forall|j: int| #![trigger l[j]] 0 <= j < l.len() && l[j] == HalfEdgeId(at as usize) implies j == k by {
        assert(ls[j] == ls[k]);
    }
}

/// Two arenas with the same `next` links list the same cycles.
proof fn lemma_cycle_same_links(a: Seq<HalfEdge>, b: Seq<HalfEdge>, ls: Seq<usize>)
    requires
        a.len() == b.len(),
        forall|i: int| 0 <= i < a.len() ==> (#[trigger] b[i]).next == a[i].next,
        is_cycle(a, ls),
    ensures
        is_cycle(b, ls),
{
    assert forall|i: int| 0 <= i < ls.len() - 1 implies b[#[trigger] ls[i] as int].next.0 == ls[i + 1] by {
        assert(a[ls[i] as int].next.0 == ls[i + 1]);
    }
}

/// The two cycles that the splice of `mef` leaves of a listed loop `ls`, cut
/// before position `d`: `ls` up to `d`, exclusive, closed by `n + 1`, and `n`
/// followed by `ls` from `d` on.
proof fn lemma_mef_cycles(hes: Seq<HalfEdge>, l: Seq<HalfEdge>, ls: Seq<usize>, d: int)
    requires
        1 <= d < ls.len(),
        forall|i: int| 0 <= i < ls.len() ==> #[trigger] ls[i] < hes.len(),
        forall|i: int| 0 <= i < ls.len() - 1 ==> hes[#[trigger] ls[i] as int].next.0 == ls[i + 1],
        forall|i: int, i2: int|
            0 <= i < ls.len() && 0 <= i2 < ls.len() && i != i2 ==> #[trigger] ls[i] != #[trigger] ls[i2],
        hes.len() + 2 <= usize::MAX,
        l.len() == hes.len() + 2,
        forall|x: int|
            0 <= x < hes.len() && x != ls[d - 1] && x != ls[ls.len() - 1] ==> (#[trigger] l[x]).next
                == hes[x].next,
        l[ls[d - 1] as int].next.0 == hes.len() + 1,
        l[ls[ls.len() - 1] as int].next.0 == hes.len(),
        l[hes.len() as int].next.0 == ls[d],
        l[hes.len() + 1int].next.0 == ls[0],
    ensures
        is_cycle(l, ls.take(d).push((hes.len() + 1) as usize)),
        is_cycle(l, seq![hes.len() as usize] + ls.skip(d)),
{
    let n = hes.len() as int;
    let p = ls.len() as int;
    let c1 = ls.take(d).push((n + 1) as usize);
    let c2 = seq![n as usize] + ls.skip(d);
    assert forall|i: int| 0 <= i < c1.len() - 1 implies l[#[trigger] c1[i] as int].next.0 == c1[i + 1] by {
        assert(c1[i] == ls[i]);
        if i < d - 1 {
            assert(ls[i] != ls[d - 1]);
            assert(ls[i] != ls[p - 1]);
            assert(c1[i + 1] == ls[i + 1]);
        }
    }
    assert forall|i: int| 1 <= i < c1.len() implies #[trigger] c1[i] != c1[0] by {
        if i < d {
            assert(c1[i] == ls[i]);
        }
    }
    assert forall|i: int| 0 <= i < c2.len() implies #[trigger] c2[i] < l.len() by {
        if i >= 1 {
            assert(c2[i] == ls[d + i - 1]);
        }
    }
    assert forall|i: int| 0 <= i < c2.len() - 1 implies l[#[trigger] c2[i] as int].next.0 == c2[i + 1] by {
        assert(c2[i + 1] == ls[d + i]);
        if i >= 1 {
            assert(c2[i] == ls[d + i - 1]);
            assert(ls[d + i - 1] != ls[d - 1]);
            assert(ls[d + i - 1] != ls[p - 1]);
        }
    }
    assert(c2[c2.len() - 1] == ls[p - 1]);
    assert forall|i: int| 1 <= i < c2.len() implies #[trigger] c2[i] != c2[0] by {
        assert(c2[i] == ls[d + i - 1]);
    }
}

/// In a valid graph every half-edge of the listed loop through `h` bounds the
/// face of `h`.
proof fn lemma_valid_loop_faces(hes: Seq<HalfEdge>, h: int)
    requires
        valid(hes),
        0 <= h < hes.len(),
        hes.len() <= usize::MAX,
    ensures
        forall|i: int|
            0 <= i < loop_indices(hes, h).len() ==> hes[#[trigger] loop_indices(hes, h)[i] as int].face
                == hes[h].face,
{
    let ls = loop_indices(hes, h);
    lemma_valid_loop_list(hes, h);
    assert forall|i: int| 0 <= i < ls.len() implies hes[#[trigger] ls[i] as int].face == hes[h].face by {
        lemma_valid_walk_in_range(hes, h, i as nat);
        assert(ls[i] == walk(hes, h, i as nat));
        lemma_valid_face_along(hes, h, i as nat);
    }
}

/// The two loops after `mef`, read off a listed loop `ls` of `ha` cut at
/// position `d` of `hb`.
#[verifier::spinoff_prover]
#[verifier::rlimit(30)]
proof fn lemma_mef_loops_listed(
    hes: Seq<HalfEdge>,
    l: Seq<HalfEdge>,
    ls: Seq<usize>,
    old: Seq<HalfEdgeId>,
    d: int,
    ha: int,
    hb: int,
    new_face: FaceId,
    f: FaceId,
)
    requires
        old == ls.map_values(|x: usize| HalfEdgeId(x)),
        ls[0] == ha,
        ls[d] == hb,
        1 <= d < ls.len(),
        forall|i: int| 0 <= i < ls.len() ==> #[trigger] ls[i] < hes.len(),
        forall|i: int| 0 <= i < ls.len() - 1 ==> hes[#[trigger] ls[i] as int].next.0 == ls[i + 1],
        forall|i: int, i2: int|
            0 <= i < ls.len() && 0 <= i2 < ls.len() && i != i2 ==> #[trigger] ls[i] != #[trigger] ls[i2],
        forall|i: int| 0 <= i < ls.len() ==> hes[#[trigger] ls[i] as int].face == Some(f),
        hes.len() + 2 <= usize::MAX,
        l.len() == hes.len() + 2,
        forall|x: int|
            0 <= x < hes.len() ==> (#[trigger] l[x]).face == hes[x].face && (x != ls[d - 1] && x
                != ls[ls.len() - 1] ==> l[x].next == hes[x].next),
        l[ls[d - 1] as int].next.0 == hes.len() + 1,
        l[ls[ls.len() - 1] as int].next.0 == hes.len(),
        l[hes.len() as int].next.0 == ls[d],
        l[hes.len() + 1int].next.0 == ls[0],
        l[hes.len() as int].face == Some(f),
    ensures
        ({
            let r = paint_loop(l, ha, new_face);
            let n = hes.len() as int;
            &&& has_loop(r, ha)
            &&& loop_from(r, ha) == old.take(d).push(HalfEdgeId((n + 1) as usize))
            &&& forall|i: int|
                0 <= i < loop_from(r, ha).len() ==> r[(#[trigger] loop_from(r, ha)[i]).0 as int].face
                    == Some(new_face)
            &&& has_loop(r, n)
            &&& loop_from(r, n) == seq![HalfEdgeId(n as usize)] + old.skip(d)
            &&& forall|i: int|
                0 <= i < loop_from(r, n).len() ==> r[(#[trigger] loop_from(r, n)[i]).0 as int].face
                    == Some(f)
        }),
{
    let n = hes.len() as int;
    let r = paint_loop(l, ha, new_face);
    lemma_mef_cycles(hes, l, ls, d);
    let c1 = ls.take(d).push((n + 1) as usize);
    let c2 = seq![n as usize] + ls.skip(d);
    lemma_cycle(l, c1);
    assert forall|i: int| 0 <= i < l.len() implies (#[trigger] r[i]).next == l[i].next by {}
    lemma_cycle_same_links(l, r, c1);
    lemma_cycle_same_links(l, r, c2);
    lemma_cycle(r, c1);
    lemma_cycle(r, c2);
    assert(c1[0] == ha);
    assert(c2[0] == n);
    assert(c1.map_values(|x: usize| HalfEdgeId(x)) =~= old.take(d).push(HalfEdgeId((n + 1) as usize)));
    assert(c2.map_values(|x: usize| HalfEdgeId(x)) =~= seq![HalfEdgeId(n as usize)] + old.skip(d));
    lemma_mef_loop_faces(hes, l, ls, d, ha, new_face, f);
    assert forall|i: int| 0 <= i < loop_from(r, ha).len() implies r[(#[trigger] loop_from(r, ha)[i]).0 as int].face
        == Some(new_face) by {
        assert(loop_from(r, ha)[i].0 == c1[i]);
    }
    assert forall|i: int| 0 <= i < loop_from(r, n).len() implies r[(#[trigger] loop_from(r, n)[i]).0 as int].face
        == Some(f) by {
        assert(loop_from(r, n)[i].0 == c2[i]);
    }
}

/// After the splice of `mef`, painting the loop of `ha` gives its members
/// (`ls` up to `d`, and `n + 1`) the new face and leaves the other cycle
/// (`n`, then `ls` from `d` on) with the old face.
proof fn lemma_mef_loop_faces(
    hes: Seq<HalfEdge>,
    l: Seq<HalfEdge>,
    ls: Seq<usize>,
    d: int,
    ha: int,
    new_face: FaceId,
    f: FaceId,
)
    requires
        ls[0] == ha,
        1 <= d < ls.len(),
        forall|i: int| 0 <= i < ls.len() ==> #[trigger] ls[i] < hes.len(),
        forall|i: int, i2: int|
            0 <= i < ls.len() && 0 <= i2 < ls.len() && i != i2 ==> #[trigger] ls[i] != #[trigger] ls[i2],
        forall|i: int| 0 <= i < ls.len() ==> hes[#[trigger] ls[i] as int].face == Some(f),
        hes.len() + 2 <= usize::MAX,
        l.len() == hes.len() + 2,
        forall|x: int| 0 <= x < hes.len() ==> (#[trigger] l[x]).face == hes[x].face,
        l[hes.len() as int].face == Some(f),
        is_cycle(l, ls.take(d).push((hes.len() + 1) as usize)),
    ensures
        ({
            let r = paint_loop(l, ha, new_face);
            let c1 = ls.take(d).push((hes.len() + 1) as usize);
            let c2 = seq![hes.len() as usize] + ls.skip(d);
            &&& forall|i: int| 0 <= i < c1.len() ==> r[#[trigger] c1[i] as int].face == Some(new_face)
            &&& forall|i: int| 0 <= i < c2.len() ==> r[#[trigger] c2[i] as int].face == Some(f)
        }),
{
    let n = hes.len() as int;
    let r = paint_loop(l, ha, new_face);
    let c1 = ls.take(d).push((n + 1) as usize);
    let c2 = seq![n as usize] + ls.skip(d);
    lemma_cycle(l, c1);
    assert forall|i: int| 0 <= i < c1.len() implies r[#[trigger] c1[i] as int].face == Some(new_face) by {
        assert(in_loop(l, ha, c1[i] as int));
    }
    assert forall|i: int| 0 <= i < c2.len() implies r[#[trigger] c2[i] as int].face == Some(f) by {
        let x = c2[i] as int;
        assert(!in_loop(l, ha, x)) by {
            if in_loop(l, ha, x) {
                let j = choose|j: int| 0 <= j < c1.len() && c1[j] == x;
                if i >= 1 {
                    assert(x == ls[d + i - 1]);
                    if j < d {
                        assert(c1[j] == ls[j]);
                    }
                }
            }
        }
        if i >= 1 {
            assert(x == ls[d + i - 1]);
        }
    }
}

/// `mef(ha, hb)`, with `hb` another half-edge on the loop of `ha`, splits that
/// loop in two. Read from `ha`, the new face's loop is the old loop from `ha`
/// up to `hb`, exclusive, closed by the new `b -> a`, and all of it bounds the
/// new face. Read from the new `a -> b`, the old face's loop is `a -> b`
/// followed by the old loop from `hb` round to the half-edge before `ha`, and
/// all of it still bounds the old face.
#[verifier::spinoff_prover]
#[verifier::rlimit(30)]
pub proof fn law_mef_loops(hes: Seq<HalfEdge>, ha: int, hb: int, new_face: FaceId)
    requires
        valid(hes),
        0 <= ha < hes.len(),
        0 <= hb < hes.len(),
        ha != hb,
        in_loop(hes, ha, hb),
        hes[ha].face is Some,
        hes.len() + 2 <= usize::MAX,
    ensures
        ({
            let r = mef_half_edges(hes, ha, hb, new_face);
            let n = hes.len() as int;
            let old = loop_from(hes, ha);
            &&& has_loop(r, ha)
            &&& has_loop(r, n)
            &&& exists|d: int| 1 <= d < old.len() && old[d] == HalfEdgeId(hb as usize)
            &&& forall|d: int|
                #![trigger old[d]]
                0 <= d < old.len() && old[d] == HalfEdgeId(hb as usize) ==> {
                    &&& loop_from(r, ha) == old.take(d).push(HalfEdgeId((n + 1) as usize))
                    &&& loop_from(r, n) == seq![HalfEdgeId(n as usize)] + old.skip(d)
                }
            &&& forall|i: int|
                0 <= i < loop_from(r, ha).len() ==> r[(#[trigger] loop_from(r, ha)[i]).0 as int].face
                    == Some(new_face)
            &&& forall|i: int|
                0 <= i < loop_from(r, n).len() ==> r[(#[trigger] loop_from(r, n)[i]).0 as int].face
                    == Some(mef_old_face(hes, ha))
        }),
{
    let f = mef_old_face(hes, ha);
    let old = loop_from(hes, ha);
    lemma_valid_loop_list(hes, ha);
    lemma_valid_loop_faces(hes, ha);
    let ls = loop_indices(hes, ha);
    let p = ls.len() as int;
    assert(in_loop(hes, ha, hb));
    let d = choose|i: int| 0 <= i < p && ls[i] == hb;
    assert(old[d] == HalfEdgeId(hb as usize));
    assert(d >= 1);
    lemma_valid_walk_in_range(hes, ha, d as nat);
    lemma_valid_walk_in_range(hes, ha, (d - 1) as nat);
    lemma_valid_walk_in_range(hes, ha, (p - 1) as nat);
    lemma_mef_links(hes, ha, hb, f, p as nat, d as nat);
    lemma_mef_loops_listed(hes, mef_links(hes, ha, hb, f), ls, old, d, ha, hb, new_face, f);
    assert forall|e: int| #![trigger old[e]] 0 <= e < old.len() && old[e] == HalfEdgeId(hb as usize) implies e == d by {
        assert(ls[e] == ls[d]);
    }
}

/// A shell's three arenas (vertices, half-edges, faces), as the contracts
/// see them.
pub type Arenas<P> = (Seq<Vertex<P>>, Seq<HalfEdge>, Seq<Face>);

/// One construction step after `mvfs`: `mev(at, position)` or `mef(ha, hb)`.
pub enum Step<P> {
    Mev(HalfEdgeId, P),
    Mef(HalfEdgeId, HalfEdgeId),
}

/// The arenas after one step, as the contracts of `mev` and `mef` give them.
pub open spec fn apply_step<P>(a: Arenas<P>, step: Step<P>) -> Arenas<P> {
    let (vs, hes, fs) = a;
    match step {
        Step::Mev(at, position) => (
            vs.push(Vertex { position: position, half_edge: Some(mev_back(hes, at.0 as int)) }),
            mev_half_edges(hes, VertexId(vs.len() as usize), at.0 as int),
            fs,
        ),
        Step::Mef(ha, hb) => (
            vs,
            mef_half_edges(hes, ha.0 as int, hb.0 as int, FaceId(fs.len() as usize)),
            fs.push(Face { half_edge: ha }).update(
                mef_old_face(hes, ha.0 as int).0 as int,
                Face { half_edge: HalfEdgeId(hes.len() as usize) },
            ),
        ),
    }
}

/// What a step asks of the arenas it runs on: `mev` at a half-edge of the
/// arena; `mef` between two distinct half-edges of one loop; and room in
/// `usize` for the new elements.
pub open spec fn step_ok<P>(a: Arenas<P>, step: Step<P>) -> bool {
    let (vs, hes, fs) = a;
    &&& hes.len() + 2 <= usize::MAX
    &&& match step {
        Step::Mev(at, _) => at.0 < hes.len() && vs.len() < usize::MAX,
        Step::Mef(ha, hb) => {
            &&& ha.0 < hes.len()
            &&& hb.0 < hes.len()
            &&& ha != hb
            &&& in_loop(hes, ha.0 as int, hb.0 as int)
            &&& fs.len() < usize::MAX
        },
    }
}

/// The arenas after `mvfs(seed)` followed by `steps`, in order.
pub open spec fn run<P>(seed: P, steps: Seq<Step<P>>) -> Arenas<P>
    decreases steps.len(),
{
    if steps.len() == 0 {
        (
            seq![Vertex { position: seed, half_edge: Some(HalfEdgeId(0)) }],
            mvfs_half_edges(),
            seq![Face { half_edge: HalfEdgeId(0) }],
        )
    } else {
        apply_step(run(seed, steps.drop_last()), steps.last())
    }
}

/// Each of `steps` can run on the arenas that the steps before it left.
pub open spec fn run_ok<P>(seed: P, steps: Seq<Step<P>>) -> bool
    decreases steps.len(),
{
    steps.len() == 0 || (run_ok(seed, steps.drop_last()) && step_ok(
        run(seed, steps.drop_last()),
        steps.last(),
    ))
}

/// A shell built by `mvfs` and then any sequence of `mev` and `mef` steps
/// that can run is of Euler shape (valid, consistent, `V - E + F = 2`),
/// `validate` accepts it, and it is closed exactly when at least one step
/// was taken.
pub proof fn law_run_shape<P>(seed: P, steps: Seq<Step<P>>)
    requires
        run_ok(seed, steps),
    ensures
        ({
            let (vs, hes, fs) = run(seed, steps);
            &&& euler_shape(vs, hes, fs)
            &&& outcome_from(hes, 0) is Valid
            &&& (forall|i: int| 0 <= i < hes.len() ==> (#[trigger] hes[i]).twin is Some) <==> steps.len() > 0
        }),
    decreases steps.len(),
{
    let (vs, hes, fs) = run(seed, steps);
    if steps.len() == 0 {
        law_mvfs_shape(seed);
        assert(hes[0].twin is None);
    } else {
        let before = steps.drop_last();
        law_run_shape(seed, before);
        let (vs0, hes0, fs0) = run(seed, before);
        match steps.last() {
            Step::Mev(at, position) => {
                law_mev_shape(vs0, hes0, fs0, at.0 as int, position);
            },
            Step::Mef(ha, hb) => {
                law_mef_shape(vs0, hes0, fs0, ha.0 as int, hb.0 as int);
            },
        }
        assert(hes.len() >= 2);
    }
    law_valid_validates(hes);
}

} // verus!
