//! Euler operators: the atomic construction primitives of a shell.
//!
//! | op     | meaning                       | dV | dE | dF |
//! |--------|-------------------------------|----|----|----|
//! | `mvfs` | make vertex, face, shell      | +1 |  0 | +1 |
//! | `mev`  | make edge + vertex (a "spur") | +1 | +1 |  0 |
//! | `mef`  | make edge + face (split loop) |  0 | +1 | +1 |
//!
//! Each operator's contract gives the exact arena it produces; the laws about
//! what they preserve (validity, `V - E + F`, closedness) are in `laws`.
use vstd::prelude::*;
use crate::topology::{
    has_loop, in_loop, lemma_loop_basics, loop_from, period, returns_at, walk, with_face, with_next,
    with_prev, Face, FaceId, HalfEdge, HalfEdgeId, Shell, Vertex, VertexId,
};

verus! {

/// The half-edge arena of the shell made by `mvfs`: one self-loop on face 0.
pub open spec fn mvfs_half_edges() -> Seq<HalfEdge> {
    seq![
        HalfEdge {
            origin: VertexId(0),
            twin: None,
            next: HalfEdgeId(0),
            prev: HalfEdgeId(0),
            face: Some(FaceId(0)),
        },
    ]
}

/// The half-edge `mev` returns: the one leaving the new vertex.
pub open spec fn mev_back(hes: Seq<HalfEdge>, at: int) -> HalfEdgeId {
    if hes[at].twin is None {
        HalfEdgeId(hes.len() as usize)
    } else {
        HalfEdgeId((hes.len() + 1) as usize)
    }
}

/// The half-edge arena after `mev` at `at`, growing the new vertex `w`.
///
/// A twin-less `at` (the seed self-loop of `mvfs`) becomes the outgoing half of
/// the new edge; otherwise two new half-edges `v -> w -> v` are spliced into
/// the loop of `at` just before it.
pub open spec fn mev_half_edges(hes: Seq<HalfEdge>, w: VertexId, at: int) -> Seq<HalfEdge> {
    let n = hes.len();
    let h = hes[at];
    let at_id = HalfEdgeId(at as usize);
    if h.twin is None {
        let back = HalfEdgeId(n as usize);
        hes.update(
            at,
            HalfEdge { origin: h.origin, twin: Some(back), next: back, prev: back, face: h.face },
        ).push(HalfEdge { origin: w, twin: Some(at_id), next: at_id, prev: at_id, face: h.face })
    } else {
        let out = HalfEdgeId(n as usize);
        let back = HalfEdgeId((n + 1) as usize);
        let prev = h.prev.0 as int;
        let s1 = hes.push(
            HalfEdge { origin: h.origin, twin: Some(back), next: back, prev: h.prev, face: h.face },
        ).push(HalfEdge { origin: w, twin: Some(out), next: at_id, prev: out, face: h.face });
        let s2 = s1.update(prev, with_next(s1[prev], out));
        s2.update(at, with_prev(s2[at], back))
    }
}

/// The links after `mef(ha, hb)` has added `ea = a -> b` (kept by `old_face`)
/// and `eb = b -> a`, before the new face is painted onto its loop.
pub open spec fn mef_links(hes: Seq<HalfEdge>, ha: int, hb: int, old_face: FaceId) -> Seq<HalfEdge> {
    let n = hes.len();
    let ea = HalfEdgeId(n as usize);
    let eb = HalfEdgeId((n + 1) as usize);
    let pa = hes[ha].prev;
    let pb = hes[hb].prev;
    let s0 = hes.push(
        HalfEdge {
            origin: hes[ha].origin,
            twin: Some(eb),
            next: HalfEdgeId(hb as usize),
            prev: pa,
            face: Some(old_face),
        },
    ).push(
        HalfEdge {
            origin: hes[hb].origin,
            twin: Some(ea),
            next: HalfEdgeId(ha as usize),
            prev: pb,
            face: None,
        },
    );
    let s1 = s0.update(pa.0 as int, with_next(s0[pa.0 as int], ea));
    let s2 = s1.update(hb, with_prev(s1[hb], ea));
    let s3 = s2.update(pb.0 as int, with_next(s2[pb.0 as int], eb));
    s3.update(ha, with_prev(s3[ha], eb))
}

/// `hes` with every half-edge on the loop through `h` assigned to `face`.
pub open spec fn paint_loop(hes: Seq<HalfEdge>, h: int, face: FaceId) -> Seq<HalfEdge> {
    Seq::new(
        hes.len(),
        |i: int|
            if in_loop(hes, h, i) {
                with_face(hes[i], Some(face))
            } else {
                hes[i]
            },
    )
}

/// The face that `mef(ha, hb)` splits.
pub open spec fn mef_old_face(hes: Seq<HalfEdge>, ha: int) -> FaceId {
    hes[ha].face.unwrap()
}

/// The half-edge arena after `mef(ha, hb)` created face `new_face`.
pub open spec fn mef_half_edges(hes: Seq<HalfEdge>, ha: int, hb: int, new_face: FaceId) -> Seq<HalfEdge> {
    paint_loop(mef_links(hes, ha, hb, mef_old_face(hes, ha)), ha, new_face)
}

/// What `mef(ha, hb)` needs to run to completion: `ha` and `hb` are in the
/// arena, `ha` has a face that is in the face arena once the new face is
/// added, the `prev` links it rewires exist once the two new half-edges are
/// added, and after the splice the walk from `ha` comes back to `ha`.
pub open spec fn mef_ready(hes: Seq<HalfEdge>, nfaces: nat, ha: int, hb: int) -> bool {
    &&& 0 <= ha < hes.len()
    &&& 0 <= hb < hes.len()
    &&& hes[ha].face is Some
    &&& hes[ha].face.unwrap().0 <= nfaces
    &&& hes[ha].prev.0 < hes.len() + 2
    &&& hes[hb].prev.0 < hes.len() + 2
    &&& has_loop(mef_links(hes, ha, hb, mef_old_face(hes, ha)), ha)
}

/// The loop through `h` holds a half-edge leaving `v`.
pub open spec fn loop_has_origin(hes: Seq<HalfEdge>, h: int, v: VertexId) -> bool {
    exists|k: int| 0 <= k < loop_from(hes, h).len() && hes[loop_from(hes, h)[k].0 as int].origin == v
}

/// `he` is the first half-edge of the loop through `h` that leaves `v`.
pub open spec fn first_from_in_loop(hes: Seq<HalfEdge>, h: int, v: VertexId, he: HalfEdgeId) -> bool {
    let l = loop_from(hes, h);
    exists|k: int|
        #![trigger l[k]]
        0 <= k < l.len() && he == l[k] && hes[l[k].0 as int].origin == v && forall|j: int|
            0 <= j < k ==> hes[#[trigger] l[j].0 as int].origin != v
}

/// A broken structural invariant, as `validate` reports it.
#[derive(Clone, Copy, PartialEq, Eq, Debug)]
pub enum Defect {
    /// `next.prev` is not the half-edge itself.
    NextPrev,
    /// `prev.next` is not the half-edge itself.
    PrevNext,
    /// The twin's twin is not the half-edge itself.
    TwinNotSymmetric,
    /// The twin does not start where the half-edge ends.
    TwinOrigin,
    /// The half-edge and its `next` bound different faces.
    FaceMismatch,
}

/// What checking one half-edge finds: nothing wrong, a broken invariant, or
/// a link that leaves the arena (indexing it would panic).
pub enum Check {
    Pass,
    Fail(Defect),
    OutOfRange,
}

/// The checks of `validate` on half-edge `i`, in the order it makes them.
pub open spec fn check_half_edge(hes: Seq<HalfEdge>, i: int) -> Check {
    let he = hes[i];
    let n = he.next.0 as int;
    let p = he.prev.0 as int;
    if n >= hes.len() {
        Check::OutOfRange
    } else if hes[n].prev.0 != i {
        Check::Fail(Defect::NextPrev)
    } else if p >= hes.len() {
        Check::OutOfRange
    } else if hes[p].next.0 != i {
        Check::Fail(Defect::PrevNext)
    } else if he.twin is Some && he.twin.unwrap().0 >= hes.len() {
        Check::OutOfRange
    } else if he.twin is Some && hes[he.twin.unwrap().0 as int].twin != Some(HalfEdgeId(i as usize)) {
        Check::Fail(Defect::TwinNotSymmetric)
    } else if he.twin is Some && hes[he.twin.unwrap().0 as int].origin != hes[n].origin {
        Check::Fail(Defect::TwinOrigin)
    } else if he.face != hes[n].face {
        Check::Fail(Defect::FaceMismatch)
    } else {
        Check::Pass
    }
}

/// The structural invariants of a half-edge graph: every link stays in the
/// arena, `next`/`prev` are mutual inverses, twins are symmetric and a twin
/// starts where its partner ends, and a loop keeps one face along `next`.
pub open spec fn valid(hes: Seq<HalfEdge>) -> bool {
    forall|i: int| 0 <= i < hes.len() ==> #[trigger] check_half_edge(hes, i) is Pass
}

/// The outcome of checking half-edges one after the other.
pub enum Outcome {
    Valid,
    Invalid(usize, Defect),
    Panics,
}

/// The outcome of checking half-edges `i, i + 1, ...` in order: the first
/// failing check decides it.
pub open spec fn outcome_from(hes: Seq<HalfEdge>, i: int) -> Outcome
    decreases hes.len() - i,
{
    if i < 0 || i >= hes.len() {
        Outcome::Valid
    } else {
        match check_half_edge(hes, i) {
            Check::Pass => outcome_from(hes, i + 1),
            Check::Fail(d) => Outcome::Invalid(i as usize, d),
            Check::OutOfRange => Outcome::Panics,
        }
    }
}

/// The text that names a defect in `validate`'s report.
pub open spec fn defect_text(d: Defect) -> Seq<char> {
    match d {
        Defect::NextPrev => "next.prev != self"@,
        Defect::PrevNext => "prev.next != self"@,
        Defect::TwinNotSymmetric => "twin not symmetric"@,
        Defect::TwinOrigin => "twin.origin != destination"@,
        Defect::FaceMismatch => "face differs across next link"@,
    }
}

/// The decimal digit character for `d < 10`.
pub open spec fn digit_char(d: nat) -> char {
    (48 + d) as char
}

/// The decimal notation of `n`, without leading zeros.
pub open spec fn decimal(n: nat) -> Seq<char>
    decreases n,
{
    if n < 10 {
        seq![digit_char(n)]
    } else {
        decimal(n / 10).push(digit_char(n % 10))
    }
}

/// `validate`'s report of defect `d` at half-edge `i`: `he {i}: {text}`.
pub open spec fn defect_message(i: nat, d: Defect) -> Seq<char> {
    "he "@ + decimal(i) + ": "@ + defect_text(d)
}

fn defect_str(d: Defect) -> (s: &'static str)
    ensures
        s@ == defect_text(d),
{
    match d {
        Defect::NextPrev => "next.prev != self",
        Defect::PrevNext => "prev.next != self",
        Defect::TwinNotSymmetric => "twin not symmetric",
        Defect::TwinOrigin => "twin.origin != destination",
        Defect::FaceMismatch => "face differs across next link",
    }
}

fn digit_str(d: usize) -> (s: &'static str)
    requires
        d < 10,
    ensures
        s@ == seq![digit_char(d as nat)],
{
    proof {
        reveal_strlit("0");
        reveal_strlit("1");
        reveal_strlit("2");
        reveal_strlit("3");
        reveal_strlit("4");
        reveal_strlit("5");
        reveal_strlit("6");
        reveal_strlit("7");
        reveal_strlit("8");
        reveal_strlit("9");
    }
    match d {
        0 => "0",
        1 => "1",
        2 => "2",
        3 => "3",
        4 => "4",
        5 => "5",
        6 => "6",
        7 => "7",
        8 => "8",
        _ => "9",
    }
}

fn append_decimal(s: &mut String, n: usize)
    ensures
        final(s)@ == old(s)@ + decimal(n as nat),
    decreases n,
{
    if n >= 10 {
        append_decimal(s, n / 10);
    }
    s.append(digit_str(n % 10));
    assert(final(s)@ =~= old(s)@ + decimal(n as nat)) by {
        if n >= 10 {
            assert(decimal(n as nat) == decimal((n / 10) as nat).push(digit_char((n % 10) as nat)));
        }
    }
}

fn defect_report(i: usize, d: Defect) -> (msg: String)
    ensures
        msg@ == defect_message(i as nat, d),
{
    let mut msg = String::from_str("he ");
    append_decimal(&mut msg, i);
    msg.append(": ");
    msg.append(defect_str(d));
    msg
}

/// `outcome_from(hes, i)` reports the first failing check from `i` on.
pub proof fn lemma_outcome(hes: Seq<HalfEdge>, i: int)
    requires
        0 <= i <= hes.len(),
    ensures
        outcome_from(hes, i) is Valid <==> forall|j: int| i <= j < hes.len() ==> #[trigger] check_half_edge(hes, j) is Pass,
    decreases hes.len() - i,
{
    if i < hes.len() {
        lemma_outcome(hes, i + 1);
    }
}

/// `validate`'s run over the arena ends in acceptance exactly when every
/// half-edge `i` satisfies the structural invariants: `next` and `prev` stay
/// in the arena and are mutual inverses (`next.prev == i`, `prev.next == i`);
/// a twin `t`, if any, is in the arena, names `i` back as its own twin (twins
/// come in pairs) and starts where `i` ends; and `i` bounds the same face as
/// its `next`.
pub proof fn law_validate_checks(hes: Seq<HalfEdge>)
    ensures
        outcome_from(hes, 0) is Valid <==> forall|i: int|
            0 <= i < hes.len() ==> {
                let n = (#[trigger] hes[i]).next.0 as int;
                let p = hes[i].prev.0 as int;
                &&& 0 <= n < hes.len()
                &&& hes[n].prev.0 == i
                &&& 0 <= p < hes.len()
                &&& hes[p].next.0 == i
                &&& hes[i].twin matches Some(t) ==> {
                    &&& t.0 < hes.len()
                    &&& hes[t.0 as int].twin == Some(HalfEdgeId(i as usize))
                    &&& hes[t.0 as int].origin == hes[n].origin
                }
                &&& hes[i].face == hes[n].face
            },
{
    lemma_outcome(hes, 0);
    assert forall|i: int| 0 <= i < hes.len() implies (#[trigger] check_half_edge(hes, i) is Pass <==> {
        let n = hes[i].next.0 as int;
        let p = hes[i].prev.0 as int;
        &&& 0 <= n < hes.len()
        &&& hes[n].prev.0 == i
        &&& 0 <= p < hes.len()
        &&& hes[p].next.0 == i
        &&& hes[i].twin matches Some(t) ==> {
            &&& t.0 < hes.len()
            &&& hes[t.0 as int].twin == Some(HalfEdgeId(i as usize))
            &&& hes[t.0 as int].origin == hes[n].origin
        }
        &&& hes[i].face == hes[n].face
    }) by {
        if hes[i].twin is Some && hes[i].twin.unwrap().0 < hes.len() && hes[hes[i].twin.unwrap().0 as int].twin
            != Some(HalfEdgeId(i as usize)) {
            assert(!(check_half_edge(hes, i) is Pass));
        }
    }
    if outcome_from(hes, 0) is Valid {
        assert forall|i: int| 0 <= i < hes.len() implies {
            let n = (#[trigger] hes[i]).next.0 as int;
            let p = hes[i].prev.0 as int;
            &&& 0 <= n < hes.len()
            &&& hes[n].prev.0 == i
            &&& 0 <= p < hes.len()
            &&& hes[p].next.0 == i
            &&& hes[i].twin matches Some(t) ==> {
                &&& t.0 < hes.len()
                &&& hes[t.0 as int].twin == Some(HalfEdgeId(i as usize))
                &&& hes[t.0 as int].origin == hes[n].origin
            }
            &&& hes[i].face == hes[n].face
        } by {
            assert(check_half_edge(hes, i) is Pass);
        }
    }
}

/// The first half-edge of a loop leaving `v` is at the first position where
/// `v` occurs.
pub proof fn lemma_first_at(hes: Seq<HalfEdge>, h: int, v: VertexId, he: HalfEdgeId, k0: int)
    requires
        first_from_in_loop(hes, h, v, he),
        0 <= k0 < loop_from(hes, h).len(),
        hes[loop_from(hes, h)[k0].0 as int].origin == v,
        forall|j: int| 0 <= j < k0 ==> hes[#[trigger] loop_from(hes, h)[j].0 as int].origin != v,
    ensures
        he == loop_from(hes, h)[k0],
{
    let l = loop_from(hes, h);
    let k = choose|k: int|
        #![trigger l[k]]
        0 <= k < l.len() && he == l[k] && hes[l[k].0 as int].origin == v && forall|j: int|
            0 <= j < k ==> hes[#[trigger] l[j].0 as int].origin != v;
    if k < k0 {
        assert(hes[l[k].0 as int].origin != v);
    } else if k > k0 {
        assert(hes[l[k0].0 as int].origin != v);
    }
}

impl<P> Shell<P> {
    fn push_vertex(&mut self, position: P, half_edge: Option<HalfEdgeId>) -> (id: VertexId)
        requires
            old(self).vertices@.len() < usize::MAX,
        ensures
            id == VertexId(old(self).vertices@.len() as usize),
            final(self).vertices@ == old(self).vertices@.push(
                Vertex { position: position, half_edge: half_edge },
            ),
            final(self).half_edges@ == old(self).half_edges@,
            final(self).faces@ == old(self).faces@,
    {
        let id = VertexId(self.vertices.len());
        self.vertices.push(Vertex { position, half_edge });
        id
    }

    fn push_face(&mut self, half_edge: HalfEdgeId) -> (id: FaceId)
        requires
            old(self).faces@.len() < usize::MAX,
        ensures
            id == FaceId(old(self).faces@.len() as usize),
            final(self).faces@ == old(self).faces@.push(Face { half_edge: half_edge }),
            final(self).half_edges@ == old(self).half_edges@,
            final(self).vertices@ == old(self).vertices@,
    {
        let id = FaceId(self.faces.len());
        self.faces.push(Face { half_edge });
        id
    }

    fn push_half_edge(&mut self, he: HalfEdge) -> (id: HalfEdgeId)
        requires
            old(self).half_edges@.len() < usize::MAX,
        ensures
            id == HalfEdgeId(old(self).half_edges@.len() as usize),
            final(self).half_edges@ == old(self).half_edges@.push(he),
            final(self).vertices@ == old(self).vertices@,
            final(self).faces@ == old(self).faces@,
    {
        let id = HalfEdgeId(self.half_edges.len());
        self.half_edges.push(he);
        id
    }

    /// **MVFS**: a fresh shell seeded with one vertex in one face, carried by
    /// one self-loop half-edge without a twin (`V = 1, E = 0, F = 1`).
    /// Returns the shell, its vertex, its face and the seed half-edge.
    pub fn mvfs(position: P) -> (r: (Shell<P>, VertexId, FaceId, HalfEdgeId))
        ensures
            r.0.vertices@ == seq![Vertex { position: position, half_edge: Some(HalfEdgeId(0)) }],
            r.0.half_edges@ == mvfs_half_edges(),
            r.0.faces@ == seq![Face { half_edge: HalfEdgeId(0) }],
            r.1 == VertexId(0),
            r.2 == FaceId(0),
            r.3 == HalfEdgeId(0),
    {
        let mut shell = Shell { vertices: Vec::new(), half_edges: Vec::new(), faces: Vec::new() };
        let v = shell.push_vertex(position, None);
        let he = shell.push_half_edge(
            HalfEdge {
                origin: v,
                twin: None,
                next: HalfEdgeId(0),
                prev: HalfEdgeId(0),
                face: Some(FaceId(0)),
            },
        );
        let f = shell.push_face(he);
        shell.vertices[v.0].half_edge = Some(he);
        assert(shell.vertices@ =~= seq![Vertex { position: position, half_edge: Some(HalfEdgeId(0)) }]);
        assert(shell.half_edges@ =~= mvfs_half_edges());
        assert(shell.faces@ =~= seq![Face { half_edge: HalfEdgeId(0) }]);
        (shell, v, f, he)
    }

    /// **MEV**: grows a new vertex `w` at `position`, joined to `origin(at)` by
    /// a new spur edge inserted into `at`'s loop just before `at`. Both halves
    /// of the new edge lie in `at`'s face. Returns `w` and the half-edge
    /// leaving `w`.
    pub fn mev(&mut self, at: HalfEdgeId, position: P) -> (r: (VertexId, HalfEdgeId))
        requires
            at.0 < old(self).half_edges@.len(),
            old(self).half_edges@[at.0 as int].twin is Some ==> old(self).half_edges@[at.0 as int].prev.0
                < old(self).half_edges@.len() + 2,
            old(self).half_edges@.len() + 2 <= usize::MAX,
            old(self).vertices@.len() < usize::MAX,
        ensures
            r.0 == VertexId(old(self).vertices@.len() as usize),
            r.1 == mev_back(old(self).half_edges@, at.0 as int),
            final(self).half_edges@ == mev_half_edges(old(self).half_edges@, r.0, at.0 as int),
            final(self).vertices@ == old(self).vertices@.push(
                Vertex { position: position, half_edge: Some(r.1) },
            ),
            final(self).faces@ == old(self).faces@,
    {
        let ghost hes = self.half_edges@;
        let v = self.half_edges[at.0].origin;
        let face = self.half_edges[at.0].face;

        // The seed self-loop is the only twin-less half-edge; it becomes the
        // outgoing half of the first spur.
        if self.half_edges[at.0].twin.is_none() {
            let w = self.push_vertex(position, None);
            let h_back = self.push_half_edge(
                HalfEdge { origin: w, twin: Some(at), next: at, prev: at, face },
            );
            self.half_edges[at.0].twin = Some(h_back);
            self.half_edges[at.0].next = h_back;
            self.half_edges[at.0].prev = h_back;
            self.vertices[w.0].half_edge = Some(h_back);
            assert(self.half_edges@ =~= mev_half_edges(hes, w, at.0 as int));
            return (w, h_back);
        }
        let prev = self.half_edges[at.0].prev;
        let w = self.push_vertex(position, None);

        // h_out: v -> w, h_back: w -> v, spliced as prev -> h_out -> h_back -> at.
        let h_out = HalfEdgeId(self.half_edges.len());
        let h_back = HalfEdgeId(self.half_edges.len() + 1);
        self.push_half_edge(HalfEdge { origin: v, twin: Some(h_back), next: h_back, prev, face });
        self.push_half_edge(HalfEdge { origin: w, twin: Some(h_out), next: at, prev: h_out, face });

        self.half_edges[prev.0].next = h_out;
        self.half_edges[at.0].prev = h_back;
        self.vertices[w.0].half_edge = Some(h_back);
        assert(self.half_edges@ =~= mev_half_edges(hes, w, at.0 as int));
        (w, h_back)
    }

    /// **MEF**: draws a new edge from `origin(ha)` to `origin(hb)`, where `ha`
    /// and `hb` lie in the same loop, splitting that loop in two. `ha`'s old
    /// face keeps the new half-edge `a -> b`; the loop running from `ha` round
    /// to `b -> a` becomes the new face, which is returned.
    pub fn mef(&mut self, ha: HalfEdgeId, hb: HalfEdgeId) -> (new_face: FaceId)
        requires
            mef_ready(old(self).half_edges@, old(self).faces@.len(), ha.0 as int, hb.0 as int),
            old(self).half_edges@.len() + 2 <= usize::MAX,
            old(self).faces@.len() < usize::MAX,
        ensures
            new_face == FaceId(old(self).faces@.len() as usize),
            final(self).half_edges@ == mef_half_edges(
                old(self).half_edges@,
                ha.0 as int,
                hb.0 as int,
                new_face,
            ),
            final(self).faces@ == old(self).faces@.push(Face { half_edge: ha }).update(
                mef_old_face(old(self).half_edges@, ha.0 as int).0 as int,
                Face { half_edge: HalfEdgeId(old(self).half_edges@.len() as usize) },
            ),
            final(self).vertices@ == old(self).vertices@,
    {
        let ghost hes = self.half_edges@;
        let a = self.half_edges[ha.0].origin;
        let b = self.half_edges[hb.0].origin;
        let old_face = match self.half_edges[ha.0].face {
            Some(f) => f,
            None => unreached(),
        };

        let pa = self.half_edges[ha.0].prev;
        let pb = self.half_edges[hb.0].prev;

        // ea: a -> b stays with the old face; eb: b -> a bounds the new face.
        let ea = HalfEdgeId(self.half_edges.len());
        let eb = HalfEdgeId(self.half_edges.len() + 1);
        self.push_half_edge(
            HalfEdge { origin: a, twin: Some(eb), next: hb, prev: pa, face: Some(old_face) },
        );
        self.push_half_edge(HalfEdge { origin: b, twin: Some(ea), next: ha, prev: pb, face: None });

        // Old face loop: ... pa -> ea -> hb ...
        self.half_edges[pa.0].next = ea;
        self.half_edges[hb.0].prev = ea;
        // New face loop: ... pb -> eb -> ha ...
        self.half_edges[pb.0].next = eb;
        self.half_edges[ha.0].prev = eb;

        let ghost links = self.half_edges@;
        assert(links =~= mef_links(hes, ha.0 as int, hb.0 as int, old_face));

        // The new face owns the loop starting at ha (around through eb).
        let new_face = self.push_face(ha);
        let ghost h = ha.0 as int;
        proof {
            lemma_loop_basics(links, h);
        }
        let mut cur = ha;
        let ghost mut i: nat = 0;
        loop
            invariant_except_break
                i < period(links, h),
            invariant
                i <= period(links, h),
                has_loop(links, h),
                returns_at(links, h, period(links, h)),
                forall|j: nat| j <= period(links, h) ==> 0 <= #[trigger] walk(links, h, j) < links.len(),
                cur.0 == walk(links, h, i),
                h == ha.0,
                self.half_edges@.len() == links.len(),
                forall|x: int|
                    0 <= x < links.len() ==> #[trigger] self.half_edges@[x] == (if exists|k: nat|
                        k < i && #[trigger] walk(links, h, k) == x {
                        with_face(links[x], Some(new_face))
                    } else {
                        links[x]
                    }),
                self.vertices@ == old(self).vertices@,
                self.faces@ == old(self).faces@.push(Face { half_edge: ha }),
                new_face == FaceId(old(self).faces@.len() as usize),
            ensures
                i == period(links, h),
            decreases period(links, h) - i,
        {
            let ghost before = self.half_edges@;
            self.half_edges[cur.0].face = Some(new_face);
            cur = self.half_edges[cur.0].next;
            proof {
                assert forall|x: int| 0 <= x < links.len() implies #[trigger] self.half_edges@[x] == (
                if exists|k: nat| k < i + 1 && #[trigger] walk(links, h, k) == x {
                    with_face(links[x], Some(new_face))
                } else {
                    links[x]
                }) by {
                    if x == walk(links, h, i) {
                        assert(walk(links, h, i) == x);
                    } else {
                        if exists|k: nat| k < i + 1 && #[trigger] walk(links, h, k) == x {
                            let k = choose|k: nat| k < i + 1 && #[trigger] walk(links, h, k) == x;
                            assert(k < i);
                        }
                    }
                }
                i = i + 1;
            }
            if cur.0 == ha.0 {
                assert(i == period(links, h)) by {
                    if i < period(links, h) {
                        assert(walk(links, h, i) != h);
                    }
                }
                break;
            }
        }
        assert(self.half_edges@ =~= mef_half_edges(hes, ha.0 as int, hb.0 as int, new_face));

        // Make sure the old face references a half-edge it still owns.
        self.faces[old_face.0].half_edge = ea;
        new_face
    }

    /// Walks the loop of `face` and returns its first half-edge whose origin
    /// is `vertex`. The vertex must occur on that loop.
    pub fn find_in_face(&self, face: FaceId, vertex: VertexId) -> (he: HalfEdgeId)
        requires
            face.0 < self.faces@.len(),
            has_loop(self.half_edges@, self.faces@[face.0 as int].half_edge.0 as int),
            loop_has_origin(self.half_edges@, self.faces@[face.0 as int].half_edge.0 as int, vertex),
        ensures
            first_from_in_loop(
                self.half_edges@,
                self.faces@[face.0 as int].half_edge.0 as int,
                vertex,
                he,
            ),
    {
        let ghost h = self.faces@[face.0 as int].half_edge.0 as int;
        let ghost l = loop_from(self.half_edges@, h);
        proof {
            lemma_loop_basics(self.half_edges@, h);
        }
        let hes = self.face_loop(face);
        let mut i: usize = 0;
        while i < hes.len()
            invariant
                hes@ == l,
                face.0 < self.faces@.len(),
                h == self.faces@[face.0 as int].half_edge.0,
                l == loop_from(self.half_edges@, h),
                l.len() == period(self.half_edges@, h),
                forall|j: nat| j <= period(self.half_edges@, h) ==> 0 <= #[trigger] walk(self.half_edges@, h, j) < self.half_edges@.len(),
                i <= l.len(),
                forall|j: int| 0 <= j < i ==> self.half_edges@[#[trigger] l[j].0 as int].origin != vertex,
            decreases l.len() - i,
        {
            let he = hes[i];
            assert(he.0 < self.half_edges@.len()) by {
                assert(l[i as int] == HalfEdgeId(walk(self.half_edges@, h, i as nat) as usize));
                assert(0 <= walk(self.half_edges@, h, i as nat) < self.half_edges@.len());
            }
            if self.half_edges[he.0].origin == vertex {
                assert(he == l[i as int] && self.half_edges@[l[i as int].0 as int].origin == vertex);
                return he;
            }
            i += 1;
        }
        unreached()
    }

    /// Checks the structural invariants of the half-edge graph, half-edge by
    /// half-edge, and reports the first violation.
    pub fn validate(&self) -> (r: Result<(), String>)
        requires
            !(outcome_from(self.half_edges@, 0) is Panics),
        ensures
            r is Ok <==> valid(self.half_edges@),
            r is Ok <==> outcome_from(self.half_edges@, 0) is Valid,
            r matches Err(msg) ==> (outcome_from(self.half_edges@, 0) matches Outcome::Invalid(i, d)
                && msg@ == defect_message(i as nat, d)),
            r is Ok <==> forall|i: int|
                #![trigger self.half_edges@[i]]
                0 <= i < self.half_edges@.len() ==> {
                    let hes = self.half_edges@;
                    let n = hes[i].next.0 as int;
                    let p = hes[i].prev.0 as int;
                    &&& 0 <= n < hes.len()
                    &&& hes[n].prev.0 == i
                    &&& 0 <= p < hes.len()
                    &&& hes[p].next.0 == i
                    &&& hes[i].twin matches Some(t) ==> {
                        &&& t.0 < hes.len()
                        &&& hes[t.0 as int].twin == Some(HalfEdgeId(i as usize))
                        &&& hes[t.0 as int].origin == hes[n].origin
                    }
                    &&& hes[i].face == hes[n].face
                },
    {
        let ghost hes = self.half_edges@;
        proof {
            lemma_outcome(hes, 0);
            law_validate_checks(hes);
        }
        let mut i: usize = 0;
        while i < self.half_edges.len()
            invariant
                hes == self.half_edges@,
                i <= hes.len(),
                outcome_from(hes, 0) == outcome_from(hes, i as int),
                !(outcome_from(hes, 0) is Panics),
                forall|j: int| 0 <= j < i ==> #[trigger] check_half_edge(hes, j) is Pass,
            decreases hes.len() - i,
        {
            let he = &self.half_edges[i];
            let id = HalfEdgeId(i);
            assert(outcome_from(hes, i as int) == match check_half_edge(hes, i as int) {
                Check::Pass => outcome_from(hes, i + 1),
                Check::Fail(d) => Outcome::Invalid(i, d),
                Check::OutOfRange => Outcome::Panics,
            });
            // next/prev are mutual inverses.
            if self.half_edges[he.next.0].prev != id {
                return Err(defect_report(i, Defect::NextPrev));
            }
            if self.half_edges[he.prev.0].next != id {
                return Err(defect_report(i, Defect::PrevNext));
            }
            // twin is symmetric, and a twin's origin is our destination.
            if let Some(t) = he.twin {
                if self.half_edges[t.0].twin != Some(id) {
                    return Err(defect_report(i, Defect::TwinNotSymmetric));
                }
                let dest = self.half_edges[he.next.0].origin;
                if self.half_edges[t.0].origin != dest {
                    return Err(defect_report(i, Defect::TwinOrigin));
                }
            }
            // every half-edge in a loop shares the same face.
            if he.face != self.half_edges[he.next.0].face {
                return Err(defect_report(i, Defect::FaceMismatch));
            }
            assert(check_half_edge(hes, i as int) is Pass);
            i += 1;
        }
        Ok(())
    }
}

} // verus!
