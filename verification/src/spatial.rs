//! A point index over agent positions: the nearest `k` entries to a point and
//! the entries within a radius of it, by squared distance.
//!
//! The index is built once from a list of positions and only read afterwards.
//! A position that is not finite never enters it.

use crate::fixed::Fixed;
use crate::vec2::{dist2, lemma_dist2_basics, lemma_dist2_finite, Vec2};
use vstd::prelude::*;

verus! {

/// One indexed point: an id and where it is.
#[derive(Clone, Copy, Debug, PartialEq, Eq, Structural)]
pub struct IndexEntry {
    pub id: u32,
    pub position: Vec2,
}

/// One answer of a query: an entry's id and its squared raw distance from the
/// query point.
#[derive(Clone, Copy, Debug, PartialEq, Eq, Structural)]
pub struct Neighbor {
    pub dist2: u128,
    pub id: u32,
}

/// Why a query was not answered.
#[derive(Clone, Copy, Debug, PartialEq, Eq, Structural)]
pub enum ErrorKind {
    /// A coordinate of the query point is not finite.
    NonFiniteCoordinate,
}

/// The index: its entries in the order in which they were given.
#[derive(Debug)]
pub struct SpatialIndex {
    pub entries: Vec<IndexEntry>,
}

/// The entries of `points` whose position is finite, in their order.
pub open spec fn finite_entries(points: Seq<IndexEntry>) -> Seq<IndexEntry>
    decreases points.len(),
{
    if points.len() == 0 {
        Seq::empty()
    } else if points.last().position.finite() {
        finite_entries(points.drop_last()).push(points.last())
    } else {
        finite_entries(points.drop_last())
    }
}

/// What a query reports of entry `e` seen from `point`.
pub open spec fn neighbor_of(e: IndexEntry, point: Vec2) -> Neighbor {
    Neighbor { dist2: dist2(e.position, point) as u128, id: e.id }
}

/// The entries within raw distance `radius` of `point`, in their order.
pub open spec fn within_entries(entries: Seq<IndexEntry>, point: Vec2, radius: int) -> Seq<
    Neighbor,
>
    decreases entries.len(),
{
    if entries.len() == 0 {
        Seq::empty()
    } else if dist2(entries.last().position, point) <= radius * radius {
        within_entries(entries.drop_last(), point, radius).push(
            neighbor_of(entries.last(), point),
        )
    } else {
        within_entries(entries.drop_last(), point, radius)
    }
}

/// Where an entry at squared distance `d` goes into the answers `buf`:
/// behind every answer that is as near.
pub open spec fn place_of(buf: Seq<Neighbor>, d: int) -> int
    decreases buf.len(),
{
    if buf.len() > 0 && buf.last().dist2 > d {
        place_of(buf.drop_last(), d)
    } else {
        buf.len() as int
    }
}

/// The `k` nearest answers among those of `buf` and `nb`.
pub open spec fn with_entry(buf: Seq<Neighbor>, nb: Neighbor, k: int) -> Seq<Neighbor> {
    let p = place_of(buf, nb.dist2 as int);
    if p < k {
        if buf.len() + 1 > k {
            buf.insert(p, nb).drop_last()
        } else {
            buf.insert(p, nb)
        }
    } else {
        buf
    }
}

/// The answers to a query for the `k` entries nearest to `point`: the
/// entries are taken in their order, and each goes to its place among the
/// nearest so far.
pub open spec fn nearest_answers(entries: Seq<IndexEntry>, point: Vec2, k: int) -> Seq<Neighbor>
    decreases entries.len(),
{
    if entries.len() == 0 {
        Seq::empty()
    } else {
        with_entry(
            nearest_answers(entries.drop_last(), point, k),
            neighbor_of(entries.last(), point),
            k,
        )
    }
}

/// Entry `i` at squared distance `di` comes before entry `j` at `dj`: it is
/// nearer, or as near and earlier in the index.
pub open spec fn comes_before(di: int, i: int, dj: int, j: int) -> bool {
    di < dj || (di == dj && i < j)
}

/// Entry `t` is behind one of the answers.
pub open spec fn chosen(sel: Seq<int>, t: int) -> bool {
    exists|j: int| 0 <= j < sel.len() && sel[j] == t
}

/// As many answers as were asked for, and entry `t` at squared distance `dt`
/// comes after the last of them.
pub open spec fn beyond(out: Seq<Neighbor>, sel: Seq<int>, k: int, dt: int, t: int) -> bool {
    out.len() == k && (k == 0 || comes_before(out.last().dist2 as int, sel.last(), dt, t))
}

/// `out` holds the `k` entries nearest to `point` (all of them where the index
/// holds fewer), nearest first, and `sel` names the entry behind each answer.
/// Among entries at one distance the earlier in the index is nearer.
pub open spec fn is_nearest(
    entries: Seq<IndexEntry>,
    point: Vec2,
    k: int,
    out: Seq<Neighbor>,
    sel: Seq<int>,
) -> bool {
    &&& 0 <= k
    &&& out.len() == sel.len()
    &&& out.len() == if k <= entries.len() {
        k
    } else {
        entries.len() as int
    }
    &&& forall|j: int|
        0 <= j < sel.len() ==> 0 <= #[trigger] sel[j] < entries.len() && out[j] == neighbor_of(
            entries[sel[j]],
            point,
        )
    &&& forall|a: int, b: int|
        0 <= a < b < sel.len() ==> comes_before(
            out[a].dist2 as int,
            #[trigger] sel[a],
            out[b].dist2 as int,
            #[trigger] sel[b],
        )
    &&& forall|t: int|
        0 <= t < entries.len() ==> chosen(sel, t) || beyond(
            out,
            sel,
            k,
            dist2(#[trigger] entries[t].position, point),
            t,
        )
}

/// Where `place_of` puts an entry: every answer behind is farther, and the
/// answer in front is as near.
pub proof fn lemma_place_of(buf: Seq<Neighbor>, d: int)
    ensures
        0 <= place_of(buf, d) <= buf.len(),
        forall|j: int| place_of(buf, d) <= j < buf.len() ==> (#[trigger] buf[j]).dist2 > d,
        place_of(buf, d) > 0 ==> buf[place_of(buf, d) - 1].dist2 <= d,
    decreases buf.len(),
{
    if buf.len() > 0 && buf.last().dist2 > d {
        lemma_place_of(buf.drop_last(), d);
        assert forall|j: int| place_of(buf, d) <= j < buf.len() implies (#[trigger] buf[j]).dist2
            > d by {
            if j < buf.len() - 1 {
                assert(buf.drop_last()[j] == buf[j]);
            }
        }
        if place_of(buf, d) > 0 {
            assert(buf.drop_last()[place_of(buf, d) - 1] == buf[place_of(buf, d) - 1]);
        }
    }
}

/// One more entry: where `buf` holds the nearest of `before`, `with_entry`
/// gives the nearest of `before` and `e`.
pub proof fn lemma_with_entry(
    before: Seq<IndexEntry>,
    e: IndexEntry,
    point: Vec2,
    k: int,
    buf: Seq<Neighbor>,
    sel: Seq<int>,
) -> (next: Seq<int>)
    requires
        is_nearest(before, point, k, buf, sel),
        point.finite(),
        e.position.finite(),
        forall|t: int| 0 <= t < before.len() ==> (#[trigger] before[t]).position.finite(),
    ensures
        is_nearest(before.push(e), point, k, with_entry(buf, neighbor_of(e, point), k), next),
{
    let after = before.push(e);
    let i = before.len() as int;
    let nb = neighbor_of(e, point);
    lemma_dist2_finite(e.position, point);
    let d = nb.dist2 as int;
    let p = place_of(buf, d);
    lemma_place_of(buf, d);
    let out = with_entry(buf, nb, k);
    assert forall|j: int| 0 <= j < p implies (#[trigger] buf[j]).dist2 <= d by {
        if j < p - 1 {
            assert(comes_before(buf[j].dist2 as int, sel[j], buf[p - 1].dist2 as int, sel[p - 1]));
        }
    }
    if p < k {
        let mid_out = buf.insert(p, nb);
        let mid_sel = sel.insert(p, i);
        let next = if buf.len() + 1 > k {
            mid_sel.drop_last()
        } else {
            mid_sel
        };
        assert forall|j: int| 0 <= j < mid_sel.len() implies 0 <= #[trigger] mid_sel[j]
            < after.len() && mid_out[j] == neighbor_of(after[mid_sel[j]], point) by {
            if j < p {
                assert(mid_sel[j] == sel[j]);
            } else if j > p {
                assert(mid_sel[j] == sel[j - 1]);
            }
        }
        assert forall|a: int, b: int| 0 <= a < b < mid_sel.len() implies comes_before(
            mid_out[a].dist2 as int,
            #[trigger] mid_sel[a],
            mid_out[b].dist2 as int,
            #[trigger] mid_sel[b],
        ) by {
            let oa = if a < p {
                a
            } else {
                a - 1
            };
            let ob = if b < p {
                b
            } else {
                b - 1
            };
            if a != p && b != p {
                assert(comes_before(buf[oa].dist2 as int, sel[oa], buf[ob].dist2 as int, sel[ob]));
            } else if a == p {
                assert(buf[ob].dist2 > d);
            } else {
                assert(sel[oa] < i);
                assert(buf[oa].dist2 <= d);
            }
        }
        assert forall|j: int| 0 <= j < next.len() implies 0 <= #[trigger] next[j] < after.len()
            && out[j] == neighbor_of(after[next[j]], point) by {
            assert(next[j] == mid_sel[j]);
            assert(out[j] == mid_out[j]);
        }
        assert forall|a: int, b: int| 0 <= a < b < next.len() implies comes_before(
            out[a].dist2 as int,
            #[trigger] next[a],
            out[b].dist2 as int,
            #[trigger] next[b],
        ) by {
            assert(next[a] == mid_sel[a] && next[b] == mid_sel[b]);
            assert(out[a] == mid_out[a] && out[b] == mid_out[b]);
        }
        assert forall|t: int| 0 <= t < after.len() implies chosen(next, t) || beyond(
            out,
            next,
            k,
            dist2(#[trigger] after[t].position, point),
            t,
        ) by {
            let dt = dist2(after[t].position, point);
            let ml = mid_sel.len() - 1;
            lemma_dist2_finite(after[t].position, point);
            // entry t is behind one of the answers before the last is dropped
            let nj: int = if t == i {
                p
            } else if chosen(sel, t) {
                let j = choose|j: int| 0 <= j < sel.len() && sel[j] == t;
                if j < p {
                    j
                } else {
                    j + 1
                }
            } else {
                -1
            };
            if nj >= 0 {
                assert(mid_sel[nj] == t);
                if nj < next.len() {
                    assert(next[nj] == t);
                } else {
                    assert(nj == ml && next.len() == ml && ml == k);
                    assert(comes_before(
                        mid_out[ml - 1].dist2 as int,
                        mid_sel[ml - 1],
                        mid_out[ml].dist2 as int,
                        mid_sel[ml],
                    ));
                    assert(out.last() == mid_out[ml - 1]);
                    assert(next.last() == mid_sel[ml - 1]);
                }
            } else {
                // it came after the old last answer, which is now dropped or
                // pushed back behind the new last one
                assert(before[t] == after[t]);
                assert(beyond(buf, sel, k, dt, t));
                let ol = buf.len() - 1;
                assert(ml == k && next.len() == k);
                assert(mid_out[ml] == buf[ol]);
                assert(mid_sel[ml] == sel[ol]);
                assert(comes_before(
                    mid_out[ml - 1].dist2 as int,
                    mid_sel[ml - 1],
                    mid_out[ml].dist2 as int,
                    mid_sel[ml],
                ));
                assert(out.last() == mid_out[ml - 1]);
                assert(next.last() == mid_sel[ml - 1]);
            }
        }
        next
    } else {
        assert(p == buf.len() && p == k);
        assert forall|j: int| 0 <= j < sel.len() implies 0 <= #[trigger] sel[j] < after.len()
            && out[j] == neighbor_of(after[sel[j]], point) by {
            assert(after[sel[j]] == before[sel[j]]);
        }
        assert forall|t: int| 0 <= t < after.len() implies chosen(sel, t) || beyond(
            out,
            sel,
            k,
            dist2(#[trigger] after[t].position, point),
            t,
        ) by {
            if t == i {
                if k > 0 {
                    let l = out.len() - 1;
                    assert(sel[l] < i);
                    assert(out[l].dist2 <= d);
                }
            } else {
                assert(before[t] == after[t]);
            }
        }
        sel
    }
}

/// The answers of a query are the nearest entries, nearest first.
pub proof fn lemma_nearest_answers(entries: Seq<IndexEntry>, point: Vec2, k: int) -> (sel: Seq<
    int,
>)
    requires
        0 <= k,
        point.finite(),
        forall|t: int| 0 <= t < entries.len() ==> (#[trigger] entries[t]).position.finite(),
    ensures
        is_nearest(entries, point, k, nearest_answers(entries, point, k), sel),
    decreases entries.len(),
{
    if entries.len() == 0 {
        Seq::empty()
    } else {
        let front = entries.drop_last();
        let before = lemma_nearest_answers(front, point, k);
        assert(front.push(entries.last()) == entries);
        lemma_with_entry(
            front,
            entries.last(),
            point,
            k,
            nearest_answers(front, point, k),
            before,
        )
    }
}

/// The first answer is at least as near as every entry of the index.
pub proof fn lemma_first_is_nearest(
    entries: Seq<IndexEntry>,
    point: Vec2,
    k: int,
    out: Seq<Neighbor>,
    sel: Seq<int>,
    t: int,
)
    requires
        is_nearest(entries, point, k, out, sel),
        out.len() > 0,
        0 <= t < entries.len(),
    ensures
        out[0].dist2 <= dist2(entries[t].position, point),
        out[0].dist2 == dist2(entries[t].position, point) ==> sel[0] <= t,
{
    let last = sel.len() - 1;
    if chosen(sel, t) {
        let j = choose|j: int| 0 <= j < sel.len() && sel[j] == t;
        if j > 0 {
            assert(comes_before(out[0].dist2 as int, sel[0], out[j].dist2 as int, sel[j]));
        }
        lemma_dist2_basics(entries[t].position, point);
    } else {
        assert(beyond(out, sel, k, dist2(entries[t].position, point), t));
        if last > 0 {
            assert(comes_before(out[0].dist2 as int, sel[0], out[last].dist2 as int, sel[last]));
        }
    }
}

/// Asked for the one entry nearest to an indexed point, the index answers
/// with distance zero; and it answers with that very entry unless an earlier
/// entry lies at the same position.
pub proof fn lemma_nearest_to_own_position(
    entries: Seq<IndexEntry>,
    i: int,
    out: Seq<Neighbor>,
    sel: Seq<int>,
)
    requires
        0 <= i < entries.len(),
        forall|t: int| 0 <= t < entries.len() ==> #[trigger] entries[t].position.finite(),
        is_nearest(entries, entries[i].position, 1, out, sel),
    ensures
        out.len() == 1,
        out[0].dist2 == 0,
        (forall|t: int| 0 <= t < i ==> #[trigger] entries[t].position != entries[i].position)
            ==> out[0] == (Neighbor { dist2: 0, id: entries[i].id }),
{
    let p = entries[i].position;
    lemma_first_is_nearest(entries, p, 1, out, sel, i);
    lemma_dist2_basics(p, p);
    let s = sel[0];
    lemma_dist2_finite(entries[s].position, p);
    lemma_dist2_basics(entries[s].position, p);
    assert(out[0] == neighbor_of(entries[s], p));
    assert(out[0].dist2 == 0);
    assert(entries[s].position == p);
    assert(s <= i);
}

/// Asked for the one entry nearest to the position of one of its entries,
/// an index of finite positions answers with distance zero, and with that
/// very entry unless an earlier entry lies at the same position.
pub proof fn lemma_nearest_answer_to_own_position(entries: Seq<IndexEntry>, i: int)
    requires
        0 <= i < entries.len(),
        forall|t: int| 0 <= t < entries.len() ==> #[trigger] entries[t].position.finite(),
    ensures
        nearest_answers(entries, entries[i].position, 1).len() == 1,
        nearest_answers(entries, entries[i].position, 1)[0].dist2 == 0,
        (forall|t: int| 0 <= t < i ==> #[trigger] entries[t].position != entries[i].position)
            ==> nearest_answers(entries, entries[i].position, 1)[0] == (Neighbor {
            dist2: 0,
            id: entries[i].id,
        }),
{
    let sel = lemma_nearest_answers(entries, entries[i].position, 1);
    lemma_nearest_to_own_position(
        entries,
        i,
        nearest_answers(entries, entries[i].position, 1),
        sel,
    );
}

impl SpatialIndex {
    /// Every entry lies at a finite position.
    pub open spec fn wf(&self) -> bool {
        forall|i: int| 0 <= i < self.entries@.len() ==> #[trigger] self.entries@[i].position.finite()
    }

    /// The empty index.
    pub fn new() -> (r: SpatialIndex)
        ensures
            r.entries@.len() == 0,
            r.wf(),
    {
        SpatialIndex { entries: Vec::new() }
    }

    /// The index of `points`: each entry at a finite position, in the order
    /// given; the others are left out.
    pub fn build(points: &Vec<IndexEntry>) -> (r: SpatialIndex)
        ensures
            r.entries@ == finite_entries(points@),
            r.wf(),
    {
        let mut entries: Vec<IndexEntry> = Vec::new();
        let mut i: usize = 0;
        while i < points.len()
            invariant
                0 <= i <= points.len(),
                entries@ == finite_entries(points@.take(i as int)),
                forall|j: int| 0 <= j < entries@.len() ==> #[trigger] entries@[j].position.finite(),
            decreases points.len() - i,
        {
            proof {
                assert(points@.take(i + 1).drop_last() == points@.take(i as int));
                assert(points@.take(i + 1).last() == points@[i as int]);
            }
            let e: IndexEntry = points[i];
            if e.position.is_finite() {
                entries.push(e);
            }
            i = i + 1;
        }
        proof {
            assert(points@.take(points@.len() as int) == points@);
        }
        SpatialIndex { entries }
    }

    /// Number of entries.
    pub fn size(&self) -> (r: usize)
        ensures
            r == self.entries@.len(),
    {
        self.entries.len()
    }

    /// The `k` entries nearest to `point`, nearest first, each with its squared
    /// distance. An entry at `point` itself is among them. Fails on a point
    /// that is not finite.
    pub fn nearest_k(&self, point: Vec2, k: usize) -> (r: Result<Vec<Neighbor>, ErrorKind>)
        requires
            self.wf(),
        ensures
            r is Err <==> !point.finite(),
            r is Ok ==> r->Ok_0@ == nearest_answers(self.entries@, point, k as int),
            r is Ok ==> exists|sel: Seq<int>|
                is_nearest(self.entries@, point, k as int, r->Ok_0@, sel),
    {
        if !point.is_finite() {
            return Err(ErrorKind::NonFiniteCoordinate);
        }
        let mut out: Vec<Neighbor> = Vec::new();
        let n: usize = self.entries.len();
        let mut i: usize = 0;
        while i < n
            invariant
                0 <= i <= n,
                n == self.entries@.len(),
                self.wf(),
                point.finite(),
                out@.len() <= k,
                out@ == nearest_answers(self.entries@.take(i as int), point, k as int),
            decreases n - i,
        {
            let e: IndexEntry = self.entries[i];
            let d: u128 = e.position.distance_squared(point);
            let nb: Neighbor = Neighbor { dist2: d, id: e.id };
            proof {
                lemma_dist2_finite(e.position, point);
                assert(self.entries@.take(i + 1).drop_last() == self.entries@.take(i as int));
                assert(nb == neighbor_of(self.entries@.take(i + 1).last(), point));
                assert(out@.take(out@.len() as int) == out@);
            }
            // the place of the new entry: behind every answer that is as near
            let mut p: usize = out.len();
            while p > 0 && out[p - 1].dist2 > d
                invariant
                    0 <= p <= out@.len(),
                    place_of(out@, d as int) == place_of(out@.take(p as int), d as int),
                decreases p,
            {
                proof {
                    assert(out@.take(p as int).drop_last() == out@.take(p - 1));
                }
                p = p - 1;
            }
            proof {
                if p > 0 {
                    assert(out@.take(p as int).last() == out@[p - 1]);
                }
                assert(place_of(out@, d as int) == p);
            }
            if p < k {
                out.insert(p, nb);
                if out.len() > k {
                    out.pop();
                }
            }
            i = i + 1;
        }
        let ghost answers = out@;
        let res: Result<Vec<Neighbor>, ErrorKind> = Ok(out);
        proof {
            assert(self.entries@.take(n as int) == self.entries@);
            assert(res->Ok_0@ == answers);
            let sel = lemma_nearest_answers(self.entries@, point, k as int);
            assert(is_nearest(self.entries@, point, k as int, res->Ok_0@, sel));
        }
        res
    }

    /// The entries within distance `radius` of `point`, each with its squared
    /// distance, in the order of the index. Fails on a point that is not
    /// finite.
    pub fn within_radius(&self, point: Vec2, radius: Fixed) -> (r: Result<Vec<Neighbor>, ErrorKind>)
        requires
            self.wf(),
        ensures
            r is Err <==> !point.finite(),
            r is Ok ==> r->Ok_0@ == within_entries(self.entries@, point, radius@),
    {
        if !point.is_finite() {
            return Err(ErrorKind::NonFiniteCoordinate);
        }
        let rr: i64 = radius.raw;
        assert(0 <= rr * rr <= 0x8000_0000_0000_0000 * 0x8000_0000_0000_0000) by (nonlinear_arith)
            requires
                -0x8000_0000_0000_0000 <= rr <= 0x8000_0000_0000_0000,
        ;
        let m: u128 = if rr < 0 {
            (-(rr as i128)) as u128
        } else {
            rr as u128
        };
        assert(m * m == rr * rr) by (nonlinear_arith)
            requires
                m == rr || m == -rr,
        ;
        let r2: u128 = m * m;
        let mut out: Vec<Neighbor> = Vec::new();
        let n: usize = self.entries.len();
        let mut i: usize = 0;
        while i < n
            invariant
                0 <= i <= n,
                n == self.entries@.len(),
                self.wf(),
                point.finite(),
                r2 == radius@ * radius@,
                out@ == within_entries(self.entries@.take(i as int), point, radius@),
            decreases n - i,
        {
            proof {
                assert(self.entries@.take(i + 1).drop_last() == self.entries@.take(i as int));
                assert(self.entries@.take(i + 1).last() == self.entries@[i as int]);
            }
            let e: IndexEntry = self.entries[i];
            let d: u128 = e.position.distance_squared(point);
            proof {
                lemma_dist2_finite(e.position, point);
            }
            if d <= r2 {
                out.push(Neighbor { dist2: d, id: e.id });
            }
            i = i + 1;
        }
        proof {
            assert(self.entries@.take(n as int) == self.entries@);
        }
        Ok(out)
    }
}

} // verus!
