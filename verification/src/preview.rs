//! The preview mesh of a part: every `step`-th triangle is kept and its
//! corners are re-indexed against the vertices they use, in first-use order.

use vstd::prelude::*;
use std::collections::HashMap;

use crate::selection::Role;

verus! {

broadcast use vstd::std_specs::hash::group_hash_axioms;

/// The number of faces a part's preview aims at: 12 000 for the head shell and
/// the handle, 6 000 for the others.
pub open spec fn face_budget_spec(role: Role) -> nat {
    if role == Role::HeadShell || role == Role::Handle {
        12000
    } else {
        6000
    }
}

/// The face budget of `role`.
pub fn face_budget(role: Role) -> (n: usize)
    ensures
        n == face_budget_spec(role),
{
    if role == Role::HeadShell || role == Role::Handle {
        12000
    } else {
        6000
    }
}

/// Every how many triangles one is kept: `faces / budget` rounded up, and at
/// least 1.
pub open spec fn preview_step_spec(faces: nat, budget: nat) -> nat
    recommends
        budget > 0,
{
    let q = if faces % budget == 0 {
        faces / budget
    } else {
        faces / budget + 1
    };
    if q == 0 {
        1
    } else {
        q
    }
}

/// The sampling step for `faces` triangles and a face budget of `budget`.
pub fn preview_step(faces: usize, budget: usize) -> (step: usize)
    requires
        budget > 0,
    ensures
        step == preview_step_spec(faces as nat, budget as nat),
        step >= 1,
{
    let q = if faces % budget == 0 {
        faces / budget
    } else {
        assert(budget != 1);
        assert(faces / budget < faces || faces == 0) by (nonlinear_arith)
            requires
                budget >= 2,
        ;
        faces / budget + 1
    };
    if q == 0 {
        1
    } else {
        q
    }
}

/// The triangles kept: the first, then every `step`-th after it.
pub open spec fn sampled(ts: Seq<(u32, u32, u32)>, step: nat) -> Seq<(u32, u32, u32)>
    recommends
        step > 0,
    decreases ts.len(),
{
    if ts.len() == 0 || step == 0 {
        Seq::empty()
    } else if ts.len() <= step {
        seq![ts[0]]
    } else {
        seq![ts[0]] + sampled(ts.skip(step as int), step)
    }
}

/// The corners of a run of triangles, three per triangle, in order.
pub open spec fn corners(ts: Seq<(u32, u32, u32)>) -> Seq<u32>
    decreases ts.len(),
{
    if ts.len() == 0 {
        Seq::empty()
    } else {
        seq![ts[0].0, ts[0].1, ts[0].2] + corners(ts.drop_first())
    }
}

/// The distinct values of `c`, in order of first occurrence.
pub open spec fn first_seen(c: Seq<u32>) -> Seq<u32>
    decreases c.len(),
{
    if c.len() == 0 {
        Seq::empty()
    } else {
        let d = first_seen(c.drop_last());
        if d.contains(c.last()) {
            d
        } else {
            d.push(c.last())
        }
    }
}

/// A compacted preview mesh: `vertices` lists the mesh's vertex indices in
/// first-use order, `indices` the new index of every kept corner.
pub struct CompactMesh {
    pub vertices: Vec<u32>,
    pub indices: Vec<u32>,
}

/// The largest index of `idx`, or -1 when it is empty.
pub open spec fn max_index(idx: Seq<u32>) -> int
    decreases idx.len(),
{
    if idx.len() == 0 {
        -1
    } else {
        let m = max_index(idx.drop_last());
        if idx.last() > m {
            idx.last() as int
        } else {
            m
        }
    }
}

/// `indices` are numbered in order of first use: each is at most one above every
/// index before it (so the first is 0, and an index not seen before is always the
/// next number), and `count` numbers are used in all.
pub open spec fn first_use_numbered(indices: Seq<u32>, count: nat) -> bool {
    &&& forall|k: int|
        0 <= k < indices.len() ==> #[trigger] indices[k] <= max_index(indices.take(k)) + 1
    &&& count == max_index(indices) + 1
}

/// `vertices` and `indices` describe `cs`: the vertices are the distinct corners
/// in first-use order, each corner's index points at its vertex, and the indices
/// are numbered in order of first use.
pub open spec fn compacts(vertices: Seq<u32>, indices: Seq<u32>, cs: Seq<u32>) -> bool {
    &&& vertices == first_seen(cs)
    &&& vertices.no_duplicates()
    &&& indices.len() == cs.len()
    &&& forall|k: int|
        0 <= k < indices.len() ==> #[trigger] indices[k] < vertices.len() && vertices[indices[k] as int]
            == cs[k]
    &&& first_use_numbered(indices, vertices.len())
}

/// Appending an index keeps the numbering in first-use order when the index is
/// at most one above every index before it.
proof fn lemma_first_use_push(indices: Seq<u32>, count: nat, j: u32)
    requires
        first_use_numbered(indices, count),
        j <= count,
    ensures
        first_use_numbered(indices.push(j), if j == count { count + 1 } else { count }),
{
    let pushed = indices.push(j);
    assert(pushed.drop_last() =~= indices);
    assert forall|k: int| 0 <= k < pushed.len() implies #[trigger] pushed[k] <= max_index(
        pushed.take(k),
    ) + 1 by {
        if k < indices.len() {
            assert(pushed.take(k) =~= indices.take(k));
            assert(pushed[k] == indices[k]);
        } else {
            assert(pushed.take(k) =~= indices);
        }
    }
}

/// A sequence of distinct `u32` values has at most 2^32 elements.
proof fn lemma_distinct_u32_len(s: Seq<u32>)
    requires
        s.no_duplicates(),
    ensures
        s.len() <= 0x1_0000_0000,
{
    let ints = s.map_values(|x: u32| x as int);
    assert(ints.no_duplicates()) by {
        assert forall|i: int, j: int|
            0 <= i < ints.len() && 0 <= j < ints.len() && i != j implies ints[i] != ints[j] by {
            assert(s[i] != s[j]);
        }
    }
    ints.unique_seq_to_set();
    vstd::set_lib::lemma_int_range(0, 0x1_0000_0000);
    assert(ints.to_set().subset_of(vstd::set_lib::set_int_range(0, 0x1_0000_0000)));
    vstd::set_lib::lemma_len_subset(ints.to_set(), vstd::set_lib::set_int_range(0, 0x1_0000_0000));
}

/// `first_seen` has no duplicates and holds exactly the values of `c`.
proof fn lemma_first_seen(c: Seq<u32>)
    ensures
        first_seen(c).no_duplicates(),
        forall|x: u32| first_seen(c).contains(x) <==> c.contains(x),
    decreases c.len(),
{
    if c.len() > 0 {
        lemma_first_seen(c.drop_last());
        let d = first_seen(c.drop_last());
        assert forall|x: u32| first_seen(c).contains(x) <==> c.contains(x) by {
            if c.contains(x) {
                let k = choose|k: int| 0 <= k < c.len() && c[k] == x;
                if k < c.len() - 1 {
                    assert(c.drop_last()[k] == x);
                }
            }
            if c.drop_last().contains(x) {
                let k = choose|k: int| 0 <= k < c.drop_last().len() && c.drop_last()[k] == x;
                assert(c[k] == x);
            }
            if !d.contains(c.last()) && d.push(c.last()).contains(x) {
                let k = choose|k: int| 0 <= k < d.push(c.last()).len() && d.push(c.last())[k] == x;
                if k < d.len() {
                    assert(d[k] == x);
                }
            }
            if d.contains(x) && !d.contains(c.last()) {
                let k = choose|k: int| 0 <= k < d.len() && d[k] == x;
                assert(d.push(c.last())[k] == x);
            }
            if !d.contains(c.last()) && x == c.last() {
                assert(d.push(c.last())[d.len() as int] == x);
            }
        }
    }
}

/// A compacted mesh has one vertex per distinct corner, and two corners get the
/// same new index exactly when they name the same vertex of the mesh.
pub proof fn lemma_compacted_one_index_per_vertex(vertices: Seq<u32>, indices: Seq<u32>, cs: Seq<u32>)
    requires
        compacts(vertices, indices, cs),
    ensures
        vertices.len() == cs.to_set().len(),
        forall|k: int, l: int|
            0 <= k < cs.len() && 0 <= l < cs.len() ==> (#[trigger] indices[k] == #[trigger] indices[l]
                <==> cs[k] == cs[l]),
{
    lemma_first_seen(cs);
    vertices.unique_seq_to_set();
    assert(vertices.to_set() =~= cs.to_set());
    assert forall|k: int, l: int| 0 <= k < cs.len() && 0 <= l < cs.len() implies (
    #[trigger] indices[k] == #[trigger] indices[l] <==> cs[k] == cs[l]) by {
        if cs[k] == cs[l] {
            assert(vertices[indices[k] as int] == vertices[indices[l] as int]);
        }
    }
}

/// The state of the compaction loop after the corners `done`.
struct Compactor {
    map: HashMap<u32, u32>,
    vertices: Vec<u32>,
    indices: Vec<u32>,
}

impl Compactor {
    spec fn inv(&self, done: Seq<u32>) -> bool {
        &&& compacts(self.vertices@, self.indices@, done)
        &&& forall|x: u32| #[trigger] self.map@.contains_key(x) <==> self.vertices@.contains(x)
        &&& forall|j: int|
            0 <= j < self.vertices@.len() ==> self.map@[#[trigger] self.vertices@[j]] == j
    }

    /// Accounts for one more corner `v`.
    fn visit(&mut self, v: u32, Ghost(done): Ghost<Seq<u32>>)
        requires
            old(self).inv(done),
        ensures
            final(self).inv(done.push(v)),
    {
        proof {
            lemma_first_seen(done);
            lemma_first_seen(done.push(v));
        }
        let ghost d2 = done.push(v);
        assert(d2.drop_last() =~= done);
        match self.map.get(&v) {
            Some(j) => {
                let j: u32 = *j;
                let ghost k = choose|k: int| 0 <= k < self.vertices@.len() && self.vertices@[k] == v;
                assert(self.map@[self.vertices@[k]] == k);
                self.indices.push(j);
                proof {
                    lemma_first_use_push(old(self).indices@, self.vertices@.len(), j);
                }
                assert(first_seen(d2) == first_seen(done));
                assert forall|q: int| 0 <= q < self.indices@.len() implies #[trigger] self.indices@[q]
                    < self.vertices@.len() && self.vertices@[self.indices@[q] as int] == d2[q] by {
                    if q < done.len() {
                        assert(self.indices@[q] == old(self).indices@[q]);
                    }
                }
            },
            None => {
                assert(!self.vertices@.contains(v));
                proof {
                    lemma_distinct_u32_len(self.vertices@.push(v));
                }
                let j: u32 = self.vertices.len() as u32;
                self.map.insert(v, j);
                self.vertices.push(v);
                self.indices.push(j);
                proof {
                    lemma_first_use_push(old(self).indices@, old(self).vertices@.len(), j);
                }
                assert(first_seen(d2) == first_seen(done).push(v));
                assert forall|q: int| 0 <= q < self.indices@.len() implies #[trigger] self.indices@[q]
                    < self.vertices@.len() && self.vertices@[self.indices@[q] as int] == d2[q] by {
                    if q < done.len() {
                        assert(self.indices@[q] == old(self).indices@[q]);
                        assert(self.vertices@[self.indices@[q] as int] == old(self).vertices@[
                            self.indices@[q] as int]);
                    }
                }
                assert forall|x: u32| #[trigger] self.map@.contains_key(x) <==> self.vertices@.contains(
                    x,
                ) by {
                    if old(self).vertices@.contains(x) {
                        let k = choose|k: int| 0 <= k < old(self).vertices@.len() && old(self).vertices@[k] == x;
                        assert(self.vertices@[k] == x);
                    }
                    if self.vertices@.contains(x) && x != v {
                        let k = choose|k: int| 0 <= k < self.vertices@.len() && self.vertices@[k] == x;
                        assert(old(self).vertices@[k] == x);
                    }
                    if x == v {
                        assert(self.vertices@[old(self).vertices@.len() as int] == x);
                    }
                }
                assert forall|q: int| 0 <= q < self.vertices@.len() implies self.map@[
                    #[trigger] self.vertices@[q]] == q by {
                    if q < old(self).vertices@.len() {
                        assert(self.vertices@[q] == old(self).vertices@[q]);
                        assert(old(self).vertices@.contains(self.vertices@[q]));
                    }
                }
            },
        }
    }
}

/// `corners` splits over a concatenation of one triangle and the rest.
proof fn lemma_corners_cons(t: (u32, u32, u32), rest: Seq<(u32, u32, u32)>)
    ensures
        corners(seq![t] + rest) == seq![t.0, t.1, t.2] + corners(rest),
{
    assert((seq![t] + rest).drop_first() =~= rest);
}

/// The preview mesh of `triangles` sampled every `step` triangles: its vertices
/// are the distinct corners of the kept triangles in first-use order, and its
/// indices point every kept corner at its vertex.
pub fn compact_triangles(triangles: &Vec<(u32, u32, u32)>, step: usize) -> (m: CompactMesh)
    requires
        step >= 1,
    ensures
        compacts(m.vertices@, m.indices@, corners(sampled(triangles@, step as nat))),
{
    let mut c = Compactor { map: HashMap::new(), vertices: Vec::new(), indices: Vec::new() };
    let ghost mut done: Seq<u32> = Seq::empty();
    let ghost all = corners(sampled(triangles@, step as nat));
    let n = triangles.len();
    let mut i: usize = 0;
    assert(triangles@.skip(0) =~= triangles@);
    assert(done + all =~= all);
    while i < n
        invariant
            n == triangles.len(),
            i <= n,
            step >= 1,
            all == corners(sampled(triangles@, step as nat)),
            done + corners(sampled(triangles@.skip(i as int), step as nat)) == all,
            c.inv(done),
        decreases n - i,
    {
        let t = triangles[i];
        let ghost rest = triangles@.skip(i as int);
        assert(rest[0] == t);
        let ghost tail: Seq<(u32, u32, u32)> = if rest.len() <= step {
            Seq::empty()
        } else {
            sampled(rest.skip(step as int), step as nat)
        };
        assert(sampled(rest, step as nat) =~= seq![t] + tail);
        proof {
            lemma_corners_cons(t, tail);
        }
        c.visit(t.0, Ghost(done));
        proof {
            done = done.push(t.0);
        }
        c.visit(t.1, Ghost(done));
        proof {
            done = done.push(t.1);
        }
        c.visit(t.2, Ghost(done));
        proof {
            done = done.push(t.2);
        }
        assert(done + corners(tail) == all);
        if n - i <= step {
            assert(corners(tail) =~= Seq::<u32>::empty());
            i = n;
            assert(triangles@.skip(i as int) =~= Seq::<(u32, u32, u32)>::empty());
        } else {
            assert(rest.skip(step as int) =~= triangles@.skip(i + step));
            i = i + step;
        }
    }
    assert(triangles@.skip(i as int) =~= Seq::<(u32, u32, u32)>::empty());
    assert(done =~= all);
    CompactMesh { vertices: c.vertices, indices: c.indices }
}


/// The preview mesh of a part with role `role`: the triangles sampled with the
/// step that the role's face budget gives, compacted.
pub fn preview_mesh(role: Role, triangles: &Vec<(u32, u32, u32)>) -> (m: CompactMesh)
    ensures
        compacts(
            m.vertices@,
            m.indices@,
            corners(
                sampled(
                    triangles@,
                    preview_step_spec(triangles@.len(), face_budget_spec(role)),
                ),
            ),
        ),
{
    let budget = face_budget(role);
    let step = preview_step(triangles.len(), budget);
    compact_triangles(triangles, step)
}

/// The number of triangles kept with step `step`: `n / step` rounded up.
pub proof fn lemma_sampled_len(ts: Seq<(u32, u32, u32)>, step: nat)
    requires
        step > 0,
    ensures
        sampled(ts, step).len() == if ts.len() % step == 0 {
            ts.len() / step
        } else {
            ts.len() / step + 1
        },
    decreases ts.len(),
{
    if ts.len() == 0 {
    } else if ts.len() <= step {
        assert(ts.len() / step <= 1) by (nonlinear_arith)
            requires
                ts.len() <= step,
                step > 0,
        ;
        if ts.len() == step {
            assert(ts.len() % step == 0 && ts.len() / step == 1) by (nonlinear_arith)
                requires
                    ts.len() == step,
                    step > 0,
            ;
        } else {
            assert(ts.len() % step != 0 && ts.len() / step == 0) by (nonlinear_arith)
                requires
                    0 < ts.len() < step,
            ;
        }
    } else {
        let rest = ts.skip(step as int);
        lemma_sampled_len(rest, step);
        let n = ts.len() as int;
        let s = step as int;
        assert((n - s) / s == n / s - 1 && (n - s) % s == n % s) by (nonlinear_arith)
            requires
                n > s,
                s > 0,
        ;
    }
}

/// The preview of a part keeps at most its face budget of triangles, and at
/// least one when the part has any.
pub proof fn lemma_preview_within_budget(ts: Seq<(u32, u32, u32)>, budget: nat)
    requires
        budget > 0,
    ensures
        sampled(ts, preview_step_spec(ts.len(), budget)).len() <= budget,
        ts.len() > 0 ==> sampled(ts, preview_step_spec(ts.len(), budget)).len() >= 1,
{
    let n = ts.len() as int;
    let b = budget as int;
    let step = preview_step_spec(ts.len(), budget);
    lemma_sampled_len(ts, step);
    let s = step as int;
    let q = if n % b == 0 {
        n / b
    } else {
        n / b + 1
    };
    assert(q * b >= n) by (nonlinear_arith)
        requires
            b > 0,
            q == (if n % b == 0 {
                n / b
            } else {
                n / b + 1
            }),
    ;
    if q == 0 {
        assert(n == 0) by (nonlinear_arith)
            requires
                q * b >= n,
                q == 0,
                n >= 0,
        ;
    } else {
        assert(s == q);
        let k = if n % s == 0 {
            n / s
        } else {
            n / s + 1
        };
        assert(k <= b) by (nonlinear_arith)
            requires
                s * b >= n,
                s > 0,
                b > 0,
                n >= 0,
                k == (if n % s == 0 {
                    n / s
                } else {
                    n / s + 1
                }),
        ;
        if n > 0 {
            assert(k >= 1) by (nonlinear_arith)
                requires
                    n > 0,
                    s > 0,
                    k == (if n % s == 0 {
                        n / s
                    } else {
                        n / s + 1
                    }),
            ;
        }
    }
}

/// Keeping every triangle keeps them all.
proof fn lemma_sampled_every(ts: Seq<(u32, u32, u32)>)
    ensures
        sampled(ts, 1) == ts,
    decreases ts.len(),
{
    if ts.len() == 1 {
        assert(seq![ts[0]] =~= ts);
    } else if ts.len() > 1 {
        lemma_sampled_every(ts.skip(1));
        assert(seq![ts[0]] + ts.skip(1) =~= ts);
    }
}

/// Every part with at most 6000 triangles is previewed whole, and so are the
/// head shell and the handle up to 12 000 triangles; a larger part keeps at
/// most 6000 triangles (12 000 for the head shell and the handle).
pub proof fn lemma_preview_budgets(role: Role, ts: Seq<(u32, u32, u32)>)
    ensures
        ({
            let kept = sampled(ts, preview_step_spec(ts.len(), face_budget_spec(role)));
            let large = role == Role::HeadShell || role == Role::Handle;
            &&& ts.len() <= 6000 ==> kept == ts
            &&& large && ts.len() <= 12000 ==> kept == ts
            &&& !large ==> kept.len() <= 6000
            &&& large ==> kept.len() <= 12000
        }),
{
    let b = face_budget_spec(role);
    let n = ts.len();
    lemma_preview_within_budget(ts, b);
    if n <= b {
        assert(preview_step_spec(n, b) == 1) by (nonlinear_arith)
            requires
                n <= b,
                b > 0,
                preview_step_spec(n, b) == (if (if n % b == 0 {
                    n / b
                } else {
                    n / b + 1
                }) == 0 {
                    1
                } else {
                    if n % b == 0 {
                        n / b
                    } else {
                        n / b + 1
                    }
                }),
        ;
        lemma_sampled_every(ts);
    }
}

} // verus!
