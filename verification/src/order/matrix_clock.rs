//! A knowledge matrix per process, and the garbage collector it enables.
//!
//! Row `r`, column `c` of a process's matrix records what the process
//! currently believes process `r` has observed of process `c`'s counter.
//! Merging propagates knowledge transitively: the owner's own row is
//! recomputed as the columnwise maximum over all rows, so it always reflects
//! the union of everything the process has seen. An event may be discarded
//! once every row of the latest matrix has observed its sequence number.

use vstd::prelude::*;

use crate::order::pairwise_max;
use crate::order::vector_clock::{vc_extended, vc_genesis, vc_join, vc_leq};
use crate::order::{GCClock, HasEvents, LogicalClock, OrdProcess};

verus! {

/// A row of `n_procs` zeroes: no knowledge yet.
pub open spec fn zero_counters(n_procs: int) -> Seq<usize> {
    Seq::new(n_procs as nat, |j: int| 0usize)
}

/// The genesis matrix of process `i`: its own row is the vector-clock genesis
/// — so one process's genesis never compares equal to another's — and every
/// other row is all zeroes, since the process knows nothing of the others yet.
pub open spec fn mc_genesis(i: int, n_procs: int) -> Seq<Seq<usize>> {
    Seq::new(n_procs as nat, |r: int| if r == i { vc_genesis(i, n_procs) } else { zero_counters(n_procs) })
}

/// The matrix after a local step of the owner `i`: only the diagonal entry
/// `[i][i]` advances.
pub open spec fn mc_extended(m: Seq<Seq<usize>>, i: int) -> Seq<Seq<usize>> {
    m.update(i, vc_extended(m[i], i))
}

/// The rowwise componentwise maximum of two matrices.
pub open spec fn mc_joined(a: Seq<Seq<usize>>, b: Seq<Seq<usize>>) -> Seq<Seq<usize>> {
    Seq::new(a.len(), |r: int| vc_join(a[r], b[r]))
}

/// The largest entry of column `c`, over all rows of `m`.
pub open spec fn col_max(m: Seq<Seq<usize>>, c: int) -> usize
    decreases m.len(),
{
    if m.len() == 0 {
        0usize
    } else {
        let rest = col_max(m.drop_last(), c);
        if m.last()[c] >= rest {
            m.last()[c]
        } else {
            rest
        }
    }
}

/// The columnwise maximum over all rows of `m`: the union of everything any
/// row has observed.
pub open spec fn top_row(m: Seq<Seq<usize>>) -> Seq<usize> {
    Seq::new(m.len(), |c: int| col_max(m, c))
}

/// The matrix after the owner `i` assimilates `other`: elementwise maximum,
/// then row `i` becomes the columnwise maximum over all rows, then the
/// diagonal entry `[i][i]` advances.
pub open spec fn mc_merged(a: Seq<Seq<usize>>, b: Seq<Seq<usize>>, i: int) -> Seq<Seq<usize>> {
    mc_joined(a, b).update(i, vc_extended(top_row(mc_joined(a, b)), i))
}

/// Every entry of `a` is at or below the matching entry of `b`.
pub open spec fn mc_leq(a: Seq<Seq<usize>>, b: Seq<Seq<usize>>) -> bool {
    &&& a.len() == b.len()
    &&& forall|r: int| 0 <= r < a.len() ==> vc_leq(#[trigger] a[r], b[r])
}

/// Strict causal precedence on matrices.
pub open spec fn mc_lt(a: Seq<Seq<usize>>, b: Seq<Seq<usize>>) -> bool {
    mc_leq(a, b) && a != b
}

/// Per the knowledge matrix `latest_rows` of process `i`, every participant
/// has observed the event of process `i` with sequence number `seqno`.
pub open spec fn mc_seen_by_all(latest_rows: Seq<Seq<usize>>, i: int, seqno: usize) -> bool {
    forall|r: int| 0 <= r < latest_rows.len() ==> (#[trigger] latest_rows[r])[i] >= seqno
}

proof fn lemma_col_max_ge(m: Seq<Seq<usize>>, c: int, r: int)
    requires
        0 <= r < m.len(),
    ensures
        m[r][c] <= col_max(m, c),
    decreases m.len(),
{
    if r == m.len() - 1 {
        assert(m.last() == m[r]);
    } else {
        lemma_col_max_ge(m.drop_last(), c, r);
        assert(m.drop_last()[r] == m[r]);
    }
}

proof fn lemma_col_max_le(m: Seq<Seq<usize>>, c: int, bound: usize)
    requires
        forall|r: int| 0 <= r < m.len() ==> (#[trigger] m[r])[c] <= bound,
    ensures
        col_max(m, c) <= bound,
    decreases m.len(),
{
    if m.len() > 0 {
        lemma_col_max_le(m.drop_last(), c, bound);
    }
}

/// An `n_procs × n_procs` knowledge matrix owned by one process.
#[derive(Debug, PartialEq)]
pub struct MatrixClock {
    i: usize,
    clk: Vec<Vec<usize>>,
}

impl MatrixClock {
    /// The owning process.
    pub closed spec fn pid(&self) -> int {
        self.i as int
    }

    /// The matrix, row by row.
    pub closed spec fn rows(&self) -> Seq<Seq<usize>> {
        self.clk@.map_values(|row: Vec<usize>| row@)
    }

    /// The owner's own sequence number: the diagonal entry of its own row.
    pub open spec fn seqno(&self) -> usize {
        self.rows()[self.pid()][self.pid()]
    }

    /// The matrix is square, the owner's slot lies inside it, and the owner's
    /// own row dominates every other row componentwise: a process always
    /// knows at least the union of everything it has seen anyone know.
    pub open spec fn wf(&self) -> bool {
        &&& 0 <= self.pid() < self.rows().len()
        &&& forall|r: int| 0 <= r < self.rows().len()
            ==> (#[trigger] self.rows()[r]).len() == self.rows().len()
        &&& forall|r: int, c: int|
            0 <= r < self.rows().len() && 0 <= c < self.rows().len()
                ==> (#[trigger] self.rows()[r][c]) <= self.rows()[self.pid()][c]
    }

    /// The number of rows: the cluster size fixed at creation.
    pub fn dim(&self) -> (r: usize)
        ensures
            r == self.rows().len(),
    {
        self.clk.len()
    }

    /// Entry `[r][c]`: what this process believes process `r` has observed of
    /// process `c`'s counter.
    pub fn entry(&self, r: usize, c: usize) -> (v: usize)
        requires
            r < self.rows().len(),
            c < self.rows()[r as int].len(),
        ensures
            v == self.rows()[r as int][c as int],
    {
        proof {
            assert(self.rows()[r as int] == self.clk@[r as int]@);
        }
        self.clk[r][c]
    }

    /// An identical copy; the process records one and transmits the other.
    pub fn duplicate(&self) -> (r: Self)
        ensures
            r.pid() == self.pid(),
            r.rows() == self.rows(),
    {
        let n = self.clk.len();
        let mut clk: Vec<Vec<usize>> = Vec::new();
        let mut r: usize = 0;
        while r < n
            invariant
                n == self.rows().len(),
                r <= n,
                clk@.len() == r,
                forall|k: int| 0 <= k < r ==> (#[trigger] clk@[k])@ == self.rows()[k],
            decreases n - r,
        {
            clk.push(copy_row(&self.clk[r]));
            r += 1;
        }
        let out = MatrixClock { i: self.i, clk };
        proof {
            assert(out.rows() =~= self.rows());
        }
        out
    }
}

/// An identical private copy of one row.
fn copy_row(src: &Vec<usize>) -> (r: Vec<usize>)
    ensures
        r@ == src@,
{
    let mut r: Vec<usize> = Vec::new();
    let mut j: usize = 0;
    while j < src.len()
        invariant
            j <= src@.len(),
            r@.len() == j,
            forall|k: int| 0 <= k < j ==> r@[k] == src@[k],
        decreases src@.len() - j,
    {
        r.push(src[j]);
        j += 1;
    }
    proof {
        assert(r@ =~= src@);
    }
    r
}

impl LogicalClock for MatrixClock {
    open spec fn creatable(i: int, n_procs: int) -> bool {
        0 <= i < n_procs
    }

    open spec fn can_extend(&self) -> bool {
        self.wf() && self.seqno() < usize::MAX
    }

    open spec fn can_merge(&self, other: &Self) -> bool {
        &&& self.wf()
        &&& other.wf()
        &&& self.rows().len() == other.rows().len()
        &&& self.seqno() < usize::MAX
        &&& other.rows()[other.pid()][self.pid()] < usize::MAX
    }

    fn new(i: usize, n_procs: usize) -> (r: Self)
        ensures
            r.pid() == i,
            r.rows() == mc_genesis(i as int, n_procs as int),
            r.wf(),
            r.seqno() == 1,
    {
        let mut clk: Vec<Vec<usize>> = Vec::new();
        let mut r: usize = 0;
        while r < n_procs
            invariant
                i < n_procs,
                r <= n_procs,
                clk@.len() == r,
                forall|k: int| 0 <= k < r
                    ==> (#[trigger] clk@[k])@ == mc_genesis(i as int, n_procs as int)[k],
            decreases n_procs - r,
        {
            let mut row: Vec<usize> = Vec::new();
            let mut j: usize = 0;
            while j < n_procs
                invariant
                    i < n_procs,
                    j <= n_procs,
                    row@.len() == j,
                    forall|k: int| 0 <= k < j
                        ==> row@[k] == (if r == i && k == i { 1usize } else { 0usize }),
            decreases n_procs - j,
            {
                if r == i && j == i {
                    row.push(1);
                } else {
                    row.push(0);
                }
                j += 1;
            }
            proof {
                if r == i {
                    assert(row@ =~= vc_genesis(i as int, n_procs as int));
                } else {
                    assert(row@ =~= zero_counters(n_procs as int));
                }
            }
            clk.push(row);
            r += 1;
        }
        let out = MatrixClock { i, clk };
        proof {
            assert(out.rows() =~= mc_genesis(i as int, n_procs as int));
        }
        out
    }

    fn extend(&self) -> (r: Self)
        ensures
            r.pid() == self.pid(),
            r.rows() == mc_extended(self.rows(), self.pid()),
            r.wf(),
            r.seqno() == self.seqno() + 1,
            mc_lt(self.rows(), r.rows()),
    {
        let n = self.clk.len();
        let ghost target = mc_extended(self.rows(), self.pid());
        let mut clk: Vec<Vec<usize>> = Vec::new();
        let mut r: usize = 0;
        while r < n
            invariant
                self.can_extend(),
                n == self.rows().len(),
                target == mc_extended(self.rows(), self.pid()),
                r <= n,
                clk@.len() == r,
                forall|k: int| 0 <= k < r ==> (#[trigger] clk@[k])@ == target[k],
            decreases n - r,
        {
            let mut row = copy_row(&self.clk[r]);
            if r == self.i {
                let own = row[self.i];
                row.set(self.i, own + 1);
                proof {
                    assert(row@ =~= vc_extended(self.rows()[self.pid()], self.pid()));
                }
            }
            clk.push(row);
            r += 1;
        }
        let out = MatrixClock { i: self.i, clk };
        proof {
            assert(out.rows() =~= target);
            assert(out.rows()[self.pid()] != self.rows()[self.pid()]) by {
                assert(out.rows()[self.pid()][self.pid()] == self.seqno() + 1);
            }
            assert(out.rows() != self.rows()) by {
                assert(out.rows()[self.pid()] != self.rows()[self.pid()]);
            }
        }
        out
    }

    fn merge(&self, other: &Self) -> (r: Self)
        ensures
            r.pid() == self.pid(),
            r.rows() == mc_merged(self.rows(), other.rows(), self.pid()),
            r.wf(),
            r.seqno() > self.seqno(),
            mc_lt(self.rows(), r.rows()),
            mc_lt(other.rows(), r.rows()),
    {
        let n = self.clk.len();
        let ghost a = self.rows();
        let ghost b = other.rows();
        let ghost i = self.pid();
        let ghost joined = mc_joined(a, b);

        // Elementwise maximum: the union of both matrices' knowledge.
        let mut mx: Vec<Vec<usize>> = Vec::new();
        let mut r: usize = 0;
        while r < n
            invariant
                self.can_merge(other),
                n == self.rows().len(),
                a == self.rows(),
                b == other.rows(),
                joined == mc_joined(a, b),
                r <= n,
                mx@.len() == r,
                forall|k: int| 0 <= k < r ==> (#[trigger] mx@[k])@ == joined[k],
            decreases n - r,
        {
            proof {
                assert(self.rows()[r as int] == self.clk@[r as int]@);
                assert(other.rows()[r as int] == other.clk@[r as int]@);
            }
            mx.push(pairwise_max(&self.clk[r], &other.clk[r]));
            r += 1;
        }
        proof {
            assert forall|k: int| 0 <= k < n implies rows_of(mx@)[k] == joined[k] by {
                assert(mx@[k]@ == joined[k]);
            }
            assert(rows_of(mx@) =~= joined);
        }

        // The owner's new row: the columnwise maximum over all rows.
        let mut top: Vec<usize> = Vec::new();
        let mut c: usize = 0;
        while c < n
            invariant
                self.can_merge(other),
                n == self.rows().len(),
                a == self.rows(),
                b == other.rows(),
                joined == mc_joined(a, b),
                rows_of(mx@) == joined,
                mx@.len() == n,
                forall|k: int| 0 <= k < n ==> (#[trigger] mx@[k])@.len() == n,
                c <= n,
                top@.len() == c,
                forall|k: int| 0 <= k < c ==> top@[k] == col_max(joined, k),
            decreases n - c,
        {
            let mut acc: usize = 0;
            let mut r2: usize = 0;
            while r2 < n
                invariant
                    joined == mc_joined(a, b),
                    rows_of(mx@) == joined,
                    mx@.len() == n,
                    forall|k: int| 0 <= k < n ==> (#[trigger] mx@[k])@.len() == n,
                    c < n,
                    r2 <= n,
                    acc == col_max(joined.take(r2 as int), c as int),
                decreases n - r2,
            {
                proof {
                    assert(joined.take(r2 + 1).drop_last() =~= joined.take(r2 as int));
                    assert(joined.take(r2 + 1).last() == joined[r2 as int]);
                    assert(mx@[r2 as int]@ == joined[r2 as int]);
                }
                let entry = mx[r2][c];
                if entry >= acc {
                    acc = entry;
                }
                r2 += 1;
            }
            proof {
                assert(joined.take(n as int) =~= joined);
            }
            top.push(acc);
            c += 1;
        }
        proof {
            assert(top@ =~= top_row(joined));
        }

        // The owner's receive event: its own slot advances past everything.
        proof {
            assert forall|k: int| 0 <= k < n implies (#[trigger] joined[k])[i] < usize::MAX by {
                assert(vc_leq(a[k], a[i]) || true);
                assert(a[k][i] <= a[i][i]);
                assert(b[k][i] <= b[other.pid()][i]);
            }
            lemma_col_max_le(joined, i, (usize::MAX - 1) as usize);
        }
        let own = top[self.i];
        top.set(self.i, own + 1);
        proof {
            assert(top@ =~= vc_extended(top_row(joined), i));
        }
        mx.set(self.i, top);
        let out = MatrixClock { i: self.i, clk: mx };
        proof {
            assert forall|k: int| 0 <= k < n implies out.rows()[k] == mc_merged(a, b, i)[k] by {
                assert(out.rows()[k] == mx@[k]@);
            }
            assert(out.rows() =~= mc_merged(a, b, i));
            lemma_merge_properties(a, b, i);
        }
        out
    }
}

/// The row views of an executable matrix.
pub open spec fn rows_of(m: Seq<Vec<usize>>) -> Seq<Seq<usize>> {
    m.map_values(|row: Vec<usize>| row@)
}

/// What a merged matrix guarantees: well-formedness, and strict causal
/// dominance over both inputs — the merged value follows the local clock and
/// the received one.
proof fn lemma_merge_properties(a: Seq<Seq<usize>>, b: Seq<Seq<usize>>, i: int)
    requires
        0 <= i < a.len(),
        a.len() == b.len(),
        forall|r: int| 0 <= r < a.len() ==> (#[trigger] a[r]).len() == a.len(),
        forall|r: int| 0 <= r < b.len() ==> (#[trigger] b[r]).len() == b.len(),
        forall|r: int, c: int|
            0 <= r < a.len() && 0 <= c < a.len() ==> (#[trigger] a[r][c]) <= a[i][c],
        col_max(mc_joined(a, b), i) < usize::MAX,
    ensures
        mc_merged(a, b, i)[i][i] > a[i][i],
        mc_lt(a, mc_merged(a, b, i)),
        mc_lt(b, mc_merged(a, b, i)),
        forall|r: int| 0 <= r < a.len()
            ==> (#[trigger] mc_merged(a, b, i)[r]).len() == a.len(),
        forall|r: int, c: int|
            0 <= r < a.len() && 0 <= c < a.len()
                ==> (#[trigger] mc_merged(a, b, i)[r][c]) <= mc_merged(a, b, i)[i][c],
{
    let j = mc_joined(a, b);
    let m = mc_merged(a, b, i);
    let t = top_row(j);
    assert(col_max(j, i) >= j[i][i]) by {
        lemma_col_max_ge(j, i, i);
    }
    assert(m[i][i] == col_max(j, i) + 1);

    assert forall|r: int, c: int|
        0 <= r < a.len() && 0 <= c < a.len() implies (#[trigger] m[r][c]) <= m[i][c] by {
        lemma_col_max_ge(j, c, r);
        if r != i {
            assert(m[r][c] == j[r][c]);
        }
        if c != i {
            assert(m[i][c] == col_max(j, c));
        } else {
            assert(m[i][c] == col_max(j, c) + 1);
        }
    }

    assert forall|r: int| 0 <= r < a.len() implies vc_leq(#[trigger] a[r], m[r]) by {
        if r == i {
            assert forall|c: int| 0 <= c < a.len() implies a[i][c] <= m[i][c] by {
                lemma_col_max_ge(j, c, i);
            }
        }
    }
    assert forall|r: int| 0 <= r < b.len() implies vc_leq(#[trigger] b[r], m[r]) by {
        if r == i {
            assert forall|c: int| 0 <= c < b.len() implies b[i][c] <= m[i][c] by {
                lemma_col_max_ge(j, c, i);
            }
        }
    }
    assert(m[i][i] > a[i][i]);
    assert(m[i][i] > b[i][i]);
    assert(a != m) by {
        assert(a[i][i] != m[i][i]);
    }
    assert(b != m) by {
        assert(b[i][i] != m[i][i]);
    }
}

impl GCClock for MatrixClock {
    open spec fn comparable(&self, latest: &Self) -> bool {
        self.wf() && latest.wf() && self.rows().len() == latest.rows().len()
    }

    fn gc(&self, latest: &Self) -> (r: bool)
        ensures
            r == mc_seen_by_all(latest.rows(), self.pid(), self.seqno()),
    {
        proof {
            assert(self.rows()[self.pid()] == self.clk@[self.pid()]@);
        }
        let seq_no = self.clk[self.i][self.i];
        let n = latest.clk.len();
        let mut row: usize = 0;
        while row < n
            invariant
                self.comparable(latest),
                seq_no == self.seqno(),
                n == latest.rows().len(),
                row <= n,
                forall|r: int| 0 <= r < row ==> (#[trigger] latest.rows()[r])[self.pid()] >= seq_no,
            decreases n - row,
        {
            proof {
                assert(latest.rows()[row as int] == latest.clk@[row as int]@);
            }
            if latest.clk[row][self.i] < seq_no {
                proof {
                    assert(latest.rows()[row as int][self.pid()] < self.seqno());
                }
                return false;
            }
            row += 1;
        }
        true
    }
}

/// A process that records matrix clocks and prunes its own history once
/// every participant has — directly or transitively — observed a prefix.
pub struct GCProcess {
    i: usize,
    n_procs: usize,
    events: Vec<MatrixClock>,
}

impl GCProcess {
    /// The matrix the next event builds on: the last recorded one, or the
    /// genesis matrix when the history is empty.
    pub open spec fn base_rows(&self) -> Seq<Seq<usize>> {
        if self.history().len() == 0 {
            mc_genesis(self.id(), self.nprocs())
        } else {
            self.history().last().rows()
        }
    }

    /// The matrix the next local or send event will carry.
    pub open spec fn next_rows(&self) -> Seq<Seq<usize>> {
        mc_extended(self.base_rows(), self.id())
    }

    pub fn new(i: usize, n_procs: usize) -> (r: GCProcess)
        requires
            i < n_procs,
        ensures
            r.inv(),
            r.id() == i,
            r.nprocs() == n_procs,
            r.history().len() == 0,
    {
        GCProcess { i, n_procs, events: Vec::new() }
    }

    /// The clock of the next local or send event.
    fn next_event(&self) -> (e: MatrixClock)
        requires
            self.ready(),
        ensures
            e.wf(),
            e.pid() == self.id(),
            e.rows() == self.next_rows(),
            e.rows().len() == self.nprocs(),
            self.history().len() > 0 ==> e.seqno() > self.history().last().seqno()
                && mc_lt(self.history().last().rows(), e.rows()),
    {
        match self.last_event() {
            Some(l) => l.extend(),
            None => {
                let g = MatrixClock::new(self.pid(), self.n_procs());
                g.extend()
            },
        }
    }

    /// Drains and returns the longest prefix of the history whose events
    /// every participant has, per the latest matrix, already observed. The
    /// retained suffix is untouched: nothing still unobserved is discarded,
    /// and nothing observed by all is kept.
    pub fn gc(&mut self) -> (r: Vec<MatrixClock>)
        requires
            old(self).inv(),
        ensures
            final(self).inv(),
            final(self).id() == old(self).id(),
            final(self).nprocs() == old(self).nprocs(),
            old(self).history() == r@ + final(self).history(),
            old(self).history().len() == 0 ==> r@.len() == 0,
            old(self).history().len() > 0 ==> forall|k: int|
                0 <= k < r@.len() ==> mc_seen_by_all(
                    old(self).history().last().rows(),
                    old(self).id(),
                    (#[trigger] r@[k]).seqno(),
                ),
            old(self).history().len() > 0 ==> forall|k: int|
                0 <= k < final(self).history().len() ==> !mc_seen_by_all(
                    old(self).history().last().rows(),
                    old(self).id(),
                    (#[trigger] final(self).history()[k]).seqno(),
                ),
    {
        if self.events.len() == 0 {
            let r: Vec<MatrixClock> = Vec::new();
            proof {
                assert(old(self).history() =~= r@ + self.history());
            }
            return r;
        }
        let total = self.events.len();
        let ghost lrows = self.history().last().rows();
        let ghost own = self.id();
        let mut b: usize = 0;
        let mut done = false;
        while !done
            invariant
                self == old(self),
                self.inv(),
                total == self.history().len(),
                total > 0,
                lrows == self.history().last().rows(),
                own == self.id(),
                b <= total,
                forall|k: int| 0 <= k < b
                    ==> mc_seen_by_all(lrows, own, (#[trigger] self.history()[k]).seqno()),
                done ==> b == total
                    || !mc_seen_by_all(lrows, own, self.history()[b as int].seqno()),
            decreases total - b + (if done { 0int } else { 1int }),
        {
            if b < total {
                proof {
                    assert(self.history()[b as int].wf());
                    assert(self.history()[total - 1].wf());
                }
                if self.events[b].gc(&self.events[total - 1]) {
                    b += 1;
                } else {
                    done = true;
                }
            } else {
                done = true;
            }
        }
        proof {
            assert forall|k: int| b <= k < total implies !mc_seen_by_all(
                lrows,
                own,
                (#[trigger] self.history()[k]).seqno(),
            ) by {
                lemma_seqno_monotone(self.history(), b as int, k);
            }
        }
        let mut collected = self.events.split_off(b);
        core::mem::swap(&mut self.events, &mut collected);
        proof {
            assert(old(self).history() =~= collected@ + self.history());
        }
        collected
    }
}

/// A process's own row always reflects the union of everyone's knowledge it
/// has seen: under the well-formedness invariant it equals the columnwise
/// maximum over all rows of its matrix.
pub proof fn lemma_own_row_is_union(m: MatrixClock)
    requires
        m.wf(),
    ensures
        m.rows()[m.pid()] == top_row(m.rows()),
{
    let rows = m.rows();
    let i = m.pid();
    assert forall|c: int| 0 <= c < rows.len() implies top_row(rows)[c] == rows[i][c] by {
        lemma_col_max_ge(rows, c, i);
        lemma_col_max_le(rows, c, rows[i][c]);
    }
    assert(rows[i] =~= top_row(rows));
}

/// The collection predicate is monotone along a history: once an event is
/// observed by every participant, so is every earlier event of the same
/// process.
pub proof fn lemma_collectable_monotone(p: GCProcess, latest: MatrixClock, k1: int, k2: int)
    requires
        p.inv(),
        0 <= k1 <= k2 < p.history().len(),
        mc_seen_by_all(latest.rows(), p.id(), p.history()[k2].seqno()),
    ensures
        mc_seen_by_all(latest.rows(), p.id(), p.history()[k1].seqno()),
{
    lemma_seqno_monotone(p.history(), k1, k2);
}

/// Sequence numbers grow strictly along a history, so observation of a later
/// event implies observation of every earlier one.
proof fn lemma_seqno_monotone(h: Seq<MatrixClock>, k1: int, k2: int)
    requires
        forall|k: int| 0 < k < h.len() ==> (#[trigger] h[k]).seqno() > h[k - 1].seqno(),
        0 <= k1 <= k2 < h.len(),
    ensures
        h[k1].seqno() <= h[k2].seqno(),
    decreases k2 - k1,
{
    if k1 < k2 {
        lemma_seqno_monotone(h, k1, k2 - 1);
    }
}

impl HasEvents<MatrixClock> for GCProcess {
    closed spec fn history(&self) -> Seq<MatrixClock> {
        self.events@
    }

    closed spec fn id(&self) -> int {
        self.i as int
    }

    closed spec fn nprocs(&self) -> int {
        self.n_procs as int
    }

    open spec fn inv(&self) -> bool {
        &&& 0 <= self.id() < self.nprocs()
        &&& forall|k: int| 0 <= k < self.history().len()
            ==> (#[trigger] self.history()[k]).wf()
                && self.history()[k].pid() == self.id()
                && self.history()[k].rows().len() == self.nprocs()
        &&& forall|k: int| 0 < k < self.history().len()
            ==> (#[trigger] self.history()[k]).seqno() > self.history()[k - 1].seqno()
                && mc_lt(self.history()[k - 1].rows(), self.history()[k].rows())
    }

    open spec fn accepts(&self, e: &MatrixClock) -> bool {
        &&& self.inv()
        &&& e.wf()
        &&& e.pid() == self.id()
        &&& e.rows().len() == self.nprocs()
        &&& self.history().len() > 0 ==> e.seqno() > self.history().last().seqno()
            && mc_lt(self.history().last().rows(), e.rows())
    }

    fn last_event(&self) -> (r: Option<&MatrixClock>)
        ensures
            match r {
                Some(e) => self.history().len() > 0 && *e == self.history().last(),
                None => self.history().len() == 0,
            },
    {
        if self.events.len() == 0 {
            None
        } else {
            Some(&self.events[self.events.len() - 1])
        }
    }

    fn push_event(&mut self, e: MatrixClock)
        ensures
            final(self).inv(),
            final(self).id() == old(self).id(),
            final(self).nprocs() == old(self).nprocs(),
            final(self).history() == old(self).history().push(e),
    {
        self.events.push(e);
    }

    fn pid(&self) -> (r: usize)
        ensures
            r == self.id(),
    {
        self.i
    }

    fn n_procs(&self) -> (r: usize)
        ensures
            r == self.nprocs(),
    {
        self.n_procs
    }

    fn events(&self) -> (r: &[MatrixClock])
        ensures
            r@ == self.history(),
    {
        self.events.as_slice()
    }
}

impl OrdProcess<MatrixClock> for GCProcess {
    open spec fn ready(&self) -> bool {
        &&& self.inv()
        &&& self.history().len() > 0 ==> self.history().last().seqno() < usize::MAX
    }

    open spec fn absorbable(&self, m: &MatrixClock) -> bool {
        &&& m.wf()
        &&& m.rows().len() == self.nprocs()
        &&& m.rows()[m.pid()][self.id()] < usize::MAX
    }

    open spec fn may_transmit(&self, e: &MatrixClock) -> bool {
        &&& e.wf()
        &&& e.pid() == self.id()
        &&& e.rows() == self.next_rows()
    }

    fn exec<F: FnOnce()>(&mut self, work: F)
        ensures
            final(self).inv(),
            final(self).id() == old(self).id(),
            final(self).nprocs() == old(self).nprocs(),
            final(self).history().len() == old(self).history().len() + 1,
            final(self).history().drop_last() == old(self).history(),
            final(self).history().last().pid() == old(self).id(),
            final(self).history().last().wf(),
            final(self).history().last().rows() == old(self).next_rows(),
    {
        let e = self.next_event();
        self.push_event(e);
        proof {
            assert(self.history().drop_last() =~= old(self).history());
        }
        work();
    }

    fn send<F: FnOnce(MatrixClock)>(&mut self, transmit: F)
        ensures
            final(self).inv(),
            final(self).id() == old(self).id(),
            final(self).nprocs() == old(self).nprocs(),
            final(self).history().len() == old(self).history().len() + 1,
            final(self).history().drop_last() == old(self).history(),
            final(self).history().last().pid() == old(self).id(),
            final(self).history().last().wf(),
            final(self).history().last().rows() == old(self).next_rows(),
    {
        let e = self.next_event();
        let t = e.duplicate();
        self.push_event(e);
        proof {
            assert(self.history().drop_last() =~= old(self).history());
            assert(t.wf());
            assert(old(self).may_transmit(&t));
        }
        transmit(t);
    }

    fn recv<F: FnOnce() -> MatrixClock>(&mut self, receive: F)
        ensures
            final(self).inv(),
            final(self).id() == old(self).id(),
            final(self).nprocs() == old(self).nprocs(),
            final(self).history().len() == old(self).history().len() + 1,
            final(self).history().drop_last() == old(self).history(),
            final(self).history().last().pid() == old(self).id(),
            final(self).history().last().wf(),
            exists|m: MatrixClock|
                #[trigger] call_ensures(receive, (), m)
                    && final(self).history().last().rows() == mc_merged(
                    old(self).base_rows(),
                    m.rows(),
                    old(self).id(),
                ) && mc_lt(m.rows(), final(self).history().last().rows()),
    {
        let m = receive();
        proof {
            assert(call_ensures(receive, (), m));
            assert(old(self).absorbable(&m));
        }
        let e = match self.last_event() {
            Some(l) => l.merge(&m),
            None => {
                let g = MatrixClock::new(self.pid(), self.n_procs());
                g.merge(&m)
            },
        };
        self.push_event(e);
        proof {
            assert(self.history().drop_last() =~= old(self).history());
            assert(call_ensures(receive, (), m));
        }
    }

    fn snapshot(&self) -> (r: &[MatrixClock])
        ensures
            r@ == self.history(),
    {
        self.events.as_slice()
    }
}

} // verus!
