//! A per-process counter vector: the simplest causally-faithful clock.
//!
//! Component `j` of a value counts the events of process `j` that the value
//! causally depends on. Comparison is componentwise, so two values from
//! processes that never communicated stay incomparable.

use vstd::prelude::*;

use core::cmp::Ordering;
use crate::order::{CausalOrd, LogicalClock};

verus! {

/// Componentwise order on counter vectors: `a` causally precedes `b` or
/// equals it.
pub open spec fn vc_leq(a: Seq<usize>, b: Seq<usize>) -> bool {
    &&& a.len() == b.len()
    &&& forall|j: int| 0 <= j < a.len() ==> a[j] <= b[j]
}

/// Strict causal precedence on counter vectors.
pub open spec fn vc_lt(a: Seq<usize>, b: Seq<usize>) -> bool {
    vc_leq(a, b) && a != b
}

/// The counters of a genesis clock for process `i` of `n_procs`: one in the
/// owner's own slot — so a process's genesis event precedes its own first
/// real event and never equals another process's genesis — zero elsewhere.
pub open spec fn vc_genesis(i: int, n_procs: int) -> Seq<usize> {
    Seq::new(n_procs as nat, |j: int| if j == i { 1usize } else { 0usize })
}

/// The counters after a local step of the owner `i`.
pub open spec fn vc_extended(c: Seq<usize>, i: int) -> Seq<usize> {
    c.update(i, (c[i] + 1) as usize)
}

/// The componentwise maximum of two equally long counter vectors.
pub open spec fn vc_join(a: Seq<usize>, b: Seq<usize>) -> Seq<usize> {
    Seq::new(a.len(), |j: int| if a[j] >= b[j] { a[j] } else { b[j] })
}

/// The counters after the owner `i` assimilates `other`: componentwise
/// maximum, then a step of the owner's own slot.
pub open spec fn vc_merged(c: Seq<usize>, other: Seq<usize>, i: int) -> Seq<usize> {
    vc_extended(vc_join(c, other), i)
}

/// A vector clock owned by one process.
pub struct VectorClock {
    i: usize,
    clk: Vec<usize>,
}

impl VectorClock {
    /// The owning process.
    pub closed spec fn pid(&self) -> int {
        self.i as int
    }

    /// The counter vector.
    pub closed spec fn counters(&self) -> Seq<usize> {
        self.clk@
    }

    /// The owner's slot lies inside the vector.
    pub open spec fn wf(&self) -> bool {
        0 <= self.pid() < self.counters().len()
    }

    /// The number of components: the cluster size fixed at creation.
    pub fn dim(&self) -> (r: usize)
        ensures
            r == self.counters().len(),
    {
        self.clk.len()
    }

    /// Component `j`: how many of process `j`'s events this value depends on.
    pub fn counter(&self, j: usize) -> (r: usize)
        requires
            j < self.counters().len(),
        ensures
            r == self.counters()[j as int],
    {
        self.clk[j]
    }
}

impl LogicalClock for VectorClock {
    open spec fn creatable(i: int, n_procs: int) -> bool {
        0 <= i < n_procs
    }

    open spec fn can_extend(&self) -> bool {
        self.wf() && self.counters()[self.pid()] < usize::MAX
    }

    open spec fn can_merge(&self, other: &Self) -> bool {
        &&& self.wf()
        &&& self.counters().len() == other.counters().len()
        &&& self.counters()[self.pid()] < usize::MAX
        &&& other.counters()[self.pid()] < usize::MAX
    }

    fn new(i: usize, n_procs: usize) -> (r: Self)
        ensures
            r.pid() == i,
            r.counters() == vc_genesis(i as int, n_procs as int),
            r.wf(),
    {
        let mut clk: Vec<usize> = Vec::new();
        let mut j: usize = 0;
        while j < n_procs
            invariant
                i < n_procs,
                j <= n_procs,
                clk@.len() == j,
                forall|k: int| 0 <= k < j ==> clk@[k] == vc_genesis(i as int, n_procs as int)[k],
            decreases n_procs - j,
        {
            if j == i {
                clk.push(1);
            } else {
                clk.push(0);
            }
            j += 1;
        }
        proof {
            assert(clk@ =~= vc_genesis(i as int, n_procs as int));
        }
        VectorClock { i, clk }
    }

    fn extend(&self) -> (r: Self)
        ensures
            r.pid() == self.pid(),
            r.counters() == vc_extended(self.counters(), self.pid()),
            r.wf(),
            vc_lt(self.counters(), r.counters()),
    {
        let mut clk = copy_counters(&self.clk);
        let own = clk[self.i];
        clk.set(self.i, own + 1);
        proof {
            assert(clk@ =~= vc_extended(self.counters(), self.pid()));
            lemma_extend_strictly_follows(self.counters(), self.pid());
        }
        VectorClock { i: self.i, clk }
    }

    fn merge(&self, other: &Self) -> (r: Self)
        ensures
            r.pid() == self.pid(),
            r.counters() == vc_merged(self.counters(), other.counters(), self.pid()),
            r.wf(),
            vc_lt(self.counters(), r.counters()),
            vc_lt(other.counters(), r.counters()),
    {
        let n = self.clk.len();
        let mut clk: Vec<usize> = Vec::new();
        let mut j: usize = 0;
        while j < n
            invariant
                n == self.counters().len(),
                n == other.counters().len(),
                j <= n,
                clk@.len() == j,
                forall|k: int| 0 <= k < j
                    ==> clk@[k] == vc_join(self.counters(), other.counters())[k],
            decreases n - j,
        {
            let a = self.clk[j];
            let b = other.clk[j];
            if a >= b {
                clk.push(a);
            } else {
                clk.push(b);
            }
            j += 1;
        }
        proof {
            assert(clk@ =~= vc_join(self.counters(), other.counters()));
        }
        let own = clk[self.i];
        clk.set(self.i, own + 1);
        proof {
            assert(clk@ =~= vc_merged(self.counters(), other.counters(), self.pid()));
            lemma_merge_strictly_follows_both(
                self.counters(),
                other.counters(),
                self.pid(),
            );
        }
        VectorClock { i: self.i, clk }
    }
}

/// The causal comparison of two counter vectors: equal, strictly preceding,
/// strictly following, or — for concurrent or differently sized values —
/// incomparable.
pub open spec fn vc_cmp(a: Seq<usize>, b: Seq<usize>) -> Option<Ordering> {
    if a.len() != b.len() {
        None
    } else if a == b {
        Some(Ordering::Equal)
    } else if vc_leq(a, b) {
        Some(Ordering::Less)
    } else if vc_leq(b, a) {
        Some(Ordering::Greater)
    } else {
        None
    }
}

impl PartialEq for VectorClock {
    /// Two values are equal when their counter vectors agree, whoever owns
    /// them.
    fn eq(&self, other: &Self) -> (r: bool) {
        if self.clk.len() != other.clk.len() {
            return false;
        }
        let n = self.clk.len();
        let mut j: usize = 0;
        while j < n
            invariant
                n == self.counters().len(),
                n == other.counters().len(),
                j <= n,
                forall|k: int| 0 <= k < j ==> self.counters()[k] == other.counters()[k],
            decreases n - j,
        {
            if self.clk[j] != other.clk[j] {
                return false;
            }
            j += 1;
        }
        proof {
            assert(self.counters() =~= other.counters());
        }
        true
    }
}

impl vstd::std_specs::cmp::PartialEqSpecImpl for VectorClock {
    open spec fn obeys_eq_spec() -> bool {
        true
    }

    open spec fn eq_spec(&self, other: &Self) -> bool {
        self.counters() == other.counters()
    }
}

impl PartialOrd for VectorClock {
    /// The causal comparison: `Some(Less)` exactly when every component is at
    /// or below the other's and some component is strictly below; `None` for
    /// concurrent values and for values of differing cluster size.
    fn partial_cmp(&self, other: &Self) -> (r: Option<Ordering>) {
        if self.clk.len() != other.clk.len() {
            return None;
        }
        let n = self.clk.len();
        let mut le = true;
        let mut ge = true;
        let mut j: usize = 0;
        while j < n
            invariant
                n == self.counters().len(),
                n == other.counters().len(),
                j <= n,
                le <==> (forall|k: int| 0 <= k < j
                    ==> self.counters()[k] <= other.counters()[k]),
                ge <==> (forall|k: int| 0 <= k < j
                    ==> self.counters()[k] >= other.counters()[k]),
            decreases n - j,
        {
            if self.clk[j] < other.clk[j] {
                ge = false;
            }
            if self.clk[j] > other.clk[j] {
                le = false;
            }
            j += 1;
        }
        proof {
            if le && ge {
                assert(self.counters() =~= other.counters());
            }
        }
        if le && ge {
            Some(Ordering::Equal)
        } else if le {
            Some(Ordering::Less)
        } else if ge {
            Some(Ordering::Greater)
        } else {
            None
        }
    }
}

impl vstd::std_specs::cmp::PartialOrdSpecImpl for VectorClock {
    open spec fn obeys_partial_cmp_spec() -> bool {
        true
    }

    open spec fn partial_cmp_spec(&self, other: &Self) -> Option<Ordering> {
        vc_cmp(self.counters(), other.counters())
    }
}

impl CausalOrd for VectorClock {}

/// An identical private copy of a counter vector.
fn copy_counters(src: &Vec<usize>) -> (r: Vec<usize>)
    ensures
        r@ == src@,
{
    let mut r: Vec<usize> = Vec::new();
    let mut j: usize = 0;
    while j < src.len()
        invariant
            j <= src@.len(),
            r@.len() == j,
            forall|k: int| 0 <= k < j ==> r@[k] == src@[k],
        decreases src@.len() - j,
    {
        r.push(src[j]);
        j += 1;
    }
    proof {
        assert(r@ =~= src@);
    }
    r
}

/// A clock strictly causally follows itself after a local step, for every
/// vector clock whose own counter has headroom: the step raises exactly the
/// owner's slot.
pub proof fn lemma_extend_strictly_follows(c: Seq<usize>, i: int)
    requires
        0 <= i < c.len(),
        c[i] < usize::MAX,
    ensures
        vc_lt(c, vc_extended(c, i)),
{
    let e = vc_extended(c, i);
    assert(e[i] == c[i] + 1);
    assert(c != e) by {
        assert(e[i] != c[i]);
    }
}

/// A merged clock strictly causally follows both the local clock and the
/// received one.
pub proof fn lemma_merge_strictly_follows_both(c: Seq<usize>, other: Seq<usize>, i: int)
    requires
        0 <= i < c.len(),
        c.len() == other.len(),
        c[i] < usize::MAX,
        other[i] < usize::MAX,
    ensures
        vc_lt(c, vc_merged(c, other, i)),
        vc_lt(other, vc_merged(c, other, i)),
{
    let m = vc_merged(c, other, i);
    assert(m[i] > c[i] && m[i] > other[i]);
    assert(c != m) by {
        assert(m[i] != c[i]);
    }
    assert(other != m) by {
        assert(m[i] != other[i]);
    }
}

/// The genesis clocks of two distinct processes are causally incomparable:
/// neither precedes the other, whatever the cluster size.
pub proof fn lemma_genesis_incomparable(i0: int, i1: int, n_procs: int)
    requires
        0 <= i0 < n_procs,
        0 <= i1 < n_procs,
        i0 != i1,
    ensures
        !vc_leq(vc_genesis(i0, n_procs), vc_genesis(i1, n_procs)),
        !vc_leq(vc_genesis(i1, n_procs), vc_genesis(i0, n_procs)),
{
    assert(vc_genesis(i0, n_procs)[i0] == 1 && vc_genesis(i1, n_procs)[i0] == 0);
    assert(vc_genesis(i1, n_procs)[i1] == 1 && vc_genesis(i0, n_procs)[i1] == 0);
}

} // verus!
