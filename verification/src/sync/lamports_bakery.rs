//! Lamport's bakery: an n-ary fair mutex over a shared ticket board.
//!
//! A participant entering the queue first marks its slot, then takes a ticket
//! one above everything on the board; it may enter once no one with a lower
//! ticket — ties broken by index — is still queued, and frees its slot on
//! release. The board here is the model of the shared array the threads spin
//! on; `lemma_bakery_exclusive` is the heart of mutual exclusion: two issued
//! tickets are never both first in line.

use vstd::prelude::*;

use crate::sync::{NoStarveMutex, WantGuard};

verus! {

/// A free slot: its holder is not queued.
pub const FREE: i32 = 0;

/// A slot whose holder is still picking its ticket; below every real ticket.
pub const ENTER: i32 = -1;

/// The largest ticket on the board, at least zero.
pub open spec fn highest_ticket(s: Seq<i32>) -> int
    decreases s.len(),
{
    if s.len() == 0 {
        0
    } else {
        let rest = highest_ticket(s.drop_last());
        if s.last() >= rest {
            s.last() as int
        } else {
            rest
        }
    }
}

/// Slot `k`, holding `q`, is served before ticket `t` at index `n`: it is
/// queued with a lower ticket, ties broken by index.
pub open spec fn ahead_of(q: i32, k: int, t: i32, n: int) -> bool {
    q != FREE && (q < t || (q == t && k < n))
}

/// Nobody on the board is served before ticket `t` at index `n`.
pub open spec fn first_in_line(s: Seq<i32>, t: i32, n: int) -> bool {
    forall|k: int| 0 <= k < s.len() ==> !ahead_of(#[trigger] s[k], k, t, n)
}

/// The shared ticket board: one slot per participant.
pub struct Bakery {
    pub q_nos: Vec<i32>,
}

impl Bakery {
    /// A board of `size` free slots.
    pub fn new(size: usize) -> (r: Bakery)
        requires
            size >= 2,
        ensures
            r.q_nos@.len() == size,
            forall|k: int| 0 <= k < size ==> r.q_nos@[k] == FREE,
    {
        let mut q_nos: Vec<i32> = Vec::new();
        let mut j: usize = 0;
        while j < size
            invariant
                j <= size,
                q_nos@.len() == j,
                forall|k: int| 0 <= k < j ==> q_nos@[k] == FREE,
            decreases size - j,
        {
            q_nos.push(FREE);
            j += 1;
        }
        Bakery { q_nos }
    }
}

/// Participant `n`'s handle on a board. The index is not checked for
/// exclusiveness: the caller hands each index to one participant.
pub struct BakeryN {
    pub n: usize,
}

/// A claim in the queue: the participant's index and its issued ticket.
pub struct BakeryWant {
    pub n: usize,
    pub q_no: i32,
}

/// Possession of the critical section by participant `n`.
pub struct BakeryGuard {
    pub n: usize,
}

impl BakeryN {
    pub fn new(n: usize, bakery: &Bakery) -> (r: BakeryN)
        requires
            n < bakery.q_nos@.len(),
        ensures
            r.n == n,
    {
        BakeryN { n }
    }
}

impl NoStarveMutex<Bakery, BakeryWant> for BakeryN {
    open spec fn may_want(&self, board: Bakery) -> bool {
        &&& self.n < board.q_nos@.len()
        &&& highest_ticket(board.q_nos@.update(self.n as int, ENTER)) < i32::MAX
    }

    /// Marks the slot as entering, then takes a ticket one above everything
    /// on the board: `ENTER` sits below every real ticket, so the marking
    /// never raises another participant's ticket.
    fn want_lock(&self, board: &mut Bakery) -> (w: BakeryWant)
        ensures
            w.n == self.n,
            w.q_no == 1 + highest_ticket(old(board).q_nos@.update(self.n as int, ENTER)),
            w.q_no >= 1,
            final(board).q_nos@ == old(board).q_nos@.update(self.n as int, w.q_no),
    {
        board.q_nos.set(self.n, ENTER);
        let ghost marked = board.q_nos@;
        let total = board.q_nos.len();
        let mut acc: i32 = 0;
        let mut k: usize = 0;
        while k < total
            invariant
                marked == board.q_nos@,
                total == board.q_nos@.len(),
                k <= total,
                acc == highest_ticket(marked.take(k as int)),
                acc >= 0,
                highest_ticket(marked) < i32::MAX,
            decreases total - k,
        {
            proof {
                assert(marked.take(k + 1).drop_last() =~= marked.take(k as int));
                assert(marked.take(k + 1).last() == marked[k as int]);
            }
            let entry = board.q_nos[k];
            if entry >= acc {
                acc = entry;
            }
            k += 1;
        }
        proof {
            assert(marked.take(total as int) =~= marked);
        }
        let q_no = 1 + acc;
        board.q_nos.set(self.n, q_no);
        BakeryWant { n: self.n, q_no }
    }
}

impl WantGuard<Bakery, BakeryGuard> for BakeryWant {
    open spec fn may_enter(&self, board: Bakery) -> bool {
        first_in_line(board.q_nos@, self.q_no, self.n as int)
    }

    fn can_enter(&self, board: &Bakery) -> (r: bool) {
        let total = board.q_nos.len();
        let mut k: usize = 0;
        while k < total
            invariant
                total == board.q_nos@.len(),
                k <= total,
                forall|t: int| 0 <= t < k
                    ==> !ahead_of(#[trigger] board.q_nos@[t], t, self.q_no, self.n as int),
            decreases total - k,
        {
            let q = board.q_nos[k];
            if q != FREE && (q < self.q_no || (q == self.q_no && k < self.n)) {
                proof {
                    assert(ahead_of(board.q_nos@[k as int], k as int, self.q_no, self.n as int));
                }
                return false;
            }
            k += 1;
        }
        true
    }

    fn wait(self, board: &Bakery) -> (g: BakeryGuard)
        ensures
            g.n == self.n,
    {
        BakeryGuard { n: self.n }
    }
}

impl BakeryWant {
    /// Gives the claim up without entering, freeing the slot.
    pub fn abandon(self, board: &mut Bakery)
        requires
            self.n < old(board).q_nos@.len(),
        ensures
            final(board).q_nos@ == old(board).q_nos@.update(self.n as int, FREE),
    {
        board.q_nos.set(self.n, FREE);
    }
}

impl BakeryGuard {
    /// Leaves the critical section, freeing the slot.
    pub fn release(self, board: &mut Bakery)
        requires
            self.n < old(board).q_nos@.len(),
        ensures
            final(board).q_nos@ == old(board).q_nos@.update(self.n as int, FREE),
    {
        board.q_nos.set(self.n, FREE);
    }
}

/// The least queued (ticket, index) pair of the prefix `s[..upto]`.
proof fn lemma_least_queued(s: Seq<i32>, upto: int) -> (w: int)
    requires
        forall|k: int| 0 <= k < s.len() ==> s[k] == FREE || s[k] >= 1,
        0 < upto <= s.len(),
        exists|k: int| 0 <= k < upto && s[k] >= 1,
    ensures
        0 <= w < upto,
        s[w] >= 1,
        forall|k: int| 0 <= k < upto ==> !ahead_of(#[trigger] s[k], k, s[w], w),
    decreases upto,
{
    if exists|k: int| 0 <= k < upto - 1 && s[k] >= 1 {
        let w0 = lemma_least_queued(s, upto - 1);
        if s[upto - 1] >= 1 && ahead_of(s[upto - 1], upto - 1, s[w0], w0) {
            let w = upto - 1;
            assert forall|k: int| 0 <= k < upto implies !ahead_of(
                #[trigger] s[k],
                k,
                s[w],
                w,
            ) by {
                if k < upto - 1 {
                    assert(!ahead_of(s[k], k, s[w0], w0));
                }
            }
            w
        } else {
            w0
        }
    } else {
        upto - 1
    }
}

/// Deadlock freedom, at its core: whenever somebody is queued and nobody is
/// still mid-entry, some queued participant is first in line — the holder of
/// the least (ticket, index) pair.
pub proof fn lemma_bakery_progress(s: Seq<i32>) -> (w: int)
    requires
        forall|k: int| 0 <= k < s.len() ==> s[k] == FREE || s[k] >= 1,
        exists|k: int| 0 <= k < s.len() && s[k] >= 1,
    ensures
        0 <= w < s.len(),
        s[w] >= 1,
        first_in_line(s, s[w], w),
{
    lemma_least_queued(s, s.len() as int)
}

/// Mutual exclusion, at its core: of two distinct participants holding
/// issued tickets, at most one is first in line, because the (ticket, index)
/// order is total on distinct slots.
pub proof fn lemma_bakery_exclusive(s: Seq<i32>, t1: i32, n1: int, t2: i32, n2: int)
    requires
        0 <= n1 < s.len(),
        0 <= n2 < s.len(),
        n1 != n2,
        s[n1] == t1,
        s[n2] == t2,
        t1 >= 1,
        t2 >= 1,
        first_in_line(s, t1, n1),
    ensures
        !first_in_line(s, t2, n2),
{
    assert(!ahead_of(s[n2], n2, t1, n1));
    assert(ahead_of(s[n1], n1, t2, n2));
}

} // verus!
