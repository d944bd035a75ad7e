//! The logical-clock contract and the per-process event log built on it.
//!
//! A process is identified by `(pid, n_procs)`, fixed for its lifetime, and
//! owns an append-only history of clock values. Every clock kind offers a
//! genesis value, a purely local step (`extend`) and assimilation of a
//! received value (`merge`); each operation yields a value that strictly
//! causally follows the value it was derived from.

use vstd::prelude::*;

pub mod chandy_lamport;
pub mod matrix_clock;
pub mod vector_clock;

verus! {

/// The componentwise maximum of two equally long counter rows.
pub(crate) fn pairwise_max(a: &Vec<usize>, b: &Vec<usize>) -> (r: Vec<usize>)
    requires
        a@.len() == b@.len(),
    ensures
        r@ == vector_clock::vc_join(a@, b@),
{
    let n = a.len();
    let mut r: Vec<usize> = Vec::new();
    let mut j: usize = 0;
    while j < n
        invariant
            n == a@.len(),
            n == b@.len(),
            j <= n,
            r@.len() == j,
            forall|k: int| 0 <= k < j ==> r@[k] == vector_clock::vc_join(a@, b@)[k],
        decreases n - j,
    {
        let x = a[j];
        let y = b[j];
        if x >= y {
            r.push(x);
        } else {
            r.push(y);
        }
        j += 1;
    }
    proof {
        assert(r@ =~= vector_clock::vc_join(a@, b@));
    }
    r
}

/// Clocks admit a causal comparison but no total order: concurrent events are
/// incomparable, so only `PartialOrd` can be asked of them.
pub trait CausalOrd: PartialOrd {}

/// The contract every logical clock representation satisfies.
///
/// The `creatable` / `can_extend` / `can_merge` specification functions let
/// each representation state its own preconditions — its dimensions and the
/// headroom its counters need — while the operations keep one shared shape.
pub trait LogicalClock: Sized {
    /// When a genesis value for process `i` of `n_procs` may be built.
    spec fn creatable(i: int, n_procs: int) -> bool;

    /// When a purely local step from `self` is possible.
    spec fn can_extend(&self) -> bool;

    /// When `self` may assimilate `other`.
    spec fn can_merge(&self, other: &Self) -> bool;

    /// The genesis clock of process `i`: the value it holds before any event.
    fn new(i: usize, n_procs: usize) -> Self
        requires
            Self::creatable(i as int, n_procs as int),
    ;

    /// The clock value after a purely local step.
    fn extend(&self) -> Self
        requires
            self.can_extend(),
    ;

    /// The clock value after receiving `other` and assimilating its
    /// information.
    fn merge(&self, other: &Self) -> Self
        requires
            self.can_merge(other),
    ;
}

/// A clock that can decide when a historical event is safe to discard.
pub trait GCClock: LogicalClock {
    /// When `self` may be held against `latest`.
    spec fn comparable(&self, latest: &Self) -> bool;

    /// Whether, per the knowledge recorded in `latest`, every participant has
    /// observed the event that carried `self`.
    fn gc(&self, latest: &Self) -> bool
        requires
            self.comparable(latest),
    ;
}

/// Append-only access to a process's identity and event history.
pub trait HasEvents<Event: LogicalClock>: Sized {
    /// The recorded history, oldest first.
    spec fn history(&self) -> Seq<Event>;

    /// The process's identity.
    spec fn id(&self) -> int;

    /// The fixed number of participants.
    spec fn nprocs(&self) -> int;

    /// The process's internal invariant.
    spec fn inv(&self) -> bool;

    /// When `e` may be appended to the history.
    spec fn accepts(&self, e: &Event) -> bool;

    fn last_event(&self) -> Option<&Event>;

    fn push_event(&mut self, e: Event)
        requires
            old(self).accepts(&e),
    ;

    fn pid(&self) -> usize;

    fn n_procs(&self) -> usize;

    fn events(&self) -> &[Event];
}

/// The operations a process performs on its event log: a local step, a send
/// and a receive, each recording the clock value the event carries.
///
/// Transmission itself is the caller's: `send` and `recv` take the channel
/// ends as functions and require of them only FIFO, lossless delivery of the
/// values handed over.
pub trait OrdProcess<Event: LogicalClock>: HasEvents<Event> {
    /// When the process may record its next local or send event.
    spec fn ready(&self) -> bool;

    /// The received values the process may assimilate.
    spec fn absorbable(&self, m: &Event) -> bool;

    /// Exactly the values `send` may hand to the transmit function.
    spec fn may_transmit(&self, e: &Event) -> bool;

    /// Records the clock of a local step — `extend` of the last recorded
    /// clock, or of a fresh genesis clock if the history is empty — then
    /// performs `work`. Nothing is transmitted.
    fn exec<F: FnOnce()>(&mut self, work: F)
        requires
            old(self).ready(),
            call_requires(work, ()),
    ;

    /// Records the clock of a send event, then hands the same value to
    /// `transmit`, which is expected to deliver it over a lossless FIFO
    /// channel: the recipient receives exactly what was appended.
    fn send<F: FnOnce(Event)>(&mut self, transmit: F)
        requires
            old(self).ready(),
            forall|e: Event| old(self).may_transmit(&e) ==> call_requires(transmit, (e,)),
    ;

    /// Obtains a value from `receive` — a blocking channel read supplied by
    /// the caller — and assimilates it into the history.
    fn recv<F: FnOnce() -> Event>(&mut self, receive: F)
        requires
            old(self).ready(),
            call_requires(receive, ()),
            forall|m: Event| call_ensures(receive, (), m) ==> old(self).absorbable(&m),
    ;

    /// The recorded history.
    fn snapshot(&self) -> &[Event];
}

} // verus!
