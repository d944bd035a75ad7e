//! Peterson's algorithm: a binary fair mutex over three shared flags.
//!
//! Each side raises its `wants` flag and yields the turn to the other before
//! waiting; a side may enter once the other is not interested or the turn is
//! its own. The board here is the model of the three flags the two threads
//! spin on; `lemma_peterson_exclusive` and `lemma_peterson_progress` are the
//! kernel of mutual exclusion and deadlock freedom: with both sides
//! interested, exactly one spin condition clears.

use vstd::prelude::*;

use crate::sync::{NoStarveMutex, WantGuard};

verus! {

/// The shared flags: each side's interest, and whose turn it is to wait.
pub struct Peterson {
    pub a_wants: bool,
    pub b_wants: bool,
    pub a_turn: bool,
}

impl Default for Peterson {
    /// A board with neither side interested.
    fn default() -> (r: Peterson)
        ensures
            !r.a_wants,
            !r.b_wants,
            !r.a_turn,
    {
        Peterson { a_wants: false, b_wants: false, a_turn: false }
    }
}

/// Side A's spin condition clears: B is not interested, or the turn is A's.
pub open spec fn a_may_enter(board: Peterson) -> bool {
    !(board.b_wants && !board.a_turn)
}

/// Side B's spin condition clears: A is not interested, or the turn is B's.
pub open spec fn b_may_enter(board: Peterson) -> bool {
    !(board.a_wants && board.a_turn)
}

/// Side A's handle.
pub struct PetersonA;

/// Side B's handle.
pub struct PetersonB;

/// Side A's claim, registered on the board.
pub struct PetersonAWantGuard;

/// Side B's claim, registered on the board.
pub struct PetersonBWantGuard;

/// Side A's possession of the critical section.
pub struct PetersonAGuard;

/// Side B's possession of the critical section.
pub struct PetersonBGuard;

impl Peterson {
    /// The two sides of a binary mutex; the board itself starts from
    /// `Peterson::default()`.
    pub fn binary_mutex() -> (PetersonA, PetersonB) {
        (PetersonA, PetersonB)
    }
}

impl NoStarveMutex<Peterson, PetersonAWantGuard> for PetersonA {
    open spec fn may_want(&self, board: Peterson) -> bool {
        true
    }

    /// Raises A's interest and yields the turn to B.
    fn want_lock(&self, board: &mut Peterson) -> (w: PetersonAWantGuard)
        ensures
            final(board).a_wants,
            !final(board).a_turn,
            final(board).b_wants == old(board).b_wants,
    {
        board.a_wants = true;
        board.a_turn = false;
        PetersonAWantGuard
    }
}

impl WantGuard<Peterson, PetersonAGuard> for PetersonAWantGuard {
    open spec fn may_enter(&self, board: Peterson) -> bool {
        a_may_enter(board)
    }

    fn can_enter(&self, board: &Peterson) -> (r: bool) {
        !(board.b_wants && !board.a_turn)
    }

    fn wait(self, board: &Peterson) -> (g: PetersonAGuard) {
        PetersonAGuard
    }
}

impl PetersonAWantGuard {
    /// Gives the claim up without entering.
    pub fn abandon(self, board: &mut Peterson)
        ensures
            !final(board).a_wants,
            final(board).b_wants == old(board).b_wants,
            final(board).a_turn == old(board).a_turn,
    {
        board.a_wants = false;
    }
}

impl PetersonAGuard {
    /// Leaves the critical section, dropping A's interest.
    pub fn release(self, board: &mut Peterson)
        ensures
            !final(board).a_wants,
            final(board).b_wants == old(board).b_wants,
            final(board).a_turn == old(board).a_turn,
    {
        board.a_wants = false;
    }
}

impl NoStarveMutex<Peterson, PetersonBWantGuard> for PetersonB {
    open spec fn may_want(&self, board: Peterson) -> bool {
        true
    }

    /// Raises B's interest and yields the turn to A.
    fn want_lock(&self, board: &mut Peterson) -> (w: PetersonBWantGuard)
        ensures
            final(board).b_wants,
            final(board).a_turn,
            final(board).a_wants == old(board).a_wants,
    {
        board.b_wants = true;
        board.a_turn = true;
        PetersonBWantGuard
    }
}

impl WantGuard<Peterson, PetersonBGuard> for PetersonBWantGuard {
    open spec fn may_enter(&self, board: Peterson) -> bool {
        b_may_enter(board)
    }

    fn can_enter(&self, board: &Peterson) -> (r: bool) {
        !(board.a_wants && board.a_turn)
    }

    fn wait(self, board: &Peterson) -> (g: PetersonBGuard) {
        PetersonBGuard
    }
}

impl PetersonBWantGuard {
    /// Gives the claim up without entering.
    pub fn abandon(self, board: &mut Peterson)
        ensures
            !final(board).b_wants,
            final(board).a_wants == old(board).a_wants,
            final(board).a_turn == old(board).a_turn,
    {
        board.b_wants = false;
    }
}

impl PetersonBGuard {
    /// Leaves the critical section, dropping B's interest.
    pub fn release(self, board: &mut Peterson)
        ensures
            !final(board).b_wants,
            final(board).a_wants == old(board).a_wants,
            final(board).a_turn == old(board).a_turn,
    {
        board.b_wants = false;
    }
}

/// Mutual exclusion, at its core: with both sides interested, the two spin
/// conditions never clear together — the turn flag picks one.
pub proof fn lemma_peterson_exclusive(board: Peterson)
    requires
        board.a_wants,
        board.b_wants,
    ensures
        !(a_may_enter(board) && b_may_enter(board)),
{
}

/// Deadlock freedom, at its core: on every board some side's spin condition
/// clears.
pub proof fn lemma_peterson_progress(board: Peterson)
    ensures
        a_may_enter(board) || b_may_enter(board),
{
}

} // verus!
