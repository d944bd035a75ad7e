//! Decision kernels of two fair mutual-exclusion protocols.
//!
//! The shared flags and tickets the protocols spin on are modelled as
//! explicit board values, stepped by one participant at a time; the verified
//! functions are the state transitions and entry decisions. The busy-wait
//! loops that poll a board shared between threads live with the caller, which
//! polls `can_enter` and calls `wait` only once it reports true.

use vstd::prelude::*;

pub mod lamports_bakery;
pub mod peterson;

verus! {

/// A starvation-free mutex: registering intent to enter is separate from
/// entering, so a waiting participant cannot be overtaken forever.
pub trait NoStarveMutex<Board, Want> {
    /// When the participant may register intent on `board`.
    spec fn may_want(&self, board: Board) -> bool;

    /// Registers intent to enter and hands back a claim to wait on.
    fn want_lock(&self, board: &mut Board) -> Want
        requires
            self.may_want(*old(board)),
    ;
}

/// A registered claim that converts into entry once the board allows it.
pub trait WantGuard<Board, Guard> {
    /// The board state lets this claim enter now.
    spec fn may_enter(&self, board: Board) -> bool;

    /// The entry decision the caller's busy-wait loop polls.
    fn can_enter(&self, board: &Board) -> (r: bool)
        ensures
            r == self.may_enter(*board),
    ;

    /// Consumes the claim and enters the critical section.
    fn wait(self, board: &Board) -> Guard
        requires
            self.may_enter(*board),
    ;
}

} // verus!
