use vstd::prelude::*;

use crate::errno::{PosixError, PosixResult};

verus! {

/// One in-flight asynchronous engine operation of a given kind. `P` is the
/// submit-side payload retained while the operation runs (the scatter-gather
/// buffer of a push, whose memory must stay valid until completion); `T` is
/// the completion payload.
///
/// States: idle, running (exactly one completion owed, identified by its
/// queue token), completed. The consumer drains a completed operation back
/// to idle; the retained payload is dropped on the transition to completed.
pub enum Operation<P, T> {
    Idle,
    Running { payload: P, token: u64 },
    Completed(PosixResult<T>),
}

impl<P, T> Operation<P, T> {
    pub fn new() -> (r: Operation<P, T>)
        ensures
            r is Idle,
    {
        Operation::Idle
    }

    pub fn is_idle(&self) -> (r: bool)
        ensures
            r == (self is Idle),
    {
        match self {
            Operation::Idle => true,
            _ => false,
        }
    }

    pub fn is_running(&self) -> (r: bool)
        ensures
            r == (self is Running),
    {
        match self {
            Operation::Running { .. } => true,
            _ => false,
        }
    }

    pub fn is_finished(&self) -> (r: bool)
        ensures
            r == (self is Completed),
    {
        match self {
            Operation::Completed(_) => true,
            _ => false,
        }
    }

    /// The queue token of the running operation.
    pub open spec fn spec_token(self) -> u64
        recommends
            self is Running,
    {
        match self {
            Operation::Running { token, .. } => token,
            _ => 0,
        }
    }

    pub fn token(&self) -> (r: u64)
        requires
            self is Running,
        ensures
            r == self.spec_token(),
    {
        match self {
            Operation::Running { token, .. } => *token,
            _ => vstd::pervasive::unreached(),
        }
    }

    /// Submits: records the token of the operation just handed to the
    /// engine, retaining the payload until completion. Submitting twice is a
    /// programmer error, so the operation must be idle.
    pub fn start(&mut self, token: u64, payload: P)
        requires
            *old(self) is Idle,
        ensures
            *final(self) == (Operation::<P, T>::Running { payload, token }),
    {
        *self = Operation::Running { payload, token };
    }

    /// Records the completion the engine delivered, dropping the retained
    /// payload.
    pub fn complete(&mut self, result: PosixResult<T>)
        requires
            *old(self) is Running,
        ensures
            *final(self) == Operation::<P, T>::Completed(result),
    {
        *self = Operation::Completed(result);
    }

    /// Consumes the completion, returning the operation to idle.
    pub fn take(&mut self) -> (r: PosixResult<T>)
        requires
            *old(self) is Completed,
        ensures
            *old(self) == Operation::<P, T>::Completed(r),
            *final(self) is Idle,
    {
        let mut tmp = Operation::Idle;
        core::mem::swap(&mut tmp, self);
        match tmp {
            Operation::Completed(r) => r,
            _ => vstd::pervasive::unreached(),
        }
    }

    /// Stores a completion back (used when a read leaves bytes in the
    /// receive cursor for the next call).
    pub fn put(&mut self, result: PosixResult<T>)
        requires
            *old(self) is Idle,
        ensures
            *final(self) == Operation::<P, T>::Completed(result),
    {
        *self = Operation::Completed(result);
    }
}

/// Which engine submission a socket needs for a requested direction whose
/// operation is idle: an accept on a passive socket, a pop on an active one.
/// (A push is submitted by `write` itself, payload in hand, never by the
/// readiness sweep.)
#[derive(Clone, Copy, Debug, PartialEq, Eq, Structural)]
pub enum SubmitKind {
    Accept,
    Pop,
}

} // verus!
