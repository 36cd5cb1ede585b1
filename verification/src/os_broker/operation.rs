//! The receipt of one admitted OS operation: it delivers exactly one
//! outcome, and a refusal seen while waiting wins over a late result.
use vstd::prelude::*;

use crate::os_broker::OsBrokerError;

verus! {

/// What the worker channel held at one look.
#[derive(Debug)]
pub enum Received<T> {
    /// Nothing yet.
    Empty,
    /// The worker ended without answering.
    Disconnected,
    /// The worker's answer.
    Answer(Result<T, OsBrokerError>),
}

/// What a look at the receipt hands out.
#[derive(Debug)]
pub enum Delivery<T> {
    /// The outcome was already delivered.
    Delivered,
    /// No outcome yet.
    Pending,
    /// This outcome, final.
    Outcome(Result<T, OsBrokerError>),
    /// The worker's answer, final once the authorisation is confirmed still
    /// current.
    ConfirmCurrent(Result<T, OsBrokerError>),
}

/// The receipt's state: whether its outcome was delivered, the first refusal
/// seen while waiting, and whether the operation was cancelled.
#[derive(Debug)]
pub struct OperationReceipt {
    pub delivered: bool,
    pub terminal_cause: Option<OsBrokerError>,
    pub cancelled: bool,
}

/// Whether an error reports a worker whose cleanup was not confirmed.
pub open spec fn is_cleanup_incomplete(e: OsBrokerError) -> bool {
    e.code@ == "cleanup_incomplete"@
}

impl OperationReceipt {
    /// A receipt of an operation just admitted.
    pub fn new() -> (r: Self)
        ensures
            !r.delivered && r.terminal_cause is None && !r.cancelled,
    {
        OperationReceipt { delivered: false, terminal_cause: None, cancelled: false }
    }

    /// Cancels the operation.
    pub fn cancel(&mut self)
        ensures
            final(self).cancelled,
            final(self).delivered == old(self).delivered,
            final(self).terminal_cause == old(self).terminal_cause,
    {
        self.cancelled = true;
    }

    /// One look at the receipt. Once delivered it hands out nothing more.
    /// Otherwise a refusal of the request's guard is recorded, unless one
    /// already was, and cancels the operation; then the worker channel
    /// decides: nothing yet is pending; a worker gone without an answer, or
    /// an answer of incomplete cleanup, is the outcome; any other answer
    /// yields to a recorded refusal, or else is final once the authorisation
    /// is confirmed current.
    pub fn poll<T>(&mut self, guard: Result<(), OsBrokerError>, received: Received<T>) -> (d: Delivery<T>)
        ensures
            old(self).delivered ==> (d is Delivered && *final(self) == *old(self)),
            !old(self).delivered ==> ({
                let cause = match guard {
                    Err(e) => if old(self).terminal_cause is None {
                        Some(e)
                    } else {
                        old(self).terminal_cause
                    },
                    Ok(()) => old(self).terminal_cause,
                };
                &&& final(self).cancelled == (old(self).cancelled || guard is Err)
                &&& match received {
                    Received::Empty => d is Pending && !final(self).delivered && final(self).terminal_cause == cause,
                    Received::Disconnected => {
                        &&& final(self).delivered
                        &&& final(self).terminal_cause == cause
                        &&& d matches Delivery::Outcome(Err(e)) && is_cleanup_incomplete(e) && e.message@
                            == "OS worker stopped without confirming operation resource cleanup"@
                    },
                    Received::Answer(r) => if r matches Err(e) && is_cleanup_incomplete(e) {
                        &&& final(self).delivered
                        &&& final(self).terminal_cause == cause
                        &&& d == Delivery::<T>::Outcome(r)
                    } else {
                        &&& final(self).delivered
                        &&& final(self).terminal_cause is None
                        &&& match cause {
                            Some(c) => d == Delivery::<T>::Outcome(Err(c)),
                            None => d == Delivery::<T>::ConfirmCurrent(r),
                        }
                    },
                }
            }),
    {
        if self.delivered {
            return Delivery::Delivered;
        }
        match guard {
            Err(e) => {
                if self.terminal_cause.is_none() {
                    self.terminal_cause = Some(e);
                }
                self.cancelled = true;
            },
            Ok(()) => {},
        }
        match received {
            Received::Empty => Delivery::Pending,
            Received::Disconnected => {
                self.delivered = true;
                Delivery::Outcome(
                    Err(
                        OsBrokerError::new(
                            "cleanup_incomplete",
                            "OS worker stopped without confirming operation resource cleanup",
                        ),
                    ),
                )
            },
            Received::Answer(r) => {
                self.delivered = true;
                let incomplete = match &r {
                    Err(e) => crate::text::str_equal(e.code.as_str(), "cleanup_incomplete"),
                    Ok(_) => false,
                };
                if incomplete {
                    return Delivery::Outcome(r);
                }
                let mut cause = None;
                std::mem::swap(&mut cause, &mut self.terminal_cause);
                match cause {
                    Some(c) => Delivery::Outcome(Err(c)),
                    None => Delivery::ConfirmCurrent(r),
                }
            },
        }
    }
}

/// The outcome of an answer whose authorisation was checked again: the
/// check's refusal, else the answer.
pub fn confirmed<T>(current: Result<(), OsBrokerError>, answer: Result<T, OsBrokerError>) -> (r: Result<T, OsBrokerError>)
    ensures
        match current {
            Err(e) => r == Err::<T, OsBrokerError>(e),
            Ok(()) => r == answer,
        },
{
    match current {
        Err(e) => Err(e),
        Ok(()) => answer,
    }
}

} // verus!
