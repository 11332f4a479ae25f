//! The decode read budget: a mutable counter, scoped to one decode call,
//! bounding the total bytes the call may claim. A hostile length prefix
//! fails its claim immediately, before any allocation proportional to the
//! declared length.

use vstd::prelude::*;

use crate::config::Limit;
use crate::error::DecodeError;

verus! {

/// Claiming `n` bytes from budget `b`: the new budget, or nothing when the
/// claim would exceed it.
pub open spec fn spec_claim(b: Limit, n: int) -> Option<Limit> {
    match b {
        Limit::Unlimited => Some(Limit::Unlimited),
        Limit::Bytes(r) => if n <= r {
            Some(Limit::Bytes((r - n) as usize))
        } else {
            None
        },
    }
}

/// Releasing `n` previously claimed bytes back to budget `b`; saturates at
/// the machine bound.
pub open spec fn spec_release(b: Limit, n: int) -> Limit {
    match b {
        Limit::Unlimited => Limit::Unlimited,
        Limit::Bytes(r) => if r + n <= usize::MAX {
            Limit::Bytes((r + n) as usize)
        } else {
            Limit::Bytes(usize::MAX)
        },
    }
}

/// Claiming `w * len` bytes as a pessimistic upper bound for a
/// declared-length container, before any element is read.
pub open spec fn spec_claim_container(b: Limit, w: int, len: int) -> Option<Limit> {
    match b {
        Limit::Unlimited => Some(Limit::Unlimited),
        Limit::Bytes(r) => if w * len <= usize::MAX {
            spec_claim(b, w * len)
        } else {
            None
        },
    }
}

/// The mutable counter bounding total bytes one decode call may claim.
/// Created fresh per top-level decode invocation and never shared.
pub struct ReadBudget {
    pub remaining: Limit,
}

impl ReadBudget {
    pub fn new(limit: Limit) -> (b: ReadBudget)
        ensures
            b.remaining == limit,
    {
        ReadBudget { remaining: limit }
    }

    /// Charge `n` bytes against the budget; fails without mutating state
    /// when the charge would exceed what remains.
    pub fn claim(&mut self, n: usize) -> (r: Result<(), DecodeError>)
        ensures
            match r {
                Ok(()) => spec_claim(old(self).remaining, n as int) == Some(final(self).remaining),
                Err(e) => {
                    &&& e == DecodeError::LimitExceeded
                    &&& spec_claim(old(self).remaining, n as int) is None
                    &&& final(self).remaining == old(self).remaining
                },
            },
    {
        match self.remaining {
            Limit::Unlimited => Ok(()),
            Limit::Bytes(r) => {
                if n <= r {
                    self.remaining = Limit::Bytes(r - n);
                    Ok(())
                } else {
                    Err(DecodeError::LimitExceeded)
                }
            },
        }
    }

    /// Charge `width * len` bytes as a pessimistic bound for a container of
    /// `len` declared elements, failing when the product exceeds the machine
    /// bound or the remaining budget.
    pub fn claim_container(&mut self, width: usize, len: usize) -> (r: Result<(), DecodeError>)
        ensures
            match r {
                Ok(()) => spec_claim_container(old(self).remaining, width as int, len as int)
                    == Some(final(self).remaining),
                Err(e) => {
                    &&& e == DecodeError::LimitExceeded
                    &&& spec_claim_container(old(self).remaining, width as int, len as int) is None
                    &&& final(self).remaining == old(self).remaining
                },
            },
    {
        match self.remaining {
            Limit::Unlimited => Ok(()),
            Limit::Bytes(_) => {
                if len == 0 {
                    self.claim(0)
                } else if width <= usize::MAX / len {
                    proof {
                        let m = usize::MAX as int;
                        let w = width as int;
                        let l = len as int;
                        vstd::arithmetic::div_mod::lemma_fundamental_div_mod(m, l);
                        assert(w * l <= m) by (nonlinear_arith)
                            requires
                                w <= m / l,
                                l >= 1,
                                m == (m / l) * l + (m % l),
                                0 <= m % l,
                        ;
                    }
                    self.claim(width * len)
                } else {
                    proof {
                        let m = usize::MAX as int;
                        let w = width as int;
                        let l = len as int;
                        vstd::arithmetic::div_mod::lemma_fundamental_div_mod(m, l);
                        assert(w * l > m) by (nonlinear_arith)
                            requires
                                w > m / l,
                                l >= 1,
                                m == (m / l) * l + (m % l),
                                m % l < l,
                        ;
                    }
                    Err(DecodeError::LimitExceeded)
                }
            },
        }
    }

    /// Refund `n` previously charged bytes: used right before decoding each
    /// individual element of a claimed container, so the element's actual
    /// cost is charged independently by its own claims.
    pub fn release(&mut self, n: usize)
        ensures
            final(self).remaining == spec_release(old(self).remaining, n as int),
    {
        match self.remaining {
            Limit::Unlimited => {},
            Limit::Bytes(r) => {
                if r <= usize::MAX - n {
                    self.remaining = Limit::Bytes(r + n);
                } else {
                    self.remaining = Limit::Bytes(usize::MAX);
                }
            },
        }
    }
}

} // verus!
