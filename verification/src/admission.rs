//! Admission of connections.
//!
//! The listener serves each connection in a task of its own. A counter with
//! a limit keeps the number of connections in flight bounded: a connection
//! that would exceed the limit is turned away.

use vstd::prelude::*;

verus! {

/// How many connections are being served, and how many may be.
pub struct Admission {
    limit: usize,
    active: usize,
}

impl Admission {
    #[verifier::type_invariant]
    spec fn well_formed(self) -> bool {
        self.active <= self.limit
    }

    /// Most connections that may be served at one time.
    pub closed spec fn limit(&self) -> usize {
        self.limit
    }

    /// Connections that are being served.
    pub closed spec fn active(&self) -> usize {
        self.active
    }

    /// A counter that admits up to `limit` connections at one time.
    pub fn new(limit: usize) -> (admission: Self)
        ensures
            admission.limit() == limit,
            admission.active() == 0,
    {
        Admission { limit, active: 0 }
    }

    /// Admits one more connection where the limit allows it.
    pub fn try_admit(&mut self) -> (admitted: bool)
        ensures
            admitted == (old(self).active() < old(self).limit()),
            final(self).limit() == old(self).limit(),
            final(self).active() == old(self).active() + if admitted {
                1int
            } else {
                0int
            },
    {
        if self.active < self.limit {
            self.active = self.active + 1;
            true
        } else {
            false
        }
    }

    /// Takes note that a connection has ended.
    pub fn release(&mut self)
        ensures
            final(self).limit() == old(self).limit(),
            final(self).active() == if old(self).active() > 0 {
                old(self).active() - 1
            } else {
                0
            },
    {
        proof {
            use_type_invariant(&*self);
        }
        if self.active > 0 {
            self.active = self.active - 1;
        }
    }

    /// Connections that are being served: never more than the limit.
    pub fn in_flight(&self) -> (n: usize)
        ensures
            n == self.active(),
            n <= self.limit(),
    {
        proof {
            use_type_invariant(self);
        }
        self.active
    }
}

} // verus!
