//! The identifier issuer: hands out strictly increasing 64-bit identifiers,
//! one per created document, counting up from 1 on a fresh store, backed by
//! the durable counter cell.

use vstd::prelude::*;
use crate::storage::{IdCell, counter_value, counter_get, counter_set};

verus! {

/// Issues document identifiers; the counter holds the last value issued.
pub struct IdIssuer {
    cell: IdCell,
}

impl IdIssuer {
    /// The last identifier issued; 0 before any was.
    pub closed spec fn issued(self) -> u64 {
        counter_value(self.cell)
    }

    /// Wraps an already-opened counter cell; the issuer continues from
    /// whatever that cell holds.
    pub(crate) fn from_cell(cell: IdCell) -> (r: Self)
        ensures
            r.issued() == counter_value(cell),
    {
        IdIssuer { cell }
    }

    /// The last identifier issued, read back.
    pub fn last_issued(&self) -> (r: u64)
        ensures
            r == self.issued(),
    {
        counter_get(&self.cell)
    }

    /// Draws the next identifier: strictly greater than every identifier
    /// issued before. Identifier exhaustion is treated as unreachable, so
    /// the counter is asked not to be at its ceiling.
    pub fn next_id(&mut self) -> (r: u64)
        requires
            old(self).issued() < u64::MAX,
        ensures
            r == old(self).issued() + 1,
            final(self).issued() == r,
    {
        let prev = counter_get(&self.cell);
        let id = prev + 1;
        counter_set(&mut self.cell, id);
        id
    }
}

} // verus!
