//! The eviction policy of the store: a bound on the number of traces and a
//! bound on the estimated memory they take, held together.

use vstd::prelude::*;

verus! {

/// Limits both the number of entries and their estimated memory usage. The
/// limiter keeps the running total of the estimates; the store tells it of
/// every entry that comes and goes.
#[derive(Debug)]
pub struct MyLimiter {
    current_mem: usize,
    max_mem: usize,
    max_length: u32,
}

impl MyLimiter {
    /// The running total of estimated bytes.
    pub closed spec fn current_mem(&self) -> nat {
        self.current_mem as nat
    }

    /// The bound on the running total.
    pub closed spec fn max_mem(&self) -> nat {
        self.max_mem as nat
    }

    /// The bound on the number of entries.
    pub closed spec fn max_length(&self) -> nat {
        self.max_length as nat
    }

    /// Whether a store of the given length, with the current total, is over
    /// one of the two bounds.
    pub open spec fn over_the_limit(&self, length: nat) -> bool {
        length > self.max_length() || self.current_mem() > self.max_mem()
    }

    /// A limiter with the given bounds, for a store that is empty.
    pub fn new(max_mem: usize, max_length: u32) -> (l: Self)
        ensures
            l.current_mem() == 0,
            l.max_mem() == max_mem,
            l.max_length() == max_length,
    {
        Self { current_mem: 0, max_mem, max_length }
    }

    /// The running total of estimated bytes.
    pub fn estimated_memory_usage(&self) -> (r: usize)
        ensures
            r == self.current_mem(),
    {
        self.current_mem
    }

    /// Whether a store of the given length must give up an entry.
    pub fn is_over_the_limit(&self, length: usize) -> (r: bool)
        ensures
            r == self.over_the_limit(length as nat),
    {
        length > self.max_length as usize || self.current_mem > self.max_mem
    }

    /// Asks whether an entry of the given estimated size may come in, and
    /// counts it if so. With a length bound of zero nothing may come in.
    /// Memory is no reason to refuse: an entry that takes the total over
    /// its bound comes in, and the store then gives up its oldest entries.
    /// An entry is also refused where the total would no longer fit the
    /// machine's word.
    pub fn on_insert(&mut self, _length: usize, mem: usize) -> (accepted: bool)
        ensures
            final(self).max_mem() == old(self).max_mem(),
            final(self).max_length() == old(self).max_length(),
            accepted <==> old(self).max_length() > 0 && old(self).current_mem() + mem
                <= usize::MAX,
            accepted ==> final(self).current_mem() == old(self).current_mem() + mem,
            !accepted ==> final(self).current_mem() == old(self).current_mem(),
    {
        if self.max_length > 0 {
            match self.current_mem.checked_add(mem) {
                Some(total) => {
                    self.current_mem = total;
                    true
                },
                None => false,
            }
        } else {
            false
        }
    }

    /// Takes an entry of the given estimated size out of the total. The
    /// entry must have been counted before.
    pub fn on_removed(&mut self, mem: usize)
        requires
            mem <= old(self).current_mem(),
        ensures
            final(self).max_mem() == old(self).max_mem(),
            final(self).max_length() == old(self).max_length(),
            final(self).current_mem() == old(self).current_mem() - mem,
    {
        self.current_mem -= mem;
    }

    /// Starts the total anew, for a store that was emptied.
    pub fn on_cleared(&mut self)
        ensures
            final(self).max_mem() == old(self).max_mem(),
            final(self).max_length() == old(self).max_length(),
            final(self).current_mem() == 0,
    {
        self.current_mem = 0;
    }

    /// Whether the store's table may grow to the given size. It always may:
    /// the table itself is not counted.
    pub fn on_grow(&self, _new_memory_usage: usize) -> (r: bool)
        ensures
            r,
    {
        true
    }
}

} // verus!
