//! A bounded buffer of the supervisor's recent log lines.

use vstd::prelude::*;

verus! {

/// The last `cap` items of `s`, or all of them when there are fewer.
pub open spec fn keep_last<T>(s: Seq<T>, cap: nat) -> Seq<T> {
    if s.len() > cap { s.subrange(s.len() - cap, s.len() as int) } else { s }
}

/// The most recent log lines, oldest first, at most `capacity` of them.
pub struct LogBuffer {
    buffer: Vec<String>,
    capacity: usize,
}

impl LogBuffer {
    pub closed spec fn view(&self) -> Seq<String> {
        self.buffer@
    }

    pub closed spec fn cap(&self) -> nat {
        self.capacity as nat
    }

    pub closed spec fn wf(&self) -> bool {
        self.buffer@.len() <= self.capacity
    }

    /// An empty buffer that keeps at most `capacity` lines.
    pub fn new(capacity: usize) -> (r: Self)
        ensures
            r.wf(),
            r@.len() == 0,
            r.cap() == capacity,
    {
        LogBuffer { buffer: Vec::new(), capacity }
    }

    /// Adds a line, dropping the oldest one when the buffer is full.
    pub fn push(&mut self, msg: String)
        requires
            old(self).wf(),
        ensures
            final(self).wf(),
            final(self).cap() == old(self).cap(),
            final(self)@ == keep_last(old(self)@.push(msg), old(self).cap()),
    {
        if self.capacity == 0 {
            assert(keep_last(self.buffer@.push(msg), 0) =~= Seq::<String>::empty());
            assert(self.buffer@ =~= Seq::<String>::empty());
            return;
        }
        let ghost pushed = self.buffer@.push(msg);
        if self.buffer.len() == self.capacity {
            self.buffer.remove(0);
        }
        self.buffer.push(msg);
        assert(self.buffer@ =~= keep_last(pushed, self.capacity as nat));
    }

    /// The lines held, oldest first.
    pub fn get_logs(&self) -> (r: Vec<String>)
        ensures
            r@ == self@,
            self.wf() ==> r@.len() <= self.cap(),
    {
        crate::text::copy_strings(&self.buffer)
    }

    /// The lines held, newest first, as the control plane serves them.
    pub fn newest_first(&self) -> (r: Vec<String>)
        ensures
            r@ == self@.reverse(),
    {
        let mut r: Vec<String> = Vec::new();
        let mut i: usize = self.buffer.len();
        while i > 0
            invariant
                i <= self.buffer@.len(),
                r@ == self.buffer@.subrange(i as int, self.buffer@.len() as int).reverse(),
            decreases i,
        {
            i = i - 1;
            r.push(self.buffer[i].clone());
            assert(r@ =~= self.buffer@.subrange(i as int, self.buffer@.len() as int).reverse());
        }
        assert(self.buffer@.subrange(0, self.buffer@.len() as int) =~= self.buffer@);
        r
    }
}

/// Keeping a line never makes the buffer hold more than its capacity, and
/// lines leave in the order they came.
pub proof fn buffer_keeps_newest(s: Seq<String>, msg: String, cap: nat)
    requires
        cap > 0,
        s.len() <= cap,
    ensures
        keep_last(s.push(msg), cap).len() <= cap,
        keep_last(s.push(msg), cap).last() == msg,
{
}

} // verus!
