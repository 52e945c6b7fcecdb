//! Accounting for the pipelined uploader: a large payload is streamed
//! as transport-sized chunks with several transfers in flight, and the
//! transfers are retired oldest first, their byte counts folded into a
//! running total. The window never holds more than four unretired
//! transfers: the driver retires the oldest before submitting another
//! once more than three are outstanding.
//!
//! The asynchronous driver owns the actual transfer handles; this
//! state machine pins down when it may submit, when it must retire,
//! and what the returned total means.

use vstd::prelude::*;

verus! {

/// The sum of a sequence of byte counts.
pub open spec fn seq_sum(s: Seq<nat>) -> nat
    decreases s.len(),
{
    if s.len() == 0 {
        0
    } else {
        seq_sum(s.drop_last()) + s.last()
    }
}

/// The accounting state of one streamed upload.
pub struct Uploader {
    in_flight: usize,
    total: usize,
    retired: Ghost<Seq<nat>>,
}

impl Uploader {
    /// How many submitted transfers are not yet retired.
    pub closed spec fn spec_in_flight(&self) -> nat {
        self.in_flight as nat
    }

    /// The bytes accounted so far.
    pub closed spec fn spec_total(&self) -> nat {
        self.total as nat
    }

    /// The byte counts of the retired transfers, oldest first.
    pub closed spec fn spec_retired(&self) -> Seq<nat> {
        self.retired@
    }

    /// The upload invariant: the window never exceeds four transfers,
    /// and the running total is exactly the sum of the retired
    /// transfers' byte counts.
    pub open spec fn wf(&self) -> bool {
        self.spec_in_flight() <= 4 && self.spec_total() == seq_sum(self.spec_retired())
    }

    /// A fresh upload: nothing in flight, nothing accounted.
    pub fn new() -> (r: Uploader)
        ensures
            r.wf(),
            r.spec_in_flight() == 0,
            r.spec_total() == 0,
            r.spec_retired() == Seq::<nat>::empty(),
    {
        Uploader { in_flight: 0, total: 0, retired: Ghost(Seq::empty()) }
    }

    /// Whether the window is full: more than three transfers are
    /// outstanding, so the oldest must be retired before another
    /// chunk may be submitted.
    pub fn window_full(&self) -> (r: bool)
        ensures
            r == (self.spec_in_flight() > 3),
    {
        self.in_flight > 3
    }

    /// Record that one more chunk was submitted to the transport.
    pub fn submitted(&mut self)
        requires
            old(self).wf(),
            old(self).spec_in_flight() <= 3,
        ensures
            final(self).wf(),
            final(self).spec_in_flight() == old(self).spec_in_flight() + 1,
            final(self).spec_total() == old(self).spec_total(),
            final(self).spec_retired() == old(self).spec_retired(),
    {
        self.in_flight = self.in_flight + 1;
    }

    /// Fold the byte count of the retired oldest transfer into the
    /// running total.
    pub fn retired(&mut self, bytes: usize)
        requires
            old(self).wf(),
            old(self).spec_in_flight() > 0,
            old(self).spec_total() + bytes <= usize::MAX,
        ensures
            final(self).wf(),
            final(self).spec_in_flight() == old(self).spec_in_flight() - 1,
            final(self).spec_total() == old(self).spec_total() + bytes,
            final(self).spec_retired() == old(self).spec_retired().push(bytes as nat),
    {
        self.in_flight = self.in_flight - 1;
        self.total = self.total + bytes;
        let ghost counts = self.retired@.push(bytes as nat);
        proof {
            assert(counts.drop_last() =~= old(self).spec_retired());
        }
        self.retired = Ghost(counts);
    }

    /// How many transfers are in flight.
    pub fn pending(&self) -> (n: usize)
        ensures
            n == self.spec_in_flight(),
    {
        self.in_flight
    }

    /// The bytes accounted so far: the sum of all retired transfers.
    pub fn total(&self) -> (n: usize)
        ensures
            n == self.spec_total(),
    {
        self.total
    }
}

} // verus!
