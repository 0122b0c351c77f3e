//! Counting the bytes that have reached the destination file.

use vstd::prelude::*;

verus! {

/// What a progress counter stands for: how many bytes have been written, out
/// of how many.
pub struct ProgressView {
    /// The bytes written so far.
    pub written: u64,
    /// The size of the whole resource.
    pub total: u64,
}

/// The count of bytes written so far, shared by all segments of a download.
/// It only ever grows, and never past the size of the resource.
pub struct ProgressCounter {
    written: u64,
    total: u64,
}

impl View for ProgressCounter {
    type V = ProgressView;

    closed spec fn view(&self) -> ProgressView {
        ProgressView { written: self.written, total: self.total }
    }
}

/// The count after `amount` more bytes: the sum, held at `total`.
pub open spec fn count_after(written: u64, total: u64, amount: u64) -> u64 {
    if written + amount <= total {
        (written + amount) as u64
    } else {
        total
    }
}

impl ProgressCounter {
    #[verifier::type_invariant]
    spec fn inv(self) -> bool {
        self.written <= self.total
    }

    /// A counter for a resource of `total` bytes, of which none has been
    /// written.
    pub fn new(total: u64) -> (counter: ProgressCounter)
        ensures
            counter@ == (ProgressView { written: 0, total }),
    {
        ProgressCounter { written: 0, total }
    }

    /// The bytes written so far.
    pub fn written(&self) -> (written: u64)
        ensures
            written == self@.written,
            written <= self@.total,
    {
        proof {
            use_type_invariant(self);
        }
        self.written
    }

    /// The size of the whole resource.
    pub fn total(&self) -> (total: u64)
        ensures
            total == self@.total,
    {
        self.total
    }

    /// Records that `amount` more bytes have been written, and returns the
    /// new count.
    pub fn inc(&mut self, amount: u64) -> (written: u64)
        ensures
            final(self)@.total == old(self)@.total,
            final(self)@.written == count_after(old(self)@.written, old(self)@.total, amount),
            old(self)@.written <= final(self)@.written <= final(self)@.total,
            written == final(self)@.written,
    {
        proof {
            use_type_invariant(&*self);
        }
        if amount <= self.total - self.written {
            self.written = self.written + amount;
        } else {
            self.written = self.total;
        }
        self.written
    }
}

} // verus!
