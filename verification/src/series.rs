//! A bounded, time-ordered sequence of samples: the building block of every
//! history the store retains. Insertion order equals chronological order and
//! a full series evicts its oldest sample before the newest is appended.
use vstd::prelude::*;

verus! {

/// What one bounded append does: the item goes to the back, and when the
/// store is already at capacity the oldest item leaves first.
pub open spec fn spec_push_cap<T>(s: Seq<T>, cap: nat, x: T) -> Seq<T> {
    if s.len() + 1 > cap {
        s.push(x).drop_first()
    } else {
        s.push(x)
    }
}

/// Bounded append of one sample.
pub open spec fn spec_push_bounded(s: Seq<u64>, cap: nat, x: u64) -> Seq<u64> {
    spec_push_cap(s, cap, x)
}

/// A fixed-capacity series of `u64` samples, oldest first.
pub struct BoundedSeries {
    samples: Vec<u64>,
    cap: usize,
}

impl View for BoundedSeries {
    type V = Seq<u64>;

    closed spec fn view(&self) -> Seq<u64> {
        self.samples@
    }
}

impl BoundedSeries {
    /// The configured maximum number of retained samples.
    pub closed spec fn capacity(self) -> nat {
        self.cap as nat
    }

    /// Retained length never exceeds the capacity.
    pub open spec fn bounded(self) -> bool {
        self@.len() <= self.capacity()
    }

    pub fn new(cap: usize) -> (r: Self)
        ensures
            r@ == Seq::<u64>::empty(),
            r.capacity() == cap,
            r.bounded(),
    {
        BoundedSeries { samples: Vec::new(), cap }
    }

    pub fn len(&self) -> (n: usize)
        ensures
            n == self@.len(),
    {
        self.samples.len()
    }

    /// The retained samples, oldest first.
    pub fn samples(&self) -> (r: &Vec<u64>)
        ensures
            r@ == self@,
    {
        &self.samples
    }

    /// Appends one sample, evicting the oldest first when at capacity.
    pub fn push(&mut self, x: u64)
        ensures
            final(self)@ == spec_push_bounded(old(self)@, old(self).capacity(), x),
            final(self).capacity() == old(self).capacity(),
            old(self).bounded() ==> final(self).bounded(),
    {
        self.samples.push(x);
        if self.samples.len() > self.cap {
            self.samples.remove(0);
            proof {
                assert(self.samples@ =~= old(self)@.push(x).drop_first());
            }
        }
    }
}

impl Clone for BoundedSeries {
    /// A copy with the same samples and capacity.
    fn clone(&self) -> (r: Self)
        ensures
            r@ == self@,
            r.capacity() == self.capacity(),
    {
        let mut samples: Vec<u64> = Vec::new();
        let mut i: usize = 0;
        while i < self.samples.len()
            invariant
                i <= self.samples@.len(),
                samples@ == self.samples@.subrange(0, i as int),
            decreases self.samples@.len() - i,
        {
            samples.push(self.samples[i]);
            proof {
                assert(samples@ =~= self.samples@.subrange(0, i as int + 1));
            }
            i = i + 1;
        }
        proof {
            assert(self.samples@.subrange(0, self.samples@.len() as int) =~= self.samples@);
        }
        BoundedSeries { samples, cap: self.cap }
    }
}

/// The retention law of every bounded store — the sample series and the
/// exit log alike: a bounded append never leaves more than `cap` items; a
/// store below capacity just grows by the new item at the back; a store at
/// capacity is exactly the old store with its oldest item dropped and the
/// new one at the back.
pub proof fn lemma_push_cap_fifo<T>(s: Seq<T>, cap: nat, x: T)
    requires
        s.len() <= cap,
    ensures
        spec_push_cap(s, cap, x).len() <= cap,
        s.len() < cap ==> spec_push_cap(s, cap, x) == s.push(x),
        s.len() == cap && cap > 0 ==> spec_push_cap(s, cap, x) == s.drop_first().push(x),
{
    if s.len() == cap && cap > 0 {
        assert(s.push(x).drop_first() =~= s.drop_first().push(x));
    }
}

} // verus!
