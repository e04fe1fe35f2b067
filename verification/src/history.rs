//! Fixed-capacity history of samples, oldest first.
//!
//! A `History` keeps the most recent `capacity` values that were pushed into
//! it. Once full, every push overwrites the oldest value, so reading the
//! history costs one pass over the buffer and pushing costs constant time.
use vstd::prelude::*;

verus! {

/// The last `cap` elements of `s` (all of `s` when it is shorter).
pub open spec fn window<T>(s: Seq<T>, cap: nat) -> Seq<T> {
    if s.len() <= cap {
        s
    } else {
        s.skip(s.len() - cap)
    }
}

/// Ring buffer holding the most recent `capacity` samples.
pub struct History<T> {
    data: Vec<T>,
    capacity: usize,
    write_pos: usize,
}

impl<T> History<T> {
    /// Position in `data` of the `i`-th oldest sample of a full buffer.
    spec fn slot(self, i: int) -> int {
        if self.write_pos + i < self.capacity {
            self.write_pos + i
        } else {
            self.write_pos + i - self.capacity
        }
    }

    #[verifier::type_invariant]
    spec fn well_formed(self) -> bool {
        &&& self.data.len() <= self.capacity
        &&& self.data.len() < self.capacity ==> self.write_pos == self.data.len()
        &&& self.data.len() == self.capacity ==> (self.write_pos < self.capacity || self.capacity == 0)
    }

    /// The number of samples the history can hold.
    pub closed spec fn capacity(self) -> nat {
        self.capacity as nat
    }

    /// The retained samples, oldest first.
    pub closed spec fn samples(self) -> Seq<T> {
        if self.data.len() < self.capacity {
            self.data@
        } else {
            Seq::new(self.capacity as nat, |i: int| self.data@[self.slot(i)])
        }
    }
}

impl<T> View for History<T> {
    type V = Seq<T>;

    open spec fn view(&self) -> Seq<T> {
        self.samples()
    }
}

impl<T: Copy> History<T> {
    /// An empty history that will hold up to `capacity` samples.
    pub fn new(capacity: usize) -> (h: Self)
        ensures
            h@ == Seq::<T>::empty(),
            h.capacity() == capacity,
    {
        let data: Vec<T> = Vec::new();
        assert(data@.len() == 0);
        let h = History { data, capacity, write_pos: 0 };
        assert(h@ =~= Seq::<T>::empty()) by {
            if capacity == 0 {
                assert(h.samples().len() == 0);
            }
        }
        h
    }

    /// Appends `value`; when the history is full the oldest sample is dropped.
    pub fn push(&mut self, value: T)
        requires
            old(self).capacity() > 0,
        ensures
            final(self).capacity() == old(self).capacity(),
            final(self)@ == window(old(self)@.push(value), old(self).capacity()),
            final(self)@.len() <= final(self).capacity(),
    {
        proof { use_type_invariant(&*self); }
        let ghost before = self@;
        let empty: Vec<T> = Vec::new();
        assert(empty@.len() == 0);
        let mut taken = History { data: empty, capacity: 0, write_pos: 0 };
        std::mem::swap(self, &mut taken);
        let History { mut data, capacity: cap, write_pos } = taken;
        let len = data.len();
        if len < cap {
            data.push(value);
        } else {
            data.set(write_pos, value);
        }
        let next = if write_pos + 1 == cap { 0 } else { write_pos + 1 };
        *self = History { data, capacity: cap, write_pos: next };
        proof {
            let after = self.samples();
            let expected = window(before.push(value), cap as nat);
            if len < cap {
                if len + 1 < cap {
                    assert(after =~= expected);
                } else {
                    assert(after =~= expected);
                }
            } else {
                assert forall|i: int| 0 <= i < cap implies #[trigger] after[i] == expected[i] by {
                    if i < cap - 1 {
                        assert(before[i + 1] == after[i]);
                    }
                }
                assert(after =~= expected);
            }
        }
    }

    /// All retained samples, oldest first.
    pub fn get_data(&self) -> (r: Vec<T>)
        ensures
            r@ == self@,
            r@.len() <= self.capacity(),
    {
        proof { use_type_invariant(self); }
        let cap = self.capacity;
        let len = self.data.len();
        if len < cap {
            let mut r: Vec<T> = Vec::new();
            let mut i: usize = 0;
            while i < len
                invariant
                    len == self.data.len(),
                    i <= len,
                    r@ == self.data@.take(i as int),
                decreases len - i,
            {
                r.push(self.data[i]);
                i = i + 1;
                assert(r@ =~= self.data@.take(i as int));
            }
            assert(self.data@.take(len as int) =~= self.data@);
            r
        } else {
            let mut r: Vec<T> = Vec::with_capacity(cap);
            let mut i: usize = 0;
            while i < cap
                invariant
                    cap == self.capacity,
                    self.data.len() == cap,
                    self.write_pos < cap || cap == 0,
                    i <= cap,
                    r@ == self.samples().take(i as int),
                decreases cap - i,
            {
                let idx = if i < cap - self.write_pos { self.write_pos + i } else { i - (cap - self.write_pos) };
                r.push(self.data[idx]);
                i = i + 1;
                assert(r@ =~= self.samples().take(i as int));
            }
            assert(self.samples().take(cap as int) =~= self.samples());
            r
        }
    }

    /// The `n` most recent samples (all of them when fewer are retained), oldest first.
    pub fn get_last(&self, n: usize) -> (r: Vec<T>)
        ensures
            r@ == window(self@, n as nat),
    {
        let data = self.get_data();
        let len = data.len();
        let start = len.saturating_sub(n);
        let mut r: Vec<T> = Vec::new();
        let mut i: usize = start;
        while i < len
            invariant
                len == data.len(),
                start <= i <= len,
                r@ == data@.subrange(start as int, i as int),
            decreases len - i,
        {
            r.push(data[i]);
            i = i + 1;
            assert(r@ =~= data@.subrange(start as int, i as int));
        }
        assert(r@ =~= window(self@, n as nat));
        r
    }

    /// The most recent sample, if any.
    pub fn last(&self) -> (r: Option<T>)
        ensures
            r == (if self@.len() == 0 { None } else { Some(self@.last()) }),
    {
        proof { use_type_invariant(self); }
        let cap = self.capacity;
        if self.data.len() == 0 {
            None
        } else {
            let idx = if self.write_pos == 0 { cap - 1 } else { self.write_pos - 1 };
            proof {
                if self.data.len() == cap {
                    assert(self.samples()[cap - 1] == self.data@[idx as int]);
                }
            }
            Some(self.data[idx])
        }
    }
}

/// A history never holds more than its capacity.
pub proof fn lemma_window_bounded<T>(s: Seq<T>, cap: nat)
    ensures
        window(s, cap).len() == if s.len() <= cap { s.len() } else { cap },
{
}

/// Pushing into the kept window is the same as keeping the window of
/// everything pushed: a history always holds the latest `capacity` values of
/// the whole stream pushed into it, oldest first.
pub proof fn lemma_window_push<T>(s: Seq<T>, v: T, cap: nat)
    requires
        cap > 0,
    ensures
        window(window(s, cap).push(v), cap) == window(s.push(v), cap),
{
    assert(window(window(s, cap).push(v), cap) =~= window(s.push(v), cap));
}

/// After a push, the latest sample is the pushed value.
pub proof fn lemma_last_after_push<T>(s: Seq<T>, v: T, cap: nat)
    requires
        cap > 0,
    ensures
        window(s.push(v), cap).len() > 0,
        window(s.push(v), cap).last() == v,
{
}

/// Pushing into a history holding at most `cap` samples appends the value,
/// and drops the oldest sample only when the history was full.
pub proof fn lemma_push_drops_oldest<T>(s: Seq<T>, v: T, cap: nat)
    requires
        cap > 0,
        s.len() <= cap,
    ensures
        window(s.push(v), cap) == (if s.len() < cap { s.push(v) } else { s.drop_first().push(v) }),
        window(s.push(v), cap).len() == (if s.len() < cap { s.len() + 1 } else { cap }),
{
    assert(window(s.push(v), cap) =~= (if s.len() < cap { s.push(v) } else { s.drop_first().push(v) }));
}

/// The last `n` samples are a suffix of all samples, and all of them when
/// `n` reaches the number held.
pub proof fn lemma_window_suffix<T>(s: Seq<T>, n: nat)
    ensures
        window(s, n) == s.subrange(s.len() - window(s, n).len(), s.len() as int),
        n >= s.len() ==> window(s, n) == s,
{
    assert(window(s, n) =~= s.subrange(s.len() - window(s, n).len(), s.len() as int));
}

/// A pair of histories filled in step, one for incoming and one for outgoing traffic.
pub struct DualHistory<T> {
    pub incoming: History<T>,
    pub outgoing: History<T>,
}

impl<T: Copy> DualHistory<T> {
    /// Two empty histories of the same capacity.
    pub fn new(capacity: usize) -> (d: Self)
        ensures
            d.incoming@ == Seq::<T>::empty(),
            d.outgoing@ == Seq::<T>::empty(),
            d.incoming.capacity() == capacity,
            d.outgoing.capacity() == capacity,
    {
        DualHistory { incoming: History::new(capacity), outgoing: History::new(capacity) }
    }

    /// Pushes one sample into each history.
    pub fn push(&mut self, incoming: T, outgoing: T)
        requires
            old(self).incoming.capacity() > 0,
            old(self).outgoing.capacity() > 0,
        ensures
            final(self).incoming.capacity() == old(self).incoming.capacity(),
            final(self).outgoing.capacity() == old(self).outgoing.capacity(),
            final(self).incoming@ == window(old(self).incoming@.push(incoming), old(self).incoming.capacity()),
            final(self).outgoing@ == window(old(self).outgoing@.push(outgoing), old(self).outgoing.capacity()),
    {
        self.incoming.push(incoming);
        self.outgoing.push(outgoing);
    }
}

} // verus!
