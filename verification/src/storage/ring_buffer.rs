//! The in-memory history behind the live charts: the most recent samples,
//! oldest first, each stamped with the time it was taken.
use vstd::prelude::*;
use std::collections::VecDeque;

verus! {

broadcast use vstd::std_specs::vecdeque::group_vec_dequeue_axioms;

/// How many samples a buffer made for `capacity` holds at most. Even a
/// buffer made for none keeps the latest sample.
pub open spec fn kept(capacity: nat) -> nat {
    if capacity == 0 {
        1
    } else {
        capacity
    }
}

/// The contents after appending `e`: the oldest entry makes room once the
/// buffer is full.
pub open spec fn pushed<E>(capacity: nat, s: Seq<E>, e: E) -> Seq<E> {
    if s.len() >= capacity && s.len() > 0 {
        s.drop_first().push(e)
    } else {
        s.push(e)
    }
}

/// The contents after appending each of `items` in turn.
pub open spec fn pushed_all<E>(capacity: nat, s: Seq<E>, items: Seq<E>) -> Seq<E>
    decreases items.len(),
{
    if items.len() == 0 {
        s
    } else {
        pushed(capacity, pushed_all(capacity, s, items.drop_last()), items.last())
    }
}

/// The entries stamped at or after `since`, in order.
pub open spec fn stamped_since<T>(s: Seq<(u64, T)>, since: u64) -> Seq<(u64, T)>
    decreases s.len(),
{
    if s.len() == 0 {
        Seq::empty()
    } else if s.last().0 >= since {
        stamped_since(s.drop_last(), since).push(s.last())
    } else {
        stamped_since(s.drop_last(), since)
    }
}

/// A bounded, oldest-first history of timestamped samples.
pub struct RingBuffer<T> {
    buffer: VecDeque<(u64, T)>,
    capacity: usize,
}

impl<T: Clone> RingBuffer<T> {
    /// The samples held, oldest first, with their timestamps.
    pub closed spec fn view(&self) -> Seq<(u64, T)> {
        self.buffer@
    }

    pub closed spec fn capacity_view(&self) -> nat {
        self.capacity as nat
    }

    pub closed spec fn wf(&self) -> bool {
        self.buffer@.len() <= kept(self.capacity as nat)
    }

    /// An empty buffer that will hold `capacity` samples.
    pub fn new(capacity: usize) -> (b: RingBuffer<T>)
        ensures
            b.wf(),
            b.view() == Seq::<(u64, T)>::empty(),
            b.capacity_view() == capacity,
    {
        RingBuffer { buffer: VecDeque::with_capacity(capacity), capacity }
    }

    /// Append a sample taken at `timestamp`, dropping the oldest when full.
    pub fn push(&mut self, timestamp: u64, sample: T)
        requires
            old(self).wf(),
        ensures
            final(self).wf(),
            final(self).capacity_view() == old(self).capacity_view(),
            final(self).view() == pushed(old(self).capacity_view(), old(self).view(), (timestamp, sample)),
    {
        if self.buffer.len() >= self.capacity {
            let _ = self.buffer.pop_front();
        }
        self.buffer.push_back((timestamp, sample));
    }

    /// Copies of every sample, oldest first.
    pub fn get_all(&self) -> (r: Vec<T>)
        ensures
            r@.len() == self.view().len(),
            forall|i: int| 0 <= i < r@.len() ==> cloned(self.view()[i].1, #[trigger] r@[i]),
    {
        let mut r: Vec<T> = Vec::new();
        let n = self.buffer.len();
        for i in 0..n
            invariant
                n == self.buffer@.len(),
                r@.len() == i,
                forall|j: int| 0 <= j < i ==> cloned(self.buffer@[j].1, #[trigger] r@[j]),
        {
            r.push(self.buffer[i].1.clone());
        }
        r
    }

    /// The newest sample.
    pub fn latest(&self) -> (r: Option<&T>)
        ensures
            self.view().len() == 0 ==> r is None,
            self.view().len() > 0 ==> r == Some(&self.view().last().1),
    {
        let n = self.buffer.len();
        if n == 0 {
            None
        } else {
            Some(&self.buffer[n - 1].1)
        }
    }

    /// Copies of the samples taken at or after `since`, oldest first.
    pub fn get_since(&self, since: u64) -> (r: Vec<T>)
        ensures
            r@.len() == stamped_since(self.view(), since).len(),
            forall|i: int|
                0 <= i < r@.len() ==> cloned(stamped_since(self.view(), since)[i].1, #[trigger] r@[i]),
    {
        let mut r: Vec<T> = Vec::new();
        let n = self.buffer.len();
        for i in 0..n
            invariant
                n == self.buffer@.len(),
                r@.len() == stamped_since(self.buffer@.take(i as int), since).len(),
                forall|j: int|
                    0 <= j < r@.len() ==> cloned(
                        stamped_since(self.buffer@.take(i as int), since)[j].1,
                        #[trigger] r@[j],
                    ),
        {
            let ghost pre = self.buffer@.take(i as int);
            assert(self.buffer@.take(i + 1).drop_last() == pre);
            assert(self.buffer@.take(i + 1).last() == self.buffer@[i as int]);
            let (t, ref s) = self.buffer[i];
            if t >= since {
                r.push(s.clone());
            }
        }
        assert(self.buffer@.take(n as int) == self.buffer@);
        r
    }

    /// How many samples are held.
    pub fn len(&self) -> (n: usize)
        ensures
            n == self.view().len(),
    {
        self.buffer.len()
    }
}

/// Filling a buffer one sample at a time leaves exactly the most recent
/// samples it can hold, oldest first.
pub proof fn law_keeps_most_recent<E>(capacity: nat, items: Seq<E>)
    ensures
        pushed_all(capacity, Seq::<E>::empty(), items) == items.skip(
            if items.len() > kept(capacity) {
                items.len() - kept(capacity)
            } else {
                0
            },
        ),
    decreases items.len(),
{
    if items.len() > 0 {
        let d = items.drop_last();
        law_keeps_most_recent(capacity, d);
        let prev = pushed_all(capacity, Seq::<E>::empty(), d);
        let k = kept(capacity);
        if d.len() >= k {
            assert(prev == d.skip(d.len() - k));
            assert(prev.drop_first().push(items.last()) =~= items.skip(items.len() - k));
        } else {
            assert(prev =~= d);
            assert(d.push(items.last()) =~= items);
            assert(items.skip(0) =~= items);
        }
    } else {
        assert(items.skip(0) =~= items);
    }
}

/// The buffer never holds more than it was made for (one, for a buffer made
/// for none), whatever is pushed into it.
pub proof fn law_bounded<E>(capacity: nat, s: Seq<E>, e: E)
    requires
        s.len() <= kept(capacity),
    ensures
        pushed(capacity, s, e).len() <= kept(capacity),
        pushed(capacity, s, e).last() == e,
{
}

} // verus!
