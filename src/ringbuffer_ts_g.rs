//! Ring buffer for any `Copy` element type, each stored element living in a
//! heap allocation of its own that the slot owns.
use vstd::prelude::*;
use crate::model::{accepted, after_write, in_window, wrap};

verus! {

/// The element in an occupied slot.
pub open spec fn payload<T>(slot: Option<Box<T>>) -> T {
    *slot.unwrap()
}

/// Boxes `data[from .. from + count]` into `slots[at .. at + count]`, which
/// must all be empty.
fn box_into<T: Copy>(slots: &mut Vec<Option<Box<T>>>, at: usize, data: &Vec<T>, from: usize, count: usize)
    requires
        at + count <= old(slots).len(),
        from + count <= data.len(),
    ensures
        final(slots).len() == old(slots).len(),
        forall|p: int|
            0 <= p < old(slots).len() ==> {
                &&& at <= p < at + count ==> #[trigger] final(slots)@[p] is Some
                    && payload(final(slots)@[p]) == data@[from + p - at]
                &&& !(at <= p < at + count) ==> final(slots)@[p] == old(slots)@[p]
            },
{
    let mut i: usize = 0;
    while i < count
        invariant
            i <= count,
            at + count <= slots.len(),
            from + count <= data.len(),
            slots.len() == old(slots).len(),
            forall|p: int|
                0 <= p < old(slots).len() ==> {
                    &&& at <= p < at + i ==> #[trigger] slots@[p] is Some
                        && payload(slots@[p]) == data@[from + p - at]
                    &&& !(at <= p < at + i) ==> slots@[p] == old(slots)@[p]
                },
        decreases count - i,
    {
        let boxed = Box::new(data[from + i]);
        slots[at + i] = Some(boxed);
        i = i + 1;
    }
}

/// Moves the elements of `slots[from .. from + count]`, which must all be
/// occupied, to the end of `out`, releasing their allocations.
fn unbox_out<T: Copy>(slots: &mut Vec<Option<Box<T>>>, from: usize, count: usize, out: &mut Vec<T>)
    requires
        from + count <= old(slots).len(),
        forall|p: int| from <= p < from + count ==> #[trigger] old(slots)@[p] is Some,
    ensures
        final(slots).len() == old(slots).len(),
        final(out)@ == old(out)@ + Seq::new(count as nat, |k: int| payload(old(slots)@[from + k])),
        forall|p: int|
            0 <= p < old(slots).len() ==> #[trigger] final(slots)@[p] == if from <= p < from + count {
                None
            } else {
                old(slots)@[p]
            },
{
    let mut i: usize = 0;
    while i < count
        invariant
            i <= count,
            from + count <= slots.len(),
            slots.len() == old(slots).len(),
            forall|p: int| from <= p < from + count ==> #[trigger] old(slots)@[p] is Some,
            out@ == old(out)@ + Seq::new(i as nat, |k: int| payload(old(slots)@[from + k])),
            forall|p: int|
                0 <= p < old(slots).len() ==> #[trigger] slots@[p] == if from <= p < from + i {
                    None
                } else {
                    old(slots)@[p]
                },
        decreases count - i,
    {
        let taken = slots[from + i].take();
        match taken {
            Some(boxed) => {
                out.push(*boxed);
            },
            None => {
                assert(false);
            },
        }
        i = i + 1;
        assert(out@ =~= old(out)@ + Seq::new(i as nat, |k: int| payload(old(slots)@[from + k])));
    }
}

/// Fixed-capacity FIFO of `N` slots, each owning at most one boxed element.
pub struct RingBuffer<T, const N: usize> {
    buffer: Vec<Option<Box<T>>>,
    head: usize,
    tail: usize,
    used_count: usize,
}

impl<T, const N: usize> View for RingBuffer<T, N> {
    type V = Seq<T>;

    /// The stored elements, oldest first.
    closed spec fn view(&self) -> Seq<T> {
        Seq::new(
            self.used_count as nat,
            |k: int| payload(self.buffer@[wrap(self.head + k, N as int)]),
        )
    }
}

impl<T: Copy, const N: usize> RingBuffer<T, N> {
    /// Whether slot `p` currently owns an allocation.
    pub closed spec fn live(&self, p: int) -> bool {
        self.buffer@[p] is Some
    }

    /// The slot that holds the `k`-th oldest stored element.
    pub closed spec fn slot_of(&self, k: int) -> int {
        wrap(self.head + k, N as int)
    }

    /// The positions and the occupied count agree, and a slot owns an
    /// allocation exactly when it lies in the occupied window.
    pub closed spec fn wf(&self) -> bool {
        &&& self.buffer.len() == N
        &&& self.used_count <= N
        &&& if N == 0 {
            self.head == 0 && self.tail == 0
        } else {
            self.head < N && self.tail < N
        }
        &&& self.tail == wrap(self.head + self.used_count, N as int)
        &&& forall|p: int|
            0 <= p < N ==> (#[trigger] self.buffer@[p] is Some <==> in_window(
                p,
                self.head as int,
                self.used_count as int,
                N as int,
            ))
    }

    /// A well-formed buffer never holds more elements than it has slots.
    pub proof fn lemma_within_capacity(&self)
        requires
            self.wf(),
        ensures
            self@.len() <= N,
    {
    }

    /// Every stored element owns an allocation of its own, and no slot owns
    /// one that does not belong to a stored element: a slot is live exactly
    /// when it holds one of the stored elements, and distinct elements sit in
    /// distinct slots.
    pub proof fn lemma_live_exactly_stored(&self)
        requires
            self.wf(),
        ensures
            forall|k: int| 0 <= k < self@.len() ==> 0 <= #[trigger] self.slot_of(k) < N,
            forall|k: int| 0 <= k < self@.len() ==> self.live(#[trigger] self.slot_of(k)),
            forall|p: int|
                0 <= p < N && #[trigger] self.live(p) ==> exists|k: int|
                    0 <= k < self@.len() && #[trigger] self.slot_of(k) == p,
            forall|j: int, k: int|
                0 <= j < k < self@.len() ==> #[trigger] self.slot_of(j) != #[trigger] self.slot_of(k),
    {
        assert forall|p: int| 0 <= p < N && #[trigger] self.live(p) implies exists|k: int|
            0 <= k < self@.len() && #[trigger] self.slot_of(k) == p by {
            if p >= self.head {
                assert(self.slot_of(p - self.head) == p);
            } else {
                assert(self.slot_of(p + N - self.head) == p);
            }
        }
    }

    /// An empty buffer of `N` slots.
    pub fn new() -> (r: Self)
        ensures
            r.wf(),
            r@ == Seq::<T>::empty(),
            forall|p: int| 0 <= p < N ==> !r.live(p),
    {
        let mut buffer: Vec<Option<Box<T>>> = Vec::new();
        let mut i: usize = 0;
        while i < N
            invariant
                i <= N,
                buffer.len() == i,
                forall|p: int| 0 <= p < i ==> #[trigger] buffer@[p] is None,
            decreases N - i,
        {
            buffer.push(None);
            i = i + 1;
        }
        let r = RingBuffer { buffer, head: 0, tail: 0, used_count: 0 };
        assert(r@ =~= Seq::<T>::empty());
        r
    }

    /// Boxes as much of `data` as fits behind the stored elements; returns
    /// how many elements were taken, from the front of `data`. Only free
    /// slots receive an allocation.
    pub fn n_write(&mut self, data: &Vec<T>) -> (r: usize)
        requires
            old(self).wf(),
        ensures
            final(self).wf(),
            r == accepted(N as nat, old(self)@.len(), data@.len()),
            final(self)@ == after_write(N as nat, old(self)@, data@),
            forall|p: int| 0 <= p < N && old(self).live(p) ==> final(self).live(p),
    {
        if N - self.used_count == 0 {
            return 0;
        }
        let free = N - self.used_count;
        let write_count = if data.len() < free { data.len() } else { free };
        let tail = self.tail;
        let first = if write_count <= N - tail { write_count } else { N - tail };
        let second = write_count - first;
        box_into(&mut self.buffer, tail, data, 0, first);
        box_into(&mut self.buffer, 0, data, first, second);
        let new_tail = if write_count < N - tail { tail + write_count } else { write_count - (N - tail) };
        self.used_count = self.used_count + write_count;
        self.tail = new_tail;
        assert(self@ =~= after_write(N as nat, old(self)@, data@));
        write_count
    }

    /// Moves every stored element, oldest first, into `data`, which is
    /// cleared beforehand, releasing each element's allocation; returns how
    /// many were moved.
    pub fn n_read(&mut self, data: &mut Vec<T>) -> (r: usize)
        requires
            old(self).wf(),
        ensures
            final(self).wf(),
            r == old(self)@.len(),
            final(data)@ == old(self)@,
            final(self)@ == Seq::<T>::empty(),
            forall|p: int| 0 <= p < N ==> !final(self).live(p),
    {
        data.clear();
        let read_count = self.used_count;
        if read_count == 0 {
            return 0;
        }
        let head = self.head;
        let first = if read_count <= N - head { read_count } else { N - head };
        let second = read_count - first;
        unbox_out(&mut self.buffer, head, first, data);
        unbox_out(&mut self.buffer, 0, second, data);
        let new_head = if read_count < N - head { head + read_count } else { read_count - (N - head) };
        assert(data@ =~= old(self)@);
        self.used_count = 0;
        self.head = new_head;
        read_count
    }
}

} // verus!
