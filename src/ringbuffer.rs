//! Ring buffer over an inline array of `Copy` elements.
use vstd::prelude::*;
use crate::model::{accepted, after_write, window, wrap};

verus! {

/// Overwrites `slots[at .. at + count]` with `data[from .. from + count]`.
pub(crate) fn copy_into<T: Copy>(slots: &mut Vec<T>, at: usize, data: &Vec<T>, from: usize, count: usize)
    requires
        at + count <= old(slots).len(),
        from + count <= data.len(),
    ensures
        final(slots).len() == old(slots).len(),
        forall|p: int|
            0 <= p < old(slots).len() ==> #[trigger] final(slots)@[p] == if at <= p < at + count {
                data@[from + p - at]
            } else {
                old(slots)@[p]
            },
{
    let mut i: usize = 0;
    while i < count
        invariant
            i <= count,
            at + count <= slots.len(),
            from + count <= data.len(),
            slots.len() == old(slots).len(),
            forall|p: int|
                0 <= p < old(slots).len() ==> #[trigger] slots@[p] == if at <= p < at + i {
                    data@[from + p - at]
                } else {
                    old(slots)@[p]
                },
        decreases count - i,
    {
        slots[at + i] = data[from + i];
        i = i + 1;
    }
}

/// Appends `slots[from .. from + count]` to `out`.
pub(crate) fn copy_out<T: Copy>(slots: &Vec<T>, from: usize, count: usize, out: &mut Vec<T>)
    requires
        from + count <= slots.len(),
    ensures
        final(out)@ == old(out)@ + slots@.subrange(from as int, from + count),
{
    let mut i: usize = 0;
    while i < count
        invariant
            i <= count,
            from + count <= slots.len(),
            out@ == old(out)@ + slots@.subrange(from as int, from + i),
        decreases count - i,
    {
        out.push(slots[from + i]);
        i = i + 1;
        assert(out@ =~= old(out)@ + slots@.subrange(from as int, from + i));
    }
}

/// Fixed-capacity FIFO of `N` slots holding `Copy` elements inline.
pub struct RingBuffer<T, const N: usize> {
    buffer: Vec<T>,
    head: usize,
    tail: usize,
    used_count: usize,
}

impl<T, const N: usize> View for RingBuffer<T, N> {
    type V = Seq<T>;

    /// The stored elements, oldest first.
    closed spec fn view(&self) -> Seq<T> {
        window(self.buffer@, self.head as int, self.used_count as int)
    }
}

impl<T: Copy + Default, const N: usize> RingBuffer<T, N> {
    /// The slots, the read and write positions and the occupied count agree:
    /// the occupied window starts at `head` and ends just before `tail`.
    pub closed spec fn wf(&self) -> bool {
        &&& self.buffer.len() == N
        &&& self.used_count <= N
        &&& if N == 0 {
            self.head == 0 && self.tail == 0
        } else {
            self.head < N && self.tail < N
        }
        &&& self.tail == wrap(self.head + self.used_count, N as int)
    }

    /// A well-formed buffer never holds more elements than it has slots.
    pub proof fn lemma_within_capacity(&self)
        requires
            self.wf(),
        ensures
            self@.len() <= N,
    {
    }

    /// An empty buffer of `N` slots.
    pub fn new() -> (r: Self)
        ensures
            r.wf(),
            r@ == Seq::<T>::empty(),
    {
        let mut buffer: Vec<T> = Vec::new();
        let mut i: usize = 0;
        while i < N
            invariant
                i <= N,
                buffer.len() == i,
            decreases N - i,
        {
            buffer.push(T::default());
            i = i + 1;
        }
        RingBuffer { buffer, head: 0, tail: 0, used_count: 0 }
    }

    /// Stores as much of `data` as fits behind the stored elements; returns
    /// how many elements were taken, from the front of `data`.
    pub fn n_write(&mut self, data: &Vec<T>) -> (r: usize)
        requires
            old(self).wf(),
        ensures
            final(self).wf(),
            r == accepted(N as nat, old(self)@.len(), data@.len()),
            final(self)@ == after_write(N as nat, old(self)@, data@),
    {
        if N - self.used_count == 0 {
            return 0;
        }
        let free = N - self.used_count;
        let write_count = if data.len() < free { data.len() } else { free };
        let tail = self.tail;
        let first = if write_count <= N - tail { write_count } else { N - tail };
        let second = write_count - first;
        copy_into(&mut self.buffer, tail, data, 0, first);
        copy_into(&mut self.buffer, 0, data, first, second);
        let new_tail = if write_count < N - tail { tail + write_count } else { write_count - (N - tail) };
        self.used_count = self.used_count + write_count;
        self.tail = new_tail;
        assert(self@ =~= after_write(N as nat, old(self)@, data@));
        write_count
    }

    /// Moves every stored element, oldest first, into `data`, which is
    /// cleared beforehand; returns how many were moved.
    pub fn n_read(&mut self, data: &mut Vec<T>) -> (r: usize)
        requires
            old(self).wf(),
        ensures
            final(self).wf(),
            r == old(self)@.len(),
            final(data)@ == old(self)@,
            final(self)@ == Seq::<T>::empty(),
    {
        data.clear();
        let read_count = self.used_count;
        if read_count == 0 {
            return 0;
        }
        let head = self.head;
        let first = if read_count <= N - head { read_count } else { N - head };
        let second = read_count - first;
        copy_out(&self.buffer, head, first, data);
        copy_out(&self.buffer, 0, second, data);
        let new_head = if read_count < N - head { head + read_count } else { read_count - (N - head) };
        assert(data@ =~= old(self)@);
        self.used_count = 0;
        self.head = new_head;
        read_count
    }
}

} // verus!
