//! Ring buffer specialised to machine-word elements, each slot holding one
//! `usize`.
use vstd::prelude::*;
use crate::model::{accepted, after_write, window, wrap};
use crate::ringbuffer::{copy_into, copy_out};

verus! {

/// Fixed-capacity FIFO of `N` word-sized slots.
pub struct RingBuffer<const N: usize> {
    buffer: Vec<usize>,
    head: usize,
    tail: usize,
    used_count: usize,
}

impl<const N: usize> View for RingBuffer<N> {
    type V = Seq<usize>;

    /// The stored words, oldest first.
    closed spec fn view(&self) -> Seq<usize> {
        window(self.buffer@, self.head as int, self.used_count as int)
    }
}

impl<const N: usize> RingBuffer<N> {
    /// The slots, the read and write positions and the occupied count agree:
    /// the occupied window starts at `head` and ends just before `tail`.
    pub closed spec fn wf(&self) -> bool {
        &&& self.buffer.len() == N
        &&& self.used_count <= N
        &&& if N == 0 {
            self.head == 0 && self.tail == 0
        } else {
            self.head < N && self.tail < N
        }
        &&& self.tail == wrap(self.head + self.used_count, N as int)
    }

    /// A well-formed buffer never holds more words than it has slots.
    pub proof fn lemma_within_capacity(&self)
        requires
            self.wf(),
        ensures
            self@.len() <= N,
    {
    }

    /// An empty buffer of `N` slots.
    pub fn new() -> (r: Self)
        ensures
            r.wf(),
            r@ == Seq::<usize>::empty(),
    {
        let mut buffer: Vec<usize> = Vec::new();
        let mut i: usize = 0;
        while i < N
            invariant
                i <= N,
                buffer.len() == i,
            decreases N - i,
        {
            buffer.push(0);
            i = i + 1;
        }
        RingBuffer { buffer, head: 0, tail: 0, used_count: 0 }
    }

    /// Stores as much of `data` as fits behind the stored words; returns how
    /// many words were taken, from the front of `data`.
    pub fn n_write(&mut self, data: &Vec<usize>) -> (r: usize)
        requires
            old(self).wf(),
        ensures
            final(self).wf(),
            r == accepted(N as nat, old(self)@.len(), data@.len()),
            final(self)@ == after_write(N as nat, old(self)@, data@),
    {
        if N - self.used_count == 0 {
            return 0;
        }
        let free = N - self.used_count;
        let write_count = if data.len() < free { data.len() } else { free };
        let tail = self.tail;
        let first = if write_count <= N - tail { write_count } else { N - tail };
        let second = write_count - first;
        copy_into(&mut self.buffer, tail, data, 0, first);
        copy_into(&mut self.buffer, 0, data, first, second);
        let new_tail = if write_count < N - tail { tail + write_count } else { write_count - (N - tail) };
        self.used_count = self.used_count + write_count;
        self.tail = new_tail;
        assert(self@ =~= after_write(N as nat, old(self)@, data@));
        write_count
    }

    /// Moves every stored word, oldest first, into `data`, which is cleared
    /// beforehand; returns how many were moved.
    pub fn n_read(&mut self, data: &mut Vec<usize>) -> (r: usize)
        requires
            old(self).wf(),
        ensures
            final(self).wf(),
            r == old(self)@.len(),
            final(data)@ == old(self)@,
            final(self)@ == Seq::<usize>::empty(),
    {
        data.clear();
        let read_count = self.used_count;
        if read_count == 0 {
            return 0;
        }
        let head = self.head;
        let first = if read_count <= N - head { read_count } else { N - head };
        let second = read_count - first;
        copy_out(&self.buffer, head, first, data);
        copy_out(&self.buffer, 0, second, data);
        let new_head = if read_count < N - head { head + read_count } else { read_count - (N - head) };
        assert(data@ =~= old(self)@);
        self.used_count = 0;
        self.head = new_head;
        read_count
    }
}

} // verus!
