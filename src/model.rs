//! The mathematical model shared by the ring buffers: circular slot
//! positions, the occupied window, and the effect of one batch write or read
//! on the sequence of stored elements.
use vstd::prelude::*;

verus! {

/// Position `x` folded once into `[0, n)`; used for `x < 2 * n`.
pub open spec fn wrap(x: int, n: int) -> int {
    if x < n {
        x
    } else {
        x - n
    }
}

/// The `count` elements stored circularly in `slots` starting at `start`.
pub open spec fn window<T>(slots: Seq<T>, start: int, count: int) -> Seq<T> {
    Seq::new(count as nat, |k: int| slots[wrap(start + k, slots.len() as int)])
}

/// Whether slot `p` lies in the circular window of `count` slots that
/// starts at `start`, in a ring of `n` slots.
pub open spec fn in_window(p: int, start: int, count: int, n: int) -> bool {
    if start + count <= n {
        start <= p < start + count
    } else {
        (start <= p < n) || (0 <= p < start + count - n)
    }
}

/// How many elements of a batch of `batch_len` fit next to `occupied` stored
/// elements in a buffer of `capacity` slots.
pub open spec fn accepted(capacity: nat, occupied: nat, batch_len: nat) -> nat {
    let free = capacity - occupied;
    if batch_len <= free {
        batch_len
    } else {
        free as nat
    }
}

/// The stored elements after a batch write: the accepted prefix of the batch
/// is appended behind what was stored.
pub open spec fn after_write<T>(capacity: nat, stored: Seq<T>, batch: Seq<T>) -> Seq<T> {
    stored + batch.take(accepted(capacity, stored.len(), batch.len()) as int)
}

/// One call on a ring buffer: a batch write of the given elements, or a read
/// of everything stored.
pub enum BatchOp<T> {
    Write(Seq<T>),
    Read,
}

/// Replays `ops` on a buffer of `capacity` slots that starts out holding
/// `stored`. Returns what is stored afterwards, every element handed out by
/// the reads in order, and every element taken by the writes in order.
/// Each step is what `n_write` and `n_read` of the buffers in this crate
/// state of their views.
pub open spec fn replay<T>(capacity: nat, stored: Seq<T>, ops: Seq<BatchOp<T>>) -> (Seq<T>, Seq<T>, Seq<T>)
    decreases ops.len(),
{
    if ops.len() == 0 {
        (stored, Seq::empty(), Seq::empty())
    } else {
        let (now, out, taken) = replay(capacity, stored, ops.drop_last());
        match ops.last() {
            BatchOp::Write(batch) => (
                after_write(capacity, now, batch),
                out,
                taken + batch.take(accepted(capacity, now.len(), batch.len()) as int),
            ),
            BatchOp::Read => (Seq::empty(), out + now, taken),
        }
    }
}

/// Whatever the calls, a buffer that starts within its capacity never holds
/// more elements than it has slots.
pub proof fn lemma_capacity_kept<T>(capacity: nat, stored: Seq<T>, ops: Seq<BatchOp<T>>)
    requires
        stored.len() <= capacity,
    ensures
        replay(capacity, stored, ops).0.len() <= capacity,
    decreases ops.len(),
{
    if ops.len() > 0 {
        lemma_capacity_kept(capacity, stored, ops.drop_last());
    }
}

/// Elements come out in the order they were taken, across any batch
/// boundaries: what was stored at the start followed by everything the writes
/// took equals everything the reads handed out followed by what is still
/// stored.
pub proof fn lemma_fifo<T>(capacity: nat, stored: Seq<T>, ops: Seq<BatchOp<T>>)
    ensures
        stored + replay(capacity, stored, ops).2 == replay(capacity, stored, ops).1 + replay(
            capacity,
            stored,
            ops,
        ).0,
    decreases ops.len(),
{
    if ops.len() == 0 {
        assert(stored + Seq::<T>::empty() =~= Seq::<T>::empty() + stored);
    } else {
        lemma_fifo(capacity, stored, ops.drop_last());
        let (now, out, taken) = replay(capacity, stored, ops.drop_last());
        match ops.last() {
            BatchOp::Write(batch) => {
                let extra = batch.take(accepted(capacity, now.len(), batch.len()) as int);
                assert(stored + (taken + extra) =~= (stored + taken) + extra);
                assert(out + (now + extra) =~= (out + now) + extra);
            },
            BatchOp::Read => {
                assert((out + now) + Seq::<T>::empty() =~= out + now);
            },
        }
    }
}

/// A write to a full buffer takes nothing and leaves the stored elements as
/// they were.
pub proof fn lemma_full_write_takes_nothing<T>(capacity: nat, stored: Seq<T>, batch: Seq<T>)
    requires
        stored.len() == capacity,
    ensures
        accepted(capacity, stored.len(), batch.len()) == 0,
        after_write(capacity, stored, batch) == stored,
{
    assert(stored + batch.take(0) =~= stored);
}

/// Once a buffer is empty, reads hand out nothing and leave it empty until a
/// write comes.
pub proof fn lemma_drained_stays_empty<T>(capacity: nat, stored: Seq<T>, ops: Seq<BatchOp<T>>)
    requires
        stored.len() == 0,
        forall|i: int| 0 <= i < ops.len() ==> #[trigger] ops[i] is Read,
    ensures
        replay(capacity, stored, ops).0.len() == 0,
        replay(capacity, stored, ops).1.len() == 0,
    decreases ops.len(),
{
    if ops.len() > 0 {
        let rest = ops.drop_last();
        assert forall|i: int| 0 <= i < rest.len() implies #[trigger] rest[i] is Read by {
            assert(rest[i] == ops[i]);
        }
        lemma_drained_stays_empty(capacity, stored, rest);
        assert(ops[ops.len() - 1] is Read);
    }
}

} // verus!
