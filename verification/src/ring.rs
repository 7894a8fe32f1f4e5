//! Fixed-capacity circular sample buffer.
//!
//! A ring is seen through two views: `cells()`, every slot of the ring listed
//! from the oldest queued sample onward (length = capacity), and `queued()`,
//! the first `len()` of those cells, i.e. the samples waiting to be read.
//! The cells after the queue are the "pending" area, where overlap-add
//! accumulates a frame before it is committed to the queue.
//!
//! The queued count may exceed the capacity (a producer may release more
//! than the ring holds). Reading then walks around the ring: position `k` of
//! the queue is cell `k` for `k < cap`, and a cell read again after it was
//! read and reset yields the fill value (see `queue_view`).
use vstd::prelude::*;

verus! {

/// Physical slot of logical position `j` in a ring of capacity `cap` whose
/// oldest element sits in slot `head`.
pub open spec fn slot_of(head: int, j: int, cap: int) -> int {
    if j < cap - head {
        head + j
    } else {
        j - (cap - head)
    }
}

/// The cells of a ring backed by `buf`, listed from slot `head` onward.
pub open spec fn ring_cells<T>(buf: Seq<T>, head: int) -> Seq<T> {
    Seq::new(buf.len(), |j: int| buf[slot_of(head, j, buf.len() as int)])
}

/// The first `count` samples read from a ring whose cells are `cells`: the
/// cells in order, then `fill` for every position past the last cell (those
/// slots were reset by the time they are read again).
pub open spec fn queue_view<T>(cells: Seq<T>, count: nat, fill: T) -> Seq<T> {
    Seq::new(count, |k: int| if k < cells.len() { cells[k] } else { fill })
}

/// The cells after `n` reads that each reset the slot they read to `fill`.
pub open spec fn drained<T>(cells: Seq<T>, n: nat, fill: T) -> Seq<T> {
    if n <= cells.len() {
        cells.skip(n as int) + repeat(fill, n)
    } else {
        repeat(fill, cells.len())
    }
}

/// `n` copies of `v`.
pub open spec fn repeat<T>(v: T, n: nat) -> Seq<T> {
    Seq::new(n, |_i: int| v)
}

proof fn lemma_slot_bounds(head: int, j: int, cap: int)
    requires
        0 <= head < cap,
        0 <= j < cap,
    ensures
        0 <= slot_of(head, j, cap) < cap,
{
}

proof fn lemma_slot_injective(head: int, j: int, k: int, cap: int)
    requires
        0 <= head < cap,
        0 <= j < cap,
        0 <= k < cap,
        j != k,
    ensures
        slot_of(head, j, cap) != slot_of(head, k, cap),
{
}

/// Writing slot `slot_of(head, j)` of the buffer changes exactly cell `j`.
proof fn lemma_cells_update<T>(buf: Seq<T>, head: int, j: int, v: T)
    requires
        0 <= head < buf.len(),
        0 <= j < buf.len(),
    ensures
        ring_cells(buf.update(slot_of(head, j, buf.len() as int), v), head) =~= ring_cells(
            buf,
            head,
        ).update(j, v),
{
    let cap = buf.len() as int;
    lemma_slot_bounds(head, j, cap);
    assert forall|k: int| 0 <= k < cap implies #[trigger] ring_cells(
        buf.update(slot_of(head, j, cap), v),
        head,
    )[k] == ring_cells(buf, head).update(j, v)[k] by {
        lemma_slot_bounds(head, k, cap);
        if k != j {
            lemma_slot_injective(head, j, k, cap);
        }
    }
}

/// Moving the head forward by `n` rotates the cells left by `n`.
proof fn lemma_cells_rotate<T>(buf: Seq<T>, head: int, n: int)
    requires
        0 <= head < buf.len(),
        0 <= n <= buf.len(),
    ensures
        0 <= slot_of(head, n, buf.len() as int) < buf.len(),
        ring_cells(buf, slot_of(head, n, buf.len() as int)) =~= ring_cells(buf, head).skip(n)
            + ring_cells(buf, head).take(n),
{
    let cap = buf.len() as int;
    let h2 = slot_of(head, n, cap);
    assert forall|k: int| 0 <= k < cap implies #[trigger] ring_cells(buf, h2)[k] == (
    ring_cells(buf, head).skip(n) + ring_cells(buf, head).take(n))[k] by {
        if k < cap - n {
            assert(slot_of(h2, k, cap) == slot_of(head, n + k, cap));
        } else {
            assert(slot_of(h2, k, cap) == slot_of(head, k - (cap - n), cap));
        }
    }
}

/// One more read: the cell read is the next queue position, and the cells
/// move on by one with a reset slot at the end.
proof fn lemma_drained_step<T>(cells: Seq<T>, i: nat, fill: T)
    requires
        cells.len() > 0,
    ensures
        drained(cells, i, fill).len() == cells.len(),
        drained(cells, i, fill)[0] == (if i < cells.len() {
            cells[i as int]
        } else {
            fill
        }),
        drained(cells, i, fill).skip(1).push(fill) =~= drained(cells, i + 1, fill),
{
}

/// A circular buffer of samples with a fixed capacity.
pub struct SampleRing<T> {
    buf: Vec<T>,
    head: usize,
    count: usize,
}

impl<T: Copy> SampleRing<T> {
    /// Well-formedness: a non-empty backing store with the head inside it.
    pub closed spec fn wf(&self) -> bool {
        &&& self.buf.len() > 0
        &&& self.head < self.buf.len()
    }

    /// Number of slots.
    pub closed spec fn cap(&self) -> nat {
        self.buf.len() as nat
    }

    /// Number of queued samples.
    pub closed spec fn size(&self) -> nat {
        self.count as nat
    }

    /// Every slot, listed from the oldest queued sample onward.
    pub closed spec fn cells(&self) -> Seq<T> {
        ring_cells(self.buf@, self.head as int)
    }

    /// The queued samples, oldest first, when no more are queued than the
    /// ring holds.
    pub open spec fn queued(&self) -> Seq<T> {
        self.cells().take(self.size() as int)
    }

    pub broadcast proof fn lemma_cells_len(&self)
        ensures
            #[trigger] self.cells().len() == self.cap(),
            self.cap() <= usize::MAX,
    {
    }

    /// In a well-formed ring the queue is a prefix of the cells.
    pub broadcast proof fn lemma_queue_len(&self)
        requires
            self.wf(),
            self.size() <= self.cap(),
        ensures
            #[trigger] self.queued().len() == self.size(),
            self.size() <= self.cap(),
            self.cells().len() == self.cap(),
    {
    }

    /// Physical index of logical position `j`.
    fn slot(&self, j: usize) -> (p: usize)
        requires
            self.wf(),
            j < self.buf.len(),
        ensures
            p == slot_of(self.head as int, j as int, self.buf.len() as int),
            p < self.buf.len(),
    {
        let cap = self.buf.len();
        if j < cap - self.head {
            self.head + j
        } else {
            j - (cap - self.head)
        }
    }

    /// A ring of `capacity` slots, every one holding `fill`, with nothing queued.
    pub fn new(capacity: usize, fill: T) -> (r: Self)
        requires
            capacity > 0,
        ensures
            r.wf(),
            r.cap() == capacity,
            r.size() == 0,
            r.cells() == repeat(fill, capacity as nat),
    {
        let mut buf: Vec<T> = Vec::new();
        let mut i: usize = 0;
        while i < capacity
            invariant
                i <= capacity,
                buf@ == repeat(fill, i as nat),
            decreases capacity - i,
        {
            buf.push(fill);
            i += 1;
            assert(buf@ =~= repeat(fill, i as nat));
        }
        let r = SampleRing { buf, head: 0, count: 0 };
        assert(r.cells() =~= repeat(fill, capacity as nat));
        r
    }

    /// Number of slots.
    pub fn capacity(&self) -> (c: usize)
        requires
            self.wf(),
        ensures
            c == self.cap(),
    {
        self.buf.len()
    }

    /// Number of queued samples.
    pub fn len(&self) -> (n: usize)
        requires
            self.wf(),
        ensures
            n == self.size(),
    {
        self.count
    }

    /// Number of slots not holding a queued sample.
    pub fn space(&self) -> (n: usize)
        requires
            self.wf(),
            self.size() <= self.cap(),
        ensures
            n == self.cap() - self.size(),
    {
        self.buf.len() - self.count
    }

    /// The sample in logical position `j` (0 is the oldest queued sample;
    /// positions at or after `len()` are in the pending area).
    pub fn peek(&self, j: usize) -> (v: T)
        requires
            self.wf(),
            j < self.cap(),
        ensures
            v == self.cells()[j as int],
    {
        let p = self.slot(j);
        self.buf[p]
    }

    /// Overwrite logical position `j`.
    pub fn write_at(&mut self, j: usize, v: T)
        requires
            old(self).wf(),
            j < old(self).cap(),
        ensures
            final(self).wf(),
            final(self).cap() == old(self).cap(),
            final(self).size() == old(self).size(),
            final(self).cells() == old(self).cells().update(j as int, v),
    {
        let p = self.slot(j);
        proof {
            lemma_cells_update(self.buf@, self.head as int, j as int, v);
        }
        self.buf.set(p, v);
    }

    /// Append as many of `samples` as fit; returns how many were taken.
    /// Samples that do not fit are dropped.
    pub fn push_slice(&mut self, samples: &[T]) -> (n: usize)
        requires
            old(self).wf(),
            old(self).size() <= old(self).cap(),
        ensures
            final(self).wf(),
            final(self).cap() == old(self).cap(),
            n == (if samples@.len() < old(self).cap() - old(self).size() {
                samples@.len() as int
            } else {
                old(self).cap() - old(self).size()
            }),
            final(self).size() == old(self).size() + n,
            final(self).cells() == old(self).cells().take(old(self).size() as int) + samples@.take(
                n as int,
            ) + old(self).cells().skip(old(self).size() + n),
            final(self).queued() == old(self).queued() + samples@.take(n as int),
    {
        let ghost old_cells = self.cells();
        let cap = self.buf.len();
        let space = cap - self.count;
        let n = if samples.len() < space {
            samples.len()
        } else {
            space
        };
        let mut i: usize = 0;
        while i < n
            invariant
                self.wf(),
                self.buf.len() == cap,
                self.count + n <= cap,
                self.count == old(self).count,
                i <= n,
                n <= samples@.len(),
                old_cells.len() == cap,
                self.cells() == old_cells.take(self.count as int) + samples@.take(i as int)
                    + old_cells.skip(self.count + i),
            decreases n - i,
        {
            let j = self.count + i;
            let p = self.slot(j);
            let v = samples[i];
            proof {
                lemma_cells_update(self.buf@, self.head as int, j as int, v);
            }
            self.buf.set(p, v);
            i += 1;
            assert(self.cells() =~= old_cells.take(self.count as int) + samples@.take(i as int)
                + old_cells.skip(self.count + i));
        }
        let ghost c0 = self.count as int;
        assert(samples@.take(n as int).len() == n);
        assert(self.cells().take(c0 + n) =~= old_cells.take(c0) + samples@.take(n as int));
        self.count = self.count + n;
        assert(self.queued() =~= old_cells.take(c0) + samples@.take(n as int));
        n
    }

    /// Drop the `n` oldest queued samples; their slots keep their contents and
    /// move to the end of the cell order.
    pub fn advance(&mut self, n: usize)
        requires
            old(self).wf(),
            n <= old(self).size(),
            old(self).size() <= old(self).cap(),
        ensures
            final(self).wf(),
            final(self).cap() == old(self).cap(),
            final(self).size() == old(self).size() - n,
            final(self).cells() == old(self).cells().skip(n as int) + old(self).cells().take(
                n as int,
            ),
            final(self).queued() == old(self).queued().skip(n as int),
    {
        proof {
            lemma_cells_rotate(self.buf@, self.head as int, n as int);
        }
        let h = if n < self.buf.len() {
            self.slot(n)
        } else {
            self.head
        };
        assert(h == slot_of(self.head as int, n as int, self.buf.len() as int));
        self.head = h;
        self.count = self.count - n;
        assert(self.queued() =~= old(self).queued().skip(n as int));
    }

    /// Move `n` cells of the pending area into the queue.
    pub fn commit(&mut self, n: usize)
        requires
            old(self).wf(),
            old(self).size() + n <= usize::MAX,
        ensures
            final(self).wf(),
            final(self).cap() == old(self).cap(),
            final(self).size() == old(self).size() + n,
            final(self).cells() == old(self).cells(),
    {
        self.count = self.count + n;
    }

    /// Remove and return the oldest queued sample, leaving `fill` in its slot
    /// (which becomes the last cell).
    pub fn pop_front(&mut self, fill: T) -> (v: T)
        requires
            old(self).wf(),
            old(self).size() > 0,
        ensures
            final(self).wf(),
            final(self).cap() == old(self).cap(),
            final(self).size() == old(self).size() - 1,
            v == old(self).cells()[0],
            final(self).cells() == old(self).cells().skip(1).push(fill),
    {
        let v = self.buf[self.head];
        proof {
            assert(slot_of(self.head as int, 0, self.buf.len() as int) == self.head);
            lemma_cells_update(self.buf@, self.head as int, 0, fill);
            lemma_cells_rotate(self.buf@.update(self.head as int, fill), self.head as int, 1);
        }
        self.buf.set(self.head, fill);
        let h = if 1 < self.buf.len() {
            self.slot(1)
        } else {
            self.head
        };
        self.head = h;
        self.count = self.count - 1;
        assert(self.cells() =~= old(self).cells().skip(1).push(fill));
        v
    }

    /// Move up to `out.len()` queued samples into `out`, oldest first, and
    /// fill the rest of `out` with `fill`. Each slot read is reset to `fill`.
    /// Returns how many samples were moved.
    pub fn drain_into(&mut self, out: &mut [T], fill: T) -> (n: usize)
        requires
            old(self).wf(),
        ensures
            final(self).wf(),
            final(self).cap() == old(self).cap(),
            n == (if old(out)@.len() < old(self).size() {
                old(out)@.len() as int
            } else {
                old(self).size() as int
            }),
            final(self).size() == old(self).size() - n,
            final(out)@ == queue_view(old(self).cells(), n as nat, fill) + repeat(
                fill,
                (old(out)@.len() - n) as nat,
            ),
            final(self).cells() == drained(old(self).cells(), n as nat, fill),
    {
        let ghost old_cells = self.cells();
        let len = out.len();
        let n = if len < self.count {
            len
        } else {
            self.count
        };
        let mut i: usize = 0;
        while i < n
            invariant
                self.wf(),
                self.cap() == old(self).cap(),
                old_cells.len() == self.cap(),
                n <= old(self).size(),
                n <= len,
                out@.len() == len,
                i <= n,
                self.size() == old(self).size() - i,
                self.cells() == drained(old_cells, i as nat, fill),
                out@.take(i as int) == queue_view(old_cells, i as nat, fill),
            decreases n - i,
        {
            let ghost out_before = out@;
            proof {
                lemma_drained_step(old_cells, i as nat, fill);
            }
            let v = self.pop_front(fill);
            out[i] = v;
            assert(out@ == out_before.update(i as int, v));
            i += 1;
            assert(out@.take(i as int) =~= out_before.take(i - 1).push(v));
            assert(queue_view(old_cells, i as nat, fill) =~= queue_view(
                old_cells,
                (i - 1) as nat,
                fill,
            ).push(v));
        }
        let mut k: usize = n;
        while k < len
            invariant
                n <= k <= len,
                out@.len() == len,
                out@.take(n as int) == queue_view(old_cells, n as nat, fill),
                out@.subrange(n as int, k as int) == repeat(fill, (k - n) as nat),
            decreases len - k,
        {
            let ghost out_before = out@;
            out[k] = fill;
            assert(out@ == out_before.update(k as int, fill));
            k += 1;
            assert(out@.subrange(n as int, k as int) =~= out_before.subrange(
                n as int,
                k - 1,
            ).push(fill));
            assert(out@.take(n as int) =~= out_before.take(n as int));
        }
        assert(out@ =~= out@.take(n as int) + out@.subrange(n as int, len as int));
        n
    }

    /// Remove the `n` oldest queued samples, resetting their slots to `fill`.
    pub fn discard_front(&mut self, n: usize, fill: T)
        requires
            old(self).wf(),
            n <= old(self).size(),
        ensures
            final(self).wf(),
            final(self).cap() == old(self).cap(),
            final(self).size() == old(self).size() - n,
            final(self).cells() == drained(old(self).cells(), n as nat, fill),
    {
        let ghost c0 = self.cells();
        let mut k: usize = 0;
        while k < n
            invariant
                self.wf(),
                self.cap() == old(self).cap(),
                c0 == old(self).cells(),
                c0.len() == self.cap(),
                k <= n,
                n <= old(self).size(),
                self.size() == old(self).size() - k,
                self.cells() == drained(c0, k as nat, fill),
            decreases n - k,
        {
            proof {
                lemma_drained_step(c0, k as nat, fill);
            }
            self.pop_front(fill);
            k += 1;
        }
    }

    /// Set every slot to `fill` and empty the queue.
    pub fn clear(&mut self, fill: T)
        requires
            old(self).wf(),
        ensures
            final(self).wf(),
            final(self).cap() == old(self).cap(),
            final(self).size() == 0,
            final(self).cells() == repeat(fill, old(self).cap()),
    {
        let cap = self.buf.len();
        let mut i: usize = 0;
        while i < cap
            invariant
                self.buf.len() == cap,
                cap > 0,
                self.head < cap,
                i <= cap,
                forall|q: int| 0 <= q < i ==> #[trigger] self.buf@[q] == fill,
            decreases cap - i,
        {
            self.buf.set(i, fill);
            i += 1;
        }
        self.head = 0;
        self.count = 0;
        assert(self.cells() =~= repeat(fill, old(self).cap()));
    }
}

/// Reading back: a sample pushed into a ring sits behind everything that was
/// already queued, and once the older samples are consumed it is the next
/// one read. Pushing `s` into a queue `q` and then dropping `q.len()` samples
/// leaves exactly the part of `s` that fit.
pub proof fn lemma_fifo_order<T>(q: Seq<T>, s: Seq<T>, n: int)
    requires
        0 <= n <= s.len(),
    ensures
        (q + s.take(n)).skip(q.len() as int) =~= s.take(n),
        forall|i: int| 0 <= i < n ==> #[trigger] (q + s.take(n))[q.len() + i] == s[i],
{
}

} // verus!
