//! A fixed-capacity circular (ring) buffer: a bounded FIFO queue stored in a
//! pre-allocated slot array with wraparound cursors.
//!
//! The buffer owns `capacity` occupancy-tagged slots plus two cursors:
//! `start` points at the oldest stored element, `end` at the next slot to be
//! written. A buffer with `start == end` is empty when the slot at `start` is
//! unoccupied and full when it is occupied. The abstract contents are the
//! stored elements in FIFO order, oldest first, as a `Seq<T>`.

use vstd::prelude::*;

verus! {

/// The abstract effect of `write` on contents `s` of a buffer with the given
/// capacity: appends `v` when there is room, leaves the contents unchanged
/// (the write is refused) when the buffer is full.
pub open spec fn write_model<T>(s: Seq<T>, capacity: nat, v: T) -> Seq<T> {
    if s.len() < capacity {
        s.push(v)
    } else {
        s
    }
}

/// The abstract effect of `read` on contents `s`: removes the oldest element
/// when there is one, leaves the contents unchanged (the read is refused)
/// when the buffer is empty.
pub open spec fn read_model<T>(s: Seq<T>) -> Seq<T> {
    if s.len() == 0 {
        s
    } else {
        s.subrange(1, s.len() as int)
    }
}

/// The abstract effect of `overwrite` on contents `s`: appends `v` when there
/// is room, evicts the oldest element to make room when the buffer is full.
/// A zero-capacity buffer has no slot to write into, so it stays empty.
pub open spec fn overwrite_model<T>(s: Seq<T>, capacity: nat, v: T) -> Seq<T> {
    if capacity == 0 {
        s
    } else if s.len() < capacity {
        s.push(v)
    } else {
        read_model(s).push(v)
    }
}

/// A bounded FIFO queue over a fixed ring of occupancy-tagged slots.
pub struct CircularBuffer<T> {
    data: Vec<Option<T>>,
    start: usize,
    end: usize,
}

/// The ways an operation on a [`CircularBuffer`] can be refused.
#[derive(Debug, PartialEq, Eq, Structural)]
pub enum Error {
    /// `read` was called on a buffer that holds no element.
    EmptyBuffer,
    /// `write` was called on a buffer whose every slot is occupied.
    FullBuffer,
}

impl<T> CircularBuffer<T> {
    /// The fixed number of slots, chosen at construction.
    pub closed spec fn capacity(&self) -> nat {
        self.data@.len()
    }

    /// The slot index that holds the `k`-th oldest element: `start + k`,
    /// wrapped around the end of the slot array. For `0 <= k < capacity` the
    /// wraparound is a single conditional subtraction.
    spec fn slot(&self, k: int) -> int {
        if self.start + k < self.capacity() {
            self.start + k
        } else {
            self.start + k - self.capacity()
        }
    }

    /// How many elements are stored, read off the cursors: the forward
    /// distance from `start` to `end`, with equal cursors meaning full or
    /// empty according to the occupancy of the slot at `start`.
    spec fn stored_len(&self) -> int {
        if self.capacity() == 0 {
            0
        } else if self.start < self.end {
            self.end - self.start
        } else if self.start > self.end {
            self.capacity() - self.start + self.end
        } else if self.data@[self.start as int] is Some {
            self.capacity() as int
        } else {
            0
        }
    }

    /// Well-formedness: the cursors lie inside the slot array (and are pinned
    /// to 0 in the degenerate zero-capacity buffer), and walking forward from
    /// `start`, exactly the first `stored_len` slots are occupied.
    pub closed spec fn wf(&self) -> bool {
        &&& (self.capacity() == 0 ==> self.start == 0 && self.end == 0)
        &&& (self.capacity() > 0 ==> self.start < self.capacity() && self.end < self.capacity())
        &&& (forall|k: int|
            0 <= k < self.capacity() ==> ((self.data@[#[trigger] self.slot(k)] is Some) <==> k
                < self.stored_len()))
    }

    /// Occupying the slot at `end` and stepping `end` forward by one, with
    /// wraparound, extends the contents by one element at the back.
    proof fn lemma_insert_at_end(pre: Self, post: Self, element: T)
        requires
            pre.wf(),
            pre.stored_len() < pre.capacity(),
            post.start == pre.start,
            post.data@ == pre.data@.update(pre.end as int, Some(element)),
            post.end as int == (if pre.end as int + 1 == pre.capacity() as int {
                0int
            } else {
                pre.end as int + 1
            }),
        ensures
            post.wf(),
            post@ == pre@.push(element),
    {
        let cap = pre.capacity() as int;
        let len = pre.stored_len();
        assert(pre.slot(0) == pre.start as int);
        assert(pre.slot(len) == pre.end as int);
        assert(post.slot(0) == post.start as int);
        assert(post.stored_len() == len + 1) by {
            assert(pre.data@[pre.slot(0)] is Some <==> 0 < len);
        }
        assert forall|k: int| 0 <= k < cap implies ((post.data@[#[trigger] post.slot(k)] is Some)
            <==> k < post.stored_len()) by {
            assert(post.slot(k) == pre.slot(k));
            assert(pre.data@[pre.slot(k)] is Some <==> k < len);
        }
        assert(post@ =~= pre@.push(element)) by {
            assert forall|i: int| 0 <= i < len + 1 implies post@[i] == pre@.push(element)[i] by {
                assert(post.slot(i) == pre.slot(i));
                if i < len {
                    assert(pre.data@[pre.slot(i)] is Some);
                }
            }
        }
    }

    /// Vacating the slot at `start` and stepping `start` forward by one, with
    /// wraparound, removes exactly the oldest element from the contents.
    proof fn lemma_remove_front(pre: Self, post: Self)
        requires
            pre.wf(),
            pre.stored_len() > 0,
            post.end == pre.end,
            post.data@ == pre.data@.update(pre.start as int, None::<T>),
            post.start as int == (if pre.start as int + 1 == pre.capacity() as int {
                0int
            } else {
                pre.start as int + 1
            }),
        ensures
            post.wf(),
            post@ == pre@.subrange(1, pre@.len() as int),
            pre.data@[pre.start as int] == Some(pre@[0]),
    {
        let cap = pre.capacity() as int;
        let len = pre.stored_len();
        assert(pre.slot(0) == pre.start as int);
        assert(pre.data@[pre.start as int] is Some);
        assert(pre.slot(1) == post.start as int);
        assert(post.stored_len() == len - 1) by {
            if 1 < cap {
                assert(pre.data@[pre.slot(1)] is Some <==> 1 < len);
            }
        }
        assert forall|k: int| 0 <= k < cap implies ((post.data@[#[trigger] post.slot(k)] is Some)
            <==> k < post.stored_len()) by {
            if k < cap - 1 {
                assert(post.slot(k) == pre.slot(k + 1));
                assert(pre.data@[pre.slot(k + 1)] is Some <==> k + 1 < len);
            } else {
                assert(post.slot(k) == pre.start as int);
            }
        }
        assert(post@ =~= pre@.subrange(1, len)) by {
            assert forall|i: int| 0 <= i < len - 1 implies post@[i] == pre@.subrange(1, len)[i] by {
                assert(post.slot(i) == pre.slot(i + 1));
                assert(pre.data@[pre.slot(i + 1)] is Some);
            }
        }
    }
}

impl<T> View for CircularBuffer<T> {
    type V = Seq<T>;

    /// The stored elements in FIFO order, oldest first.
    closed spec fn view(&self) -> Seq<T> {
        Seq::new(self.stored_len() as nat, |i: int| self.data@[self.slot(i)]->0)
    }
}

impl<T: std::clone::Clone> CircularBuffer<T> {
    /// Builds a buffer of `capacity` empty slots, both cursors at 0.
    ///
    /// A capacity of 0 yields a degenerate buffer that can never store an
    /// element: `write` always refuses, `read` always refuses, and
    /// `overwrite` leaves it untouched.
    pub fn new(capacity: usize) -> (r: Self)
        ensures
            r.wf(),
            r.capacity() == capacity,
            r@ == Seq::<T>::empty(),
    {
        let mut data: Vec<Option<T>> = Vec::new();
        while data.len() < capacity
            invariant
                data.len() <= capacity,
                forall|j: int| 0 <= j < data.len() ==> data@[j] is None,
            decreases capacity - data.len(),
        {
            data.push(None);
        }
        let r = CircularBuffer { data, start: 0, end: 0 };
        proof {
            assert forall|k: int| 0 <= k < r.capacity() implies ((r.data@[#[trigger] r.slot(k)]
                is Some) <==> k < r.stored_len()) by {
                assert(r.slot(k) == k);
            }
            assert(r@ =~= Seq::<T>::empty());
        }
        r
    }

    /// Stores `element` in the slot at `end` and advances `end` by one with
    /// wraparound; refuses with [`Error::FullBuffer`], leaving the buffer
    /// untouched, when every slot is already occupied.
    pub fn write(&mut self, element: T) -> (r: Result<(), Error>)
        requires
            old(self).wf(),
        ensures
            final(self).wf(),
            final(self).capacity() == old(self).capacity(),
            final(self)@ == write_model(old(self)@, old(self).capacity(), element),
            r == (if old(self)@.len() < old(self).capacity() {
                Ok::<(), Error>(())
            } else {
                Err::<(), Error>(Error::FullBuffer)
            }),
            r is Err ==> *final(self) == *old(self),
    {
        if self.is_full() {
            return Err(Error::FullBuffer);
        }
        let ghost pre = *self;
        let cap: usize = self.data.len();
        self.data[self.end] = Some(element);
        self.end = (self.end + 1) % cap;
        proof {
            if pre.end as int + 1 == cap as int {
                vstd::arithmetic::div_mod::lemma_mod_self_0(cap as int);
            } else {
                vstd::arithmetic::div_mod::lemma_small_mod((pre.end + 1) as nat, cap as nat);
            }
            Self::lemma_insert_at_end(pre, *self, element);
        }
        Ok(())
    }

    /// Takes the oldest element out of the slot at `start`, leaving that slot
    /// unoccupied, and advances `start` by one with wraparound; refuses with
    /// [`Error::EmptyBuffer`], leaving the buffer untouched, when no element
    /// is stored.
    pub fn read(&mut self) -> (r: Result<T, Error>)
        requires
            old(self).wf(),
        ensures
            final(self).wf(),
            final(self).capacity() == old(self).capacity(),
            final(self)@ == read_model(old(self)@),
            old(self)@.len() == 0 ==> r == Err::<T, Error>(Error::EmptyBuffer) && *final(self)
                == *old(self),
            old(self)@.len() > 0 ==> r == Ok::<T, Error>(old(self)@[0]),
    {
        if self.is_empty() {
            return Err(Error::EmptyBuffer);
        }
        let ghost pre = *self;
        proof {
            assert(pre.slot(0) == pre.start as int);
        }
        let cap: usize = self.data.len();
        let element = self.data[self.start].take().unwrap();
        self.start = (self.start + 1) % cap;
        proof {
            if pre.start as int + 1 == cap as int {
                vstd::arithmetic::div_mod::lemma_mod_self_0(cap as int);
            } else {
                vstd::arithmetic::div_mod::lemma_small_mod((pre.start + 1) as nat, cap as nat);
            }
            Self::lemma_remove_front(pre, *self);
        }
        Ok(element)
    }

    /// Stores `element` unconditionally: behaves exactly like a successful
    /// `write` when there is room, and on a full buffer first discards the
    /// oldest element (advancing `start` over it) to make the room. Never
    /// refuses. On the degenerate zero-capacity buffer there is no slot to
    /// write into, so the buffer is left untouched.
    pub fn overwrite(&mut self, element: T)
        requires
            old(self).wf(),
        ensures
            final(self).wf(),
            final(self).capacity() == old(self).capacity(),
            final(self)@ == overwrite_model(old(self)@, old(self).capacity(), element),
            old(self).capacity() == 0 ==> *final(self) == *old(self),
    {
        if self.data.len() == 0 {
            return;
        }
        if self.is_full() {
            let _evicted = self.read();
        }
        let _ = self.write(element);
    }

    /// Returns every slot to the unoccupied state and both cursors to 0,
    /// dropping all stored elements; the capacity is kept.
    pub fn clear(&mut self)
        requires
            old(self).wf(),
        ensures
            final(self).wf(),
            final(self).capacity() == old(self).capacity(),
            final(self)@ == Seq::<T>::empty(),
    {
        let capacity: usize = self.data.len();
        *self = Self::new(capacity);
    }

    /// True exactly when no element is stored: the cursors coincide and the
    /// slot they point at is unoccupied.
    fn is_empty(&self) -> (r: bool)
        requires
            self.wf(),
        ensures
            r <==> self@.len() == 0,
    {
        proof {
            assert(self.slot(0) == self.start as int);
        }
        if self.data.len() == 0 {
            true
        } else {
            self.start == self.end && self.data[self.start].is_none()
        }
    }

    /// True exactly when every slot is occupied: the cursors coincide and the
    /// slot they point at is occupied. A zero-capacity buffer counts as full.
    fn is_full(&self) -> (r: bool)
        requires
            self.wf(),
        ensures
            r <==> self@.len() == self.capacity(),
    {
        proof {
            assert(self.slot(0) == self.start as int);
        }
        if self.data.len() == 0 {
            true
        } else {
            self.start == self.end && self.data[self.start].is_some()
        }
    }
}

/// The contents after writing each element of `vs` in turn, front to back,
/// into a buffer of the given capacity that currently holds `s`.
pub open spec fn write_all<T>(s: Seq<T>, capacity: nat, vs: Seq<T>) -> Seq<T>
    decreases vs.len(),
{
    if vs.len() == 0 {
        s
    } else {
        write_all(write_model(s, capacity, vs[0]), capacity, vs.subrange(1, vs.len() as int))
    }
}

/// The elements that `k` successive reads hand back, in the order they are
/// handed back, from a buffer that holds `s`; reads past the last element
/// return nothing.
pub open spec fn reads_values<T>(s: Seq<T>, k: nat) -> Seq<T>
    decreases k,
{
    if k == 0 || s.len() == 0 {
        Seq::empty()
    } else {
        seq![s[0]] + reads_values(read_model(s), (k - 1) as nat)
    }
}

/// The contents left behind after `k` successive reads from a buffer that
/// holds `s`.
pub open spec fn reads_state<T>(s: Seq<T>, k: nat) -> Seq<T>
    decreases k,
{
    if k == 0 {
        s
    } else {
        reads_state(read_model(s), (k - 1) as nat)
    }
}

/// Law: writes append in order. As long as a batch of writes fits within the
/// capacity, every one of them succeeds and the batch ends up appended to the
/// existing contents, front to back.
pub proof fn lemma_write_all_appends<T>(s: Seq<T>, capacity: nat, vs: Seq<T>)
    requires
        s.len() + vs.len() <= capacity,
    ensures
        write_all(s, capacity, vs) == s + vs,
    decreases vs.len(),
{
    if vs.len() == 0 {
        assert(s + vs =~= s);
    } else {
        let rest = vs.subrange(1, vs.len() as int);
        lemma_write_all_appends(s.push(vs[0]), capacity, rest);
        assert(s.push(vs[0]) + rest =~= s + vs);
    }
}

/// Law: exactly `capacity` writes fit. Writing a batch as long as the
/// capacity into an empty buffer stores the whole batch, and one further
/// write changes nothing (the buffer is full, so `write` refuses it).
pub proof fn lemma_fill_to_capacity<T>(vs: Seq<T>, capacity: nat, extra: T)
    requires
        vs.len() == capacity,
    ensures
        write_all(Seq::empty(), capacity, vs) == vs,
        write_model(vs, capacity, extra) == vs,
{
    lemma_write_all_appends(Seq::empty(), capacity, vs);
    assert(Seq::empty() + vs =~= vs);
}

/// Law: FIFO order. From a buffer that holds `s`, the first `k <= s.len()`
/// reads return exactly the `k` oldest elements, in the order they were
/// written, and leave the remaining elements untouched and in order.
pub proof fn lemma_fifo_order<T>(s: Seq<T>, k: nat)
    requires
        k <= s.len(),
    ensures
        reads_values(s, k) == s.subrange(0, k as int),
        reads_state(s, k) == s.subrange(k as int, s.len() as int),
    decreases k,
{
    if k == 0 {
        assert(reads_values(s, 0) =~= s.subrange(0, 0));
        assert(reads_state(s, 0) =~= s.subrange(0, s.len() as int));
    } else {
        lemma_fifo_order(read_model(s), (k - 1) as nat);
        assert(reads_values(s, k) =~= s.subrange(0, k as int));
        assert(reads_state(s, k) =~= s.subrange(k as int, s.len() as int));
    }
}

/// Law: a successful write always lands at the back, whatever reads and
/// writes came before it: the element it stores is the last one that a full
/// drain of the buffer returns.
pub proof fn lemma_latest_write_drains_last<T>(s: Seq<T>, capacity: nat, v: T)
    requires
        s.len() < capacity,
    ensures
        write_model(s, capacity, v).len() == s.len() + 1,
        reads_values(write_model(s, capacity, v), (s.len() + 1) as nat).last() == v,
{
    let grown = write_model(s, capacity, v);
    lemma_fifo_order(grown, (s.len() + 1) as nat);
    assert(grown.subrange(0, grown.len() as int) =~= grown);
}

/// Law: on a buffer that is not full, `overwrite` changes the contents in
/// exactly the way a (then necessarily successful) `write` does.
pub proof fn lemma_overwrite_not_full_is_write<T>(s: Seq<T>, capacity: nat, v: T)
    requires
        s.len() < capacity,
    ensures
        overwrite_model(s, capacity, v) == write_model(s, capacity, v),
{
}

/// Law: `overwrite` on a full buffer discards exactly the oldest element,
/// appends the new one at the back, and leaves the buffer full; a subsequent
/// read returns the second-oldest original element (or, with capacity 1, the
/// element just written), never the discarded one.
pub proof fn lemma_overwrite_full_drops_oldest<T>(s: Seq<T>, capacity: nat, v: T)
    requires
        capacity > 0,
        s.len() == capacity,
    ensures
        overwrite_model(s, capacity, v).len() == capacity,
        overwrite_model(s, capacity, v) == s.subrange(1, capacity as int).push(v),
        forall|i: int| 0 <= i < capacity - 1 ==> overwrite_model(s, capacity, v)[i] == s[i + 1],
        overwrite_model(s, capacity, v)[capacity - 1] == v,
        overwrite_model(s, capacity, v)[0] == (if capacity == 1 {
            v
        } else {
            s[1]
        }),
{
}

} // verus!
