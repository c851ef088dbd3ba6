//! A double-ended queue over a growable ring buffer.
use vstd::prelude::*;

use crate::alloc_error::Error;
use crate::value::{partial_cmp_answer, partial_cmp_with, partial_eq_answer, partial_eq_with, Answer, Value, ValueError};
use crate::vm::ProtocolFn;
use vstd::std_specs::cmp::{OrdSpec, PartialEqSpec};

verus! {

/// Index `idx` taken modulo `cap`, for `idx < 2 * cap`.
pub open spec fn wrap_spec(idx: int, cap: int) -> int {
    if idx >= cap {
        idx - cap
    } else {
        idx
    }
}

/// Wraps a physical index that may run one buffer length past the end.
pub fn wrap_index(logical_index: usize, capacity: usize) -> (r: usize)
    requires
        logical_index < capacity || (capacity == 0 && logical_index == 0) || (logical_index
            >= capacity && logical_index - capacity < capacity),
    ensures
        r == wrap_spec(logical_index as int, capacity as int),
{
    if logical_index >= capacity {
        logical_index - capacity
    } else {
        logical_index
    }
}

/// `(idx + addend) mod capacity`, for `idx` and `addend` below `capacity`,
/// without overflow.
fn wrap_add(idx: usize, addend: usize, capacity: usize) -> (r: usize)
    requires
        idx < capacity,
        addend < capacity,
    ensures
        r == wrap_spec(idx + addend, capacity as int),
        r < capacity,
{
    if addend >= capacity - idx {
        addend - (capacity - idx)
    } else {
        idx + addend
    }
}

/// `s` rotated `n` places to the left.
pub open spec fn rotated_left<T>(s: Seq<T>, n: int) -> Seq<T> {
    s.subrange(n, s.len() as int) + s.subrange(0, n)
}

/// `s` rotated `n` places to the right.
pub open spec fn rotated_right<T>(s: Seq<T>, n: int) -> Seq<T> {
    s.subrange(s.len() - n, s.len() as int) + s.subrange(0, s.len() - n)
}

/// The elements of `s` whose flag in `keep` is set, in order.
pub open spec fn kept<T>(s: Seq<T>, keep: Seq<bool>) -> Seq<T>
    decreases s.len(),
{
    if s.len() == 0 || keep.len() == 0 {
        Seq::empty()
    } else {
        let rest = kept(s.drop_last(), keep.drop_last());
        if keep.last() {
            rest.push(s.last())
        } else {
            rest
        }
    }
}

/// A double-ended queue: slots of a buffer used as a ring, from `head` on,
/// `len` of them in use.
pub struct VecDeque<T> {
    buf: Vec<Option<T>>,
    head: usize,
    len: usize,
}

impl<T> View for VecDeque<T> {
    type V = Seq<T>;

    closed spec fn view(&self) -> Seq<T> {
        Seq::new(self.len as nat, |i: int| self.slot(i)->0)
    }
}

impl<T> VecDeque<T> {
    /// The number of slots in the buffer.
    pub closed spec fn cap(&self) -> nat {
        self.buf@.len()
    }

    /// The buffer slot that holds logical element `i`.
    closed spec fn phys(&self, i: int) -> int {
        wrap_spec(self.head + i, self.buf@.len() as int)
    }

    closed spec fn slot(&self, i: int) -> Option<T> {
        self.buf@[self.phys(i)]
    }

    /// Well-formedness: the head is a slot of the buffer, and the `len`
    /// slots from the head on hold values.
    pub closed spec fn wf(&self) -> bool {
        &&& self.len <= self.buf@.len()
        &&& (self.buf@.len() == 0 ==> self.head == 0)
        &&& (self.buf@.len() > 0 ==> self.head < self.buf@.len())
        &&& forall|i: int| 0 <= i < self.len ==> (#[trigger] self.slot(i)) is Some
    }

    proof fn lemma_phys_in_bounds(&self, i: int)
        requires
            self.head < self.buf@.len(),
            0 <= i < self.buf@.len(),
        ensures
            0 <= self.phys(i) < self.buf@.len(),
    {
    }

    proof fn lemma_phys_injective(&self, i: int, j: int)
        requires
            self.head < self.buf@.len(),
            0 <= i < self.buf@.len(),
            0 <= j < self.buf@.len(),
            i != j,
        ensures
            self.phys(i) != self.phys(j),
    {
    }

    /// Creates an empty deque; it allocates nothing.
    pub fn new() -> (r: Self)
        ensures
            r.wf(),
            r@ == Seq::<T>::empty(),
            r.cap() == 0,
    {
        VecDeque { buf: Vec::new(), head: 0, len: 0 }
    }

    /// Creates an empty deque with room for `capacity` elements.
    pub fn try_with_capacity(capacity: usize) -> (r: Result<Self, Error>)
        ensures
            r matches Ok(d) && d.wf() && d@ == Seq::<T>::empty() && d.cap() == capacity,
    {
        let mut buf: Vec<Option<T>> = Vec::new();
        let mut i: usize = 0;
        while i < capacity
            invariant
                i <= capacity,
                buf@.len() == i,
            decreases capacity - i,
        {
            buf.push(None);
            i += 1;
        }
        Ok(VecDeque { buf, head: 0, len: 0 })
    }

    /// The number of elements the deque holds without growing.
    pub fn capacity(&self) -> (r: usize)
        ensures
            r == self.cap(),
    {
        self.buf.len()
    }

    /// The number of elements.
    pub fn len(&self) -> (r: usize)
        requires
            self.wf(),
        ensures
            r == self@.len(),
    {
        self.len
    }

    /// Whether the deque holds no element.
    pub fn is_empty(&self) -> (r: bool)
        requires
            self.wf(),
        ensures
            r == (self@.len() == 0),
    {
        self.len == 0
    }

    fn to_physical_idx(&self, idx: usize) -> (r: usize)
        requires
            self.wf(),
            idx < self.len,
        ensures
            r == self.phys(idx as int),
            r < self.buf@.len(),
    {
        wrap_add(self.head, idx, self.buf.len())
    }

    /// The element at `index`, if there is one.
    pub fn get(&self, index: usize) -> (r: Option<&T>)
        requires
            self.wf(),
        ensures
            index < self@.len() ==> r == Some(&self@[index as int]),
            index >= self@.len() ==> r is None,
    {
        if index < self.len {
            let p = self.to_physical_idx(index);
            assert(self.slot(index as int) is Some);
            self.buf[p].as_ref()
        } else {
            None
        }
    }

    /// The first element, if there is one.
    pub fn front(&self) -> (r: Option<&T>)
        requires
            self.wf(),
        ensures
            self@.len() > 0 ==> r == Some(&self@[0]),
            self@.len() == 0 ==> r is None,
    {
        self.get(0)
    }

    /// The last element, if there is one.
    pub fn back(&self) -> (r: Option<&T>)
        requires
            self.wf(),
        ensures
            self@.len() > 0 ==> r == Some(&self@.last()),
            self@.len() == 0 ==> r is None,
    {
        if self.len == 0 {
            None
        } else {
            self.get(self.len - 1)
        }
    }

    /// Moves the elements into a fresh buffer of `new_cap` slots, in order
    /// from slot zero.
    fn relocate(&mut self, new_cap: usize)
        requires
            old(self).wf(),
            new_cap >= old(self).len,
        ensures
            final(self).wf(),
            final(self)@ == old(self)@,
            final(self).cap() == new_cap,
            final(self).head == 0,
    {
        let ghost elems = self@;
        let mut old_buf: Vec<Option<T>> = Vec::new();
        std::mem::swap(&mut old_buf, &mut self.buf);
        let ghost old_deque = VecDeque { buf: old_buf, head: self.head, len: self.len };
        assert(old_deque.wf());
        assert(old_deque@ =~= elems);
        let mut buf: Vec<Option<T>> = Vec::new();
        let mut i: usize = 0;
        while i < self.len
            invariant
                old_deque.wf(),
                old_deque@ == elems,
                i <= self.len == old_deque.len == elems.len(),
                self.head == old_deque.head,
                old_buf@.len() == old_deque.buf@.len(),
                buf@.len() == i,
                forall|j: int| 0 <= j < i ==> (#[trigger] buf@[j]) == Some(elems[j]),
                forall|j: int|
                    i <= j < self.len ==> #[trigger] old_buf@[old_deque.phys(j)] == Some(
                        elems[j],
                    ),
            decreases self.len - i,
        {
            let p = wrap_add(self.head, i, old_buf.len());
            proof {
                old_deque.lemma_phys_in_bounds(i as int);
                assert(old_deque.slot(i as int) is Some);
                assert forall|j: int| i < j < self.len implies old_deque.phys(j) != p by {
                    old_deque.lemma_phys_injective(i as int, j);
                }
            }
            let x = old_buf[p].take();
            buf.push(x);
            i += 1;
        }
        while i < new_cap
            invariant
                i <= new_cap,
                self.len <= i,
                buf@.len() == i,
                self.len == elems.len(),
                forall|j: int| 0 <= j < self.len ==> (#[trigger] buf@[j]) == Some(elems[j]),
            decreases new_cap - i,
        {
            buf.push(None);
            i += 1;
        }
        self.buf = buf;
        self.head = 0;
        assert forall|j: int| 0 <= j < self.len implies #[trigger] self.slot(j) is Some by {
            assert(self.buf@[j] == Some(elems[j]));
        }
        assert(self@ =~= elems) by {
            assert forall|j: int| 0 <= j < self.len implies self@[j] == elems[j] by {
                assert(self.buf@[j] == Some(elems[j]));
            }
        }
    }

    /// Makes room for at least one more element, doubling the buffer (four
    /// slots at first).
    fn try_grow(&mut self) -> (r: Result<(), Error>)
        requires
            old(self).wf(),
        ensures
            final(self).wf(),
            final(self)@ == old(self)@,
            r is Ok <==> old(self).cap() < usize::MAX,
            r is Ok ==> final(self).cap() > old(self).cap(),
            r is Err ==> r == Err::<(), Error>(Error::CapacityOverflow),
    {
        let cap = self.buf.len();
        if cap == usize::MAX {
            return Err(Error::CapacityOverflow);
        }
        let new_cap: usize = if cap == 0 {
            4
        } else if cap <= usize::MAX / 2 {
            cap * 2
        } else {
            usize::MAX
        };
        self.relocate(new_cap);
        Ok(())
    }

    /// Appends `value` at the back.
    pub fn try_push_back(&mut self, value: T) -> (r: Result<(), Error>)
        requires
            old(self).wf(),
        ensures
            final(self).wf(),
            r is Ok <==> old(self)@.len() < usize::MAX,
            r is Ok ==> final(self)@ == old(self)@.push(value),
            old(self)@.len() < old(self).cap() ==> final(self).cap() == old(self).cap(),
            r is Err ==> final(self)@ == old(self)@ && r == Err::<(), Error>(Error::CapacityOverflow),
    {
        if self.len == self.buf.len() {
            let ghost len = self.len;
            match self.try_grow() {
                Ok(()) => {},
                Err(e) => {
                    return Err(e);
                },
            }
            assert(self@.len() == len);
        }
        let ghost before = self@;
        let ghost mid = *self;
        let p = wrap_add(self.head, self.len, self.buf.len());
        self.buf.set(p, Some(value));
        self.len = self.len + 1;
        proof {
            assert forall|i: int| 0 <= i < self.len - 1 implies self.phys(i) != p by {
                self.lemma_phys_injective(i, self.len - 1);
            }
            assert forall|i: int| 0 <= i < self.len implies #[trigger] self.slot(i) is Some by {
                if i < self.len - 1 {
                    assert(self.slot(i) == mid.slot(i));
                }
            }
            assert(self@ =~= before.push(value)) by {
                assert forall|i: int| 0 <= i < self.len - 1 implies self.slot(i) == mid.slot(i) by {}
            }
        }
        Ok(())
    }

    /// Prepends `value` at the front.
    pub fn try_push_front(&mut self, value: T) -> (r: Result<(), Error>)
        requires
            old(self).wf(),
        ensures
            final(self).wf(),
            r is Ok <==> old(self)@.len() < usize::MAX,
            r is Ok ==> final(self)@ == seq![value] + old(self)@,
            old(self)@.len() < old(self).cap() ==> final(self).cap() == old(self).cap(),
            r is Err ==> final(self)@ == old(self)@ && r == Err::<(), Error>(Error::CapacityOverflow),
    {
        if self.len == self.buf.len() {
            let ghost len = self.len;
            match self.try_grow() {
                Ok(()) => {},
                Err(e) => {
                    return Err(e);
                },
            }
            assert(self@.len() == len);
        }
        let ghost before = self@;
        let ghost mid = *self;
        let cap = self.buf.len();
        let p = wrap_add(self.head, cap - 1, cap);
        self.buf.set(p, Some(value));
        self.head = p;
        self.len = self.len + 1;
        proof {
            assert forall|i: int| 1 <= i < self.len implies self.phys(i) == mid.phys(i - 1) by {}
            assert forall|i: int| 1 <= i < self.len implies self.phys(i) != p by {
                self.lemma_phys_injective(0, i);
            }
            assert forall|i: int| 0 <= i < self.len implies #[trigger] self.slot(i) is Some by {
                if i > 0 {
                    assert(self.slot(i) == mid.slot(i - 1));
                }
            }
            assert(self@ =~= seq![value] + before) by {
                assert forall|i: int| 1 <= i < self.len implies self.slot(i) == mid.slot(i - 1) by {}
            }
        }
        Ok(())
    }

    /// Removes and returns the first element, if there is one.
    pub fn pop_front(&mut self) -> (r: Option<T>)
        requires
            old(self).wf(),
        ensures
            final(self).wf(),
            old(self)@.len() == 0 ==> r is None && final(self)@ == old(self)@,
            old(self)@.len() > 0 ==> r == Some(old(self)@[0]) && final(self)@ == old(self)@.drop_first(),
            final(self).cap() == old(self).cap(),
    {
        if self.len == 0 {
            return None;
        }
        let ghost before = self@;
        let ghost mid = *self;
        let p = self.head;
        assert(self.slot(0) is Some);
        let x = self.buf[p].take();
        self.head = if self.buf.len() == 1 {
            0
        } else {
            wrap_add(self.head, 1, self.buf.len())
        };
        self.len = self.len - 1;
        proof {
            assert forall|i: int| 0 <= i < self.len implies self.phys(i) == mid.phys(i + 1) by {}
            assert forall|i: int| 0 <= i < self.len implies #[trigger] mid.phys(i + 1) != p by {
                mid.lemma_phys_injective(0, i + 1);
            }
            assert forall|i: int| 0 <= i < self.len implies #[trigger] self.slot(i) is Some by {
                assert(self.slot(i) == mid.slot(i + 1));
            }
            assert(self@ =~= before.drop_first()) by {
                assert forall|i: int| 0 <= i < self.len implies self.slot(i) == mid.slot(i + 1) by {}
            }
        }
        x
    }

    /// Removes and returns the last element, if there is one.
    pub fn pop_back(&mut self) -> (r: Option<T>)
        requires
            old(self).wf(),
        ensures
            final(self).wf(),
            old(self)@.len() == 0 ==> r is None && final(self)@ == old(self)@,
            old(self)@.len() > 0 ==> r == Some(old(self)@.last()) && final(self)@ == old(self)@.drop_last(),
            final(self).cap() == old(self).cap(),
    {
        if self.len == 0 {
            return None;
        }
        let ghost before = self@;
        let ghost mid = *self;
        let p = self.to_physical_idx(self.len - 1);
        assert(self.slot(self.len - 1) is Some);
        let x = self.buf[p].take();
        self.len = self.len - 1;
        proof {
            assert forall|i: int| 0 <= i < self.len implies mid.phys(i) != p by {
                mid.lemma_phys_injective(i, self.len as int);
            }
            assert forall|i: int| 0 <= i < self.len implies #[trigger] self.slot(i) is Some by {
                assert(self.slot(i) == mid.slot(i));
            }
            assert(self@ =~= before.drop_last()) by {
                assert forall|i: int| 0 <= i < self.len implies self.slot(i) == mid.slot(i) by {}
            }
        }
        x
    }

    /// The buffer slot of the first element.
    pub closed spec fn head(&self) -> nat {
        self.head as nat
    }

    /// A well-formed deque holds no more elements than its capacity.
    pub proof fn lemma_len_le_cap(&self)
        requires
            self.wf(),
        ensures
            self@.len() <= self.cap(),
    {
    }

    /// The number of elements in the run that starts at the head, before
    /// the buffer wraps.
    pub closed spec fn first_run_len(&self) -> nat {
        if self.head + self.len <= self.buf@.len() {
            self.len as nat
        } else {
            (self.buf@.len() - self.head) as nat
        }
    }

    /// A contiguous deque is one run: `as_slices` hands out every element
    /// in its first part, in order, and nothing in the second.
    pub proof fn lemma_contiguous_is_one_run(&self)
        requires
            self.wf(),
            self.is_contiguous(),
        ensures
            self.first_run_len() == self@.len(),
    {
    }

    /// Whether the elements stand in one run of the buffer, without wrapping.
    pub open spec fn is_contiguous(&self) -> bool {
        self.head() + self@.len() <= self.cap()
    }

    /// Moves `n` elements one by one from the front to the back.
    fn rotate_left_inner(&mut self, n: usize)
        requires
            old(self).wf(),
            n <= old(self)@.len(),
        ensures
            final(self).wf(),
            final(self)@ == rotated_left(old(self)@, n as int),
            final(self).cap() == old(self).cap(),
    {
        let ghost s = self@;
        let mut k: usize = 0;
        while k < n
            invariant
                self.wf(),
                k <= n <= s.len(),
                self@ == rotated_left(s, k as int),
                self.cap() == old(self).cap(),
            decreases n - k,
        {
            let x = self.pop_front();
            match x {
                Some(v) => {
                    let _ = self.try_push_back(v);
                },
                None => {},
            }
            proof {
                assert(rotated_left(s, k as int).drop_first().push(s[k as int]) =~= rotated_left(
                    s,
                    k + 1,
                ));
            }
            k += 1;
        }
    }

    /// Moves `n` elements one by one from the back to the front.
    fn rotate_right_inner(&mut self, n: usize)
        requires
            old(self).wf(),
            n <= old(self)@.len(),
        ensures
            final(self).wf(),
            final(self)@ == rotated_right(old(self)@, n as int),
            final(self).cap() == old(self).cap(),
    {
        let ghost s = self@;
        let mut k: usize = 0;
        while k < n
            invariant
                self.wf(),
                k <= n <= s.len(),
                self@ == rotated_right(s, k as int),
                self.cap() == old(self).cap(),
            decreases n - k,
        {
            let x = self.pop_back();
            match x {
                Some(v) => {
                    let _ = self.try_push_front(v);
                },
                None => {},
            }
            proof {
                let len = s.len() as int;
                assert(seq![s[len - k - 1]] + rotated_right(s, k as int).drop_last()
                    =~= rotated_right(s, k + 1));
            }
            k += 1;
        }
    }

    /// Rotates the deque `n` places to the left: the element at `n` comes
    /// first. Moves `min(n, len - n)` elements.
    pub fn rotate_left(&mut self, n: usize)
        requires
            old(self).wf(),
            n <= old(self)@.len(),
        ensures
            final(self).wf(),
            final(self)@ == rotated_left(old(self)@, n as int),
            final(self).cap() == old(self).cap(),
    {
        let k = self.len - n;
        if n <= k {
            self.rotate_left_inner(n);
        } else {
            self.rotate_right_inner(k);
            proof {
                assert(rotated_right(old(self)@, k as int) =~= rotated_left(old(self)@, n as int));
            }
        }
    }

    /// Rotates the deque `n` places to the right: the last `n` elements come
    /// first. Moves `min(n, len - n)` elements.
    pub fn rotate_right(&mut self, n: usize)
        requires
            old(self).wf(),
            n <= old(self)@.len(),
        ensures
            final(self).wf(),
            final(self)@ == rotated_right(old(self)@, n as int),
            final(self).cap() == old(self).cap(),
    {
        let k = self.len - n;
        if n <= k {
            self.rotate_right_inner(n);
        } else {
            self.rotate_left_inner(k);
            proof {
                assert(rotated_left(old(self)@, k as int) =~= rotated_right(old(self)@, n as int));
            }
        }
    }

    /// Rearranges the buffer so that the elements stand in one run, keeping
    /// their order and the capacity.
    pub fn make_contiguous(&mut self)
        requires
            old(self).wf(),
        ensures
            final(self).wf(),
            final(self)@ == old(self)@,
            final(self).is_contiguous(),
            final(self).cap() == old(self).cap(),
    {
        if self.len <= self.buf.len() - self.head {
            return;
        }
        let cap = self.buf.len();
        self.relocate(cap);
    }

    /// The buffer ranges, as `(start, end)`, that hold the elements: the run
    /// from the head, then the wrapped part (empty when the deque is
    /// contiguous).
    pub fn slice_ranges(&self) -> (r: ((usize, usize), (usize, usize)))
        requires
            self.wf(),
        ensures
            r.0.0 == self.head(),
            self.is_contiguous() ==> r.0.1 == self.head() + self@.len() && r.1 == (0usize, 0usize),
            !self.is_contiguous() ==> r.0.1 == self.cap() && r.1.0 == 0 && r.1.1 == self.head()
                + self@.len() - self.cap(),
    {
        let room = self.buf.len() - self.head;
        if self.len <= room {
            ((self.head, self.head + self.len), (0, 0))
        } else {
            ((self.head, self.buf.len()), (0, self.len - room))
        }
    }

    /// The elements as two runs, in order: first the run from the head, then
    /// the wrapped part.
    pub fn as_slices(&self) -> (r: (Vec<&T>, Vec<&T>))
        requires
            self.wf(),
        ensures
            r.0@.len() == self.first_run_len(),
            r.0@.len() + r.1@.len() == self@.len(),
            forall|i: int| 0 <= i < r.0@.len() ==> *(#[trigger] r.0@[i]) == self@[i],
            forall|i: int| 0 <= i < r.1@.len() ==> *(#[trigger] r.1@[i]) == self@[r.0@.len() + i],
            self.is_contiguous() ==> r.1@.len() == 0,
    {
        let room = self.buf.len() - self.head;
        let first = if self.len <= room {
            self.len
        } else {
            room
        };
        let mut a: Vec<&T> = Vec::new();
        let mut b: Vec<&T> = Vec::new();
        let mut i: usize = 0;
        while i < self.len
            invariant
                self.wf(),
                i <= self.len,
                first <= self.len,
                first == self.len || first == room,
                room == self.buf@.len() - self.head,
                i <= first ==> a@.len() == i && b@.len() == 0,
                i > first ==> a@.len() == first && b@.len() == i - first,
                forall|j: int| 0 <= j < a@.len() ==> *(#[trigger] a@[j]) == self@[j],
                forall|j: int| 0 <= j < b@.len() ==> *(#[trigger] b@[j]) == self@[first + j],
            decreases self.len - i,
        {
            let x = self.get(i);
            match x {
                Some(v) => {
                    if i < first {
                        a.push(v);
                    } else {
                        b.push(v);
                    }
                },
                None => {},
            }
            i += 1;
        }
        (a, b)
    }

    /// The elements in order, front to back.
    pub fn iter(&self) -> (r: Vec<&T>)
        requires
            self.wf(),
        ensures
            r@.len() == self@.len(),
            forall|i: int| 0 <= i < r@.len() ==> *(#[trigger] r@[i]) == self@[i],
    {
        let mut a: Vec<&T> = Vec::new();
        let mut i: usize = 0;
        while i < self.len
            invariant
                self.wf(),
                i <= self.len,
                a@.len() == i,
                forall|j: int| 0 <= j < a@.len() ==> *(#[trigger] a@[j]) == self@[j],
            decreases self.len - i,
        {
            let x = self.get(i);
            match x {
                Some(v) => a.push(v),
                None => {},
            }
            i += 1;
        }
        a
    }

    /// Removes every element, keeping the capacity.
    pub fn clear(&mut self)
        requires
            old(self).wf(),
        ensures
            final(self).wf(),
            final(self)@ == Seq::<T>::empty(),
            final(self).cap() == old(self).cap(),
    {
        self.truncate(0);
    }

    /// Keeps the first `len` elements and drops the rest.
    pub fn truncate(&mut self, len: usize)
        requires
            old(self).wf(),
        ensures
            final(self).wf(),
            len < old(self)@.len() ==> final(self)@ == old(self)@.subrange(0, len as int),
            len >= old(self)@.len() ==> final(self)@ == old(self)@,
            final(self).cap() == old(self).cap(),
    {
        let ghost s = self@;
        assert(s.subrange(0, s.len() as int) =~= s);
        while self.len > len
            invariant
                self.wf(),
                self.cap() == old(self).cap(),
                self@.len() <= s.len(),
                self@ == s.subrange(0, self@.len() as int),
                len < s.len() ==> len <= self@.len(),
                len >= s.len() ==> self@.len() == s.len(),
            decreases self.len,
        {
            let _ = self.pop_back();
            proof {
                assert(s.subrange(0, self@.len() as int + 1).drop_last() =~= s.subrange(0, self@.len() as int));
            }
        }
        proof {
            if len < s.len() {
                assert(self@.len() == len);
            } else {
                assert(s.subrange(0, s.len() as int) =~= s);
            }
        }
    }

    /// Swaps the elements at `i` and `j`.
    pub fn swap(&mut self, i: usize, j: usize)
        requires
            old(self).wf(),
            i < old(self)@.len(),
            j < old(self)@.len(),
        ensures
            final(self).wf(),
            final(self)@ == old(self)@.update(i as int, old(self)@[j as int]).update(
                j as int,
                old(self)@[i as int],
            ),
            final(self).cap() == old(self).cap(),
    {
        if i == j {
            proof {
                assert(self@.update(i as int, self@[j as int]).update(j as int, self@[i as int]) =~= self@);
            }
            return;
        }
        let ghost mid = *self;
        let ghost s = self@;
        let pi = self.to_physical_idx(i);
        let pj = self.to_physical_idx(j);
        proof {
            self.lemma_phys_injective(i as int, j as int);
        }
        let a = self.buf[pi].take();
        let b = self.buf[pj].take();
        self.buf.set(pi, b);
        self.buf.set(pj, a);
        proof {
            assert(mid.slot(i as int) is Some);
            assert(mid.slot(j as int) is Some);
            assert forall|k: int| 0 <= k < self.len && k != i && k != j implies self.slot(k) == mid.slot(k) by {
                self.lemma_phys_injective(k, i as int);
                self.lemma_phys_injective(k, j as int);
            }
            assert forall|k: int| 0 <= k < self.len implies #[trigger] self.slot(k) is Some by {
                if k != i && k != j {
                    assert(self.slot(k) == mid.slot(k));
                }
            }
            assert(self@ =~= s.update(i as int, s[j as int]).update(j as int, s[i as int])) by {
                assert forall|k: int| 0 <= k < self.len && k != i && k != j implies self.slot(k) == mid.slot(k) by {
                    self.lemma_phys_injective(k, i as int);
                    self.lemma_phys_injective(k, j as int);
                }
            }
        }
    }

    /// Inserts `value` at `index`, shifting what follows one place back.
    pub fn try_insert(&mut self, index: usize, value: T) -> (r: Result<(), Error>)
        requires
            old(self).wf(),
            index <= old(self)@.len(),
        ensures
            final(self).wf(),
            r is Ok <==> old(self)@.len() < usize::MAX,
            r is Ok ==> final(self)@ == old(self)@.insert(index as int, value),
            r is Err ==> final(self)@ == old(self)@ && r == Err::<(), Error>(Error::CapacityOverflow),
    {
        if self.len == usize::MAX {
            return Err(Error::CapacityOverflow);
        }
        let ghost s = self@;
        self.rotate_left(index);
        let _ = self.try_push_front(value);
        self.rotate_right(index);
        proof {
            let t = seq![value] + rotated_left(s, index as int);
            assert(rotated_right(t, index as int) =~= s.insert(index as int, value));
        }
        Ok(())
    }

    /// Removes and returns the element at `index`, if there is one,
    /// shifting what follows one place forward.
    pub fn remove(&mut self, index: usize) -> (r: Option<T>)
        requires
            old(self).wf(),
        ensures
            final(self).wf(),
            index < old(self)@.len() ==> r == Some(old(self)@[index as int]) && final(self)@
                == old(self)@.remove(index as int),
            index >= old(self)@.len() ==> r is None && final(self)@ == old(self)@,
    {
        if index >= self.len {
            return None;
        }
        let ghost s = self@;
        self.rotate_left(index);
        let x = self.pop_front();
        self.rotate_right(index);
        proof {
            let t = rotated_left(s, index as int).drop_first();
            assert(rotated_right(t, index as int) =~= s.remove(index as int));
        }
        x
    }

    /// Removes the element at `index` and puts the last element in its
    /// place.
    pub fn swap_remove_back(&mut self, index: usize) -> (r: Option<T>)
        requires
            old(self).wf(),
        ensures
            final(self).wf(),
            index < old(self)@.len() ==> r == Some(old(self)@[index as int]) && final(self)@
                == old(self)@.update(index as int, old(self)@.last()).drop_last(),
            index >= old(self)@.len() ==> r is None && final(self)@ == old(self)@,
    {
        let len = self.len;
        if index >= len {
            return None;
        }
        if index != len - 1 {
            self.swap(index, len - 1);
        } else {
            proof {
                assert(self@.update(index as int, self@.last()) =~= self@);
            }
        }
        self.pop_back()
    }

    /// Removes the element at `index` and puts the first element in its
    /// place.
    pub fn swap_remove_front(&mut self, index: usize) -> (r: Option<T>)
        requires
            old(self).wf(),
        ensures
            final(self).wf(),
            index < old(self)@.len() ==> r == Some(old(self)@[index as int]) && final(self)@
                == old(self)@.update(index as int, old(self)@[0]).drop_first(),
            index >= old(self)@.len() ==> r is None && final(self)@ == old(self)@,
    {
        let len = self.len;
        if index >= len {
            return None;
        }
        if index != 0 {
            self.swap(index, 0);
        } else {
            proof {
                assert(self@.update(index as int, self@[0]) =~= self@);
            }
        }
        self.pop_front()
    }

    /// Whether some element equals `x`.
    pub fn contains(&self, x: &T) -> (r: bool)
        where
            T: PartialEq,
        requires
            self.wf(),
            T::obeys_eq_spec(),
        ensures
            r <==> exists|i: int| 0 <= i < self@.len() && (#[trigger] self@[i]).eq_spec(x),
    {
        let mut i: usize = 0;
        while i < self.len
            invariant
                self.wf(),
                T::obeys_eq_spec(),
                i <= self.len,
                forall|j: int| 0 <= j < i ==> !(#[trigger] self@[j]).eq_spec(x),
            decreases self.len - i,
        {
            let e = self.get(i);
            match e {
                Some(v) => {
                    if *v == *x {
                        return true;
                    }
                },
                None => {},
            }
            i += 1;
        }
        false
    }

    /// Searches a deque sorted by `T`'s order for `x`: `Ok(i)` with the
    /// element at `i` equal to `x`, or `Err(i)` with the elements before `i`
    /// smaller than `x` and the one at `i` greater, where `x` would go.
    pub fn binary_search(&self, x: &T) -> (r: Result<usize, usize>)
        where
            T: Ord,
        requires
            self.wf(),
            T::obeys_cmp_spec(),
        ensures
            r matches Ok(i) ==> i < self@.len() && self@[i as int].cmp_spec(x) == std::cmp::Ordering::Equal,
            r matches Err(i) ==> i <= self@.len() && (i > 0 ==> self@[i - 1].cmp_spec(x)
                == std::cmp::Ordering::Less) && (i < self@.len() ==> self@[i as int].cmp_spec(x)
                == std::cmp::Ordering::Greater),
    {
        let mut lo: usize = 0;
        let mut hi: usize = self.len;
        while lo < hi
            invariant
                self.wf(),
                T::obeys_cmp_spec(),
                lo <= hi <= self.len,
                lo > 0 ==> self@[lo - 1].cmp_spec(x) == std::cmp::Ordering::Less,
                hi < self.len ==> self@[hi as int].cmp_spec(x) == std::cmp::Ordering::Greater,
            decreases hi - lo,
        {
            let mid = lo + (hi - lo) / 2;
            let e = self.get(mid);
            match e {
                Some(v) => {
                    match v.cmp(x) {
                        std::cmp::Ordering::Less => {
                            lo = mid + 1;
                        },
                        std::cmp::Ordering::Greater => {
                            hi = mid;
                        },
                        std::cmp::Ordering::Equal => {
                            return Ok(mid);
                        },
                    }
                },
                None => {
                    return Err(lo);
                },
            }
        }
        Err(lo)
    }

    /// The first index at which `pred` fails, for a deque on which `pred`
    /// holds of a prefix: the element before it satisfies `pred` and the one
    /// at it does not.
    pub fn partition_point<F: Fn(&T) -> bool>(&self, pred: F) -> (r: usize)
        requires
            self.wf(),
            forall|x: &T| #[trigger] pred.requires((x,)),
        ensures
            r <= self@.len(),
            r > 0 ==> call_ensures(pred, (&self@[r - 1],), true),
            r < self@.len() ==> call_ensures(pred, (&self@[r as int],), false),
    {
        let mut lo: usize = 0;
        let mut hi: usize = self.len;
        while lo < hi
            invariant
                self.wf(),
                forall|x: &T| #[trigger] pred.requires((x,)),
                lo <= hi <= self.len,
                lo > 0 ==> call_ensures(pred, (&self@[lo - 1],), true),
                hi < self.len ==> call_ensures(pred, (&self@[hi as int],), false),
            decreases hi - lo,
        {
            let mid = lo + (hi - lo) / 2;
            let e = self.get(mid);
            match e {
                Some(v) => {
                    if pred(v) {
                        lo = mid + 1;
                    } else {
                        hi = mid;
                    }
                },
                None => {
                    return lo;
                },
            }
        }
        lo
    }

    /// Keeps the elements on which `f` holds, in order.
    pub fn retain<F: Fn(&T) -> bool>(&mut self, f: F)
        requires
            old(self).wf(),
            forall|x: &T| #[trigger] f.requires((x,)),
        ensures
            final(self).wf(),
            exists|keep: Seq<bool>|
                {
                    &&& keep.len() == old(self)@.len()
                    &&& forall|i: int|
                        0 <= i < keep.len() ==> call_ensures(f, (&old(self)@[i],), #[trigger] keep[i])
                    &&& final(self)@ == kept(old(self)@, keep)
                },
    {
        let ghost s = self@;
        let ghost mut keep: Seq<bool> = Seq::empty();
        let n = self.len;
        let mut k: usize = 0;
        assert(s.subrange(0, 0) =~= Seq::<T>::empty());
        assert(s.subrange(0, s.len() as int) =~= s);
        while k < n
            invariant
                self.wf(),
                forall|x: &T| #[trigger] f.requires((x,)),
                n == s.len(),
                k <= n,
                keep.len() == k,
                forall|i: int| 0 <= i < k ==> call_ensures(f, (&s[i],), #[trigger] keep[i]),
                self@ == s.subrange(k as int, n as int) + kept(s.subrange(0, k as int), keep),
                self@.len() <= n,
            decreases n - k,
        {
            let ghost before = self@;
            assert(before[0] == s[k as int]);
            let x = self.pop_front();
            match x {
                Some(v) => {
                    let b = f(&v);
                    if b {
                        let _ = self.try_push_back(v);
                    }
                    proof {
                        let old_keep = keep;
                        keep = keep.push(b);
                        assert(s.subrange(0, k + 1).drop_last() =~= s.subrange(0, k as int));
                        assert(keep.drop_last() =~= old_keep);
                        assert(s.subrange(k + 1, n as int) =~= s.subrange(k as int, n as int).drop_first());
                        assert(before.drop_first() =~= s.subrange(k + 1, n as int) + kept(s.subrange(0, k as int), old_keep));
                        let rest = kept(s.subrange(0, k as int), old_keep);
                        assert(kept(s.subrange(0, k + 1), keep) == if b {
                            rest.push(s[k as int])
                        } else {
                            rest
                        });
                        if b {
                            assert(self@ =~= s.subrange(k + 1, n as int) + kept(s.subrange(0, k + 1), keep));
                        } else {
                            assert(self@ =~= s.subrange(k + 1, n as int) + kept(s.subrange(0, k + 1), keep));
                        }
                    }
                },
                None => {},
            }
            k += 1;
        }
        assert(s.subrange(n as int, n as int) + kept(s.subrange(0, n as int), keep) =~= kept(s, keep));
    }

    /// Searches with the comparator `f`, which says how each element
    /// orders against the target: `Ok(i)` where `f` answered `Equal`, or
    /// `Err(i)` between an element answered `Less` and one answered
    /// `Greater`.
    pub fn binary_search_by<F: Fn(&T) -> std::cmp::Ordering>(&self, f: F) -> (r: Result<usize, usize>)
        requires
            self.wf(),
            forall|x: &T| #[trigger] f.requires((x,)),
        ensures
            r matches Ok(i) ==> i < self@.len() && call_ensures(f, (&self@[i as int],), std::cmp::Ordering::Equal),
            r matches Err(i) ==> i <= self@.len() && (i > 0 ==> call_ensures(f, (&self@[i - 1],), std::cmp::Ordering::Less))
                && (i < self@.len() ==> call_ensures(f, (&self@[i as int],), std::cmp::Ordering::Greater)),
    {
        let mut lo: usize = 0;
        let mut hi: usize = self.len;
        while lo < hi
            invariant
                self.wf(),
                forall|x: &T| #[trigger] f.requires((x,)),
                lo <= hi <= self.len,
                lo > 0 ==> call_ensures(f, (&self@[lo - 1],), std::cmp::Ordering::Less),
                hi < self.len ==> call_ensures(f, (&self@[hi as int],), std::cmp::Ordering::Greater),
            decreases hi - lo,
        {
            let mid = lo + (hi - lo) / 2;
            match self.get(mid) {
                Some(v) => match f(v) {
                    std::cmp::Ordering::Less => {
                        lo = mid + 1;
                    },
                    std::cmp::Ordering::Greater => {
                        hi = mid;
                    },
                    std::cmp::Ordering::Equal => {
                        return Ok(mid);
                    },
                },
                None => {
                    return Err(lo);
                },
            }
        }
        Err(lo)
    }

    /// Resizes to `new_len`: extra elements are dropped from the back,
    /// missing ones are made by `f` and appended.
    pub fn try_resize_with<F: Fn() -> T>(&mut self, new_len: usize, f: F) -> (r: Result<(), Error>)
        requires
            old(self).wf(),
            f.requires(()),
        ensures
            final(self).wf(),
            r is Ok,
            final(self)@.len() == new_len,
            forall|i: int| 0 <= i < new_len && i < old(self)@.len() ==> final(self)@[i] == old(self)@[i],
            forall|i: int| old(self)@.len() <= i < new_len ==> call_ensures(f, (), #[trigger] final(self)@[i]),
    {
        if new_len <= self.len {
            self.truncate(new_len);
            return Ok(());
        }
        let ghost s = self@;
        while self.len < new_len
            invariant
                self.wf(),
                f.requires(()),
                s.len() <= self@.len() <= new_len,
                forall|i: int| 0 <= i < s.len() ==> self@[i] == s[i],
                forall|i: int| s.len() <= i < self@.len() ==> call_ensures(f, (), #[trigger] self@[i]),
            decreases new_len - self.len,
        {
            let x = f();
            let _ = self.try_push_back(x);
        }
        Ok(())
    }

    /// Makes room for at least `additional` more elements.
    pub fn try_reserve(&mut self, additional: usize) -> (r: Result<(), Error>)
        requires
            old(self).wf(),
        ensures
            final(self).wf(),
            final(self)@ == old(self)@,
            r is Ok <==> old(self)@.len() + additional <= usize::MAX,
            r is Ok ==> final(self).cap() >= old(self)@.len() + additional,
            r is Err ==> r == Err::<(), Error>(Error::CapacityOverflow),
    {
        if additional > usize::MAX - self.len {
            return Err(Error::CapacityOverflow);
        }
        let need = self.len + additional;
        if need > self.buf.len() {
            self.relocate(need);
        }
        Ok(())
    }

    /// Shrinks the buffer to the number of elements.
    pub fn try_shrink_to_fit(&mut self) -> (r: Result<(), Error>)
        requires
            old(self).wf(),
        ensures
            final(self).wf(),
            final(self)@ == old(self)@,
            final(self).cap() == old(self)@.len(),
            final(self).cap() <= old(self).cap(),
            r is Ok,
    {
        let len = self.len;
        self.relocate(len);
        Ok(())
    }

    /// Moves every element of `other` to the back of `self`, leaving `other`
    /// empty.
    pub fn try_append(&mut self, other: &mut Self) -> (r: Result<(), Error>)
        requires
            old(self).wf(),
            old(other).wf(),
        ensures
            final(self).wf(),
            final(other).wf(),
            r is Ok <==> old(self)@.len() + old(other)@.len() <= usize::MAX,
            r is Ok ==> final(self)@ == old(self)@ + old(other)@ && final(other)@ == Seq::<T>::empty(),
            r is Err ==> final(self)@ == old(self)@ && final(other)@ == old(other)@ && r
                == Err::<(), Error>(Error::CapacityOverflow),
    {
        if other.len > usize::MAX - self.len {
            return Err(Error::CapacityOverflow);
        }
        let ghost a = self@;
        let ghost b = other@;
        let n = other.len;
        let mut k: usize = 0;
        while k < n
            invariant
                self.wf(),
                other.wf(),
                n == b.len(),
                a.len() + b.len() <= usize::MAX,
                k <= n,
                self@ == a + b.subrange(0, k as int),
                other@ == b.subrange(k as int, n as int),
            decreases n - k,
        {
            let x = other.pop_front();
            match x {
                Some(v) => {
                    let _ = self.try_push_back(v);
                },
                None => {},
            }
            proof {
                assert(b.subrange(0, k as int).push(b[k as int]) =~= b.subrange(0, k + 1));
                assert(b.subrange(k as int, n as int).drop_first() =~= b.subrange(k + 1, n as int));
                assert((a + b.subrange(0, k as int)).push(b[k as int]) =~= a + b.subrange(0, k + 1));
            }
            k += 1;
        }
        assert(b.subrange(0, n as int) =~= b);
        assert(b.subrange(n as int, n as int) =~= Seq::<T>::empty());
        Ok(())
    }

    /// Splits the deque at `at`: `self` keeps the elements before it and the
    /// rest are returned.
    pub fn try_split_off(&mut self, at: usize) -> (r: Result<Self, Error>)
        requires
            old(self).wf(),
            at <= old(self)@.len(),
        ensures
            final(self).wf(),
            r matches Ok(tail) && tail.wf() && tail@ == old(self)@.subrange(at as int, old(self)@.len() as int)
                && final(self)@ == old(self)@.subrange(0, at as int),
    {
        let ghost s = self@;
        let mut tail: VecDeque<T> = VecDeque::new();
        let n = self.len;
        while self.len > at
            invariant
                self.wf(),
                tail.wf(),
                at <= self@.len() <= n == s.len(),
                self@ == s.subrange(0, self@.len() as int),
                tail@ == s.subrange(self@.len() as int, n as int),
            decreases self.len,
        {
            let ghost l = self@.len();
            let x = self.pop_back();
            match x {
                Some(v) => {
                    let _ = tail.try_push_front(v);
                },
                None => {},
            }
            proof {
                assert(s.subrange(0, l as int).drop_last() =~= s.subrange(0, l - 1));
                assert(seq![s[l - 1]] + s.subrange(l as int, n as int) =~= s.subrange(l - 1, n as int));
            }
        }
        Ok(tail)
    }
}

/// Element-wise equality of two value sequences from index `i` on:
/// unequal lengths or an unequal pair give `false`, the first failing
/// comparison decides, and a pair that only a protocol handler can compare
/// is handed out with its index (the caller resumes after it).
pub open spec fn values_eq_from(a: Seq<Value>, b: Seq<Value>, p: Seq<ProtocolFn>, i: int) -> Result<Answer<bool>, ValueError>
    decreases a.len() - i,
{
    if i < 0 || i >= a.len() {
        Ok(Answer::Done(b.len() <= a.len()))
    } else if i >= b.len() {
        Ok(Answer::Done(false))
    } else {
        match partial_eq_answer(a[i], b[i], p) {
            Err(e) => Err(e),
            Ok(Answer::Done(false)) => Ok(Answer::Done(false)),
            Ok(Answer::Done(true)) => values_eq_from(a, b, p, i + 1),
            Ok(Answer::Call { offset, receiver, other, .. }) => Ok(Answer::Call { offset, receiver, other, index: i as usize }),
        }
    }
}

/// Lexicographic order of two value sequences from index `i` on; a pair
/// that only a protocol handler can order is handed out with its index.
pub open spec fn values_cmp_from(a: Seq<Value>, b: Seq<Value>, p: Seq<ProtocolFn>, i: int) -> Result<Answer<Option<std::cmp::Ordering>>, ValueError>
    decreases a.len() - i,
{
    if i < 0 || i >= a.len() {
        Ok(Answer::Done(Some(if b.len() > a.len() { std::cmp::Ordering::Less } else { std::cmp::Ordering::Equal })))
    } else if i >= b.len() {
        Ok(Answer::Done(Some(std::cmp::Ordering::Greater)))
    } else {
        match partial_cmp_answer(a[i], b[i], p) {
            Err(e) => Err(e),
            Ok(Answer::Done(Some(std::cmp::Ordering::Equal))) => values_cmp_from(a, b, p, i + 1),
            Ok(Answer::Done(o)) => Ok(Answer::Done(o)),
            Ok(Answer::Call { offset, receiver, other, .. }) => Ok(Answer::Call { offset, receiver, other, index: i as usize }),
        }
    }
}

/// A lexicographic comparison of values that answers outright gives an
/// order.
pub proof fn lemma_values_cmp_answers(a: Seq<Value>, b: Seq<Value>, p: Seq<ProtocolFn>, i: int)
    ensures
        values_cmp_from(a, b, p, i) != Ok::<Answer<Option<std::cmp::Ordering>>, ValueError>(Answer::Done(Option::None)),
    decreases a.len() - i,
{
    if 0 <= i < a.len() && i < b.len() {
        lemma_values_cmp_answers(a, b, p, i + 1);
    }
}

impl VecDeque<Value> {
    /// Whether two deques of values are equal element by element, from
    /// position `start` on.
    pub fn partial_eq_with(&self, other: &Self, protocols: &Vec<ProtocolFn>, start: usize) -> (r: Result<Answer<bool>, ValueError>)
        requires
            self.wf(),
            other.wf(),
        ensures
            r == values_eq_from(self@, other@, protocols@, start as int),
    {
        let mut i: usize = start;
        while i < self.len
            invariant
                self.wf(),
                other.wf(),
                start <= i,
                values_eq_from(self@, other@, protocols@, start as int) == values_eq_from(self@, other@, protocols@, i as int),
            decreases self.len - i,
        {
            if i >= other.len {
                return Ok(Answer::Done(false));
            }
            match (self.get(i), other.get(i)) {
                (Some(a), Some(b)) => match partial_eq_with(a, b, protocols) {
                    Err(e) => {
                        return Err(e);
                    },
                    Ok(Answer::Done(false)) => {
                        return Ok(Answer::Done(false));
                    },
                    Ok(Answer::Done(true)) => {},
                    Ok(Answer::Call { offset, receiver, other, .. }) => {
                        return Ok(Answer::Call { offset, receiver, other, index: i });
                    },
                },
                _ => {},
            }
            i += 1;
        }
        Ok(Answer::Done(other.len <= self.len))
    }

    /// Whether two deques of values are equal element by element, for
    /// kinds with total equality.
    pub fn eq_with(&self, other: &Self, protocols: &Vec<ProtocolFn>, start: usize) -> (r: Result<Answer<bool>, ValueError>)
        requires
            self.wf(),
            other.wf(),
        ensures
            r == values_eq_from(self@, other@, protocols@, start as int),
    {
        self.partial_eq_with(other, protocols, start)
    }

    /// How two deques of values order, lexicographically, from position
    /// `start` on.
    pub fn partial_cmp_with(&self, other: &Self, protocols: &Vec<ProtocolFn>, start: usize) -> (r: Result<Answer<Option<std::cmp::Ordering>>, ValueError>)
        requires
            self.wf(),
            other.wf(),
        ensures
            r == values_cmp_from(self@, other@, protocols@, start as int),
    {
        let mut i: usize = start;
        while i < self.len
            invariant
                self.wf(),
                other.wf(),
                start <= i,
                values_cmp_from(self@, other@, protocols@, start as int) == values_cmp_from(self@, other@, protocols@, i as int),
            decreases self.len - i,
        {
            if i >= other.len {
                return Ok(Answer::Done(Some(std::cmp::Ordering::Greater)));
            }
            match (self.get(i), other.get(i)) {
                (Some(a), Some(b)) => match partial_cmp_with(a, b, protocols) {
                    Err(e) => {
                        return Err(e);
                    },
                    Ok(Answer::Done(Some(std::cmp::Ordering::Equal))) => {},
                    Ok(Answer::Done(o)) => {
                        return Ok(Answer::Done(o));
                    },
                    Ok(Answer::Call { offset, receiver, other, .. }) => {
                        return Ok(Answer::Call { offset, receiver, other, index: i });
                    },
                },
                _ => {},
            }
            i += 1;
        }
        if other.len > self.len {
            Ok(Answer::Done(Some(std::cmp::Ordering::Less)))
        } else {
            Ok(Answer::Done(Some(std::cmp::Ordering::Equal)))
        }
    }

    /// How two deques of values order, for kinds with a total order.
    pub fn cmp_with(&self, other: &Self, protocols: &Vec<ProtocolFn>, start: usize) -> (r: Result<Answer<std::cmp::Ordering>, ValueError>)
        requires
            self.wf(),
            other.wf(),
        ensures
            values_cmp_from(self@, other@, protocols@, start as int) matches Ok(a) ==> r == Ok::<Answer<std::cmp::Ordering>, ValueError>(
                match a {
                    Answer::Done(o) => Answer::Done(o->0),
                    Answer::Call { offset, receiver, other, index } => Answer::Call { offset, receiver, other, index },
                },
            ),
            values_cmp_from(self@, other@, protocols@, start as int) matches Err(e) ==> r == Err::<Answer<std::cmp::Ordering>, ValueError>(e),
    {
        proof {
            lemma_values_cmp_answers(self@, other@, protocols@, start as int);
        }
        match self.partial_cmp_with(other, protocols, start) {
            Ok(Answer::Done(Some(o))) => Ok(Answer::Done(o)),
            // Never reached: a comparison that answers outright gives an order.
            Ok(Answer::Done(None)) => Ok(Answer::Done(std::cmp::Ordering::Equal)),
            Ok(Answer::Call { offset, receiver, other, index }) => Ok(Answer::Call { offset, receiver, other, index }),
            Err(e) => Err(e),
        }
    }
}

/// Pushing an element at either end and popping it from the same end gives
/// back the deque as it was.
pub proof fn lemma_push_pop_same_end<T>(s: Seq<T>, x: T)
    ensures
        s.push(x).last() == x,
        s.push(x).drop_last() == s,
        (seq![x] + s)[0] == x,
        (seq![x] + s).drop_first() == s,
{
    assert(s.push(x).drop_last() =~= s);
    assert((seq![x] + s).drop_first() =~= s);
}

/// A deque used from back to front is a queue: what is pushed at the back
/// comes out at the front after what was there before, and what is pushed at
/// the front comes out at the back after what was there before.
pub proof fn lemma_queue_order<T>(s: Seq<T>, x: T)
    ensures
        s.len() > 0 ==> s.push(x)[0] == s[0] && s.push(x).drop_first() == s.drop_first().push(x),
        s.len() == 0 ==> s.push(x)[0] == x,
        s.len() > 0 ==> (seq![x] + s).last() == s.last() && (seq![x] + s).drop_last() == seq![x]
            + s.drop_last(),
        s.len() == 0 ==> (seq![x] + s).last() == x,
{
    if s.len() > 0 {
        assert(s.push(x).drop_first() =~= s.drop_first().push(x));
        assert((seq![x] + s).drop_last() =~= seq![x] + s.drop_last());
    }
}

/// Rotating left by `k` and then right by `k` restores the deque, and so does
/// the other order.
pub proof fn lemma_rotate_inverse<T>(s: Seq<T>, k: int)
    requires
        0 <= k <= s.len(),
    ensures
        rotated_right(rotated_left(s, k), k) == s,
        rotated_left(rotated_right(s, k), k) == s,
{
    assert(rotated_right(rotated_left(s, k), k) =~= s);
    assert(rotated_left(rotated_right(s, k), k) =~= s);
}

/// Whether `s` is in ascending order.
pub open spec fn sorted(s: Seq<u64>) -> bool {
    forall|i: int, j: int| 0 <= i < j < s.len() ==> s[i] <= s[j]
}

/// On integers, what `binary_search` reports is exact: `Ok(i)` finds an
/// element equal to `x`, and with `Err(i)` inserting `x` at `i` keeps a
/// sorted deque sorted.
pub proof fn lemma_binary_search_result(s: Seq<u64>, x: u64, i: int)
    requires
        sorted(s),
        0 <= i <= s.len(),
        i > 0 ==> s[i - 1].cmp_spec(&x) == std::cmp::Ordering::Less,
        i < s.len() ==> s[i].cmp_spec(&x) == std::cmp::Ordering::Greater,
    ensures
        sorted(s.insert(i, x)),
{
    let t = s.insert(i, x);
    assert forall|a: int, b: int| 0 <= a < b < t.len() implies t[a] <= t[b] by {
        if a < i && b > i {
            assert(s[a] <= s[i - 1]);
        } else if a == i && b > i {
            assert(s[i] <= s[b - 1]);
        }
    }
}

/// On integers, an element that compares equal to `x` is `x`.
pub proof fn lemma_binary_search_found(s: Seq<u64>, x: u64, i: int)
    requires
        0 <= i < s.len(),
        s[i].cmp_spec(&x) == std::cmp::Ordering::Equal,
    ensures
        s[i] == x,
{
}

} // verus!
