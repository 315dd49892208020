//! `CircularBuffer<T, N>`: at most `N` elements, oldest evicted first.
//!
//! The backing store holds up to `2 * N` slots. The active elements always
//! form one contiguous run `[start, start + size)`, so the window can be
//! handed out as a single slice. When the run reaches the end of the store
//! it is copied down to index 0; on a full window this happens once every
//! `N` pushes, which keeps `push` O(1) amortized. The cost is doubled
//! storage, which is acceptable because `N` is small and fixed.
use vstd::prelude::*;
use vstd::slice::slice_subrange;

verus! {

/// The window after pushing `v` onto `s` with capacity `n`: `v` is appended,
/// and when `s` already held `n` elements the oldest one is dropped.
pub open spec fn pushed<T>(s: Seq<T>, v: T, n: nat) -> Seq<T> {
    if s.len() < n {
        s.push(v)
    } else {
        s.push(v).drop_first()
    }
}

/// `after` is `before` with `f` applied to each element and the element of
/// `other` of the same age rank, for as many ranks as both have; the rest of
/// `before` is kept as it was.
pub open spec fn zip_applied<T, U, F: Fn(T, U) -> T>(
    before: Seq<T>,
    other: Seq<U>,
    f: F,
    after: Seq<T>,
) -> bool {
    &&& after.len() == before.len()
    &&& forall|i: int|
        0 <= i < before.len() && i < other.len() ==> f.ensures((before[i], other[i]), #[trigger] after[i])
    &&& forall|i: int| other.len() <= i < before.len() ==> #[trigger] after[i] == before[i]
}

/// The window that a fresh buffer of capacity `n` holds after `xs` was
/// pushed onto it in order.
pub open spec fn pushed_all<T>(xs: Seq<T>, n: nat) -> Seq<T>
    decreases xs.len(),
{
    if xs.len() == 0 {
        Seq::empty()
    } else {
        pushed(pushed_all(xs.drop_last(), n), xs.last(), n)
    }
}

/// The last `min(n, xs.len())` elements of `xs`, in order.
pub open spec fn last_n<T>(xs: Seq<T>, n: nat) -> Seq<T> {
    if xs.len() <= n {
        xs
    } else {
        xs.subrange(xs.len() - n, xs.len() as int)
    }
}

/// After any pushes onto a fresh buffer, the window is exactly the last
/// `min(N, k)` values pushed, oldest first.
pub proof fn lemma_window_is_last_pushed<T>(xs: Seq<T>, n: nat)
    requires
        1 <= n,
    ensures
        pushed_all(xs, n) == last_n(xs, n),
        pushed_all(xs, n).len() == if xs.len() <= n { xs.len() } else { n },
    decreases xs.len(),
{
    if xs.len() > 0 {
        lemma_window_is_last_pushed(xs.drop_last(), n);
        let prev = pushed_all(xs.drop_last(), n);
        assert(xs.drop_last().push(xs.last()) =~= xs);
        if xs.len() <= n {
            assert(pushed_all(xs, n) =~= xs);
        } else {
            assert(pushed_all(xs, n) =~= xs.subrange(xs.len() - n, xs.len() as int));
        }
    }
}

/// With capacity one, the window after any pushes holds at most one element,
/// and that element is the most recent value pushed.
pub proof fn lemma_single_slot_keeps_newest<T>(xs: Seq<T>)
    ensures
        pushed_all(xs, 1).len() <= 1,
        xs.len() > 0 ==> pushed_all(xs, 1) == seq![xs.last()],
{
    lemma_window_is_last_pushed(xs, 1);
    if xs.len() > 0 {
        assert(last_n(xs, 1) =~= seq![xs.last()]);
    }
}

/// A combinator that hands back its first argument leaves the window as it
/// was.
pub proof fn lemma_zip_with_no_op<T, U, F: Fn(T, U) -> T>(
    before: Seq<T>,
    other: Seq<U>,
    f: F,
    after: Seq<T>,
)
    requires
        zip_applied(before, other, f, after),
        forall|x: T, y: U, r: T| f.ensures((x, y), r) ==> r == x,
    ensures
        after == before,
{
    assert forall|i: int| 0 <= i < before.len() implies after[i] == before[i] by {
        if i < other.len() {
            assert(f.ensures((before[i], other[i]), after[i]));
        }
    }
    assert(after =~= before);
}

pub struct CircularBuffer<T, const N: usize> {
    buffer: Vec<T>,
    start: usize,
    size: usize,
}

impl<T, const N: usize> View for CircularBuffer<T, N> {
    type V = Seq<T>;

    /// The active elements, oldest first.
    closed spec fn view(&self) -> Seq<T> {
        self.buffer@.subrange(self.start as int, self.start + self.size)
    }
}

impl<T: Copy, const N: usize> CircularBuffer<T, N> {
    /// The store never outgrows `2 * N` slots, and the active run always
    /// ends strictly before slot `2 * N`, so the next write has room.
    pub closed spec fn wf(&self) -> bool {
        &&& 1 <= N
        &&& N <= usize::MAX / 2
        &&& self.size <= N
        &&& self.buffer@.len() <= 2 * N
        &&& self.start + self.size <= self.buffer@.len()
        &&& self.start + self.size < 2 * N
    }

    /// Slot of the store that holds the oldest element.
    pub closed spec fn offset(&self) -> nat {
        self.start as nat
    }

    /// A well-formed window holds at most `N` elements, and its run ends
    /// before slot `2 * N`.
    pub proof fn lemma_len_bounded(&self)
        requires
            self.wf(),
        ensures
            self@.len() <= N,
            self.offset() + self@.len() < 2 * N,
            1 <= N <= usize::MAX / 2,
    {
    }

    pub fn new() -> (r: Self)
        requires
            1 <= N <= usize::MAX / 2,
        ensures
            r.wf(),
            r@ == Seq::<T>::empty(),
            r.offset() == 0,
    {
        let r = CircularBuffer { buffer: Vec::new(), start: 0, size: 0 };
        assert(r@ =~= Seq::<T>::empty());
        r
    }

    pub fn is_full(&self) -> (r: bool)
        requires
            self.wf(),
        ensures
            r == (self@.len() == N),
    {
        self.size == N
    }

    /// The oldest element, if any.
    pub fn last(&self) -> (r: Option<T>)
        requires
            self.wf(),
        ensures
            r == (if self@.len() == 0 { None } else { Some(self@[0]) }),
    {
        if self.size == 0 {
            None
        } else {
            Some(self.buffer[self.start])
        }
    }

    /// The most recently pushed element, if any.
    pub fn head(&self) -> (r: Option<T>)
        requires
            self.wf(),
        ensures
            r == (if self@.len() == 0 { None } else { Some(self@.last()) }),
    {
        if self.size == 0 {
            None
        } else {
            Some(self.buffer[self.end() - 1])
        }
    }

    /// Moves the active run down so that it starts at slot 0.
    fn shift_start(&mut self)
        requires
            1 <= N <= usize::MAX / 2,
            old(self).size <= N,
            old(self).start + old(self).size <= old(self).buffer@.len() <= 2 * N,
        ensures
            final(self).start == 0,
            final(self).size == old(self).size,
            final(self).buffer@.len() == old(self).buffer@.len(),
            final(self)@ == old(self)@,
    {
        let ghost orig = self.buffer@;
        let start = self.start;
        let size = self.size;
        let mut i: usize = 0;
        while i < size
            invariant
                start + size <= orig.len(),
                orig.len() <= 2 * N,
                N <= usize::MAX / 2,
                self.buffer@.len() == orig.len(),
                self.start == start,
                self.size == size,
                i <= size,
                forall|j: int| 0 <= j < i ==> self.buffer@[j] == orig[start + j],
                forall|j: int| i <= j < orig.len() ==> self.buffer@[j] == orig[j],
            decreases size - i,
        {
            let v = self.buffer[start + i];
            self.buffer.set(i, v);
            i = i + 1;
        }
        self.start = 0;
        assert(self@ =~= old(self)@);
    }

    /// Index of the slot that the next push writes.
    fn end(&self) -> (r: usize)
        requires
            self.wf(),
        ensures
            r == self.start + self.size,
    {
        self.start + self.size
    }

    /// Appends `value`; on a full window the oldest element is evicted.
    /// When the run reaches the end of the store it is copied down, so that
    /// the oldest element sits in slot 0 again.
    pub fn push(&mut self, value: T)
        requires
            old(self).wf(),
        ensures
            final(self).wf(),
            final(self)@ == pushed(old(self)@, value, N as nat),
            final(self).offset() + final(self)@.len() < 2 * N,
            final(self).offset() == (if old(self).offset() + old(self)@.len() + 1 >= 2 * N {
                0
            } else if old(self)@.len() == N {
                old(self).offset() + 1
            } else {
                old(self).offset()
            }),
    {
        let end = self.end();
        if end == self.buffer.len() {
            self.buffer.push(value);
        } else {
            self.buffer.set(end, value);
        }
        assert(self.buffer@.subrange(old(self).start as int, end + 1) =~= old(self)@.push(value));
        if self.size == N {
            self.start = self.start + 1;
        }
        if self.size < N {
            self.size = self.size + 1;
        }
        assert(self@ =~= pushed(old(self)@, value, N as nat));
        if self.start + self.size >= 2 * N {
            self.shift_start();
        }
    }

    /// A fresh cursor over the window, oldest first.
    pub fn into_iter<'a>(&'a self) -> (r: CircularBufferIter<'a, T, N>)
        requires
            self.wf(),
        ensures
            r.source() == *self,
            r.position() == 0,
    {
        CircularBufferIter { buffer: self, index: 0 }
    }

    /// Applies `f` to the oldest element of `self` and the oldest of `other`,
    /// then to the next oldest of each, and so on until either runs out. The
    /// element of `self` is replaced by what `f` returns.
    pub fn zip_with<U: Copy, const M: usize, F: Fn(T, U) -> T>(
        &mut self,
        other: &CircularBuffer<U, M>,
        f: F,
    )
        requires
            old(self).wf(),
            other.wf(),
            forall|i: int|
                0 <= i < old(self)@.len() && i < other@.len() ==> f.requires(
                    (#[trigger] old(self)@[i], other@[i]),
                ),
        ensures
            final(self).wf(),
            zip_applied(old(self)@, other@, f, final(self)@),
    {
        let n: usize = if self.size < other.size {
            self.size
        } else {
            other.size
        };
        let ghost before = self@;
        let mut i: usize = 0;
        while i < n
            invariant
                self.wf(),
                other.wf(),
                n <= self.size,
                n <= other.size,
                n == before.len() || n == other@.len(),
                self.start == old(self).start,
                self.size == old(self).size,
                self@.len() == before.len(),
                before == old(self)@,
                i <= n,
                forall|j: int|
                    0 <= j < before.len() && j < other@.len() ==> f.requires(
                        (#[trigger] before[j], other@[j]),
                    ),
                forall|j: int| 0 <= j < i ==> f.ensures((before[j], other@[j]), #[trigger] self@[j]),
                forall|j: int| i <= j < before.len() ==> #[trigger] self@[j] == before[j],
            decreases n - i,
        {
            let k = self.start + i;
            let a = self.buffer[k];
            let b = other.buffer[other.start + i];
            assert(self@[i as int] == a);
            assert(other@[i as int] == b);
            let v = f(a, b);
            let ghost prev = self@;
            self.buffer.set(k, v);
            assert(self@ =~= prev.update(i as int, v));
            i = i + 1;
        }
    }

    /// The active elements as one slice, oldest first.
    pub fn as_slice(&self) -> (r: &[T])
        requires
            self.wf(),
        ensures
            r@ == self@,
    {
        slice_subrange(self.buffer.as_slice(), self.start, self.end())
    }
}

/// A cursor over a `CircularBuffer`, oldest element first. It borrows the
/// buffer, so no push can happen while it is alive.
pub struct CircularBufferIter<'a, T, const N: usize> {
    pub buffer: &'a CircularBuffer<T, N>,
    index: usize,
}

impl<'a, T: Copy, const N: usize> CircularBufferIter<'a, T, N> {
    /// How many elements the cursor has handed out.
    pub closed spec fn position(&self) -> nat {
        self.index as nat
    }

    /// The buffer that the cursor walks.
    pub closed spec fn source(&self) -> CircularBuffer<T, N> {
        *self.buffer
    }

    pub fn next(&mut self) -> (r: Option<T>)
        requires
            old(self).source().wf(),
        ensures
            final(self).source() == old(self).source(),
            old(self).position() < old(self).source()@.len() ==> {
                &&& r == Some(old(self).source()@[old(self).position() as int])
                &&& final(self).position() == old(self).position() + 1
            },
            old(self).position() >= old(self).source()@.len() ==> {
                &&& r == None::<T>
                &&& final(self).position() == old(self).position()
            },
    {
        if self.buffer.size == 0 || self.index >= self.buffer.size {
            None
        } else {
            let index = self.buffer.start + self.index;
            self.index = self.index + 1;
            Some(self.buffer.buffer[index])
        }
    }
}

} // verus!
