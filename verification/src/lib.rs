//! A multi-read ring buffer.
//!
//! `WheelBuf` is a fixed-capacity circular buffer without a read pointer:
//! pushes overwrite the oldest entry once the buffer is full, and any number
//! of independent iterators may traverse the currently live items, oldest to
//! newest. The buffer performs no allocation of its own beyond the backing
//! vector handed to it at construction; its capacity is the length of that
//! vector and never changes.

use vstd::math::min;
use vstd::prelude::*;

verus! {

/// A multi-read ring buffer over a caller-supplied backing vector.
///
/// The capacity is the length of the backing vector, fixed at construction.
/// Once `capacity` items have been pushed, each further push silently
/// overwrites the oldest live item; that is the defining behavior of the
/// structure, not an error.
#[derive(Debug)]
pub struct WheelBuf<I> {
    /// Backing store; its length is the capacity and never changes.
    data: Vec<I>,

    /// Next slot to be overwritten.
    pos: usize,

    /// Total items ever pushed.
    total: usize,
}

impl<I> WheelBuf<I> {
    /// Capacity of the buffer: the length of the backing store.
    pub closed spec fn spec_capacity(self) -> nat {
        self.data@.len()
    }

    /// Total number of pushes ever performed.
    pub closed spec fn spec_total(self) -> nat {
        self.total as nat
    }

    /// Number of live items: the total pushed, saturated at the capacity.
    pub open spec fn spec_len(self) -> nat {
        min(self.spec_total() as int, self.spec_capacity() as int) as nat
    }

    /// Structural invariant: while the buffer is filling for the first time
    /// the write position equals the total pushed; afterwards it stays below
    /// the capacity. A zero-capacity buffer keeps the position at zero.
    pub closed spec fn wf(self) -> bool {
        &&& self.data@.len() == 0 ==> self.pos == 0
        &&& self.data@.len() > 0 ==> (if self.total < self.data@.len() {
            self.pos == self.total
        } else {
            self.pos < self.data@.len()
        })
    }
}

/// The live items after one push: the new item is appended, and if the
/// buffer was already full the oldest item falls off the front.
pub open spec fn push_live<I>(cap: nat, live: Seq<I>, item: I) -> Seq<I> {
    if live.len() < cap {
        live.push(item)
    } else {
        live.push(item).skip(1)
    }
}

/// The live items after pushing every element of `items` in order into a
/// buffer of capacity `cap` whose live items were `live`.
pub open spec fn push_all<I>(cap: nat, live: Seq<I>, items: Seq<I>) -> Seq<I>
    decreases items.len(),
{
    if items.len() == 0 {
        live
    } else {
        push_live(cap, push_all(cap, live, items.drop_last()), items.last())
    }
}

impl<I> View for WheelBuf<I> {
    type V = Seq<I>;

    /// The live items, oldest to newest. Before the buffer has filled once,
    /// these are the first `total` slots; afterwards they are the backing
    /// store rotated so that the slot about to be overwritten comes first.
    closed spec fn view(&self) -> Seq<I> {
        if (self.total as nat) < self.data@.len() {
            self.data@.take(self.total as int)
        } else {
            self.data@.skip(self.pos as int) + self.data@.take(self.pos as int)
        }
    }
}

impl<I> WheelBuf<I> {
    /// Creates a new buffer over `data`.
    ///
    /// The length of `data` determines the capacity; the current contents of
    /// `data` are never exposed, only slots that a push has written.
    pub fn new(data: Vec<I>) -> (r: WheelBuf<I>)
        ensures
            r.wf(),
            r.spec_capacity() == data@.len(),
            r.spec_total() == 0,
            r@ == Seq::<I>::empty(),
    {
        let r = WheelBuf { data, pos: 0, total: 0 };
        proof {
            assert(r@ =~= Seq::<I>::empty());
        }
        r
    }

    /// Total number of entries ever pushed.
    ///
    /// A non-resetting counter, including items already overwritten; callers
    /// can compare it against `capacity` to detect overwrites externally.
    pub fn total(&self) -> (r: usize)
        ensures
            r as nat == self.spec_total(),
    {
        self.total
    }

    /// Capacity of the buffer, always equal to the length of the backing
    /// store it was constructed over.
    pub fn capacity(&self) -> (r: usize)
        ensures
            r as nat == self.spec_capacity(),
    {
        self.data.len()
    }

    /// Number of items currently in the buffer.
    pub fn len(&self) -> (r: usize)
        requires
            self.wf(),
        ensures
            r as nat == self.spec_len(),
            r as nat == self@.len(),
    {
        let c = self.data.len();
        if self.total < c {
            self.total
        } else {
            c
        }
    }

    /// Adds an item to the buffer, overwriting the oldest live item once the
    /// buffer is full.
    ///
    /// Pushing into a zero-capacity buffer is disallowed by precondition:
    /// there is no slot the item could occupy.
    pub fn push(&mut self, item: I)
        requires
            old(self).wf(),
            old(self).spec_capacity() > 0,
            old(self).spec_total() < usize::MAX,
        ensures
            final(self).wf(),
            final(self).spec_capacity() == old(self).spec_capacity(),
            final(self).spec_total() == old(self).spec_total() + 1,
            final(self)@ == push_live(old(self).spec_capacity(), old(self)@, item),
    {
        let cap = self.data.len();
        self.data[self.pos] = item;
        self.total = self.total + 1;
        self.pos = (self.pos + 1) % cap;
        proof {
            lemma_push_view(*old(self), *self, item);
        }
    }

    /// Creates an iterator over the currently live items, oldest first.
    ///
    /// Creating an iterator has no side effect on the buffer; any number may
    /// exist at the same time, each with its own cursor.
    pub fn iter(&self) -> (r: WheelBufIter<'_, I>)
        ensures
            r.buf() == *self,
            r.cursor() == 0,
    {
        WheelBufIter { buffer: self, cur: 0 }
    }

    /// Physical index of the oldest live item: the write position once the
    /// buffer has filled, slot zero before that.
    fn read_start(&self) -> (r: usize)
        requires
            self.wf(),
            self.spec_capacity() > 0,
        ensures
            r as int == if self.spec_total() >= self.spec_capacity() {
                self.pos as int
            } else {
                0
            },
    {
        let l = self.len();
        let c = self.data.len();
        proof {
            if self.spec_total() >= self.spec_capacity() {
                assert(l as int % c as int == 0) by (nonlinear_arith)
                    requires
                        l == c,
                        c > 0,
                ;
            } else {
                assert(l as int % c as int == l as int) by (nonlinear_arith)
                    requires
                        0 <= l < c,
                ;
            }
        }
        self.pos - (l % c)
    }

    /// Returns `true` if there is no live item in the buffer.
    pub fn is_empty(&self) -> (r: bool)
        requires
            self.wf(),
        ensures
            r == (self@.len() == 0),
            r == (self.spec_total() == 0 || self.spec_capacity() == 0),
    {
        self.total == 0 || self.data.len() == 0
    }
}

impl WheelBuf<char> {
    /// Appends a chunk of text, pushing each of its characters in order.
    ///
    /// Every character offered is pushed; once the buffer is full each
    /// further character overwrites the oldest live one, so the append never
    /// fails part-way. Like `push`, it asks for a positive capacity whenever
    /// there is at least one character to place.
    pub fn write_str(&mut self, s: &str)
        requires
            old(self).wf(),
            s@.len() > 0 ==> old(self).spec_capacity() > 0,
            old(self).spec_total() + s@.len() <= usize::MAX,
        ensures
            final(self).wf(),
            final(self).spec_capacity() == old(self).spec_capacity(),
            final(self).spec_total() == old(self).spec_total() + s@.len(),
            final(self)@ == push_all(old(self).spec_capacity(), old(self)@, s@),
    {
        let ghost init = *self;
        let n = s.unicode_len();
        let mut i: usize = 0;
        while i < n
            invariant
                i <= n,
                n as nat == s@.len(),
                self.wf(),
                self.spec_capacity() == init.spec_capacity(),
                i < n ==> self.spec_capacity() > 0,
                init.spec_total() + s@.len() <= usize::MAX,
                self.spec_total() == init.spec_total() + i,
                self@ == push_all(init.spec_capacity(), init@, s@.take(i as int)),
            decreases n - i,
        {
            let c = s.get_char(i);
            self.push(c);
            proof {
                assert(s@.take(i + 1 as int).drop_last() =~= s@.take(i as int));
                assert(s@.take(i + 1 as int).last() == s@[i as int]);
            }
            i = i + 1;
        }
        proof {
            assert(s@.take(n as int) =~= s@);
        }
    }
}

/// Iterator over the live items of a [`WheelBuf`], oldest to newest.
///
/// Any number of these may exist at once; each tracks its own cursor and
/// never mutates the buffer. It is single-pass: once exhausted it keeps
/// reporting end-of-sequence.
#[derive(Debug)]
pub struct WheelBufIter<'a, I> {
    buffer: &'a WheelBuf<I>,
    cur: usize,
}

/// The item a cursor at `cur` would yield from the live sequence `live`,
/// or `None` once the cursor has passed the end.
pub open spec fn yielded_at<I>(live: Seq<I>, cur: nat) -> Option<I> {
    if cur < live.len() {
        Some(live[cur as int])
    } else {
        None
    }
}

/// The cursor after one single-step advance: it moves only while items
/// remain, so an exhausted iterator stays exhausted.
pub open spec fn next_cursor(len: nat, cur: nat) -> nat {
    if cur < len {
        cur + 1
    } else {
        cur
    }
}

/// The cursor after a bulk-skip by `n`: for a positive `n` the advance is
/// clamped so the cursor never overshoots the end by more than it already
/// had; a skip by zero leaves the cursor alone.
pub open spec fn skip_cursor(len: nat, cur: nat, n: nat) -> nat {
    if n == 0 {
        cur
    } else {
        min(cur + min(n as int, len as int), len as int) as nat
    }
}

/// The cursor after `n` single-step advances.
pub open spec fn cursor_after_steps(len: nat, cur: nat, n: nat) -> nat
    decreases n,
{
    if n == 0 {
        cur
    } else {
        cursor_after_steps(len, next_cursor(len, cur), (n - 1) as nat)
    }
}

/// The value behind an optional reference, for stating what an iterator
/// step returned.
pub open spec fn copied<I>(r: Option<&I>) -> Option<I> {
    match r {
        Some(v) => Some(*v),
        None => None,
    }
}

impl<'a, I> WheelBufIter<'a, I> {
    /// The buffer this iterator reads from.
    pub closed spec fn buf(self) -> WheelBuf<I> {
        *self.buffer
    }

    /// The iterator's current logical offset among the live items.
    pub closed spec fn cursor(self) -> nat {
        self.cur as nat
    }

    /// An iterator is valid whenever its buffer is.
    pub open spec fn wf(self) -> bool {
        self.buf().wf()
    }

    /// Yields the next live item, oldest first, or `None` once every live
    /// item has been yielded. Exhaustion is idempotent: after the first
    /// `None` the cursor no longer moves and every further call returns
    /// `None` again.
    pub fn next(&mut self) -> (r: Option<&'a I>)
        requires
            old(self).wf(),
        ensures
            final(self).buf() == old(self).buf(),
            copied(r) == yielded_at(old(self).buf()@, old(self).cursor()),
            final(self).cursor() == next_cursor(old(self).buf()@.len(), old(self).cursor()),
    {
        let buffer = self.buffer;
        let len = buffer.len();
        if self.cur >= len {
            return None;
        }
        let cur = self.cur;
        self.cur = cur + 1;
        let start = buffer.read_start();
        let cap = buffer.capacity();
        // The cursor wraps around the end of the store; comparing first keeps
        // the sum `start + cur` from ever exceeding the machine word.
        let idx = if cur < cap - start {
            start + cur
        } else {
            cur - (cap - start)
        };
        Some(&buffer.data[idx])
    }

    /// Advances the cursor by `n` in one step, clamped to the number of live
    /// items so it cannot overrun, then yields the next item. A skip by zero
    /// is a plain single-step advance.
    pub fn nth(&mut self, n: usize) -> (r: Option<&'a I>)
        requires
            old(self).wf(),
        ensures
            final(self).buf() == old(self).buf(),
            copied(r) == yielded_at(
                old(self).buf()@,
                skip_cursor(old(self).buf()@.len(), old(self).cursor(), n as nat),
            ),
            final(self).cursor() == next_cursor(
                old(self).buf()@.len(),
                skip_cursor(old(self).buf()@.len(), old(self).cursor(), n as nat),
            ),
    {
        let len = self.buffer.len();
        if n > 0 {
            let step = if n < len {
                n
            } else {
                len
            };
            self.cur = if self.cur >= len || step >= len - self.cur {
                len
            } else {
                self.cur + step
            };
        }
        self.next()
    }
}

/// After any sequence of pushes into a fresh buffer of positive capacity,
/// the live items are exactly the most recent pushes, oldest first: the
/// whole history while it still fits, and its last `cap` entries once it no
/// longer does. In particular nothing is ever reordered, duplicated or
/// dropped from that suffix, and after `cap + 1` pushes the first push is
/// gone.
pub proof fn lemma_fill_is_recent_suffix<I>(cap: nat, items: Seq<I>)
    requires
        cap > 0,
    ensures
        push_all(cap, Seq::<I>::empty(), items) =~= items.skip(
            if items.len() <= cap {
                0
            } else {
                items.len() - cap
            },
        ),
    decreases items.len(),
{
    if items.len() > 0 {
        let prev = items.drop_last();
        lemma_fill_is_recent_suffix(cap, prev);
        let s_prev = push_all(cap, Seq::<I>::empty(), prev);
        if prev.len() < cap {
            assert(s_prev =~= prev);
            assert(prev.push(items.last()) =~= items);
        } else {
            let k: int = prev.len() - cap;
            assert(s_prev =~= prev.skip(k));
            assert(s_prev.len() == cap);
            assert(s_prev.push(items.last()).skip(1) =~= items.skip(k + 1));
        }
    }
}

/// After any sequence of `m` pushes into a fresh buffer of positive
/// capacity `cap`, the number of live items is `m` saturated at `cap`.
pub proof fn lemma_fill_length<I>(cap: nat, items: Seq<I>)
    requires
        cap > 0,
    ensures
        push_all(cap, Seq::<I>::empty(), items).len() == min(items.len() as int, cap as int),
{
    lemma_fill_is_recent_suffix(cap, items);
}

/// `n` single-step advances move the cursor forward by `n`, saturated at
/// the end of the live sequence.
pub proof fn lemma_steps_cursor(len: nat, cur: nat, n: nat)
    requires
        cur <= len,
    ensures
        cursor_after_steps(len, cur, n) == min((cur + n) as int, len as int),
    decreases n,
{
    if n > 0 {
        lemma_steps_cursor(len, next_cursor(len, cur), (n - 1) as nat);
    }
}

/// Skip-ahead equivalence: on a fresh iterator, a bulk-skip by `n` lands
/// the cursor exactly where `n` single-step advances would, so the item the
/// following step yields is the same either way, for every `n` up to the
/// number of live items.
pub proof fn lemma_skip_matches_steps<I>(live: Seq<I>, n: nat)
    requires
        n <= live.len(),
    ensures
        skip_cursor(live.len(), 0, n) == cursor_after_steps(live.len(), 0, n),
        yielded_at(live, skip_cursor(live.len(), 0, n)) == yielded_at(
            live,
            cursor_after_steps(live.len(), 0, n),
        ),
{
    lemma_steps_cursor(live.len(), 0, n);
}

/// Exhaustion is idempotent: a cursor at or past the end yields nothing,
/// and a further single-step advance leaves it exactly where it is, so
/// every later call yields nothing as well.
pub proof fn lemma_exhaustion_idempotent<I>(live: Seq<I>, cur: nat)
    requires
        cur >= live.len(),
    ensures
        yielded_at(live, cur) is None,
        next_cursor(live.len(), cur) == cur,
{
}

/// One push writes the next slot, bumps the counters, and rotates the live
/// view by exactly one item once the buffer is full.
proof fn lemma_push_view<I>(pre: WheelBuf<I>, post: WheelBuf<I>, item: I)
    requires
        pre.wf(),
        pre.data@.len() > 0,
        pre.total < usize::MAX,
        post.data@ == pre.data@.update(pre.pos as int, item),
        post.total == pre.total + 1,
        post.pos == (pre.pos + 1) as int % (pre.data@.len() as int),
    ensures
        post.wf(),
        post@ == push_live(pre.spec_capacity(), pre@, item),
{
    let cap = pre.data@.len() as int;
    let p = pre.pos as int;
    assert(0 <= p < cap);
    if p + 1 == cap {
        assert((p + 1) % cap == 0) by (nonlinear_arith)
            requires
                p + 1 == cap,
                cap > 0,
        ;
    } else {
        assert((p + 1) % cap == p + 1) by (nonlinear_arith)
            requires
                0 <= p + 1 < cap,
        ;
    }
    if pre.total < pre.data@.len() {
        assert(post@ =~= pre@.push(item));
    } else {
        assert(post@ =~= pre@.push(item).skip(1));
    }
}

} // verus!
