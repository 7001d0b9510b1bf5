use vstd::prelude::*;

use crate::io::error::{bool_text, decimal_digits, push_bool, push_usize};

verus! {

/// A borrowed buffer which is incrementally filled.
///
/// The buffer tracks the prefix of elements that have been filled and whether the unfilled
/// part has been initialized:
/// ```not_rust
/// [                capacity                ]
/// [ filled | unfilled (may be initialized) ]
/// ```
///
/// A `BorrowedBuf` is created around existing storage via a unique reference. It can be
/// configured (with `clear` or `set_init`) but is written only through a `BorrowedCursor`
/// obtained from `unfilled`, which has write-only access to the unfilled part.
#[derive(Debug)]
pub struct BorrowedBuf<'data, T> {
    /// The buffer's underlying storage.
    buf: &'data mut [T],
    /// The length of the prefix of `buf` which is filled.
    filled: usize,
    /// Whether the whole unfilled part of `buf` has been initialized.
    init: bool,
}

impl<'data, T> BorrowedBuf<'data, T> {
    /// The current contents of the underlying storage, filled part first.
    pub closed spec fn contents(&self) -> Seq<T> {
        self.buf@
    }

    /// The number of filled elements.
    pub closed spec fn filled_count(&self) -> nat {
        self.filled as nat
    }

    /// Whether the unfilled part is marked as initialized.
    pub closed spec fn init_flag(&self) -> bool {
        self.init
    }

    /// The number of elements the storage holds.
    pub open spec fn capacity_spec(&self) -> nat {
        self.contents().len()
    }

    /// The filled prefix of the contents.
    pub open spec fn filled_part(&self) -> Seq<T> {
        self.contents().take(self.filled_count() as int)
    }

    /// The unfilled suffix of the contents.
    pub open spec fn unfilled_part(&self) -> Seq<T> {
        self.contents().skip(self.filled_count() as int)
    }

    /// Well-formedness: the filled part lies within the storage.
    pub open spec fn wf(&self) -> bool {
        &&& self.filled_count() <= self.capacity_spec()
        &&& self.capacity_spec() <= usize::MAX
    }

    /// Returns the total capacity of the buffer.
    pub fn capacity(&self) -> (r: usize)
        ensures
            r == self.capacity_spec(),
    {
        self.buf.len()
    }

    /// Returns the length of the filled part of the buffer.
    pub fn len(&self) -> (r: usize)
        ensures
            r == self.filled_count(),
    {
        self.filled
    }

    /// Returns whether the unfilled part of the buffer is initialized.
    pub fn is_init(&self) -> (r: bool)
        ensures
            r == self.init_flag(),
    {
        self.init
    }

    /// Returns the debug description of the buffer: its initialization flag, filled length
    /// and capacity, as in `BorrowedBuf { init: true, filled: 1, capacity: 4 }`.
    pub fn debug_string(&self) -> (r: String)
        ensures
            r@ == "BorrowedBuf { init: "@ + bool_text(self.init_flag()) + ", filled: "@
                + decimal_digits(self.filled_count()) + ", capacity: "@ + decimal_digits(
                self.capacity_spec(),
            ) + " }"@,
    {
        let mut s = String::from_str("BorrowedBuf { init: ");
        push_bool(&mut s, self.init);
        s.append(", filled: ");
        push_usize(&mut s, self.filled);
        s.append(", capacity: ");
        push_usize(&mut s, self.buf.len());
        s.append(" }");
        s
    }
}

impl<'data, T: Copy> BorrowedBuf<'data, T> {
    /// Creates a new `BorrowedBuf` from a fully initialized slice.
    pub fn from_slice(slice: &'data mut [T]) -> (r: Self)
        ensures
            r.wf(),
            r.contents() == old(slice)@,
            r.filled_count() == 0,
            r.init_flag(),
            final(slice)@ == final(r.storage())@,
    {
        let _len = slice.len(); // the length of a slice fits in `usize`
        BorrowedBuf { buf: slice, filled: 0, init: true }
    }

    /// Creates a new `BorrowedBuf` whose unfilled part is treated as uninitialized.
    ///
    /// The current contents of `slice` carry no meaning until they are written through a
    /// cursor, or until `set_init` declares them initialized.
    pub fn from_uninit_slice(slice: &'data mut [T]) -> (r: Self)
        ensures
            r.wf(),
            r.contents() == old(slice)@,
            r.filled_count() == 0,
            !r.init_flag(),
            final(slice)@ == final(r.storage())@,
    {
        let _len = slice.len(); // the length of a slice fits in `usize`
        BorrowedBuf { buf: slice, filled: 0, init: false }
    }

    /// Creates a new `BorrowedBuf` over the unfilled part of a cursor's buffer.
    ///
    /// The new buffer starts empty and inherits the cursor's initialization flag.
    pub fn from_cursor<'a>(cursor: BorrowedCursor<'a, 'data, T>) -> (r: BorrowedBuf<'a, T>)
        requires
            cursor.buffer().wf(),
        ensures
            r.wf(),
            r.contents() == cursor.buffer().unfilled_part(),
            r.filled_count() == 0,
            r.init_flag() == cursor.buffer().init_flag(),
            (*final(cursor.target())).contents() == cursor.buffer().filled_part()
                + final(r.storage())@,
            (*final(cursor.target())).filled_count() == cursor.buffer().filled_count(),
            (*final(cursor.target())).init_flag() == cursor.buffer().init_flag(),
            final((*final(cursor.target())).storage())@ == final(cursor.buffer().storage())@,
    {
        let parent = cursor.buf;
        let filled = parent.filled;
        let init = parent.init;
        let (_, rest) = parent.buf.split_at_mut(filled);
        let _len = rest.len(); // the length of a slice fits in `usize`
        BorrowedBuf { buf: rest, filled: 0, init }
    }

    /// The reference to the underlying storage.
    pub closed spec fn storage(&self) -> &'data mut [T] {
        self.buf
    }

    /// Once a buffer is no longer used, the storage it borrowed ends up holding the buffer's
    /// last contents.
    pub proof fn lemma_resolved(self)
        requires
            has_resolved(self),
        ensures
            final(self.storage())@ == self.contents(),
    {
    }

    /// Returns a shared reference to the filled portion of the buffer.
    pub fn filled(&self) -> (r: &[T])
        requires
            self.wf(),
        ensures
            r@ == self.filled_part(),
    {
        let (head, _) = self.buf.split_at(self.filled);
        head
    }

    /// Returns a mutable reference to the filled portion of the buffer.
    ///
    /// Whatever is written through the returned slice becomes the new filled part.
    pub fn filled_mut(&mut self) -> (r: &mut [T])
        requires
            old(self).wf(),
        ensures
            r@ == old(self).filled_part(),
            final(self).filled_count() == old(self).filled_count(),
            final(self).init_flag() == old(self).init_flag(),
            final(self).contents() == final(r)@ + old(self).unfilled_part(),
            final(final(self).storage())@ == final(old(self).storage())@,
    {
        let filled = self.filled;
        let (head, _) = self.buf.split_at_mut(filled);
        head
    }

    /// Returns a shared reference to the filled portion of the buffer for as long as the storage is borrowed.
    pub fn into_filled(self) -> (r: &'data [T])
        requires
            self.wf(),
        ensures
            r@ == self.filled_part(),
    {
        let filled = self.filled;
        let buf = self.buf;
        let (head, _) = buf.split_at_mut(filled);
        head
    }

    /// Returns a mutable reference to the filled portion of the buffer for as long as the storage is borrowed.
    pub fn into_filled_mut(self) -> (r: &'data mut [T])
        requires
            self.wf(),
        ensures
            r@ == self.filled_part(),
            final(self.storage())@ == final(r)@ + self.unfilled_part(),
    {
        let filled = self.filled;
        let buf = self.buf;
        let (head, _) = buf.split_at_mut(filled);
        head
    }

    /// Returns a cursor over the unfilled part of the buffer.
    pub fn unfilled<'this>(&'this mut self) -> (c: BorrowedCursor<'this, 'data, T>)
        ensures
            c.buffer() == *old(self),
            *final(self) == *final(c.target()),
    {
        BorrowedCursor { buf: self }
    }

    /// Clears the buffer, resetting the filled region to empty.
    ///
    /// The contents of the buffer are not modified.
    pub fn clear(&mut self) -> (r: &mut Self)
        ensures
            r.contents() == old(self).contents(),
            r.filled_count() == 0,
            r.init_flag() == old(self).init_flag(),
            *final(self) == *final(r),
            final(r.storage())@ == final(old(self).storage())@,
    {
        self.filled = 0;
        self
    }

    /// Marks the unfilled part of the buffer as initialized.
    ///
    /// The caller declares that every element of the buffer holds a meaningful value.
    pub fn set_init(&mut self) -> (r: &mut Self)
        ensures
            r.contents() == old(self).contents(),
            r.filled_count() == old(self).filled_count(),
            r.init_flag(),
            *final(self) == *final(r),
            final(r.storage())@ == final(old(self).storage())@,
    {
        self.init = true;
        self
    }
}

/// A writeable view of the unfilled portion of a [`BorrowedBuf`].
///
/// Data is written to the cursor with `append`, or by writing into the slice from `as_mut` and
/// then calling `advance` to declare how many elements were written. Once written, data
/// becomes part of the filled portion of the underlying buffer and can no longer be reached
/// through the cursor.
#[derive(Debug)]
pub struct BorrowedCursor<'a, 'data, T> {
    /// The underlying buffer.
    buf: &'a mut BorrowedBuf<'data, T>,
}

impl<'a, 'data, T> BorrowedCursor<'a, 'data, T> {
    /// The reference to the buffer this cursor writes into.
    pub closed spec fn target(&self) -> &'a mut BorrowedBuf<'data, T> {
        self.buf
    }

    /// The current value of the buffer this cursor writes into.
    pub open spec fn buffer(&self) -> BorrowedBuf<'data, T> {
        *self.target()
    }

    /// Once a cursor is no longer used, the buffer it borrowed ends up as the cursor last
    /// left it.
    pub proof fn lemma_resolved(self)
        requires
            has_resolved(self),
        ensures
            *final(self.target()) == self.buffer(),
    {
    }

    /// The number of elements that can still be written through the cursor.
    pub open spec fn remaining(&self) -> int {
        self.buffer().capacity_spec() - self.buffer().filled_count()
    }
}

impl<'a, 'data, T: Copy> BorrowedCursor<'a, 'data, T> {
    /// Reborrows this cursor with a smaller lifetime.
    ///
    /// The reborrowed cursor is not accessible while the new one exists; what is written
    /// through the new cursor shows in the reborrowed one afterwards.
    pub fn reborrow<'this>(&'this mut self) -> (r: BorrowedCursor<'this, 'data, T>)
        ensures
            r.buffer() == old(self).buffer(),
            final(self).buffer() == *final(r.target()),
            *final(final(self).target()) == *final(old(self).target()),
    {
        BorrowedCursor { buf: &mut *self.buf }
    }

    /// Returns the available space in the cursor.
    pub fn capacity(&self) -> (r: usize)
        requires
            self.buffer().wf(),
        ensures
            r == self.remaining(),
    {
        self.buf.buf.len() - self.buf.filled
    }

    /// Returns the number of elements written to the buffer this cursor was created from.
    ///
    /// The count is shared by all reborrows of the cursor.
    pub fn written(&self) -> (r: usize)
        ensures
            r == self.buffer().filled_count(),
    {
        self.buf.filled
    }

    /// Returns `true` if the unfilled part of the buffer is initialized.
    pub fn is_init(&self) -> (r: bool)
        ensures
            r == self.buffer().init_flag(),
    {
        self.buf.init
    }

    /// Marks the unfilled part of the buffer as initialized.
    ///
    /// The caller declares that every element of the cursor holds a meaningful value.
    pub fn set_init(&mut self)
        ensures
            final(self).buffer().contents() == old(self).buffer().contents(),
            final(self).buffer().filled_count() == old(self).buffer().filled_count(),
            final(self).buffer().init_flag(),
            *final(final(self).target()) == *final(old(self).target()),
            final(final(self).buffer().storage())@ == final(old(self).buffer().storage())@,
    {
        self.buf.init = true;
    }

    /// Returns a mutable reference to the whole unfilled part.
    pub fn as_mut(&mut self) -> (r: &mut [T])
        requires
            old(self).buffer().wf(),
        ensures
            r@ == old(self).buffer().unfilled_part(),
            final(self).buffer().filled_count() == old(self).buffer().filled_count(),
            final(self).buffer().init_flag() == old(self).buffer().init_flag(),
            final(self).buffer().contents() == old(self).buffer().filled_part() + final(r)@,
            *final(final(self).target()) == *final(old(self).target()),
            final(final(self).buffer().storage())@ == final(old(self).buffer().storage())@,
    {
        let filled = self.buf.filled;
        let (_, rest) = self.buf.buf.split_at_mut(filled);
        rest
    }

    /// The number of unfilled elements the cursor may declare filled without writing them:
    /// all of them when the unfilled part is initialized, none otherwise.
    pub open spec fn init_unfilled(&self) -> int {
        if self.buffer().init_flag() { self.remaining() } else { 0 }
    }

    /// Advances the cursor by declaring that `n` elements have been filled.
    ///
    /// After advancing, the `n` elements belong to the filled portion of the underlying buffer
    /// and are no longer reachable through the cursor. The elements must already be
    /// initialized: `n` may not exceed the initialized unfilled elements.
    pub fn advance_checked(&mut self, n: usize) -> (r: &mut Self)
        requires
            old(self).buffer().wf(),
            n <= old(self).init_unfilled(),
        ensures
            r.buffer().wf(),
            r.buffer().contents() == old(self).buffer().contents(),
            r.buffer().filled_count() == old(self).buffer().filled_count() + n,
            r.remaining() == old(self).remaining() - n,
            r.buffer().init_flag() == old(self).buffer().init_flag(),
            *final(self) == *final(r),
            *final(r.target()) == *final(old(self).target()),
            final(r.buffer().storage())@ == final(old(self).buffer().storage())@,
    {
        self.buf.filled = self.buf.filled + n;
        self
    }

    /// Advances the cursor by declaring that the first `n` unfilled elements have been written.
    ///
    /// The caller declares that these elements hold meaningful values; `n` may not exceed the
    /// space left in the cursor.
    pub fn advance(&mut self, n: usize) -> (r: &mut Self)
        requires
            old(self).buffer().wf(),
            n <= old(self).remaining(),
        ensures
            r.buffer().wf(),
            r.buffer().contents() == old(self).buffer().contents(),
            r.buffer().filled_count() == old(self).buffer().filled_count() + n,
            r.remaining() == old(self).remaining() - n,
            r.buffer().init_flag() == old(self).buffer().init_flag(),
            *final(self) == *final(r),
            *final(r.target()) == *final(old(self).target()),
            final(r.buffer().storage())@ == final(old(self).buffer().storage())@,
    {
        self.buf.filled = self.buf.filled + n;
        self
    }

    /// Appends data to the cursor, advancing the position within its buffer.
    ///
    /// The data must fit in the space left in the cursor.
    pub fn append(&mut self, data: &[T])
        requires
            old(self).buffer().wf(),
            data@.len() <= old(self).remaining(),
        ensures
            final(self).buffer().wf(),
            final(self).buffer().filled_count() == old(self).buffer().filled_count() + data@.len(),
            final(self).buffer().init_flag() == old(self).buffer().init_flag(),
            final(self).buffer().contents() == old(self).buffer().filled_part() + data@
                + old(self).buffer().unfilled_part().skip(data@.len() as int),
            final(self).buffer().filled_part() == old(self).buffer().filled_part() + data@,
            appended(old(self).buffer(), data@, final(self).buffer()),
            final(self).remaining() == old(self).remaining() - data@.len(),
            *final(final(self).target()) == *final(old(self).target()),
            final(final(self).buffer().storage())@ == final(old(self).buffer().storage())@,
    {
        let start = self.buf.filled;
        let len = data.len();
        let mut i: usize = 0;
        while i < len
            invariant
                *final(self.buf) == *final(old(self).buf),
                final(self.buffer().storage())@ == final(old(self).buffer().storage())@,
                0 <= i <= len,
                len == data@.len(),
                start == old(self).buffer().filled_count(),
                self.buffer().filled_count() == start,
                self.buffer().init_flag() == old(self).buffer().init_flag(),
                start + len <= self.buffer().capacity_spec(),
                self.buffer().capacity_spec() == old(self).buffer().capacity_spec(),
                self.buffer().capacity_spec() <= usize::MAX,
                forall|k: int| 0 <= k < start ==> #[trigger] self.buffer().contents()[k]
                    == old(self).buffer().contents()[k],
                forall|k: int| 0 <= k < i ==> self.buffer().contents()[start + k] == data@[k],
                forall|k: int| start + len <= k < self.buffer().capacity_spec()
                    ==> #[trigger] self.buffer().contents()[k] == old(self).buffer().contents()[k],
            decreases len - i,
        {
            self.buf.buf[start + i] = data[i];
            i = i + 1;
        }
        self.buf.filled = start + len;
        assert(self.buffer().contents() =~= old(self).buffer().filled_part() + data@
            + old(self).buffer().unfilled_part().skip(data@.len() as int));
        assert(self.buffer().filled_part() =~= old(self).buffer().filled_part() + data@);
    }

    /// Runs `f` with a `BorrowedBuf` over the unfilled part of the cursor, then takes over
    /// what `f` filled and initialized.
    ///
    /// `f` receives an empty buffer whose contents are the cursor's unfilled elements and which
    /// inherits the cursor's initialization flag. Afterwards the cursor's buffer counts as
    /// filled what `f` filled, takes over its initialization flag, and holds in its unfilled
    /// part what `f` left in the buffer it was given.
    ///
    /// `f` must not replace the buffer it is given: it must leave it well formed, with the
    /// capacity it received and over the storage it received, which is the cursor's unfilled
    /// part itself.
    pub fn with_unfilled_buf<R, F: FnOnce(&mut BorrowedBuf<'_, T>) -> R>(&mut self, f: F) -> (res: R)
        requires
            old(self).buffer().wf(),
            forall|b: &mut BorrowedBuf<'_, T>|
                b.wf() && b.contents() == old(self).buffer().unfilled_part() && b.filled_count()
                    == 0 && b.init_flag() == old(self).buffer().init_flag() ==> call_requires(
                    f,
                    (b,),
                ),
            forall|b: &mut BorrowedBuf<'_, T>, r: R|
                b.wf() && b.contents() == old(self).buffer().unfilled_part() && b.filled_count()
                    == 0 && b.init_flag() == old(self).buffer().init_flag() && call_ensures(
                    f,
                    (b,),
                    r,
                ) ==> {
                    &&& final(b).wf()
                    &&& final(b).capacity_spec() == b.capacity_spec()
                    &&& final(final(b).storage())@ == final(b.storage())@
                },
        ensures
            final(self).buffer().wf(),
            final(self).buffer().capacity_spec() == old(self).buffer().capacity_spec(),
            final(self).buffer().filled_part().take(old(self).buffer().filled_count() as int)
                == old(self).buffer().filled_part(),
            exists|b: &mut BorrowedBuf<'_, T>|
                {
                    &&& b.wf()
                    &&& b.contents() == old(self).buffer().unfilled_part()
                    &&& b.filled_count() == 0
                    &&& b.init_flag() == old(self).buffer().init_flag()
                    &&& call_ensures(f, (b,), res)
                    &&& final(self).buffer().filled_count() == old(self).buffer().filled_count()
                        + final(b).filled_count()
                    &&& final(self).buffer().init_flag() == final(b).init_flag()
                    &&& final(self).buffer().contents().skip(old(self).buffer().filled_count() as int)
                        == final(b).contents()
                },
            *final(final(self).target()) == *final(old(self).target()),
            final(final(self).buffer().storage())@ == final(old(self).buffer().storage())@,
    {
        let start = self.buf.filled;
        let init = self.buf.init;
        let (_, rest) = self.buf.buf.split_at_mut(start);
        let mut sub = BorrowedBuf { buf: rest, filled: 0, init };
        let sub_ref = &mut sub;
        assert(sub_ref.wf());
        let res = f(sub_ref);
        let sub_filled = sub.filled;
        let sub_init = sub.init;
        proof {
            sub.lemma_resolved();
        }
        self.buf.filled = start + sub_filled;
        self.buf.init = sub_init;
        assert(self.buffer().filled_part().take(start as int) =~= old(self).buffer().filled_part());
        res
    }
}

impl<'a, 'data, T: Default + Copy> BorrowedCursor<'a, 'data, T> {
    /// Initializes all unfilled elements with their default value, unless the unfilled part
    /// is already initialized, and returns them.
    pub fn ensure_init(&mut self) -> (r: &mut [T])
        requires
            old(self).buffer().wf(),
        ensures
            old(self).buffer().init_flag() ==> r@ == old(self).buffer().unfilled_part(),
            !old(self).buffer().init_flag() ==> {
                &&& r@.len() == old(self).remaining()
                &&& exists|d: T|
                    call_ensures(T::default, (), d) && forall|i: int|
                        0 <= i < r@.len() ==> #[trigger] r@[i] == d
            },
            final(self).buffer().filled_count() == old(self).buffer().filled_count(),
            final(self).buffer().init_flag(),
            final(self).buffer().contents() == old(self).buffer().filled_part() + final(r)@,
            *final(final(self).target()) == *final(old(self).target()),
            final(final(self).buffer().storage())@ == final(old(self).buffer().storage())@,
    {
        let filled = self.buf.filled;
        if !self.buf.init {
            write_default(self.buf.buf, filled);
            self.buf.init = true;
            assert(self.buffer().filled_part() =~= old(self).buffer().filled_part());
        }
        let (_, rest) = self.buf.buf.split_at_mut(filled);
        rest
    }
}

/// Writes the default value of `T` into every element of `buf` from `start` on, and returns
/// that value.
fn write_default<T: Default + Copy>(buf: &mut [T], start: usize) -> (d: T)
    requires
        start <= old(buf)@.len(),
    ensures
        call_ensures(T::default, (), d),
        final(buf)@.len() == old(buf)@.len(),
        final(buf)@.take(start as int) == old(buf)@.take(start as int),
        forall|k: int| start <= k < final(buf)@.len() ==> #[trigger] final(buf)@[k] == d,
{
    let d = T::default();
    let len = buf.len();
    let mut i: usize = start;
    while i < len
        invariant
            start <= i <= len,
            len == buf@.len(),
            buf@.len() == old(buf)@.len(),
            buf@.take(start as int) == old(buf)@.take(start as int),
            forall|k: int| start <= k < i ==> #[trigger] buf@[k] == d,
        decreases len - i,
    {
        buf[i] = d;
        i = i + 1;
    }
    d
}

/// The elements of several sequences, one after the other.
pub open spec fn joined<T>(parts: Seq<Seq<T>>) -> Seq<T>
    decreases parts.len(),
{
    if parts.len() == 0 {
        Seq::<T>::empty()
    } else {
        joined(parts.drop_last()) + parts.last()
    }
}

/// One `append` of `data` took the buffer `before` to `after`: the filled part grew by `data`
/// and the buffer stayed well formed, with the same capacity.
pub open spec fn appended<'data, T>(
    before: BorrowedBuf<'data, T>,
    data: Seq<T>,
    after: BorrowedBuf<'data, T>,
) -> bool {
    &&& after.wf()
    &&& after.capacity_spec() == before.capacity_spec()
    &&& after.filled_part() == before.filled_part() + data
}

/// After a sequence of appends to a buffer that starts empty, its filled part is the appended
/// data in order, and the number of filled elements stays within the capacity the buffer
/// started with.
pub proof fn law_appends_fill<'data, T>(states: Seq<BorrowedBuf<'data, T>>, data: Seq<Seq<T>>)
    requires
        states.len() == data.len() + 1,
        states[0].wf(),
        states[0].filled_count() == 0,
        forall|i: int| 0 <= i < data.len() ==> #[trigger] appended(states[i], data[i], states[i + 1]),
    ensures
        states.last().filled_part() == joined(data),
        states.last().filled_count() <= states.last().capacity_spec(),
        states.last().capacity_spec() == states[0].capacity_spec(),
    decreases data.len(),
{
    if data.len() == 0 {
        assert(states[0].filled_part() =~= Seq::<T>::empty());
    } else {
        let n = data.len() - 1;
        assert(appended(states[n], data[n], states[n + 1]));
        law_appends_fill(states.drop_last(), data.drop_last());
        assert(states.drop_last().last() == states[n]);
        assert(states[n + 1].filled_part().len() == states[n + 1].filled_count());
    }
}

/// Calls that keep a buffer well formed keep its capacity: over a sequence of them, the
/// capacity stays what it was and the filled part stays within it.
pub proof fn law_capacity_kept<'data, T>(states: Seq<BorrowedBuf<'data, T>>)
    requires
        states.len() > 0,
        states[0].wf(),
        forall|i: int|
            1 <= i < states.len() ==> (#[trigger] states[i]).wf() && states[i].capacity_spec()
                == states[i - 1].capacity_spec(),
    ensures
        forall|i: int|
            0 <= i < states.len() ==> (#[trigger] states[i]).capacity_spec()
                == states[0].capacity_spec() && states[i].filled_count()
                <= states[i].capacity_spec(),
    decreases states.len(),
{
    if states.len() > 1 {
        let init = states.drop_last();
        assert forall|i: int| 1 <= i < init.len() implies (#[trigger] init[i]).wf()
            && init[i].capacity_spec() == init[i - 1].capacity_spec() by {
            assert(init[i] == states[i]);
            assert(init[i - 1] == states[i - 1]);
        }
        law_capacity_kept(init);
        let last = states.len() - 1;
        assert(states[last].wf());
        assert(init[last - 1] == states[last - 1]);
        assert forall|i: int| 0 <= i < states.len() implies (#[trigger] states[i]).capacity_spec()
            == states[0].capacity_spec() && states[i].filled_count()
            <= states[i].capacity_spec() by {
            if i < init.len() {
                assert(init[i] == states[i]);
            }
        }
    }
}

/// One call took the tracking buffer `before` to `after`: it kept the capacity, did not
/// shrink the initialized region, and kept the buffer well formed.
pub open spec fn tracking_step<'data, T>(
    before: TrackingBorrowedBuf<'data, T>,
    after: TrackingBorrowedBuf<'data, T>,
) -> bool {
    &&& after.capacity_spec() == before.capacity_spec()
    &&& after.init_count() >= before.init_count()
    &&& before.wf() ==> after.wf()
}

/// Over a sequence of calls that each keep a tracking buffer well formed, starting from a
/// well-formed buffer, the filled region stays within the initialized one, which stays
/// within the capacity the buffer started with and never shrinks.
pub proof fn law_tracking_bounds<'data, T>(states: Seq<TrackingBorrowedBuf<'data, T>>)
    requires
        states.len() > 0,
        states[0].wf(),
        forall|i: int| 1 <= i < states.len() ==> tracking_step(states[i - 1], #[trigger] states[i]),
    ensures
        forall|i: int|
            0 <= i < states.len() ==> (#[trigger] states[i]).filled_count()
                <= states[i].init_count() <= states[i].capacity_spec() == states[0].capacity_spec()
                && states[i].init_count() >= states[0].init_count(),
    decreases states.len(),
{
    if states.len() > 1 {
        let init = states.drop_last();
        assert forall|i: int| 1 <= i < init.len() implies tracking_step(
            init[i - 1],
            #[trigger] init[i],
        ) by {
            assert(init[i] == states[i]);
            assert(init[i - 1] == states[i - 1]);
        }
        law_tracking_bounds(init);
        let last = states.len() - 1;
        assert(tracking_step(states[last - 1], states[last]));
        assert(init[last - 1] == states[last - 1]);
        assert forall|i: int| 0 <= i < states.len() implies (#[trigger] states[i]).filled_count()
            <= states[i].init_count() <= states[i].capacity_spec() == states[0].capacity_spec()
            && states[i].init_count() >= states[0].init_count() by {
            if i < init.len() {
                assert(init[i] == states[i]);
            }
        }
    }
}

/// The larger of two integers.
pub open spec fn larger(a: int, b: int) -> int {
    if a > b {
        a
    } else {
        b
    }
}

/// A borrowed buffer which is incrementally filled and initialized.
///
/// The buffer tracks three regions: a filled prefix, an initialized region that contains the
/// filled one, and an uninitialized rest:
/// ```not_rust
/// [             capacity              ]
/// [ filled |         unfilled         ]
/// [    initialized    | uninitialized ]
/// ```
///
/// A `TrackingBorrowedBuf` is created around existing storage via a unique reference. It can be
/// configured (with `clear` or `set_init`) but is written only through a
/// `TrackingBorrowedCursor` obtained from `unfilled`.
#[derive(Debug)]
pub struct TrackingBorrowedBuf<'data, T> {
    /// The buffer's underlying storage.
    buf: &'data mut [T],
    /// The length of the prefix of `buf` which is filled.
    filled: usize,
    /// The length of the prefix of `buf` which is initialized.
    init: usize,
}

impl<'data, T> TrackingBorrowedBuf<'data, T> {
    /// The current contents of the underlying storage, filled part first.
    pub closed spec fn contents(&self) -> Seq<T> {
        self.buf@
    }

    /// The number of filled elements.
    pub closed spec fn filled_count(&self) -> nat {
        self.filled as nat
    }

    /// The number of initialized elements, counted from the start of the storage.
    pub closed spec fn init_count(&self) -> nat {
        self.init as nat
    }

    /// The reference to the underlying storage.
    pub closed spec fn storage(&self) -> &'data mut [T] {
        self.buf
    }

    /// Once a buffer is no longer used, the storage it borrowed ends up holding the buffer's
    /// last contents.
    pub proof fn lemma_resolved(self)
        requires
            has_resolved(self),
        ensures
            final(self.storage())@ == self.contents(),
    {
    }

    /// The number of elements the storage holds.
    pub open spec fn capacity_spec(&self) -> nat {
        self.contents().len()
    }

    /// The filled prefix of the contents.
    pub open spec fn filled_part(&self) -> Seq<T> {
        self.contents().take(self.filled_count() as int)
    }

    /// The unfilled suffix of the contents.
    pub open spec fn unfilled_part(&self) -> Seq<T> {
        self.contents().skip(self.filled_count() as int)
    }

    /// Well-formedness: the filled region lies within the initialized one, which lies within
    /// the storage.
    pub open spec fn wf(&self) -> bool {
        &&& self.filled_count() <= self.init_count()
        &&& self.init_count() <= self.capacity_spec()
        &&& self.capacity_spec() <= usize::MAX
    }

    /// Returns the total capacity of the buffer.
    pub fn capacity(&self) -> (r: usize)
        ensures
            r == self.capacity_spec(),
    {
        self.buf.len()
    }

    /// Returns the length of the filled part of the buffer.
    pub fn len(&self) -> (r: usize)
        ensures
            r == self.filled_count(),
    {
        self.filled
    }

    /// Returns `true` if the buffer holds no filled element.
    pub fn is_empty(&self) -> (r: bool)
        ensures
            r == (self.filled_count() == 0),
    {
        self.filled == 0
    }

    /// Returns the length of the initialized part of the buffer.
    pub fn init_len(&self) -> (r: usize)
        ensures
            r == self.init_count(),
    {
        self.init
    }

    /// Returns the debug description of the buffer: its initialized length, filled length
    /// and capacity, as in `BorrowedBufTracking { init: 2, filled: 2, capacity: 4 }`.
    pub fn debug_string(&self) -> (r: String)
        ensures
            r@ == "BorrowedBufTracking { init: "@ + decimal_digits(self.init_count())
                + ", filled: "@ + decimal_digits(self.filled_count()) + ", capacity: "@
                + decimal_digits(self.capacity_spec()) + " }"@,
    {
        let mut s = String::from_str("BorrowedBufTracking { init: ");
        push_usize(&mut s, self.init);
        s.append(", filled: ");
        push_usize(&mut s, self.filled);
        s.append(", capacity: ");
        push_usize(&mut s, self.buf.len());
        s.append(" }");
        s
    }
}

impl<'data, T: Copy> TrackingBorrowedBuf<'data, T> {
    /// Creates a new `TrackingBorrowedBuf` from a fully initialized slice.
    pub fn from_slice(slice: &'data mut [T]) -> (r: Self)
        ensures
            r.wf(),
            r.contents() == old(slice)@,
            r.filled_count() == 0,
            r.init_count() == old(slice)@.len(),
            final(slice)@ == final(r.storage())@,
    {
        let len = slice.len();
        TrackingBorrowedBuf { buf: slice, filled: 0, init: len }
    }

    /// Creates a new `TrackingBorrowedBuf` whose whole storage is treated as uninitialized.
    ///
    /// Use `set_init` if part of the buffer is known to be already initialized.
    pub fn from_uninit_slice(slice: &'data mut [T]) -> (r: Self)
        ensures
            r.wf(),
            r.contents() == old(slice)@,
            r.filled_count() == 0,
            r.init_count() == 0,
            final(slice)@ == final(r.storage())@,
    {
        let _len = slice.len(); // the length of a slice fits in `usize`
        TrackingBorrowedBuf { buf: slice, filled: 0, init: 0 }
    }

    /// Creates a new `TrackingBorrowedBuf` over the unfilled part of a cursor's buffer.
    ///
    /// The new buffer starts empty; its initialized region is the part of the cursor's
    /// unfilled elements that is initialized.
    pub fn from_cursor<'a>(cursor: TrackingBorrowedCursor<'a, 'data, T>) -> (r:
        TrackingBorrowedBuf<'a, T>)
        requires
            cursor.buffer().wf(),
        ensures
            r.wf(),
            r.contents() == cursor.buffer().unfilled_part(),
            r.filled_count() == 0,
            r.init_count() == cursor.buffer().init_count() - cursor.buffer().filled_count(),
            (*final(cursor.target())).contents() == cursor.buffer().filled_part()
                + final(r.storage())@,
            (*final(cursor.target())).filled_count() == cursor.buffer().filled_count(),
            (*final(cursor.target())).init_count() == cursor.buffer().init_count(),
            final((*final(cursor.target())).storage())@ == final(cursor.buffer().storage())@,
    {
        let parent = cursor.buf;
        let filled = parent.filled;
        let init = parent.init - filled;
        let (_, rest) = parent.buf.split_at_mut(filled);
        let _len = rest.len(); // the length of a slice fits in `usize`
        TrackingBorrowedBuf { buf: rest, filled: 0, init }
    }

    /// Returns a shared reference to the filled portion of the buffer.
    pub fn filled(&self) -> (r: &[T])
        requires
            self.wf(),
        ensures
            r@ == self.filled_part(),
    {
        let (head, _) = self.buf.split_at(self.filled);
        head
    }

    /// Returns a mutable reference to the filled portion of the buffer.
    pub fn filled_mut(&mut self) -> (r: &mut [T])
        requires
            old(self).wf(),
        ensures
            r@ == old(self).filled_part(),
            final(self).filled_count() == old(self).filled_count(),
            final(self).init_count() == old(self).init_count(),
            final(self).contents() == final(r)@ + old(self).unfilled_part(),
            final(final(self).storage())@ == final(old(self).storage())@,
    {
        let filled = self.filled;
        let (head, _) = self.buf.split_at_mut(filled);
        head
    }

    /// Returns a shared reference to the filled portion of the buffer for as long as the storage is borrowed.
    pub fn into_filled(self) -> (r: &'data [T])
        requires
            self.wf(),
        ensures
            r@ == self.filled_part(),
    {
        let filled = self.filled;
        let buf = self.buf;
        let (head, _) = buf.split_at_mut(filled);
        head
    }

    /// Returns a mutable reference to the filled portion of the buffer for as long as the storage is borrowed.
    pub fn into_filled_mut(self) -> (r: &'data mut [T])
        requires
            self.wf(),
        ensures
            r@ == self.filled_part(),
            final(self.storage())@ == final(r)@ + self.unfilled_part(),
    {
        let filled = self.filled;
        let buf = self.buf;
        let (head, _) = buf.split_at_mut(filled);
        head
    }

    /// Returns a cursor over the unfilled part of the buffer.
    ///
    /// The cursor counts as written what is filled after its creation.
    pub fn unfilled<'this>(&'this mut self) -> (c: TrackingBorrowedCursor<'this, 'data, T>)
        ensures
            c.buffer() == *old(self),
            c.start_pos() == old(self).filled_count(),
            *final(self) == *final(c.target()),
    {
        let start = self.filled;
        TrackingBorrowedCursor { buf: self, start }
    }

    /// Clears the buffer, resetting the filled region to empty.
    ///
    /// The number of initialized elements is not changed, and the contents of the buffer are
    /// not modified.
    pub fn clear(&mut self) -> (r: &mut Self)
        ensures
            r.contents() == old(self).contents(),
            r.filled_count() == 0,
            r.init_count() == old(self).init_count(),
            *final(self) == *final(r),
            final(r.storage())@ == final(old(self).storage())@,
    {
        self.filled = 0;
        self
    }

    /// Declares that the first `n` elements of the buffer are initialized.
    ///
    /// Elements are never de-initialized, so this does nothing when `n` is not more than the
    /// elements already known to be initialized. `n` may not exceed the capacity.
    pub fn set_init(&mut self, n: usize) -> (r: &mut Self)
        requires
            n <= old(self).capacity_spec(),
        ensures
            r.contents() == old(self).contents(),
            r.filled_count() == old(self).filled_count(),
            r.init_count() == larger(n as int, old(self).init_count() as int),
            *final(self) == *final(r),
            final(r.storage())@ == final(old(self).storage())@,
    {
        if n > self.init {
            self.init = n;
        }
        self
    }
}

/// A writeable view of the unfilled portion of a [`TrackingBorrowedBuf`].
///
/// Gives access to the initialized and uninitialized parts of the unfilled region. Data is
/// written with `append`, or by writing into a slice of the cursor and then calling `advance`.
/// Once written, data becomes part of the filled portion of the underlying buffer.
#[derive(Debug)]
pub struct TrackingBorrowedCursor<'a, 'data, T> {
    /// The underlying buffer.
    buf: &'a mut TrackingBorrowedBuf<'data, T>,
    /// The length of the filled portion of the underlying buffer when the cursor was created.
    start: usize,
}

impl<'a, 'data, T> TrackingBorrowedCursor<'a, 'data, T> {
    /// The reference to the buffer this cursor writes into.
    pub closed spec fn target(&self) -> &'a mut TrackingBorrowedBuf<'data, T> {
        self.buf
    }

    /// The filled length of the buffer when the cursor was created.
    pub closed spec fn start_pos(&self) -> nat {
        self.start as nat
    }

    /// The current value of the buffer this cursor writes into.
    pub open spec fn buffer(&self) -> TrackingBorrowedBuf<'data, T> {
        *self.target()
    }

    /// Once a cursor is no longer used, the buffer it borrowed ends up as the cursor last
    /// left it.
    pub proof fn lemma_resolved(self)
        requires
            has_resolved(self),
        ensures
            *final(self.target()) == self.buffer(),
    {
    }

    /// The number of elements that can still be written through the cursor.
    pub open spec fn remaining(&self) -> int {
        self.buffer().capacity_spec() - self.buffer().filled_count()
    }

    /// Well-formedness: the buffer is well formed and has not been filled below the point
    /// where the cursor started.
    pub open spec fn wf(&self) -> bool {
        &&& self.buffer().wf()
        &&& self.start_pos() <= self.buffer().filled_count()
    }

}

impl<'a, 'data, T: Copy> TrackingBorrowedCursor<'a, 'data, T> {
    /// Reborrows this cursor with a smaller lifetime.
    ///
    /// The reborrowed cursor is not accessible while the new one exists; the written count of
    /// the new cursor includes what was written through the reborrowed one.
    pub fn reborrow<'this>(&'this mut self) -> (r: TrackingBorrowedCursor<'this, 'data, T>)
        ensures
            r.buffer() == old(self).buffer(),
            r.start_pos() == old(self).start_pos(),
            final(self).buffer() == *final(r.target()),
            final(self).start_pos() == old(self).start_pos(),
            *final(final(self).target()) == *final(old(self).target()),
    {
        TrackingBorrowedCursor { buf: &mut *self.buf, start: self.start }
    }

    /// Returns the available space in the cursor.
    pub fn capacity(&self) -> (r: usize)
        requires
            self.buffer().wf(),
        ensures
            r == self.remaining(),
    {
        self.buf.buf.len() - self.buf.filled
    }

    /// Returns the number of elements written to this cursor since it was created from a
    /// buffer.
    ///
    /// If this cursor is a reborrow of another, the count includes what was written through
    /// either cursor.
    pub fn written(&self) -> (r: usize)
        requires
            self.wf(),
        ensures
            r == self.buffer().filled_count() - self.start_pos(),
    {
        self.buf.filled - self.start
    }

    /// Returns a shared reference to the initialized portion of the cursor.
    pub fn init_ref(&self) -> (r: &[T])
        requires
            self.buffer().wf(),
        ensures
            r@ == self.buffer().contents().subrange(
                self.buffer().filled_count() as int,
                self.buffer().init_count() as int,
            ),
    {
        let filled = self.buf.filled;
        let init = self.buf.init;
        let (head, _) = self.buf.buf.split_at(init);
        let (_, mid) = head.split_at(filled);
        mid
    }

    /// Returns a mutable reference to the initialized portion of the cursor.
    pub fn init_mut(&mut self) -> (r: &mut [T])
        requires
            old(self).buffer().wf(),
        ensures
            r@ == old(self).buffer().contents().subrange(
                old(self).buffer().filled_count() as int,
                old(self).buffer().init_count() as int,
            ),
            final(self).buffer().filled_count() == old(self).buffer().filled_count(),
            final(self).buffer().init_count() == old(self).buffer().init_count(),
            final(self).start_pos() == old(self).start_pos(),
            final(self).buffer().contents() == old(self).buffer().filled_part() + final(r)@
                + old(self).buffer().contents().skip(old(self).buffer().init_count() as int),
            *final(final(self).target()) == *final(old(self).target()),
            final(final(self).buffer().storage())@ == final(old(self).buffer().storage())@,
    {
        let filled = self.buf.filled;
        let init = self.buf.init;
        let (head, _) = self.buf.buf.split_at_mut(init);
        let (_, mid) = head.split_at_mut(filled);
        mid
    }

    /// Returns a mutable reference to the uninitialized part of the cursor.
    pub fn uninit_mut(&mut self) -> (r: &mut [T])
        requires
            old(self).buffer().wf(),
        ensures
            r@ == old(self).buffer().contents().skip(old(self).buffer().init_count() as int),
            final(self).buffer().filled_count() == old(self).buffer().filled_count(),
            final(self).buffer().init_count() == old(self).buffer().init_count(),
            final(self).start_pos() == old(self).start_pos(),
            final(self).buffer().contents() == old(self).buffer().contents().take(
                old(self).buffer().init_count() as int,
            ) + final(r)@,
            *final(final(self).target()) == *final(old(self).target()),
            final(final(self).buffer().storage())@ == final(old(self).buffer().storage())@,
    {
        let init = self.buf.init;
        let (_, tail) = self.buf.buf.split_at_mut(init);
        tail
    }

    /// Returns a mutable reference to the whole unfilled part of the cursor.
    pub fn as_mut(&mut self) -> (r: &mut [T])
        requires
            old(self).buffer().wf(),
        ensures
            r@ == old(self).buffer().unfilled_part(),
            final(self).buffer().filled_count() == old(self).buffer().filled_count(),
            final(self).buffer().init_count() == old(self).buffer().init_count(),
            final(self).start_pos() == old(self).start_pos(),
            final(self).buffer().contents() == old(self).buffer().filled_part() + final(r)@,
            *final(final(self).target()) == *final(old(self).target()),
            final(final(self).buffer().storage())@ == final(old(self).buffer().storage())@,
    {
        let filled = self.buf.filled;
        let (_, rest) = self.buf.buf.split_at_mut(filled);
        rest
    }

    /// Advances the cursor by declaring that `n` elements have been filled.
    ///
    /// The `n` elements must already be initialized.
    pub fn advance(&mut self, n: usize) -> (r: &mut Self)
        requires
            old(self).wf(),
            old(self).buffer().filled_count() + n <= old(self).buffer().init_count(),
        ensures
            r.wf(),
            r.buffer().contents() == old(self).buffer().contents(),
            r.buffer().filled_count() == old(self).buffer().filled_count() + n,
            r.remaining() == old(self).remaining() - n,
            r.buffer().init_count() == old(self).buffer().init_count(),
            r.start_pos() == old(self).start_pos(),
            *final(self) == *final(r),
            *final(r.target()) == *final(old(self).target()),
            final(r.buffer().storage())@ == final(old(self).buffer().storage())@,
    {
        self.buf.filled = self.buf.filled + n;
        self
    }

    /// Advances the cursor by declaring that the first `n` unfilled elements have been written,
    /// extending the initialized region to cover them.
    ///
    /// `n` may not exceed the space left in the cursor.
    pub fn advance_unchecked(&mut self, n: usize) -> (r: &mut Self)
        requires
            old(self).wf(),
            n <= old(self).remaining(),
        ensures
            r.wf(),
            r.buffer().contents() == old(self).buffer().contents(),
            r.buffer().filled_count() == old(self).buffer().filled_count() + n,
            r.remaining() == old(self).remaining() - n,
            r.buffer().init_count() == larger(
                old(self).buffer().filled_count() + n,
                old(self).buffer().init_count() as int,
            ),
            r.start_pos() == old(self).start_pos(),
            *final(self) == *final(r),
            *final(r.target()) == *final(old(self).target()),
            final(r.buffer().storage())@ == final(old(self).buffer().storage())@,
    {
        self.buf.filled = self.buf.filled + n;
        if self.buf.filled > self.buf.init {
            self.buf.init = self.buf.filled;
        }
        self
    }

    /// Declares that the first `n` unfilled elements of the cursor are initialized.
    ///
    /// Elements are never de-initialized, so this does nothing when fewer elements are named
    /// than are already known to be initialized. `n` may not exceed the space left.
    pub fn set_init(&mut self, n: usize) -> (r: &mut Self)
        requires
            old(self).wf(),
            n <= old(self).remaining(),
        ensures
            r.wf(),
            r.buffer().contents() == old(self).buffer().contents(),
            r.buffer().filled_count() == old(self).buffer().filled_count(),
            r.buffer().init_count() == larger(
                old(self).buffer().filled_count() + n,
                old(self).buffer().init_count() as int,
            ),
            r.start_pos() == old(self).start_pos(),
            *final(self) == *final(r),
            *final(r.target()) == *final(old(self).target()),
            final(r.buffer().storage())@ == final(old(self).buffer().storage())@,
    {
        let end = self.buf.filled + n;
        if end > self.buf.init {
            self.buf.init = end;
        }
        self
    }

    /// Appends data to the cursor, advancing the position within its buffer.
    ///
    /// The data must fit in the space left in the cursor.
    pub fn append(&mut self, data: &[T])
        requires
            old(self).wf(),
            data@.len() <= old(self).remaining(),
        ensures
            final(self).wf(),
            final(self).start_pos() == old(self).start_pos(),
            final(self).buffer().filled_count() == old(self).buffer().filled_count() + data@.len(),
            final(self).buffer().init_count() == larger(
                old(self).buffer().filled_count() + data@.len() as int,
                old(self).buffer().init_count() as int,
            ),
            final(self).buffer().contents() == old(self).buffer().filled_part() + data@
                + old(self).buffer().unfilled_part().skip(data@.len() as int),
            final(self).buffer().filled_part() == old(self).buffer().filled_part() + data@,
            final(self).remaining() == old(self).remaining() - data@.len(),
            *final(final(self).target()) == *final(old(self).target()),
            final(final(self).buffer().storage())@ == final(old(self).buffer().storage())@,
    {
        let start = self.buf.filled;
        let len = data.len();
        let mut i: usize = 0;
        while i < len
            invariant
                *final(self.buf) == *final(old(self).buf),
                final(self.buffer().storage())@ == final(old(self).buffer().storage())@,
                0 <= i <= len,
                len == data@.len(),
                start == old(self).buffer().filled_count(),
                self.buffer().filled_count() == start,
                self.buffer().init_count() == old(self).buffer().init_count(),
                self.start_pos() == old(self).start_pos(),
                start + len <= self.buffer().capacity_spec(),
                self.buffer().capacity_spec() == old(self).buffer().capacity_spec(),
                self.buffer().capacity_spec() <= usize::MAX,
                forall|k: int| 0 <= k < start ==> #[trigger] self.buffer().contents()[k]
                    == old(self).buffer().contents()[k],
                forall|k: int| 0 <= k < i ==> self.buffer().contents()[start + k] == data@[k],
                forall|k: int| start + len <= k < self.buffer().capacity_spec()
                    ==> #[trigger] self.buffer().contents()[k] == old(self).buffer().contents()[k],
            decreases len - i,
        {
            self.buf.buf[start + i] = data[i];
            i = i + 1;
        }
        let end = start + len;
        if end > self.buf.init {
            self.buf.init = end;
        }
        self.buf.filled = end;
        assert(self.buffer().contents() =~= old(self).buffer().filled_part() + data@
            + old(self).buffer().unfilled_part().skip(data@.len() as int));
        assert(self.buffer().filled_part() =~= old(self).buffer().filled_part() + data@);
    }

    /// Runs `f` with a `TrackingBorrowedBuf` over the unfilled part of the cursor, then takes
    /// over what `f` filled and initialized.
    ///
    /// `f` receives an empty buffer whose contents are the cursor's unfilled elements and whose
    /// initialized region is the initialized part of them. Afterwards the cursor's buffer counts
    /// as filled and initialized what `f` filled and initialized, measured from where the
    /// unfilled part began, and holds in its unfilled part what `f` left in the buffer it was
    /// given.
    ///
    /// `f` must not replace the buffer it is given: it must leave it well formed, with the
    /// capacity it received and over the storage it received, which is the cursor's unfilled
    /// part itself.
    pub fn with_unfilled_buf<R, F: FnOnce(&mut TrackingBorrowedBuf<'_, T>) -> R>(
        &mut self,
        f: F,
    ) -> (res: R)
        requires
            old(self).wf(),
            forall|b: &mut TrackingBorrowedBuf<'_, T>|
                b.wf() && b.contents() == old(self).buffer().unfilled_part() && b.filled_count()
                    == 0 && b.init_count() == old(self).buffer().init_count() - old(
                    self,
                ).buffer().filled_count() ==> call_requires(f, (b,)),
            forall|b: &mut TrackingBorrowedBuf<'_, T>, r: R|
                b.wf() && b.contents() == old(self).buffer().unfilled_part() && b.filled_count()
                    == 0 && b.init_count() == old(self).buffer().init_count() - old(
                    self,
                ).buffer().filled_count() && call_ensures(f, (b,), r) ==> {
                    &&& final(b).wf()
                    &&& final(b).capacity_spec() == b.capacity_spec()
                    &&& final(final(b).storage())@ == final(b.storage())@
                },
        ensures
            final(self).wf(),
            final(self).start_pos() == old(self).start_pos(),
            final(self).buffer().capacity_spec() == old(self).buffer().capacity_spec(),
            final(self).buffer().filled_part().take(old(self).buffer().filled_count() as int)
                == old(self).buffer().filled_part(),
            exists|b: &mut TrackingBorrowedBuf<'_, T>|
                {
                    &&& b.wf()
                    &&& b.contents() == old(self).buffer().unfilled_part()
                    &&& b.filled_count() == 0
                    &&& b.init_count() == old(self).buffer().init_count()
                        - old(self).buffer().filled_count()
                    &&& call_ensures(f, (b,), res)
                    &&& final(self).buffer().filled_count() == old(self).buffer().filled_count()
                        + final(b).filled_count()
                    &&& final(self).buffer().init_count() == old(self).buffer().filled_count()
                        + final(b).init_count()
                    &&& final(self).buffer().contents().skip(old(self).buffer().filled_count() as int)
                        == final(b).contents()
                },
            *final(final(self).target()) == *final(old(self).target()),
            final(final(self).buffer().storage())@ == final(old(self).buffer().storage())@,
    {
        let start = self.buf.filled;
        let init = self.buf.init - start;
        let (_, rest) = self.buf.buf.split_at_mut(start);
        let mut sub = TrackingBorrowedBuf { buf: rest, filled: 0, init };
        let sub_ref = &mut sub;
        assert(sub_ref.wf());
        let res = f(sub_ref);
        let sub_filled = sub.filled;
        let sub_init = sub.init;
        proof {
            sub.lemma_resolved();
        }
        self.buf.init = start + sub_init;
        self.buf.filled = start + sub_filled;
        assert(self.buffer().filled_part().take(start as int) =~= old(self).buffer().filled_part());
        res
    }
}

impl<'a, 'data, T: Default + Copy> TrackingBorrowedCursor<'a, 'data, T> {
    /// Initializes all unfilled elements with their default value and returns them.
    ///
    /// This includes elements that were already initialized; afterwards the whole buffer
    /// counts as initialized.
    pub fn ensure_init(&mut self) -> (r: &mut [T])
        requires
            old(self).buffer().wf(),
        ensures
            r@.len() == old(self).remaining(),
            exists|d: T|
                call_ensures(T::default, (), d) && forall|i: int|
                    0 <= i < r@.len() ==> #[trigger] r@[i] == d,
            final(self).buffer().filled_count() == old(self).buffer().filled_count(),
            final(self).buffer().init_count() == old(self).buffer().capacity_spec(),
            final(self).start_pos() == old(self).start_pos(),
            final(self).buffer().contents() == old(self).buffer().filled_part() + final(r)@,
            *final(final(self).target()) == *final(old(self).target()),
            final(final(self).buffer().storage())@ == final(old(self).buffer().storage())@,
    {
        let filled = self.buf.filled;
        let cap = self.buf.buf.len();
        write_default(self.buf.buf, filled);
        self.buf.init = cap;
        assert(self.buffer().filled_part() =~= old(self).buffer().filled_part());
        let (_, rest) = self.buf.buf.split_at_mut(filled);
        rest
    }
}

} // verus!
