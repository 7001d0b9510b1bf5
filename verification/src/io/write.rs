use vstd::prelude::*;

use crate::io::error::error_is_interrupted;
use crate::io::{Error, ErrorKind};

verus! {

/// How many times in a row a write that reports an interrupted operation is retried before
/// the interruption is handed to the caller.
pub const INTERRUPTED_RETRY_LIMIT: u64 = u64::MAX;

/// The error reported when a writer accepts no byte of a non-empty buffer during `write_all`.
pub open spec fn write_all_eof_spec() -> Error {
    Error::const_error_spec(ErrorKind::WriteZero, "failed to write whole buffer")
}

/// Returns the error reported when a writer accepts no byte of a non-empty buffer during
/// `write_all`.
pub fn write_all_eof() -> (r: Error)
    ensures
        r == write_all_eof_spec(),
{
    Error::const_error(ErrorKind::WriteZero, "failed to write whole buffer")
}

/// What a loop that writes until every byte is accepted does with the result of one write.
pub enum WriteStep {
    /// The write accepted this many bytes, at least one.
    Accepted(usize),
    /// The write was interrupted and is tried again.
    Retry,
    /// The loop ends with this error.
    Stop(Error),
}

/// What a loop that writes until every byte is accepted does with the result `r` of one
/// write, with `retries` retries of interrupted writes left: a count of 0 stops it with
/// `zero`, a positive count is accepted, an interrupted write is retried while retries are
/// left, and any other error stops it with that error.
pub open spec fn write_step_spec(r: Result<usize, Error>, retries: u64, zero: Error) -> WriteStep {
    match r {
        Ok(n) => if n == 0 {
            WriteStep::Stop(zero)
        } else {
            WriteStep::Accepted(n)
        },
        Err(e) => if error_is_interrupted(e) && retries > 0 {
            WriteStep::Retry
        } else {
            WriteStep::Stop(e)
        },
    }
}

/// Decides what a loop that writes until every byte is accepted does with the result `r` of
/// one write, as `write_step_spec` says.
pub fn write_step(r: Result<usize, Error>, retries: u64, zero: Error) -> (s: WriteStep)
    ensures
        s == write_step_spec(r, retries, zero),
{
    match r {
        Ok(0) => WriteStep::Stop(zero),
        Ok(n) => WriteStep::Accepted(n),
        Err(e) => {
            if e.is_interrupted() && retries > 0 {
                WriteStep::Retry
            } else {
                WriteStep::Stop(e)
            }
        },
    }
}

/// The bytes of several buffers, one after the other.
pub open spec fn flatten(bufs: Seq<&[u8]>) -> Seq<u8>
    decreases bufs.len(),
{
    if bufs.len() == 0 {
        Seq::<u8>::empty()
    } else {
        flatten(bufs.drop_last()) + bufs.last()@
    }
}

/// Flattening distributes over concatenation.
pub proof fn lemma_flatten_append(a: Seq<&[u8]>, b: Seq<&[u8]>)
    ensures
        flatten(a + b) == flatten(a) + flatten(b),
    decreases b.len(),
{
    if b.len() == 0 {
        assert(a + b =~= a);
        assert(flatten(a) + Seq::<u8>::empty() =~= flatten(a));
    } else {
        lemma_flatten_append(a, b.drop_last());
        assert((a + b).drop_last() =~= a + b.drop_last());
        assert(flatten(a) + flatten(b.drop_last()) + b.last()@ =~= flatten(a) + (flatten(
            b.drop_last(),
        ) + b.last()@));
    }
}

/// The bytes of buffers split at `i`: those before, those of buffer `i`, and those after.
pub proof fn lemma_flatten_split(bufs: Seq<&[u8]>, i: int)
    requires
        0 <= i < bufs.len(),
    ensures
        flatten(bufs) == flatten(bufs.take(i)) + bufs[i]@ + flatten(bufs.skip(i + 1)),
        flatten(bufs.take(i + 1)) == flatten(bufs.take(i)) + bufs[i]@,
{
    let single = seq![bufs[i]];
    assert(bufs =~= bufs.take(i) + single + bufs.skip(i + 1));
    assert(single.drop_last() =~= Seq::<&[u8]>::empty());
    assert(flatten(single) == flatten(single.drop_last()) + single.last()@);
    assert(Seq::<u8>::empty() + bufs[i]@ =~= bufs[i]@);
    assert(flatten(single) == bufs[i]@);
    lemma_flatten_append(bufs.take(i) + single, bufs.skip(i + 1));
    lemma_flatten_append(bufs.take(i), single);
    assert(bufs.take(i + 1) =~= bufs.take(i) + single);
}

/// The bytes of the first `j` buffers are a prefix of the bytes of all of them.
pub proof fn lemma_flatten_prefix(bufs: Seq<&[u8]>, j: int)
    requires
        0 <= j <= bufs.len(),
    ensures
        flatten(bufs.take(j)).len() <= flatten(bufs).len(),
        flatten(bufs).take(flatten(bufs.take(j)).len() as int) == flatten(bufs.take(j)),
{
    assert(bufs =~= bufs.take(j) + bufs.skip(j));
    lemma_flatten_append(bufs.take(j), bufs.skip(j));
    assert(flatten(bufs).take(flatten(bufs.take(j)).len() as int) =~= flatten(bufs.take(j)));
}

/// The bytes of non-empty buffers are those of the first followed by those of the rest.
pub proof fn lemma_flatten_first(bufs: Seq<&[u8]>)
    requires
        bufs.len() > 0,
    ensures
        flatten(bufs) == bufs[0]@ + flatten(bufs.skip(1)),
{
    lemma_flatten_split(bufs, 0);
    assert(bufs.take(0) =~= Seq::<&[u8]>::empty());
    assert(Seq::<u8>::empty() + bufs[0]@ =~= bufs[0]@);
}

/// Consumes `n` bytes from the buffers of `bufs` from index `start` on, returning the index of
/// the first buffer that still holds bytes (or the number of buffers when none does).
///
/// Buffers whose bytes are all consumed are skipped, together with the empty buffers that
/// follow them, and the first buffer left is shortened by the bytes consumed from it.
/// Buffers before the returned index are left as they were.
pub fn advance_slices(bufs: &mut [&[u8]], start: usize, n: usize) -> (r: usize)
    requires
        start <= old(bufs)@.len(),
        n <= flatten(old(bufs)@.skip(start as int)).len(),
    ensures
        start <= r <= final(bufs)@.len(),
        final(bufs)@.len() == old(bufs)@.len(),
        final(bufs)@.take(r as int) == old(bufs)@.take(r as int),
        flatten(final(bufs)@.skip(r as int)) == flatten(old(bufs)@.skip(start as int)).skip(
            n as int,
        ),
        r < final(bufs)@.len() ==> final(bufs)@[r as int]@.len() > 0 && final(bufs)@[r as int]@
            == old(bufs)@[r as int]@.skip(old(bufs)@[r as int]@.len() - final(bufs)@[r as int]@.len())
            && final(bufs)@.skip(r + 1) == old(bufs)@.skip(r + 1),
{
    let len = bufs.len();
    let mut i: usize = start;
    let mut left: usize = n;
    while i < len && bufs[i].len() <= left
        invariant
            start <= i <= len,
            len == bufs@.len(),
            bufs@ == old(bufs)@,
            left <= flatten(bufs@.skip(i as int)).len(),
            flatten(bufs@.skip(i as int)).skip(left as int) == flatten(
                old(bufs)@.skip(start as int),
            ).skip(n as int),
        decreases len - i,
    {
        proof {
            lemma_flatten_first(bufs@.skip(i as int));
            assert(bufs@.skip(i as int).skip(1) =~= bufs@.skip(i + 1));
            assert(flatten(bufs@.skip(i as int)).skip(left as int) =~= flatten(
                bufs@.skip(i + 1),
            ).skip(left - bufs@[i as int]@.len()));
        }
        left = left - bufs[i].len();
        i = i + 1;
    }
    if i < len {
        proof {
            lemma_flatten_first(bufs@.skip(i as int));
            assert(bufs@.skip(i as int).skip(1) =~= bufs@.skip(i + 1));
        }
        let first: &[u8] = bufs[i];
        let (_, rest) = first.split_at(left);
        bufs[i] = rest;
        proof {
            assert(bufs@.skip(i as int).skip(1) =~= old(bufs)@.skip(i + 1));
            lemma_flatten_first(bufs@.skip(i as int));
            assert(flatten(bufs@.skip(i as int)) =~= flatten(old(bufs)@.skip(i as int)).skip(
                left as int,
            ));
            assert(bufs@.take(i as int) =~= old(bufs)@.take(i as int));
        }
    } else {
        assert(bufs@.skip(i as int) =~= Seq::<&[u8]>::empty());
    }
    i
}

/// Only one buffer is non-empty with nothing but empty buffers before it.
pub proof fn lemma_first_non_empty_unique(bufs: Seq<&[u8]>, i: int, j: int)
    requires
        0 <= i < bufs.len(),
        0 <= j < bufs.len(),
        bufs[i]@.len() > 0,
        bufs[j]@.len() > 0,
        flatten(bufs.take(i)) == Seq::<u8>::empty(),
        flatten(bufs.take(j)) == Seq::<u8>::empty(),
    ensures
        i == j,
{
    if j < i {
        lemma_flatten_split(bufs.take(i), j);
        assert(bufs.take(i)[j] == bufs[j]);
        assert(flatten(bufs.take(i)).len() >= bufs[j]@.len());
    } else if i < j {
        lemma_flatten_split(bufs.take(j), i);
        assert(bufs.take(j)[i] == bufs[i]);
        assert(flatten(bufs.take(j)).len() >= bufs[i]@.len());
    }
}

/// Returns the total length of several buffers, or `usize::MAX` when it does not fit.
pub fn saturated_total_len(bufs: &[&[u8]]) -> (r: usize)
    ensures
        r == if flatten(bufs@).len() <= usize::MAX {
            flatten(bufs@).len() as int
        } else {
            usize::MAX as int
        },
{
    let mut total: usize = 0;
    let mut j: usize = 0;
    assert(bufs@.take(0) =~= Seq::<&[u8]>::empty());
    while j < bufs.len()
        invariant
            j <= bufs@.len(),
            total == if flatten(bufs@.take(j as int)).len() <= usize::MAX {
                flatten(bufs@.take(j as int)).len() as int
            } else {
                usize::MAX as int
            },
        decreases bufs@.len() - j,
    {
        proof {
            lemma_flatten_split(bufs@, j as int);
        }
        let len = bufs[j].len();
        total = if total > usize::MAX - len { usize::MAX } else { total + len };
        j = j + 1;
    }
    assert(bufs@.take(j as int) =~= bufs@);
    total
}

/// Returns the index of the first non-empty buffer, if there is one.
pub fn first_non_empty(bufs: &[&[u8]]) -> (r: Option<usize>)
    ensures
        r matches Some(i) ==> i < bufs@.len() && bufs@[i as int]@.len() > 0 && flatten(
            bufs@.take(i as int),
        ) == Seq::<u8>::empty(),
        r is None ==> flatten(bufs@) == Seq::<u8>::empty(),
{
    let mut i: usize = 0;
    assert(bufs@.take(0) =~= Seq::<&[u8]>::empty());
    while i < bufs.len()
        invariant
            i <= bufs@.len(),
            flatten(bufs@.take(i as int)) == Seq::<u8>::empty(),
        decreases bufs@.len() - i,
    {
        if bufs[i].len() > 0 {
            return Some(i);
        }
        proof {
            lemma_flatten_split(bufs@, i as int);
            assert(Seq::<u8>::empty() + bufs@[i as int]@ =~= Seq::<u8>::empty());
        }
        i = i + 1;
    }
    assert(bufs@.take(i as int) =~= bufs@);
    None
}

/// `r` is an error that reports an interrupted operation.
pub open spec fn interrupted_result<T>(r: Result<T, Error>) -> bool {
    r matches Err(e) && error_is_interrupted(e)
}

/// How the count of interrupted results in a row moves with a result `r`, for a writer that
/// promises, when `bound` is `Some(k)`, to report an interrupted operation at most `k` times in
/// a row: the promise is kept; an interrupted result comes only while fewer than `k` came just
/// before it, and adds one to the count; any other result does not raise the count.
pub open spec fn interrupt_step<T>(
    bound: Option<nat>,
    streak: nat,
    new_bound: Option<nat>,
    new_streak: nat,
    r: Result<T, Error>,
) -> bool {
    bound matches Some(k) ==> new_bound == Some(k) && if interrupted_result(r) {
        streak < k && new_streak == streak + 1
    } else {
        new_streak <= streak
    }
}

/// A trait for objects which are byte-oriented sinks.
///
/// `written` models the bytes a writer has accepted so far, in order. A successful `write`
/// accepts a prefix of its buffer and reports its length; a failed one accepts nothing; a
/// flush accepts nothing new.
pub trait Write {
    /// The bytes this writer has accepted so far, in order.
    ///
    /// Writers that do not define it accept nothing as far as verified code can tell, so the
    /// contracts of `write` and `write_vectored` can only be met by such a writer when it
    /// accepts no byte.
    open spec fn written(&self) -> Seq<u8> {
        Seq::<u8>::empty()
    }

    /// The bytes this writer has accepted that have not reached their destination yet, held
    /// back in its own buffers or in those of the writers it wraps.
    ///
    /// Writers that do not define it deliver every byte they accept at once.
    open spec fn pending(&self) -> Seq<u8> {
        Seq::<u8>::empty()
    }

    /// Whether this writer never fails: every write accepts at least one byte of a non-empty
    /// buffer, and every flush succeeds.
    ///
    /// Writers that do not define it make no such promise.
    open spec fn always_accepts(&self) -> bool {
        false
    }

    /// When `Some(k)`, this writer's `write` and `write_vectored` report an interrupted
    /// operation at most `k` times in a row.
    ///
    /// Writers that do not define it make no such promise.
    open spec fn interrupt_bound(&self) -> Option<nat> {
        None
    }

    /// How many of the last results of `write` and `write_vectored`, in a row, reported an
    /// interrupted operation.
    open spec fn interrupt_streak(&self) -> nat {
        0
    }

    /// Writes a buffer into this writer, returning how many bytes were written.
    ///
    /// A successful write accepts the first `n` bytes of `buf` and returns `n`; a failed write
    /// accepts nothing.
    fn write(&mut self, buf: &[u8]) -> (r: Result<usize, Error>)
        ensures
            r matches Ok(n) ==> n <= buf@.len() && final(self).written() == old(self).written()
                + buf@.take(n as int),
            r is Err ==> final(self).written() == old(self).written(),
            old(self).always_accepts() ==> final(self).always_accepts() && (r matches Ok(n) && (
            buf@.len() > 0 ==> n > 0)),
            interrupt_step(
                old(self).interrupt_bound(),
                old(self).interrupt_streak(),
                final(self).interrupt_bound(),
                final(self).interrupt_streak(),
                r,
            ),
    ;

    /// Flushes this output stream, ensuring that all intermediately buffered contents reach
    /// their destination.
    fn flush(&mut self) -> (r: Result<(), Error>)
        ensures
            final(self).written() == old(self).written(),
            r is Ok ==> final(self).pending() == Seq::<u8>::empty(),
            old(self).always_accepts() ==> final(self).always_accepts() && r is Ok,
    ;

    /// Writes the bytes of several buffers, one after the other, returning how many bytes were
    /// written.
    ///
    /// A successful write accepts the first `n` of those bytes and returns `n`; a failed write
    /// accepts nothing. Unless a writer does better, this writes the first non-empty buffer.
    fn write_vectored(&mut self, bufs: &[&[u8]]) -> (r: Result<usize, Error>)
        ensures
            r matches Ok(n) ==> n <= flatten(bufs@).len() && final(self).written() == old(
                self,
            ).written() + flatten(bufs@).take(n as int),
            r is Err ==> final(self).written() == old(self).written(),
            old(self).always_accepts() ==> final(self).always_accepts() && (r matches Ok(n) && (
            flatten(bufs@).len() > 0 ==> n > 0)),
            interrupt_step(
                old(self).interrupt_bound(),
                old(self).interrupt_streak(),
                final(self).interrupt_bound(),
                final(self).interrupt_streak(),
                r,
            ),
        default_ensures
            flatten(bufs@).len() == 0 ==> r == Ok::<usize, Error>(0),
            forall|i: int|
                0 <= i < bufs@.len() && bufs@[i]@.len() > 0 && #[trigger] flatten(bufs@.take(i))
                    == Seq::<u8>::empty() ==> (r matches Ok(n) ==> n <= bufs@[i]@.len()),
    {
        match first_non_empty(bufs) {
            Some(i) => {
                proof {
                    lemma_flatten_split(bufs@, i as int);
                    assert(Seq::<u8>::empty() + bufs@[i as int]@ =~= bufs@[i as int]@);
                }
                let r = self.write(bufs[i]);
                proof {
                    if let Ok(n) = r {
                        assert(flatten(bufs@).take(n as int) =~= bufs@[i as int]@.take(n as int));
                    }
                    assert forall|j: int|
                        0 <= j < bufs@.len() && bufs@[j]@.len() > 0 && #[trigger] flatten(
                            bufs@.take(j),
                        ) == Seq::<u8>::empty() implies j == i by {
                        lemma_first_non_empty_unique(bufs@, i as int, j);
                    }
                }
                r
            },
            None => {
                assert(old(self).written() + flatten(bufs@).take(0) =~= old(self).written());
                proof {
                    assert forall|j: int|
                        0 <= j < bufs@.len() && bufs@[j]@.len() > 0 && #[trigger] flatten(
                            bufs@.take(j),
                        ) == Seq::<u8>::empty() implies false by {
                        lemma_flatten_split(bufs@, j);
                    }
                }
                Ok(0)
            },
        }
    }

    /// Returns whether this writer has an efficient `write_vectored`: unless a writer says
    /// otherwise, it does not.
    fn is_write_vectored(&self) -> (r: bool)
        default_ensures
            !r,
    {
        false
    }

    /// Attempts to write the bytes of several buffers, one after the other, entirely.
    ///
    /// Calls `write_vectored` on the buffers not yet written (the first one shortened by what
    /// was written of it) until every byte is accepted. A write that reports an interrupted
    /// operation is retried (up to `INTERRUPTED_RETRY_LIMIT` times in a row); a write that
    /// accepts no byte ends with a `WriteZero` error; any other error is returned. On success
    /// the writer has accepted all of the bytes; on an error, a prefix of them. The buffers are
    /// consumed along the way, so what `bufs` holds afterwards is unspecified.
    fn write_all_vectored(&mut self, bufs: &mut [&[u8]]) -> (r: Result<(), Error>)
        ensures
            r is Ok ==> final(self).written() == old(self).written() + flatten(old(bufs)@),
            r is Err ==> exists|k: int|
                0 <= k <= flatten(old(bufs)@).len() && final(self).written() == old(
                    self,
                ).written() + #[trigger] flatten(old(bufs)@).take(k),
            old(self).always_accepts() ==> final(self).always_accepts() && r is Ok,
            old(self).interrupt_bound() matches Some(k) && k <= INTERRUPTED_RETRY_LIMIT
                ==> !interrupted_result(r),
        default_ensures
            flatten(old(bufs)@).len() == 0 ==> r is Ok,
            r matches Err(e) ==> (e == write_all_eof_spec() && exists|w: &mut Self, b: &[&[u8]]|
                call_ensures(Self::write_vectored, (w, b), Ok::<usize, Error>(0))) || exists|
                w: &mut Self,
                b: &[&[u8]],
            | call_ensures(Self::write_vectored, (w, b), Err::<usize, Error>(e)),
    {
        let ghost all = flatten(bufs@);
        assert(bufs@.skip(0) =~= bufs@);
        let mut idx = advance_slices(bufs, 0, 0);
        let len = bufs.len();
        let mut retries: u64 = INTERRUPTED_RETRY_LIMIT;
        assert(all.skip(0) =~= all);
        assert(all.take(0) =~= Seq::<u8>::empty());
        assert(old(self).written() + all.take(0) =~= old(self).written());
        while idx < len
            invariant
                all == flatten(old(bufs)@),
                idx <= len,
                len == bufs@.len(),
                idx < len ==> bufs@[idx as int]@.len() > 0,
                flatten(bufs@.skip(idx as int)).len() <= all.len(),
                all.skip(all.len() - flatten(bufs@.skip(idx as int)).len()) == flatten(
                    bufs@.skip(idx as int),
                ),
                self.written() == old(self).written() + all.take(
                    all.len() - flatten(bufs@.skip(idx as int)).len(),
                ),
                old(self).always_accepts() ==> self.always_accepts(),
                old(self).interrupt_bound() is Some && old(self).interrupt_bound().unwrap()
                    <= INTERRUPTED_RETRY_LIMIT ==> self.interrupt_bound() == old(
                    self,
                ).interrupt_bound() && old(self).interrupt_bound().unwrap() <= retries
                    + self.interrupt_streak(),
            decreases flatten(bufs@.skip(idx as int)).len(), retries,
        {
            proof {
                lemma_flatten_first(bufs@.skip(idx as int));
            }
            let ghost rest_bytes = flatten(bufs@.skip(idx as int));
            let ghost done = all.len() - rest_bytes.len();
            let (_, rest) = bufs.split_at(idx);
            assert(rest@ =~= bufs@.skip(idx as int));
            let result = self.write_vectored(rest);
            match write_step(result, retries, write_all_eof()) {
                WriteStep::Accepted(n) => {
                    idx = advance_slices(bufs, idx, n);
                    retries = INTERRUPTED_RETRY_LIMIT;
                    proof {
                        assert(all.take(done) + rest_bytes.take(n as int) =~= all.take(
                            done + n,
                        ));
                        assert(all.skip(done + n) =~= rest_bytes.skip(n as int));
                    }
                },
                WriteStep::Retry => {
                    retries = retries - 1;
                },
                WriteStep::Stop(e) => {
                    proof {
                        assert(self.written() == old(self).written() + flatten(old(bufs)@).take(
                            done,
                        ));
                    }
                    return Err(e);
                },
            }
        }
        assert(bufs@.skip(idx as int) =~= Seq::<&[u8]>::empty());
        assert(all.take(all.len() as int) =~= all);
        Ok(())
    }

    /// Attempts to write an entire buffer into this writer.
    ///
    /// Calls `write` until every byte is accepted. A write that reports an interrupted
    /// operation is retried (up to `INTERRUPTED_RETRY_LIMIT` times in a row); a write that
    /// accepts no byte ends with a `WriteZero` error; any other error is returned. On success
    /// the writer has accepted all of `buf`; on an error, a prefix of it.
    fn write_all(&mut self, buf: &[u8]) -> (r: Result<(), Error>)
        ensures
            r is Ok ==> final(self).written() == old(self).written() + buf@,
            r is Err ==> exists|k: int|
                0 <= k <= buf@.len() && final(self).written() == old(self).written()
                    + #[trigger] buf@.take(k),
            old(self).always_accepts() ==> final(self).always_accepts() && r is Ok,
            old(self).interrupt_bound() matches Some(k) && k <= INTERRUPTED_RETRY_LIMIT
                ==> !interrupted_result(r),
        default_ensures
            buf@.len() == 0 ==> r is Ok,
            r matches Err(e) ==> (e == write_all_eof_spec() && exists|w: &mut Self, b: &[u8]|
                call_ensures(Self::write, (w, b), Ok::<usize, Error>(0))) || exists|
                w: &mut Self,
                b: &[u8],
            | call_ensures(Self::write, (w, b), Err::<usize, Error>(e)),
    {
        let len = buf.len();
        let mut start: usize = 0;
        let mut retries: u64 = INTERRUPTED_RETRY_LIMIT;
        assert(buf@.take(0) =~= Seq::<u8>::empty());
        assert(old(self).written() + buf@.take(0) =~= old(self).written());
        while start < len
            invariant
                start <= len,
                len == buf@.len(),
                self.written() == old(self).written() + buf@.take(start as int),
                old(self).always_accepts() ==> self.always_accepts(),
                old(self).interrupt_bound() is Some && old(self).interrupt_bound().unwrap()
                    <= INTERRUPTED_RETRY_LIMIT ==> self.interrupt_bound() == old(
                    self,
                ).interrupt_bound() && old(self).interrupt_bound().unwrap() <= retries
                    + self.interrupt_streak(),
            decreases len - start, retries,
        {
            let (_, rest) = buf.split_at(start);
            let result = self.write(rest);
            match write_step(result, retries, write_all_eof()) {
                WriteStep::Accepted(n) => {
                    assert(buf@.take(start as int) + rest@.take(n as int) =~= buf@.take(
                        (start + n) as int,
                    ));
                    start = start + n;
                    retries = INTERRUPTED_RETRY_LIMIT;
                },
                WriteStep::Retry => {
                    retries = retries - 1;
                },
                WriteStep::Stop(e) => {
                    return Err(e);
                },
            }
        }
        assert(buf@.take(len as int) =~= buf@);
        Ok(())
    }
}

} // verus!
