use vstd::prelude::*;

use crate::io::write::{
    first_non_empty, flatten, lemma_flatten_prefix, lemma_flatten_split, saturated_total_len,
    interrupted_result, write_step, WriteStep, INTERRUPTED_RETRY_LIMIT,
};
use crate::io::error::error_is_interrupted;
use crate::io::{Error, ErrorKind, Write};

verus! {

/// `a` is a suffix of `b`.
pub open spec fn is_suffix(a: Seq<u8>, b: Seq<u8>) -> bool {
    a.len() <= b.len() && a == b.skip(b.len() - a.len())
}

/// What a buffered `write` of `data` leaves in a buffer of capacity `cap` that held `old`,
/// given its result `r`.
///
/// Data smaller than the free space is appended. Otherwise the buffer is flushed first when
/// the data exceeds the free space; data smaller than the capacity is then appended, and data
/// at least as large as the capacity goes straight to the inner writer, whose count is
/// returned. On an error the buffer holds what the failed flush left: a suffix of `old`.
pub open spec fn write_outcome(
    old: Seq<u8>,
    data: Seq<u8>,
    cap: nat,
    r: Result<usize, Error>,
    new: Seq<u8>,
) -> bool {
    let spare = cap - old.len();
    if data.len() < spare {
        r == Ok::<usize, Error>(data.len() as usize) && new == old + data
    } else {
        match r {
            Ok(n) => if data.len() < cap {
                n == data.len() && new == (if data.len() > spare {
                    data
                } else {
                    old + data
                })
            } else {
                n <= data.len() && new == Seq::<u8>::empty()
            },
            Err(_) => is_suffix(new, old),
        }
    }
}

/// What a buffered `write_all` of `data` leaves in a buffer of capacity `cap` that held `old`,
/// given whether it succeeded.
///
/// Data smaller than the free space is appended. Otherwise the buffer is flushed first when
/// the data exceeds the free space; data smaller than the capacity is then appended, and data
/// at least as large as the capacity is handed whole to the inner writer. On an error the
/// buffer holds a suffix of `old`.
pub open spec fn write_all_outcome(old: Seq<u8>, data: Seq<u8>, cap: nat, ok: bool, new: Seq<u8>) -> bool {
    let spare = cap - old.len();
    if data.len() < spare {
        ok && new == old + data
    } else if ok {
        new == if data.len() >= cap {
            Seq::<u8>::empty()
        } else if data.len() > spare {
            data
        } else {
            old + data
        }
    } else {
        is_suffix(new, old)
    }
}

/// Being a suffix is transitive.
pub proof fn lemma_suffix_trans(a: Seq<u8>, b: Seq<u8>, c: Seq<u8>)
    requires
        is_suffix(a, b),
        is_suffix(b, c),
    ensures
        is_suffix(a, c),
{
    assert(c.skip(c.len() - b.len()).skip(b.len() - a.len()) =~= c.skip(c.len() - a.len()));
}

/// The empty sequence is a suffix of every sequence, and every sequence is a suffix of itself.
pub proof fn lemma_suffix_trivial(a: Seq<u8>)
    ensures
        is_suffix(Seq::<u8>::empty(), a),
        is_suffix(a, a),
{
    assert(a.skip(a.len() as int) =~= Seq::<u8>::empty());
    assert(a.skip(0) =~= a);
}

/// The error reported when the inner writer accepts no byte of the buffered data.
pub open spec fn flush_write_zero_spec() -> Error {
    Error::const_error_spec(ErrorKind::WriteZero, "failed to write the buffered data")
}

/// An error that writing out a buffer to a writer of type `W` can end with: `WriteZero` after
/// a write of `W` accepted no byte, or an error that a write of `W` returned.
pub open spec fn flush_error<W: Write>(e: Error) -> bool {
    ||| e == flush_write_zero_spec() && exists|w: &mut W, b: &[u8]|
        call_ensures(W::write, (w, b), Ok::<usize, Error>(0))
    ||| exists|w: &mut W, b: &[u8]| call_ensures(W::write, (w, b), Err::<usize, Error>(e))
}

/// An error that writing out the bytes `pending` to a writer of type `W` ends with: the
/// failing write was handed a non-empty tail of `pending` (what was not yet accepted), and
/// either accepted none of it, giving `WriteZero`, or returned this error.
pub open spec fn flush_error_on<W: Write>(e: Error, pending: Seq<u8>) -> bool {
    ||| e == flush_write_zero_spec() && exists|w: &mut W, b: &[u8]|
        b@.len() > 0 && is_suffix(b@, pending) && call_ensures(
            W::write,
            (w, b),
            Ok::<usize, Error>(0),
        )
    ||| exists|w: &mut W, b: &[u8]|
        b@.len() > 0 && is_suffix(b@, pending) && call_ensures(
            W::write,
            (w, b),
            Err::<usize, Error>(e),
        )
}

/// Returns the error reported when the inner writer accepts no byte of the buffered data.
pub fn flush_write_zero() -> (r: Error)
    ensures
        r == flush_write_zero_spec(),
{
    Error::const_error(ErrorKind::WriteZero, "failed to write the buffered data")
}

/// An error returned by `into_inner`, combining the error that happened while writing out the
/// buffer and the buffered writer, which can be used to recover from the condition.
#[derive(Debug)]
pub struct IntoInnerError<W> {
    writer: W,
    error: Error,
}

impl<W> IntoInnerError<W> {
    /// The buffered writer that could not be flushed.
    pub closed spec fn writer(&self) -> W {
        self.writer
    }

    /// The error that happened while flushing.
    pub closed spec fn error_spec(&self) -> Error {
        self.error
    }

    /// Creates an error from a buffered writer and the error that happened while flushing it.
    pub fn new(writer: W, error: Error) -> (r: Self)
        ensures
            r.writer() == writer,
            r.error_spec() == error,
    {
        IntoInnerError { writer, error }
    }

    /// Returns the error which caused the call to `into_inner` to fail.
    pub fn error(&self) -> (r: &Error)
        ensures
            *r == self.error_spec(),
    {
        &self.error
    }

    /// Returns the buffered writer instance which generated the error.
    pub fn into_inner(self) -> (r: W)
        ensures
            r == self.writer(),
    {
        self.writer
    }

    /// Consumes the error, returning the error that happened while flushing.
    pub fn into_error(self) -> (r: Error)
        ensures
            r == self.error_spec(),
    {
        self.error
    }

    /// Consumes the error, returning the error and the buffered writer.
    pub fn into_parts(self) -> (r: (Error, W))
        ensures
            r.0 == self.error_spec(),
            r.1 == self.writer(),
    {
        (self.error, self.writer)
    }
}

/// A fixed-capacity byte buffer: an array of `N` bytes whose first `len` bytes are in use.
#[derive(Debug)]
struct FixedBuf<const N: usize> {
    buf: [u8; N],
    len: usize,
}

impl<const N: usize> FixedBuf<N> {
    #[verifier::type_invariant]
    spec fn inv(self) -> bool {
        self.len <= N
    }

    /// The bytes in use.
    closed spec fn bytes(&self) -> Seq<u8> {
        self.buf@.take(self.len as int)
    }

    fn new() -> (r: Self)
        ensures
            r.bytes() == Seq::<u8>::empty(),
    {
        FixedBuf { buf: [0u8; N], len: 0 }
    }

    fn len(&self) -> (r: usize)
        ensures
            r == self.bytes().len(),
            r <= N,
    {
        proof {
            use_type_invariant(self);
        }
        self.len
    }

    fn as_slice(&self) -> (r: &[u8])
        ensures
            r@ == self.bytes(),
    {
        proof {
            use_type_invariant(self);
        }
        let (head, _) = self.buf.as_slice().split_at(self.len);
        head
    }

    fn spare(&self) -> (r: usize)
        ensures
            r == N - self.bytes().len(),
            self.bytes().len() <= N,
    {
        proof {
            use_type_invariant(self);
        }
        N - self.len
    }

    /// Copies as many bytes of `data` as fit, returning how many were copied.
    fn extend(&mut self, data: &[u8]) -> (r: usize)
        ensures
            r == if data@.len() < N - old(self).bytes().len() {
                data@.len() as int
            } else {
                N - old(self).bytes().len()
            },
            final(self).bytes() == old(self).bytes() + data@.take(r as int),
            final(self).bytes().len() <= N,
    {
        proof {
            use_type_invariant(&*self);
        }
        let spare = N - self.len;
        let amount = if data.len() < spare { data.len() } else { spare };
        let start = self.len;
        let mut buf = self.buf;
        let mut i: usize = 0;
        while i < amount
            invariant
                0 <= i <= amount,
                start + amount <= N,
                amount <= data@.len(),
                buf@.len() == N,
                buf@.take(start as int) == old(self).bytes(),
                forall|k: int| 0 <= k < i ==> buf@[start + k] == data@[k],
            decreases amount - i,
        {
            let ghost before = buf@;
            buf[start + i] = data[i];
            assert(buf@.take(start as int) =~= before.take(start as int));
            i = i + 1;
        }
        *self = FixedBuf { buf, len: start + amount };
        assert(self.bytes() =~= old(self).bytes() + data@.take(amount as int));
        amount
    }

    /// Drops the first `n` bytes, moving the rest to the front.
    fn consume(&mut self, n: usize)
        requires
            n <= old(self).bytes().len(),
        ensures
            final(self).bytes() == old(self).bytes().skip(n as int),
    {
        proof {
            use_type_invariant(&*self);
        }
        let len = self.len;
        let mut buf = self.buf;
        let mut i: usize = n;
        while i < len
            invariant
                n <= i <= len,
                len <= N,
                buf@.len() == N,
                len == old(self).len,
                forall|k: int| 0 <= k < i - n ==> buf@[k] == old(self).buf@[k + n],
                forall|k: int| i <= k < len ==> buf@[k] == old(self).buf@[k],
            decreases len - i,
        {
            let b = buf[i];
            buf[i - n] = b;
            i = i + 1;
        }
        *self = FixedBuf { buf, len: len - n };
        assert(self.bytes() =~= old(self).bytes().skip(n as int));
    }
}

/// Wraps a writer and buffers its output in an array of `N` bytes.
///
/// Small writes are collected in the buffer and handed to the inner writer in larger chunks;
/// writes at least as large as the buffer bypass it. Buffered data reaches the inner writer
/// when the buffer runs out of space, on `flush`, and on `into_inner`.
#[derive(Debug)]
pub struct ArrayBufWriter<W, const N: usize> {
    inner: W,
    buf: FixedBuf<N>,
}

impl<W, const N: usize> ArrayBufWriter<W, N> {
    /// The bytes waiting in the buffer.
    pub closed spec fn buffered(&self) -> Seq<u8> {
        self.buf.bytes()
    }

    /// The wrapped writer.
    pub closed spec fn writer(&self) -> W {
        self.inner
    }

    /// The free space left in the buffer.
    pub open spec fn spare(&self) -> int {
        N - self.buffered().len()
    }

    /// Creates a new buffered writer with an empty buffer of `N` bytes.
    pub fn new(inner: W) -> (r: Self)
        ensures
            r.buffered() == Seq::<u8>::empty(),
            r.writer() == inner,
    {
        ArrayBufWriter { inner, buf: FixedBuf::new() }
    }

    /// Gets a reference to the underlying writer.
    pub fn get_ref(&self) -> (r: &W)
        ensures
            *r == self.writer(),
    {
        &self.inner
    }

    /// Gets a mutable reference to the underlying writer.
    ///
    /// Writing directly to the underlying writer bypasses the buffer.
    pub fn get_mut(&mut self) -> (r: &mut W)
        ensures
            *r == old(self).writer(),
            final(self).writer() == *final(r),
            final(self).buffered() == old(self).buffered(),
    {
        &mut self.inner
    }

    /// Returns the bytes waiting in the buffer.
    pub fn buffer(&self) -> (r: &[u8])
        ensures
            r@ == self.buffered(),
    {
        self.buf.as_slice()
    }

    /// Returns the number of bytes the buffer can hold.
    pub fn capacity(&self) -> (r: usize)
        ensures
            r == N,
    {
        N
    }

    /// Returns how many more bytes fit in the buffer.
    pub fn spare_capacity(&self) -> (r: usize)
        ensures
            r == self.spare(),
            self.buffered().len() <= N,
    {
        self.buf.spare()
    }

    /// Copies as many bytes of `data` as fit into the buffer, returning how many were copied.
    pub fn write_to_buf(&mut self, data: &[u8]) -> (r: usize)
        ensures
            r == if data@.len() < old(self).spare() { data@.len() as int } else { old(self).spare() },
            final(self).buffered() == old(self).buffered() + data@.take(r as int),
            final(self).writer() == old(self).writer(),
    {
        self.buf.extend(data)
    }
}

impl<W: Write, const N: usize> ArrayBufWriter<W, N> {
    /// Writes the buffered bytes out to the inner writer.
    ///
    /// Bytes the inner writer accepts leave the buffer, also when a later write fails. A
    /// write that reports an interrupted operation is retried (up to `INTERRUPTED_RETRY_LIMIT`
    /// times in a row); a write that accepts no byte ends with a `WriteZero` error.
    pub fn flush_buf(&mut self) -> (r: Result<(), Error>)
        ensures
            r is Ok ==> final(self).buffered() == Seq::<u8>::empty(),
            is_suffix(final(self).buffered(), old(self).buffered()),
            old(self).buffered().len() == 0 ==> r is Ok && final(self).writer() == old(
                self,
            ).writer(),
            final(self).writer().written() + final(self).buffered() == old(self).writer().written()
                + old(self).buffered(),
            old(self).writer().always_accepts() ==> r is Ok && final(self).writer().always_accepts(),
            r matches Err(e) ==> flush_error::<W>(e),
            r matches Err(e) ==> flush_error_on::<W>(e, old(self).buffered()),
            old(self).writer().interrupt_bound() matches Some(k) && k <= INTERRUPTED_RETRY_LIMIT
                ==> !interrupted_result(r),
    {
        let mut retries: u64 = INTERRUPTED_RETRY_LIMIT;
        assert(self.buffered().skip(0) =~= self.buffered());
        while self.buf.len() > 0
            invariant
                is_suffix(self.buffered(), old(self).buffered()),
                old(self).buffered().len() == 0 ==> self.writer() == old(self).writer(),
                self.writer().written() + self.buffered() == old(self).writer().written() + old(
                    self,
                ).buffered(),
                old(self).writer().always_accepts() ==> self.writer().always_accepts(),
                old(self).writer().interrupt_bound() is Some && old(
                    self,
                ).writer().interrupt_bound().unwrap() <= INTERRUPTED_RETRY_LIMIT
                    ==> self.writer().interrupt_bound() == old(self).writer().interrupt_bound()
                    && old(self).writer().interrupt_bound().unwrap() <= retries
                    + self.writer().interrupt_streak(),
            decreases self.buffered().len(), retries,
        {
            let ghost pending = self.buffered();
            let result = self.inner.write(self.buf.as_slice());
            match write_step(result, retries, flush_write_zero()) {
                WriteStep::Stop(e) => {
                    return Err(e);
                },
                WriteStep::Accepted(n) => {
                    self.buf.consume(n);
                    assert(pending.take(n as int) + pending.skip(n as int) =~= pending);
                    assert(self.writer().written() + self.buffered() =~= old(self).writer().written()
                        + old(self).buffered());
                    assert(self.buffered() =~= old(self).buffered().skip(
                        old(self).buffered().len() - self.buffered().len(),
                    ));
                    retries = INTERRUPTED_RETRY_LIMIT;
                },
                WriteStep::Retry => {
                    retries = retries - 1;
                },
            }
        }
        assert(self.buffered() =~= Seq::<u8>::empty());
        Ok(())
    }

    /// Unwraps this writer, returning the underlying writer after writing out the buffer.
    ///
    /// When writing out the buffer fails, the error holds the buffered writer, whose buffer
    /// holds what could not be written.
    pub fn into_inner(self) -> (r: Result<W, IntoInnerError<ArrayBufWriter<W, N>>>)
        ensures
            r matches Err(e) ==> is_suffix(e.writer().buffered(), self.buffered()),
            self.buffered().len() == 0 ==> r == Ok::<W, IntoInnerError<ArrayBufWriter<W, N>>>(
                self.writer(),
            ),
            r matches Ok(w) ==> w.written() == self.writer().written() + self.buffered(),
            r matches Err(e) ==> e.writer().writer().written() + e.writer().buffered()
                == self.writer().written() + self.buffered(),
            r matches Err(e) ==> flush_error::<W>(e.error_spec()),
            r matches Err(e) ==> flush_error_on::<W>(e.error_spec(), self.buffered()),
            self.writer().always_accepts() ==> (r matches Ok(w) && w.always_accepts()),
            self.writer().interrupt_bound() matches Some(k) && k <= INTERRUPTED_RETRY_LIMIT ==> (
            r matches Err(e) ==> !error_is_interrupted(e.error_spec())),
    {
        let mut this = self;
        match this.flush_buf() {
            Err(e) => Err(IntoInnerError::new(this, e)),
            Ok(()) => Ok(this.inner),
        }
    }
}

impl<W: Write, const N: usize> Write for ArrayBufWriter<W, N> {
    /// The bytes accepted so far: those the inner writer accepted, then those waiting in the
    /// buffer.
    open spec fn written(&self) -> Seq<u8> {
        self.writer().written() + self.buffered()
    }

    /// The bytes not yet delivered: those the inner writer holds back, then those in the
    /// buffer.
    open spec fn pending(&self) -> Seq<u8> {
        self.writer().pending() + self.buffered()
    }

    /// A buffered writer never fails when its inner writer never fails.
    open spec fn always_accepts(&self) -> bool {
        self.writer().always_accepts()
    }

    /// Writes `data` through the buffer: small writes are buffered, writes as large as the
    /// buffer go straight to the inner writer after the buffer is written out.
    fn write(&mut self, data: &[u8]) -> (r: Result<usize, Error>)
        ensures
            write_outcome(old(self).buffered(), data@, N as nat, r, final(self).buffered()),
            data@.len() < old(self).spare() ==> final(self).writer() == old(self).writer(),
            r matches Err(e) ==> flush_error::<W>(e),
    {
        let spare = self.spare_capacity();
        if data.len() < spare {
            self.buf.extend(data);
            assert(data@.take(data@.len() as int) =~= data@);
            return Ok(data.len());
        }
        if data.len() > spare {
            match self.flush_buf() {
                Ok(()) => {},
                Err(e) => {
                    assert(self.written() == old(self).written());
                    assert(self.written() == self.writer().written() + self.buffered());
                    return Err(e);
                },
            }
        }
        if data.len() >= N {
            proof {
                lemma_suffix_trivial(old(self).buffered());
            }
            self.inner.write(data)
        } else {
            self.buf.extend(data);
            assert(data@.take(data@.len() as int) =~= data@);
            assert(Seq::<u8>::empty() + data@ =~= data@);
            Ok(data.len())
        }
    }

    /// Writes the bytes of several buffers through the buffer.
    ///
    /// When the inner writer has an efficient vectored write, all of the bytes are buffered if
    /// they fit in the buffer (after writing it out if they exceed the free space), and
    /// otherwise handed to the inner writer's vectored write. Otherwise the first non-empty
    /// buffer is written as by `write`, and when it was buffered, the following buffers are
    /// buffered as long as each fits whole in the free space.
    fn write_vectored(&mut self, bufs: &[&[u8]]) -> (r: Result<usize, Error>)
        ensures
            flatten(bufs@).len() < old(self).spare() ==> r == Ok::<usize, Error>(
                flatten(bufs@).len() as usize,
            ) && final(self).writer() == old(self).writer() && final(self).buffered() == old(
                self,
            ).buffered() + flatten(bufs@),
            r is Err ==> is_suffix(final(self).buffered(), old(self).buffered()),
    {
        if self.inner.is_write_vectored() {
            let total = saturated_total_len(bufs);
            let spare = self.spare_capacity();
            if total > spare {
                match self.flush_buf() {
                    Ok(()) => {},
                    Err(e) => {
                        return Err(e);
                    },
                }
            }
            if total >= N {
                proof {
                    lemma_suffix_trivial(old(self).buffered());
                }
                return self.inner.write_vectored(bufs);
            }
            let ghost start = self.buffered();
            let mut j: usize = 0;
            assert(bufs@.take(0) =~= Seq::<&[u8]>::empty());
            assert(start + Seq::<u8>::empty() =~= start);
            while j < bufs.len()
                invariant
                    j <= bufs@.len(),
                    flatten(bufs@).len() == total,
                    total < N,
                    start.len() + total <= N,
                    self.buffered() == start + flatten(bufs@.take(j as int)),
                    self.writer().written() + start == old(self).written(),
                    total < old(self).spare() ==> start == old(self).buffered() && self.writer()
                        == old(self).writer(),
                    old(self).writer().always_accepts() ==> self.writer().always_accepts(),
                decreases bufs@.len() - j,
            {
                proof {
                    lemma_flatten_split(bufs@, j as int);
                    lemma_flatten_prefix(bufs@, j as int + 1);
                }
                let copied = self.buf.extend(bufs[j]);
                assert(bufs@[j as int]@.take(copied as int) =~= bufs@[j as int]@);
                assert(self.buffered() =~= start + flatten(bufs@.take(j as int + 1)));
                j = j + 1;
            }
            assert(bufs@.take(j as int) =~= bufs@);
            assert(flatten(bufs@).take(total as int) =~= flatten(bufs@));
            return Ok(total);
        }
        match first_non_empty(bufs) {
            None => {
                assert(old(self).written() + flatten(bufs@).take(0) =~= old(self).written());
                Ok(0)
            },
            Some(i) => {
                proof {
                    lemma_flatten_split(bufs@, i as int);
                    assert(Seq::<u8>::empty() + bufs@[i as int]@ =~= bufs@[i as int]@);
                }
                let first = bufs[i];
                if first.len() > self.spare_capacity() {
                    match self.flush_buf() {
                        Ok(()) => {},
                        Err(e) => {
                            return Err(e);
                        },
                    }
                }
                if first.len() >= N {
                    let r = self.inner.write(first);
                    proof {
                        lemma_suffix_trivial(old(self).buffered());
                        if let Ok(n) = r {
                            assert(flatten(bufs@).take(n as int) =~= first@.take(n as int));
                            assert(self.buffered() =~= Seq::<u8>::empty());
                        }
                    }
                    return r;
                }
                let ghost start = self.buffered();
                let copied = self.buf.extend(first);
                assert(first@.take(copied as int) =~= first@);
                let mut total: usize = first.len();
                let mut j: usize = i + 1;
                proof {
                    lemma_flatten_prefix(bufs@, i as int + 1);
                }
                while j < bufs.len()
                    invariant
                        i < j <= bufs@.len(),
                        total == flatten(bufs@.take(j as int)).len(),
                        0 < total <= N,
                        self.buffered() == start + flatten(bufs@.take(j as int)),
                        self.writer().written() + start == old(self).written(),
                        flatten(bufs@).len() < old(self).spare() ==> start == old(self).buffered()
                            && self.writer() == old(self).writer(),
                        old(self).writer().always_accepts() ==> self.writer().always_accepts(),
                    ensures
                        j == bufs@.len() || bufs@[j as int]@.len() > self.spare(),
                    decreases bufs@.len() - j,
                {
                    proof {
                        lemma_flatten_split(bufs@, j as int);
                        lemma_flatten_prefix(bufs@, j as int + 1);
                    }
                    if bufs[j].len() > self.spare_capacity() {
                        break;
                    }
                    let copied = self.buf.extend(bufs[j]);
                    assert(bufs@[j as int]@.take(copied as int) =~= bufs@[j as int]@);
                    total = total + bufs[j].len();
                    j = j + 1;
                }
                proof {
                    lemma_flatten_prefix(bufs@, j as int);
                    if j < bufs@.len() {
                        lemma_flatten_split(bufs@, j as int);
                        lemma_flatten_prefix(bufs@, j as int + 1);
                    } else {
                        assert(bufs@.take(j as int) =~= bufs@);
                    }
                }
                Ok(total)
            },
        }
    }

    /// Returns whether the inner writer has an efficient vectored write.
    fn is_write_vectored(&self) -> (r: bool)
        ensures
            call_ensures(W::is_write_vectored, (&self.writer(),), r),
    {
        self.inner.is_write_vectored()
    }

    /// Writes out the buffer, then flushes the inner writer.
    fn flush(&mut self) -> (r: Result<(), Error>)
        ensures
            r is Ok ==> final(self).buffered() == Seq::<u8>::empty(),
            is_suffix(final(self).buffered(), old(self).buffered()),
            r matches Err(e) ==> flush_error::<W>(e) || exists|w: &mut W|
                call_ensures(W::flush, (w,), Err::<(), Error>(e)),
            r matches Err(e) ==> flush_error_on::<W>(e, old(self).buffered()) || exists|w: &mut W|
                call_ensures(W::flush, (w,), Err::<(), Error>(e)),
    {
        match self.flush_buf() {
            Ok(()) => {
                self.inner.flush()
            },
            Err(e) => Err(e),
        }
    }

    /// Writes all of `data` through the buffer: data smaller than the buffer is buffered,
    /// larger data is handed whole to the inner writer after the buffer is written out.
    fn write_all(&mut self, data: &[u8]) -> (r: Result<(), Error>)
        ensures
            write_all_outcome(old(self).buffered(), data@, N as nat, r is Ok, final(self).buffered()),
            data@.len() < old(self).spare() ==> final(self).writer() == old(self).writer(),
            r matches Err(e) ==> flush_error::<W>(e) || exists|w: &mut W, b: &[u8]|
                call_ensures(W::write_all, (w, b), Err::<(), Error>(e)),
    {
        let spare = self.spare_capacity();
        if data.len() < spare {
            self.buf.extend(data);
            assert(data@.take(data@.len() as int) =~= data@);
            return Ok(());
        }
        if data.len() > spare {
            match self.flush_buf() {
                Ok(()) => {},
                Err(e) => {
                    assert(old(self).written() + data@.take(0) =~= old(self).written());
                    return Err(e);
                },
            }
        }
        if data.len() >= N {
            proof {
                lemma_suffix_trivial(old(self).buffered());
            }
            let r = self.inner.write_all(data);
            proof {
                if r is Err {
                    lemma_suffix_trivial(old(self).buffered());
                }
            }
            r
        } else {
            self.buf.extend(data);
            assert(data@.take(data@.len() as int) =~= data@);
            assert(Seq::<u8>::empty() + data@ =~= data@);
            Ok(())
        }
    }
}

} // verus!
