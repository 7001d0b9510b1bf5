use vstd::prelude::*;

use crate::io::array_buffered::bufwriter::{
    flush_error, flush_error_on, is_suffix, lemma_suffix_trans, lemma_suffix_trivial,
    write_all_outcome, write_outcome, ArrayBufWriter, IntoInnerError,
};
use crate::io::write::{
    first_non_empty, flatten, lemma_first_non_empty_unique, lemma_flatten_append,
    lemma_flatten_prefix, lemma_flatten_split, saturated_total_len, INTERRUPTED_RETRY_LIMIT,
};
use crate::io::error::{decimal_digits, error_is_interrupted, push_usize};
use crate::io::{Error, Write};

verus! {

/// The byte value of a newline (`'\n'`).
pub const NEWLINE: u8 = 10;

/// The index of the last newline in `s`, if it holds one.
pub open spec fn last_newline(s: Seq<u8>) -> Option<int>
    decreases s.len(),
{
    if s.len() == 0 {
        None
    } else if s.last() == NEWLINE {
        Some(s.len() - 1)
    } else {
        last_newline(s.drop_last())
    }
}

/// `s` holds no newline.
pub open spec fn has_no_newline(s: Seq<u8>) -> bool {
    forall|i: int| 0 <= i < s.len() ==> s[i] != NEWLINE
}

/// `s` is non-empty and its last byte is a newline.
pub open spec fn ends_with_newline(s: Seq<u8>) -> bool {
    s.len() > 0 && s.last() == NEWLINE
}

/// What `last_newline` finds: a newline with none after it, or no newline at all.
pub proof fn lemma_last_newline(s: Seq<u8>)
    ensures
        last_newline(s) matches Some(i) ==> 0 <= i < s.len() && s[i] == NEWLINE && has_no_newline(
            s.skip(i + 1),
        ),
        last_newline(s) is None ==> has_no_newline(s),
    decreases s.len(),
{
    if s.len() > 0 {
        lemma_last_newline(s.drop_last());
        if s.last() != NEWLINE {
            match last_newline(s.drop_last()) {
                Some(i) => {
                    assert forall|k: int| 0 <= k < s.skip(i + 1).len() implies #[trigger] s.skip(
                        i + 1,
                    )[k] != NEWLINE by {
                        if k < s.skip(i + 1).len() - 1 {
                            assert(s.skip(i + 1)[k] == s.drop_last().skip(i + 1)[k]);
                        }
                    }
                },
                None => {
                    assert forall|k: int| 0 <= k < s.len() implies #[trigger] s[k] != NEWLINE by {
                        if k < s.len() - 1 {
                            assert(s[k] == s.drop_last()[k]);
                        }
                    }
                },
            }
        } else {
            assert(s.skip(s.len() as int) =~= Seq::<u8>::empty());
        }
    }
}

/// Returns the index of the last newline in `buf`, if it holds one.
pub fn find_last_newline(buf: &[u8]) -> (r: Option<usize>)
    ensures
        r matches Some(i) ==> last_newline(buf@) == Some(i as int),
        r is None ==> last_newline(buf@) is None,
{
    let mut end = buf.len();
    assert(buf@.take(end as int) =~= buf@);
    while end > 0
        invariant
            end <= buf@.len(),
            last_newline(buf@) == last_newline(buf@.take(end as int)),
        decreases end,
    {
        if buf[end - 1] == NEWLINE {
            return Some(end - 1);
        }
        assert(buf@.take(end as int).drop_last() =~= buf@.take(end - 1));
        end = end - 1;
    }
    None
}

/// The index of the last buffer in `bufs` that holds a newline, if one does.
pub open spec fn last_newline_buf(bufs: Seq<&[u8]>) -> Option<int>
    decreases bufs.len(),
{
    if bufs.len() == 0 {
        None
    } else if last_newline(bufs.last()@) is Some {
        Some(bufs.len() - 1)
    } else {
        last_newline_buf(bufs.drop_last())
    }
}

/// What `last_newline_buf` finds: a buffer holding a newline, with no newline in the bytes
/// of the buffers after it; or no newline in any buffer.
pub proof fn lemma_last_newline_buf(bufs: Seq<&[u8]>)
    ensures
        last_newline_buf(bufs) matches Some(k) ==> 0 <= k < bufs.len() && last_newline(
            bufs[k]@,
        ) is Some && has_no_newline(flatten(bufs.skip(k + 1))),
        last_newline_buf(bufs) is None ==> has_no_newline(flatten(bufs)),
    decreases bufs.len(),
{
    if bufs.len() > 0 {
        let init = bufs.drop_last();
        lemma_last_newline_buf(init);
        lemma_last_newline(bufs.last()@);
        assert(init + seq![bufs.last()] =~= bufs);
        lemma_flatten_append(init, seq![bufs.last()]);
        assert(seq![bufs.last()].drop_last() =~= Seq::<&[u8]>::empty());
        assert(Seq::<u8>::empty() + bufs.last()@ =~= bufs.last()@);
        assert(flatten(seq![bufs.last()]) == flatten(seq![bufs.last()].drop_last()) + seq![
            bufs.last(),
        ].last()@);
        assert(flatten(seq![bufs.last()]) =~= bufs.last()@);
        if last_newline(bufs.last()@) is Some {
            assert(bufs.skip(bufs.len() as int) =~= Seq::<&[u8]>::empty());
        } else {
            match last_newline_buf(init) {
                Some(k) => {
                    assert(init.skip(k + 1) + seq![bufs.last()] =~= bufs.skip(k + 1));
                    lemma_flatten_append(init.skip(k + 1), seq![bufs.last()]);
                    lemma_no_newline_concat(flatten(init.skip(k + 1)), bufs.last()@);
                },
                None => {
                    lemma_no_newline_concat(flatten(init), bufs.last()@);
                },
            }
        }
    }
}

/// Two byte strings without a newline make one without a newline.
proof fn lemma_no_newline_concat(a: Seq<u8>, b: Seq<u8>)
    requires
        has_no_newline(a),
        has_no_newline(b),
    ensures
        has_no_newline(a + b),
{
    assert forall|i: int| 0 <= i < (a + b).len() implies #[trigger] (a + b)[i] != NEWLINE by {
        if i >= a.len() {
            assert((a + b)[i] == b[i - a.len()]);
        }
    }
}

/// Returns the index of the last buffer in `bufs` that holds a newline, if one does.
pub fn find_last_newline_buf(bufs: &[&[u8]]) -> (r: Option<usize>)
    ensures
        r matches Some(k) ==> last_newline_buf(bufs@) == Some(k as int),
        r is None ==> last_newline_buf(bufs@) is None,
{
    let mut end = bufs.len();
    assert(bufs@.take(end as int) =~= bufs@);
    while end > 0
        invariant
            end <= bufs@.len(),
            last_newline_buf(bufs@) == last_newline_buf(bufs@.take(end as int)),
        decreases end,
    {
        if find_last_newline(bufs[end - 1]).is_some() {
            return Some(end - 1);
        }
        assert(bufs@.take(end as int).drop_last() =~= bufs@.take(end - 1));
        end = end - 1;
    }
    None
}

/// The part of `buf` that a line write buffers after the inner writer accepted `flushed` of
/// the `newline_idx` bytes that end with the last newline, given buffer capacity `cap`.
///
/// When all complete lines were accepted, the rest of `buf` follows. Otherwise the rest of
/// the complete lines follows when it fits in the buffer; when it does not, the part of it
/// that fits, cut after its last newline if it holds one.
pub open spec fn line_tail(buf: Seq<u8>, newline_idx: int, flushed: int, cap: int) -> Seq<u8> {
    if flushed >= newline_idx {
        buf.skip(flushed)
    } else if newline_idx - flushed <= cap {
        buf.subrange(flushed, newline_idx)
    } else {
        let scan = buf.skip(flushed).take(cap);
        match last_newline(scan) {
            Some(i) => scan.take(i + 1),
            None => scan,
        }
    }
}

/// The first `cap` bytes of `s`, or all of them when it is shorter.
pub open spec fn at_most(s: Seq<u8>, cap: int) -> Seq<u8> {
    if s.len() < cap {
        s
    } else {
        s.take(cap)
    }
}

/// What a line-buffered `write` of `buf` leaves in a buffer of capacity `cap` that held `old`,
/// given its result `r`.
///
/// Without a newline in `buf`: a buffer ending in a completed line is written out first, then
/// `buf` is written as a buffered write. With a newline: the buffer is written out, the
/// complete lines go straight to the inner writer, and of the rest what `line_tail` selects is
/// buffered as far as it fits; the count is what the inner writer accepted plus what was
/// buffered, or 0 when the inner writer accepted nothing. On an error the buffer holds a
/// suffix of `old`.
pub open spec fn line_write_outcome(
    old: Seq<u8>,
    buf: Seq<u8>,
    cap: nat,
    r: Result<usize, Error>,
    new: Seq<u8>,
) -> bool {
    match r {
        Err(_) => is_suffix(new, old),
        Ok(n) => match last_newline(buf) {
            None => write_outcome(
                if ends_with_newline(old) {
                    Seq::<u8>::empty()
                } else {
                    old
                },
                buf,
                cap,
                r,
                new,
            ),
            Some(i) => (n == 0 && new == Seq::<u8>::empty()) || exists|flushed: int|
                0 < flushed <= i + 1 && new == at_most(
                    #[trigger] line_tail(buf, i + 1, flushed, cap as int),
                    cap as int,
                ) && n == flushed + new.len(),
        },
    }
}

/// What a line-buffered vectored write of `bufs` does when the inner writer has no efficient
/// vectored write, leaving `new` in a buffer of capacity `cap` that held `old`, given its
/// result `r`: the first non-empty buffer is written as by `write`, and when every buffer is
/// empty nothing happens and 0 is returned.
pub open spec fn line_write_first_outcome(
    old: Seq<u8>,
    bufs: Seq<&[u8]>,
    cap: nat,
    r: Result<usize, Error>,
    new: Seq<u8>,
) -> bool {
    &&& flatten(bufs).len() == 0 ==> r == Ok::<usize, Error>(0) && new == old
    &&& forall|i: int|
        0 <= i < bufs.len() && bufs[i]@.len() > 0 && #[trigger] flatten(bufs.take(i))
            == Seq::<u8>::empty() ==> line_write_outcome(old, bufs[i]@, cap, r, new)
}

/// What a line-buffered vectored write of `bufs` does when the inner writer has an efficient
/// vectored write, leaving `new` in a buffer of capacity `cap` that held `old`, given its
/// result `r`.
///
/// Without a newline: a buffer ending in a completed line is written out first, and the
/// bytes are then written through the buffer; when they fit in its free space they are all
/// buffered and counted. With a newline: the buffer is written out and the buffers up to the
/// last one holding a newline go to the inner writer. When it accepts fewer bytes than they
/// hold, that count is returned and nothing is buffered; otherwise the bytes of the buffers
/// that follow are buffered as far as the capacity allows, and the count is both together.
/// On an error the buffer holds a suffix of `old`.
pub open spec fn line_write_vectored_outcome(
    old: Seq<u8>,
    bufs: Seq<&[u8]>,
    cap: nat,
    r: Result<usize, Error>,
    new: Seq<u8>,
) -> bool {
    match r {
        Err(_) => is_suffix(new, old),
        Ok(n) => match last_newline_buf(bufs) {
            None => {
                let mid = if ends_with_newline(old) {
                    Seq::<u8>::empty()
                } else {
                    old
                };
                flatten(bufs).len() < cap - mid.len() ==> n == flatten(bufs).len() && new == mid
                    + flatten(bufs)
            },
            Some(k) => {
                let lines = flatten(bufs.take(k + 1)).len();
                let rest = flatten(bufs.skip(k + 1));
                ||| n < lines && new == Seq::<u8>::empty()
                ||| n == lines + new.len() && new.len() <= rest.len() && new == rest.take(
                    new.len() as int,
                ) && (flatten(
                    bufs,
                ).len() <= usize::MAX ==> new == at_most(rest, cap as int))
            },
        },
    }
}

/// What a line-buffered `write_all` of `buf` leaves in a buffer of capacity `cap` that held
/// `old`, given whether it succeeded.
///
/// Without a newline in `buf`: a buffer ending in a completed line is written out first, then
/// `buf` is written as a buffered `write_all`. With a newline: everything up to and including
/// the last newline reaches the inner writer, and the rest is buffered when it is smaller
/// than the buffer (otherwise it is handed to the inner writer too). On an error the buffer
/// holds a suffix of `old`, or of `old` followed by the complete lines of `buf`.
pub open spec fn line_write_all_outcome(old: Seq<u8>, buf: Seq<u8>, cap: nat, ok: bool, new: Seq<u8>) -> bool {
    match last_newline(buf) {
        None => if ok {
            write_all_outcome(
                if ends_with_newline(old) {
                    Seq::<u8>::empty()
                } else {
                    old
                },
                buf,
                cap,
                true,
                new,
            )
        } else {
            is_suffix(new, old)
        },
        Some(i) => if ok {
            new == if buf.len() - (i + 1) < cap {
                buf.skip(i + 1)
            } else {
                Seq::<u8>::empty()
            }
        } else {
            is_suffix(new, old) || is_suffix(new, old + buf.take(i + 1))
        },
    }
}

/// After a successful line-buffered `write_all` of data holding a newline, the buffer holds
/// no newline: every completed line has reached the inner writer.
pub proof fn law_write_all_buffers_only_partial_line(old: Seq<u8>, buf: Seq<u8>, cap: nat, new: Seq<u8>)
    requires
        line_write_all_outcome(old, buf, cap, true, new),
        last_newline(buf) is Some,
    ensures
        has_no_newline(new),
{
    lemma_last_newline(buf);
}

/// After a successful line-buffered `write` of data holding a newline that reports more bytes
/// than the data up to and including its last newline, the buffer holds no newline: the
/// inner writer accepted every completed line and only the partial line after them is
/// buffered.
pub proof fn law_write_buffers_only_partial_line(
    old: Seq<u8>,
    buf: Seq<u8>,
    cap: nat,
    n: usize,
    new: Seq<u8>,
)
    requires
        line_write_outcome(old, buf, cap, Ok(n), new),
        last_newline(buf) matches Some(i) && n > i + 1,
    ensures
        has_no_newline(new),
{
    lemma_last_newline(buf);
    let i = last_newline(buf).unwrap();
    let flushed = choose|flushed: int|
        0 < flushed <= i + 1 && new == at_most(
            #[trigger] line_tail(buf, i + 1, flushed, cap as int),
            cap as int,
        ) && n == flushed + new.len();
    let tail = line_tail(buf, i + 1, flushed, cap as int);
    if flushed < i + 1 {
        if i + 1 - flushed <= cap {
            assert(tail.len() == i + 1 - flushed);
        } else {
            let scan = buf.skip(flushed).take(cap as int);
            lemma_last_newline(scan);
            assert(tail.len() <= cap);
        }
        assert(new.len() <= tail.len());
        assert(false);
    }
    assert(tail == buf.skip(i + 1));
    assert forall|k: int| 0 <= k < new.len() implies #[trigger] new[k] != NEWLINE by {
        assert(new[k] == buf.skip(i + 1)[k]);
    }
}

/// Every write of a writer of type `W` that succeeds accepts all of the bytes it is given.
pub open spec fn accepts_whole_writes<W: Write>() -> bool {
    forall|w: &mut W, b: &[u8], m: usize|
        call_ensures(W::write, (w, b), Ok::<usize, Error>(m)) ==> m == b@.len()
}

/// Every vectored write of a writer of type `W` that succeeds accepts all of the bytes of the
/// slices it is given.
pub open spec fn accepts_whole_vectored_writes<W: Write>() -> bool {
    forall|w: &mut W, b: &[&[u8]], m: usize|
        call_ensures(W::write_vectored, (w, b), Ok::<usize, Error>(m)) ==> m == flatten(b@).len()
}

/// A line write handed exactly the bytes `lines` to the inner writer, of type `W`, in one
/// `write` that accepted `m` of them, and reports `n`: those `m` bytes and the bytes `new` it
/// buffered afterwards.
pub open spec fn lines_handed_on<W: Write>(lines: Seq<u8>, n: usize, new: Seq<u8>) -> bool {
    exists|w: &mut W, b: &[u8], m: usize|
        b@ == lines && call_ensures(W::write, (w, b), Ok::<usize, Error>(m)) && n == m + new.len()
}

/// A vectored line write handed exactly the slices `lines` to the inner writer, of type `W`,
/// in one `write_vectored` that accepted `m` of their bytes, and reports `n`: those `m` bytes
/// and the bytes `new` it buffered afterwards.
pub open spec fn slices_handed_on<W: Write>(lines: Seq<&[u8]>, n: usize, new: Seq<u8>) -> bool {
    exists|w: &mut W, b: &[&[u8]], m: usize|
        b@ == lines && call_ensures(W::write_vectored, (w, b), Ok::<usize, Error>(m)) && n == m
            + new.len()
}

/// When the inner writer accepts all it is offered, a successful line write of data holding a
/// newline delivers every byte up to and including the last newline, and buffers no newline:
/// the count covers all completed lines and what follows them in the buffer.
pub proof fn law_write_delivers_every_line<W: Write>(
    old: Seq<u8>,
    buf: Seq<u8>,
    cap: nat,
    n: usize,
    new: Seq<u8>,
)
    requires
        accepts_whole_writes::<W>(),
        line_write_outcome(old, buf, cap, Ok(n), new),
        last_newline(buf) matches Some(i) && lines_handed_on::<W>(buf.take(i + 1), n, new),
    ensures
        last_newline(buf) matches Some(i) && n == i + 1 + new.len(),
        has_no_newline(new),
{
    lemma_last_newline(buf);
    let i = last_newline(buf).unwrap();
    let (w, b, m) = choose|w: &mut W, b: &[u8], m: usize|
        b@ == buf.take(i + 1) && call_ensures(W::write, (w, b), Ok::<usize, Error>(m)) && n == m
            + new.len();
    assert(m == b@.len());
    if new.len() > 0 {
        law_write_buffers_only_partial_line(old, buf, cap, n, new);
    }
}

/// When the inner writer has an efficient vectored write that accepts all it is offered, a
/// successful vectored line write of slices holding a newline delivers every byte of the
/// slices up to and including the last one holding a newline, and buffers no newline.
pub proof fn law_write_vectored_delivers_every_line<W: Write>(
    old: Seq<u8>,
    bufs: Seq<&[u8]>,
    cap: nat,
    n: usize,
    new: Seq<u8>,
)
    requires
        accepts_whole_vectored_writes::<W>(),
        line_write_vectored_outcome(old, bufs, cap, Ok(n), new),
        last_newline_buf(bufs) matches Some(k) && slices_handed_on::<W>(bufs.take(k + 1), n, new),
    ensures
        last_newline_buf(bufs) matches Some(k) && n == flatten(bufs.take(k + 1)).len() + new.len(),
        has_no_newline(new),
{
    lemma_last_newline_buf(bufs);
    let k = last_newline_buf(bufs).unwrap();
    let (w, b, m) = choose|w: &mut W, b: &[&[u8]], m: usize|
        b@ == bufs.take(k + 1) && call_ensures(W::write_vectored, (w, b), Ok::<usize, Error>(m))
            && n == m + new.len();
    assert(m == flatten(b@).len());
    let rest = flatten(bufs.skip(k + 1));
    if new.len() > 0 {
        assert(new.len() <= rest.len() && new == rest.take(new.len() as int));
        assert forall|j: int| 0 <= j < new.len() implies #[trigger] new[j] != NEWLINE by {
            assert(new[j] == rest[j]);
        }
    }
}

/// After a successful line-buffered `write_all` of data holding a newline, the bytes after
/// its last newline stay buffered whenever they are fewer than the capacity, whatever the
/// buffer held before.
pub proof fn law_write_all_keeps_partial_line(old: Seq<u8>, buf: Seq<u8>, cap: nat, new: Seq<u8>)
    requires
        line_write_all_outcome(old, buf, cap, true, new),
        last_newline(buf) matches Some(i) && buf.len() - (i + 1) < cap,
    ensures
        last_newline(buf) matches Some(i) && new == buf.skip(i + 1),
{
}

/// Wraps a writer and buffers output to it in an array of `N` bytes, flushing whenever a
/// newline (`0x0a`, `'\n'`) is written.
///
/// Like `ArrayBufWriter`, the buffer is also written out when it is full. Each completed line
/// is handed to the inner writer as soon as it is written, so the buffer holds at most a
/// partial line.
#[derive(Debug)]
pub struct ArrayLineWriter<W, const N: usize> {
    inner: ArrayBufWriter<W, N>,
}

impl<W, const N: usize> ArrayLineWriter<W, N> {
    /// The bytes waiting in the buffer.
    pub closed spec fn buffered(&self) -> Seq<u8> {
        self.inner.buffered()
    }

    /// The wrapped writer.
    pub closed spec fn writer(&self) -> W {
        self.inner.writer()
    }

    /// Creates a new line writer with an empty buffer.
    pub fn new(inner: W) -> (r: Self)
        ensures
            r.buffered() == Seq::<u8>::empty(),
            r.writer() == inner,
    {
        ArrayLineWriter { inner: ArrayBufWriter::new(inner) }
    }

    /// Gets a reference to the underlying writer.
    pub fn get_ref(&self) -> (r: &W)
        ensures
            *r == self.writer(),
    {
        self.inner.get_ref()
    }

    /// Gets a mutable reference to the underlying writer.
    ///
    /// Writing directly to the underlying writer bypasses the buffer and can corrupt the
    /// output stream.
    pub fn get_mut(&mut self) -> (r: &mut W)
        ensures
            *r == old(self).writer(),
            final(self).writer() == *final(r),
            final(self).buffered() == old(self).buffered(),
    {
        self.inner.get_mut()
    }

    /// Returns the bytes waiting in the buffer.
    pub fn buffer(&self) -> (r: &[u8])
        ensures
            r@ == self.buffered(),
    {
        self.inner.buffer()
    }

    /// Returns the debug description of the line writer, given `writer`, the debug
    /// description of the inner writer: as in `ArrayLineWriter { writer: [], buffer: 0/16, .. }`,
    /// with the number of buffered bytes and the capacity.
    pub fn debug_string(&self, writer: &str) -> (r: String)
        ensures
            r@ == "ArrayLineWriter { writer: "@ + writer@ + ", buffer: "@ + decimal_digits(
                self.buffered().len(),
            ) + "/"@ + decimal_digits(N as nat) + ", .. }"@,
    {
        let mut s = String::from_str("ArrayLineWriter { writer: ");
        s.append(writer);
        s.append(", buffer: ");
        push_usize(&mut s, self.inner.buffer().len());
        s.append("/");
        push_usize(&mut s, N);
        s.append(", .. }");
        s
    }
}

impl<W: Write, const N: usize> ArrayLineWriter<W, N> {
    /// Unwraps this line writer, returning the underlying writer after writing out the buffer.
    ///
    /// When writing out the buffer fails, the error holds the line writer, whose buffer holds
    /// what could not be written.
    pub fn into_inner(self) -> (r: Result<W, IntoInnerError<ArrayLineWriter<W, N>>>)
        ensures
            r matches Err(e) ==> is_suffix(e.writer().buffered(), self.buffered()),
            self.buffered().len() == 0 ==> r == Ok::<W, IntoInnerError<ArrayLineWriter<W, N>>>(
                self.writer(),
            ),
            r matches Ok(w) ==> w.written() == self.writer().written() + self.buffered(),
            r matches Err(e) ==> e.writer().writer().written() + e.writer().buffered()
                == self.writer().written() + self.buffered(),
            r matches Err(e) ==> flush_error::<W>(e.error_spec()),
            r matches Err(e) ==> flush_error_on::<W>(e.error_spec(), self.buffered()),
            self.writer().always_accepts() ==> (r matches Ok(w) && w.always_accepts()),
            self.writer().interrupt_bound() matches Some(k) && k <= INTERRUPTED_RETRY_LIMIT ==> (
            r matches Err(e) ==> !error_is_interrupted(e.error_spec())),
    {
        match self.inner.into_inner() {
            Ok(w) => Ok(w),
            Err(err) => {
                let (error, inner) = err.into_parts();
                Err(IntoInnerError::new(ArrayLineWriter { inner }, error))
            },
        }
    }

    /// Writes out the buffer when it ends with a completed line.
    fn flush_if_completed_line(&mut self) -> (r: Result<(), Error>)
        ensures
            r is Ok ==> final(self).buffered() == if ends_with_newline(old(self).buffered()) {
                Seq::<u8>::empty()
            } else {
                old(self).buffered()
            },
            r is Ok && !ends_with_newline(old(self).buffered()) ==> final(self).writer() == old(
                self,
            ).writer(),
            is_suffix(final(self).buffered(), old(self).buffered()),
            final(self).writer().written() + final(self).buffered() == old(self).writer().written()
                + old(self).buffered(),
            !ends_with_newline(old(self).buffered()) ==> r is Ok,
            old(self).writer().always_accepts() ==> r is Ok && final(self).writer().always_accepts(),
            r matches Err(e) ==> flush_error::<W>(e),
    {
        let buffered = self.inner.buffer();
        let len = buffered.len();
        if len > 0 && buffered[len - 1] == NEWLINE {
            self.inner.flush_buf()
        } else {
            proof {
                lemma_suffix_trivial(self.buffered());
            }
            Ok(())
        }
    }
}

/// `b` is a suffix of `a + b`.
proof fn lemma_suffix_of_concat(a: Seq<u8>, b: Seq<u8>)
    ensures
        is_suffix(b, a + b),
{
    assert((a + b).skip(a.len() as int) =~= b);
}

/// Returns `buf[start..end]`.
fn sub_slice(buf: &[u8], start: usize, end: usize) -> (r: &[u8])
    requires
        start <= end <= buf@.len(),
    ensures
        r@ == buf@.subrange(start as int, end as int),
{
    let (head, _) = buf.split_at(end);
    let (_, mid) = head.split_at(start);
    mid
}

impl<W: Write, const N: usize> Write for ArrayLineWriter<W, N> {
    /// The bytes accepted so far: those the inner writer accepted, then those waiting in the
    /// buffer.
    open spec fn written(&self) -> Seq<u8> {
        self.writer().written() + self.buffered()
    }

    /// The bytes not yet delivered: those the inner writer holds back, then those in the
    /// buffer.
    open spec fn pending(&self) -> Seq<u8> {
        self.writer().pending() + self.buffered()
    }

    /// A line writer never fails when its inner writer never fails.
    open spec fn always_accepts(&self) -> bool {
        self.writer().always_accepts()
    }

    /// Writes `buf`, handing every completed line to the inner writer and buffering the rest.
    ///
    /// Without a newline in `buf`, the buffer is first written out if it ends with a completed
    /// line, then `buf` is written through the buffer. With a newline, the buffer is written
    /// out and the bytes up to the last newline are written to the inner writer in a single
    /// call; of what follows, as much as `line_tail` selects is buffered.
    fn write(&mut self, buf: &[u8]) -> (r: Result<usize, Error>)
        ensures
            line_write_outcome(old(self).buffered(), buf@, N as nat, r, final(self).buffered()),
            last_newline(buf@) is None && !ends_with_newline(old(self).buffered()) && buf@.len() < N
                - old(self).buffered().len() ==> r == Ok::<usize, Error>(buf@.len() as usize)
                && final(self).buffered() == old(self).buffered() + buf@ && final(self).writer()
                == old(self).writer(),
            r matches Err(e) ==> flush_error::<W>(e),
            r is Ok && last_newline(buf@) is Some ==> lines_handed_on::<W>(
                buf@.take(last_newline(buf@).unwrap() + 1),
                r.unwrap(),
                final(self).buffered(),
            ),
    {
        let len = buf.len();
        let newline_idx = match find_last_newline(buf) {
            None => {
                match self.flush_if_completed_line() {
                    Ok(()) => {},
                    Err(e) => {
                        return Err(e);
                    },
                }
                let ghost mid = self.buffered();
                let r = self.inner.write(buf);
                proof {
                    if r is Err {
                        lemma_suffix_trans(self.buffered(), mid, old(self).buffered());
                    }
                }
                return r;
            },
            Some(i) => {
                proof {
                    lemma_last_newline(buf@);
                }
                i + 1
            },
        };
        proof {
            lemma_last_newline(buf@);
        }
        match self.inner.flush_buf() {
            Ok(()) => {},
            Err(e) => {
                return Err(e);
            },
        }
        proof {
            lemma_suffix_trivial(old(self).buffered());
            assert(self.writer().written() =~= old(self).written());
        }
        let lines = sub_slice(buf, 0, newline_idx);
        let flushed = match self.inner.get_mut().write(lines) {
            Ok(n) => n,
            Err(e) => {
                assert(self.written() =~= old(self).written());
                return Err(e);
            },
        };
        assert(lines@ =~= buf@.take(newline_idx as int));
        assert(lines@.take(flushed as int) =~= buf@.take(flushed as int));
        if flushed == 0 {
            assert(self.written() =~= old(self).written() + buf@.take(0));
            return Ok(0);
        }
        let tail: &[u8] = if flushed >= newline_idx {
            sub_slice(buf, flushed, len)
        } else if newline_idx - flushed <= N {
            sub_slice(buf, flushed, newline_idx)
        } else {
            let scan = sub_slice(buf, flushed, flushed + N);
            assert(scan@ =~= buf@.skip(flushed as int).take(N as int));
            match find_last_newline(scan) {
                Some(i) => {
                    proof {
                        lemma_last_newline(scan@);
                    }
                    sub_slice(scan, 0, i + 1)
                },
                None => scan,
            }
        };
        assert(tail@ =~= line_tail(buf@, newline_idx as int, flushed as int, N as int));
        let buffered = self.inner.write_to_buf(tail);
        assert(self.buffered() =~= at_most(
            line_tail(buf@, newline_idx as int, flushed as int, N as int),
            N as int,
        ));
        assert(buf@.take(flushed as int) + tail@.take(buffered as int) =~= buf@.take(
            (flushed + buffered) as int,
        ));
        assert(self.written() =~= old(self).written() + buf@.take((flushed + buffered) as int));
        Ok(flushed + buffered)
    }

    /// Writes the bytes of several buffers, handing every completed line to the inner writer.
    ///
    /// When the inner writer has no efficient vectored write, the first non-empty buffer is
    /// written as by `write`. Otherwise, when no buffer holds a newline, the buffer is written
    /// out if it ends with a completed line and the buffers are written through it. When one
    /// does, the buffer is written out and the buffers up to the last one holding a newline go
    /// to the inner writer in one vectored write; when it accepts all of them, as much of the
    /// following buffers as fits is buffered.
    fn write_vectored(&mut self, bufs: &[&[u8]]) -> (r: Result<usize, Error>)
        ensures
            r matches Ok(n) && last_newline_buf(bufs@) matches Some(k) && n > flatten(
                bufs@.take(k + 1),
            ).len() ==> has_no_newline(final(self).buffered()),
            r is Err ==> is_suffix(final(self).buffered(), old(self).buffered()),
            last_newline_buf(bufs@) is None && !ends_with_newline(old(self).buffered()) && flatten(
                bufs@,
            ).len() < N - old(self).buffered().len() ==> r is Ok && final(self).writer() == old(
                self,
            ).writer(),
            (call_ensures(W::is_write_vectored, (&old(self).writer(),), false)
                && line_write_first_outcome(
                old(self).buffered(),
                bufs@,
                N as nat,
                r,
                final(self).buffered(),
            )) || (call_ensures(W::is_write_vectored, (&old(self).writer(),), true)
                && line_write_vectored_outcome(
                old(self).buffered(),
                bufs@,
                N as nat,
                r,
                final(self).buffered(),
            ) && (r is Ok && last_newline_buf(bufs@) is Some ==> slices_handed_on::<W>(
                bufs@.take(last_newline_buf(bufs@).unwrap() + 1),
                r.unwrap(),
                final(self).buffered(),
            ))),
    {
        proof {
            lemma_last_newline_buf(bufs@);
        }
        if !self.inner.is_write_vectored() {
            return match first_non_empty(bufs) {
                Some(i) => {
                    proof {
                        lemma_flatten_split(bufs@, i as int);
                        assert(Seq::<u8>::empty() + bufs@[i as int]@ =~= bufs@[i as int]@);
                        if let Some(k) = last_newline_buf(bufs@) {
                            lemma_last_newline(bufs@[k]@);
                            if k < i {
                                lemma_flatten_split(bufs@.take(i as int), k);
                                assert(bufs@.take(i as int)[k] == bufs@[k]);
                                assert(false);
                            }
                            assert(bufs@.take(k + 1).take(i + 1) =~= bufs@.take(i + 1));
                            lemma_flatten_prefix(bufs@.take(k + 1), i + 1);
                        }
                    }
                    let r = self.write(bufs[i]);
                    proof {
                        if let Ok(n) = r {
                            assert(flatten(bufs@).take(n as int) =~= bufs@[i as int]@.take(
                                n as int,
                            ));
                        }
                        assert forall|j: int|
                            0 <= j < bufs@.len() && bufs@[j]@.len() > 0 && #[trigger] flatten(
                                bufs@.take(j),
                            ) == Seq::<u8>::empty() implies j == i by {
                            lemma_first_non_empty_unique(bufs@, i as int, j);
                        }
                        if last_newline_buf(bufs@) is None {
                            lemma_last_newline(bufs@[i as int]@);
                            if let Some(p) = last_newline(bufs@[i as int]@) {
                                let pre = flatten(bufs@.take(i as int));
                                assert(flatten(bufs@)[pre.len() + p] == bufs@[i as int]@[p]);
                            }
                        }
                    }
                    r
                },
                None => {
                    assert(old(self).written() + flatten(bufs@).take(0) =~= old(self).written());
                    proof {
                        assert forall|j: int|
                            0 <= j < bufs@.len() && bufs@[j]@.len() > 0 && #[trigger] flatten(
                                bufs@.take(j),
                            ) == Seq::<u8>::empty() implies false by {
                            lemma_flatten_split(bufs@, j);
                        }
                    }
                    Ok(0)
                },
            };
        }
        let k = match find_last_newline_buf(bufs) {
            None => {
                match self.flush_if_completed_line() {
                    Ok(()) => {},
                    Err(e) => {
                        return Err(e);
                    },
                }
                let ghost mid = self.buffered();
                let r = self.inner.write_vectored(bufs);
                proof {
                    if r is Err {
                        lemma_suffix_trans(self.buffered(), mid, old(self).buffered());
                    }
                }
                return r;
            },
            Some(k) => k,
        };
        match self.inner.flush_buf() {
            Ok(()) => {},
            Err(e) => {
                return Err(e);
            },
        }
        let ghost start = self.written();
        assert(start =~= self.writer().written());
        let count = bufs.len();
        assert(k < count);
        let (lines, tail) = bufs.split_at(k + 1);
        assert(lines@ =~= bufs@.take(k + 1));
        assert(tail@ =~= bufs@.skip(k + 1));
        proof {
            assert(bufs@ =~= lines@ + tail@);
            lemma_flatten_append(lines@, tail@);
        }
        let flushed = match self.inner.get_mut().write_vectored(lines) {
            Ok(n) => n,
            Err(e) => {
                return Err(e);
            },
        };
        assert(flatten(lines@).take(flushed as int) =~= flatten(bufs@).take(flushed as int));
        let lines_len = saturated_total_len(lines);
        if flushed == 0 || flushed < lines_len || lines_len == usize::MAX {
            proof {
                if flushed == flatten(lines@).len() {
                    assert(flatten(tail@).take(0) =~= Seq::<u8>::empty());
                    if flatten(bufs@).len() <= usize::MAX {
                        assert(flatten(tail@) =~= Seq::<u8>::empty());
                    }
                }
            }
            return Ok(flushed);
        }
        assert(flatten(lines@).take(flushed as int) =~= flatten(lines@));
        let mut buffered: usize = 0;
        let mut j: usize = 0;
        assert(tail@.take(0) =~= Seq::<&[u8]>::empty());
        assert(self.buffered() =~= flatten(tail@.take(0)).take(0));
        while j < tail.len()
            invariant
                j <= tail@.len(),
                flushed == flatten(lines@).len(),
                flushed + buffered <= usize::MAX,
                buffered <= flatten(tail@.take(j as int)).len(),
                self.buffered() == flatten(tail@.take(j as int)).take(buffered as int),
                buffered < flatten(tail@.take(j as int)).len() ==> self.buffered().len() == N,
                self.writer().written() == start + flatten(lines@),
                has_no_newline(flatten(tail@)),
                old(self).writer().always_accepts() ==> self.writer().always_accepts(),
                self.buffered().len() <= N,
                flatten(bufs@) == flatten(lines@) + flatten(tail@),
            ensures
                buffered <= flatten(tail@.take(j as int)).len(),
                self.buffered() == flatten(tail@.take(j as int)).take(buffered as int),
                j < tail@.len() && flatten(bufs@).len() <= usize::MAX ==> self.buffered()
                    == at_most(flatten(tail@), N as int),
            decreases tail@.len() - j,
        {
            proof {
                lemma_flatten_split(tail@, j as int);
                lemma_flatten_prefix(tail@, j as int);
                lemma_flatten_prefix(tail@, j + 1);
            }
            let len = tail[j].len();
            if len > 0 {
                if len > usize::MAX - flushed - buffered {
                    break;
                }
                let n = self.inner.write_to_buf(tail[j]);
                if n == 0 {
                    proof {
                        assert(flatten(tail@.take(j as int)).take(N as int) =~= flatten(
                            tail@,
                        ).take(N as int));
                    }
                    break;
                }
                assert(flatten(tail@.take(j as int)).take(buffered as int) =~= flatten(
                    tail@.take(j as int),
                ));
                assert(self.buffered() =~= flatten(tail@.take(j + 1)).take((buffered + n) as int));
                buffered = buffered + n;
            } else {
                assert(flatten(tail@.take(j + 1)) =~= flatten(tail@.take(j as int)));
            }
            j = j + 1;
        }
        proof {
            lemma_flatten_prefix(tail@, j as int);
            if j == tail@.len() {
                assert(tail@.take(j as int) =~= tail@);
                if buffered < flatten(tail@).len() {
                    assert(self.buffered() =~= flatten(tail@).take(N as int));
                } else {
                    assert(flatten(tail@).take(buffered as int) =~= flatten(tail@));
                    if flatten(tail@).len() == N {
                        assert(flatten(tail@).take(N as int) =~= flatten(tail@));
                    }
                }
            }
            assert(self.buffered() =~= flatten(tail@).take(buffered as int));
            lemma_last_newline_buf(bufs@);
            assert(flatten(bufs@).take((flushed + buffered) as int) =~= flatten(lines@)
                + flatten(tail@).take(buffered as int));
            assert forall|i: int| 0 <= i < self.buffered().len() implies #[trigger] self.buffered()[i]
                != NEWLINE by {
                assert(self.buffered()[i] == flatten(tail@)[i]);
            }
        }
        Ok(flushed + buffered)
    }

    /// Returns whether the inner writer has an efficient vectored write.
    fn is_write_vectored(&self) -> (r: bool)
        ensures
            call_ensures(W::is_write_vectored, (&self.writer(),), r),
    {
        self.inner.is_write_vectored()
    }

    /// Writes out the buffer, then flushes the inner writer.
    fn flush(&mut self) -> (r: Result<(), Error>)
        ensures
            r is Ok ==> final(self).buffered() == Seq::<u8>::empty(),
            is_suffix(final(self).buffered(), old(self).buffered()),
            r matches Err(e) ==> flush_error::<W>(e) || exists|w: &mut W|
                call_ensures(W::flush, (w,), Err::<(), Error>(e)),
            r matches Err(e) ==> flush_error_on::<W>(e, old(self).buffered()) || exists|w: &mut W|
                call_ensures(W::flush, (w,), Err::<(), Error>(e)),
    {
        self.inner.flush()
    }

    /// Writes all of `buf`, handing every completed line to the inner writer and buffering
    /// the partial line that follows the last newline.
    ///
    /// Without a newline in `buf`, the buffer is first written out if it ends with a completed
    /// line, then `buf` is written whole through the buffer. With a newline, the bytes up to
    /// the last newline reach the inner writer (directly when nothing is buffered, otherwise
    /// through the buffer, which is then written out), and the rest is written through the
    /// now empty buffer.
    #[verifier::rlimit(60)]
    #[verifier::spinoff_prover]
    fn write_all(&mut self, buf: &[u8]) -> (r: Result<(), Error>)
        ensures
            line_write_all_outcome(old(self).buffered(), buf@, N as nat, r is Ok, final(self).buffered()),
            last_newline(buf@) is None && !ends_with_newline(old(self).buffered()) && buf@.len() < N
                - old(self).buffered().len() ==> r is Ok && final(self).buffered() == old(
                self,
            ).buffered() + buf@ && final(self).writer() == old(self).writer(),
            r matches Err(e) ==> flush_error::<W>(e) || exists|w: &mut W, b: &[u8]|
                call_ensures(W::write_all, (w, b), Err::<(), Error>(e)),
    {
        match find_last_newline(buf) {
            None => {
                match self.flush_if_completed_line() {
                    Ok(()) => {},
                    Err(e) => {
                        assert(self.written() =~= old(self).written() + buf@.take(0));
                        return Err(e);
                    },
                }
                let ghost mid = self.buffered();
                let r = self.inner.write_all(buf);
                proof {
                    if r is Err {
                        lemma_suffix_trans(self.buffered(), mid, old(self).buffered());
                    }
                }
                r
            },
            Some(i) => {
                proof {
                    lemma_last_newline(buf@);
                    lemma_suffix_trivial(old(self).buffered());
                    lemma_suffix_of_concat(old(self).buffered(), buf@.take(i + 1));
                }
                let len = buf.len();
                let lines = sub_slice(buf, 0, i + 1);
                let tail = sub_slice(buf, i + 1, len);
                assert(lines@ =~= buf@.take(i + 1));
                if self.inner.buffer().len() == 0 {
                    assert(old(self).buffered() =~= Seq::<u8>::empty());
                    match self.inner.get_mut().write_all(lines) {
                        Ok(()) => {},
                        Err(e) => {
                            proof {
                                let k = choose|k: int|
                                    0 <= k <= lines@.len() && self.writer().written() == old(
                                        self,
                                    ).writer().written() + #[trigger] lines@.take(k);
                                assert(lines@.take(k) =~= buf@.take(k));
                                assert(self.written() =~= old(self).written() + buf@.take(k));
                            }
                            return Err(e);
                        },
                    }
                } else {
                    match self.inner.write_all(lines) {
                        Ok(()) => {},
                        Err(e) => {
                            proof {
                                let k = choose|k: int|
                                    0 <= k <= lines@.len() && self.written() == old(self).written()
                                        + #[trigger] lines@.take(k);
                                assert(lines@.take(k) =~= buf@.take(k));
                            }
                            return Err(e);
                        },
                    }
                    let ghost mid = self.buffered();
                    proof {
                        lemma_suffix_trivial(lines@);
                        if mid == lines@ {
                            lemma_suffix_of_concat(old(self).buffered(), lines@);
                        } else if mid == old(self).buffered() + lines@ {
                            lemma_suffix_trivial(mid);
                        } else {
                            lemma_suffix_trivial(old(self).buffered() + lines@);
                        }
                    }
                    match self.inner.flush_buf() {
                        Ok(()) => {},
                        Err(e) => {
                            proof {
                                lemma_suffix_trans(
                                    self.buffered(),
                                    mid,
                                    old(self).buffered() + lines@,
                                );
                                assert(self.written() =~= old(self).written() + buf@.take(i + 1));
                            }
                            return Err(e);
                        },
                    }
                }
                assert(self.buffered() =~= Seq::<u8>::empty());
                assert(self.written() =~= old(self).written() + buf@.take(i + 1));
                let ghost before = self.written();
                let r = self.inner.write_all(tail);
                proof {
                    assert(tail@ =~= buf@.skip(i + 1));
                    assert(Seq::<u8>::empty() + tail@ =~= tail@);
                    lemma_suffix_trivial(old(self).buffered());
                    if r is Err {
                        assert(self.buffered() =~= Seq::<u8>::empty());
                        let k = choose|k: int|
                            0 <= k <= tail@.len() && self.written() == before
                                + #[trigger] tail@.take(k);
                        assert(buf@.take(i + 1) + tail@.take(k) =~= buf@.take(i + 1 + k));
                        assert(self.written() =~= old(self).written() + buf@.take(i + 1 + k));
                    } else {
                        assert(buf@.take(i + 1) + tail@ =~= buf@);
                    }
                }
                r
            },
        }
    }
}

} // verus!
