use io_core::io::write::{advance_slices, write_step, WriteStep};
use io_core::io::{ArrayBufWriter, ArrayLineWriter, Error, ErrorKind, Write};

/// A writer that records what it receives, accepting at most `limit` bytes per call and
/// failing with an interruption `interrupts` times first.
#[derive(Debug)]
struct Recorder {
    data: Vec<u8>,
    calls: Vec<Vec<u8>>,
    limit: usize,
    interrupts: usize,
    flushed: usize,
}

impl Recorder {
    fn new(limit: usize) -> Recorder {
        Recorder { data: Vec::new(), calls: Vec::new(), limit, interrupts: 0, flushed: 0 }
    }
}

impl Write for Recorder {
    fn write(&mut self, buf: &[u8]) -> Result<usize, Error> {
        if self.interrupts > 0 {
            self.interrupts -= 1;
            return Err(Error::from(ErrorKind::Interrupted));
        }
        let n = buf.len().min(self.limit);
        self.data.extend_from_slice(&buf[..n]);
        self.calls.push(buf[..n].to_vec());
        Ok(n)
    }

    fn flush(&mut self) -> Result<(), Error> {
        self.flushed += 1;
        Ok(())
    }
}

#[test]
fn buf_writer_buffers_small_writes() {
    let mut w: ArrayBufWriter<Recorder, 8> = ArrayBufWriter::new(Recorder::new(100));
    assert_eq!(w.capacity(), 8);
    assert_eq!(w.write(b"abc").unwrap(), 3);
    assert_eq!(w.buffer(), b"abc");
    assert!(w.get_ref().data.is_empty());
    assert_eq!(w.write(b"defg").unwrap(), 4);
    assert_eq!(w.buffer(), b"abcdefg");
    // Exactly the free space left: still buffered.
    assert_eq!(w.write(b"h").unwrap(), 1);
    assert_eq!(w.buffer(), b"abcdefgh");
    assert!(w.get_ref().data.is_empty());
    // No space left: the buffer is written out first.
    assert_eq!(w.write(b"ij").unwrap(), 2);
    assert_eq!(w.get_ref().data, b"abcdefgh");
    assert_eq!(w.buffer(), b"ij");
    w.flush().unwrap();
    assert_eq!(w.get_ref().data, b"abcdefghij");
    assert_eq!(w.get_ref().flushed, 1);
    assert!(w.buffer().is_empty());
}

#[test]
fn buf_writer_passes_large_writes_through() {
    let mut w: ArrayBufWriter<Recorder, 4> = ArrayBufWriter::new(Recorder::new(100));
    w.write(b"ab").unwrap();
    assert_eq!(w.write(b"cdefgh").unwrap(), 6);
    assert_eq!(w.get_ref().calls, vec![b"ab".to_vec(), b"cdefgh".to_vec()]);
    assert!(w.buffer().is_empty());
}

#[test]
fn buf_writer_write_to_buf_copies_what_fits() {
    let mut w: ArrayBufWriter<Recorder, 4> = ArrayBufWriter::new(Recorder::new(100));
    assert_eq!(w.write_to_buf(b"abcdef"), 4);
    assert_eq!(w.buffer(), b"abcd");
    assert_eq!(w.spare_capacity(), 0);
    assert_eq!(w.write_to_buf(b"x"), 0);
}

#[test]
fn buf_writer_flush_retries_interruptions_and_partial_writes() {
    let mut w: ArrayBufWriter<Recorder, 8> = ArrayBufWriter::new(Recorder::new(3));
    w.write(b"abcdefg").unwrap();
    w.get_mut().interrupts = 2;
    w.flush_buf().unwrap();
    assert_eq!(w.get_ref().data, b"abcdefg");
    assert_eq!(
        w.get_ref().calls,
        vec![b"abc".to_vec(), b"def".to_vec(), b"g".to_vec()]
    );
}

#[test]
fn buf_writer_flush_reports_write_zero() {
    let mut w: ArrayBufWriter<Recorder, 4> = ArrayBufWriter::new(Recorder::new(0));
    w.write(b"ab").unwrap();
    let e = w.flush_buf().unwrap_err();
    assert_eq!(e.kind(), ErrorKind::WriteZero);
    assert_eq!(e.to_string(), "failed to write the buffered data");
    assert_eq!(w.buffer(), b"ab");
}

#[test]
fn buf_writer_into_inner_writes_out_buffer() {
    let mut w: ArrayBufWriter<Recorder, 4> = ArrayBufWriter::new(Recorder::new(100));
    w.write(b"xy").unwrap();
    let inner = w.into_inner().unwrap();
    assert_eq!(inner.data, b"xy");
}

#[test]
fn buf_writer_into_inner_error_keeps_writer() {
    let mut w: ArrayBufWriter<Recorder, 4> = ArrayBufWriter::new(Recorder::new(0));
    w.write(b"xy").unwrap();
    let err = w.into_inner().unwrap_err();
    assert_eq!(err.error().kind(), ErrorKind::WriteZero);
    let (error, writer) = err.into_parts();
    assert_eq!(error.kind(), ErrorKind::WriteZero);
    assert_eq!(writer.buffer(), b"xy");
}

#[test]
fn write_all_retries_until_done() {
    let mut r = Recorder::new(2);
    r.interrupts = 1;
    r.write_all(b"hello").unwrap();
    assert_eq!(r.data, b"hello");
    let mut z = Recorder::new(0);
    let e = z.write_all(b"x").unwrap_err();
    assert_eq!(e.kind(), ErrorKind::WriteZero);
    assert_eq!(e.to_string(), "failed to write whole buffer");
}

#[test]
fn line_writer_holds_partial_lines() {
    let mut w: ArrayLineWriter<Recorder, 16> = ArrayLineWriter::new(Recorder::new(100));
    assert_eq!(w.write(b"I shall be").unwrap(), 10);
    assert!(w.get_ref().data.is_empty());
    assert_eq!(w.write(b" telling\nSome").unwrap(), 13);
    assert_eq!(w.get_ref().data, b"I shall be telling\n");
    assert_eq!(w.buffer(), b"Some");
    w.flush().unwrap();
    assert_eq!(w.get_ref().data, b"I shall be telling\nSome");
    assert!(w.buffer().is_empty());
}

#[test]
fn line_writer_flushes_completed_line_before_more_data() {
    let mut w: ArrayLineWriter<Recorder, 16> = ArrayLineWriter::new(Recorder::new(100));
    w.write(b"abc\n").unwrap();
    assert_eq!(w.get_ref().data, b"abc\n");
    assert!(w.buffer().is_empty());
    // A partial line written after a line that the inner writer only took in part.
    let mut w: ArrayLineWriter<Recorder, 16> = ArrayLineWriter::new(Recorder::new(2));
    assert_eq!(w.write(b"ab\ncd\n").unwrap(), 6);
    assert_eq!(w.get_ref().data, b"ab");
    assert_eq!(w.buffer(), b"\ncd\n");
    w.write(b"x").unwrap();
    assert_eq!(w.get_ref().data, b"ab\ncd\n");
    assert_eq!(w.buffer(), b"x");
}

#[test]
fn line_writer_write_all_buffers_only_last_partial_line() {
    let mut w: ArrayLineWriter<Recorder, 8> = ArrayLineWriter::new(Recorder::new(3));
    w.write_all(b"ab").unwrap();
    w.write_all(b"c\nde\nfg").unwrap();
    assert_eq!(w.get_ref().data, b"abc\nde\n");
    assert_eq!(w.buffer(), b"fg");
    let inner = w.into_inner().unwrap();
    assert_eq!(inner.data, b"abc\nde\nfg");
}

#[test]
fn line_writer_long_tail_is_cut_at_capacity() {
    let mut w: ArrayLineWriter<Recorder, 4> = ArrayLineWriter::new(Recorder::new(1));
    // The inner writer takes one byte of the complete lines; the rest does not fit, so the
    // part that fits is buffered, cut after its last newline.
    assert_eq!(w.write(b"a\nbcd\ne\n").unwrap(), 2);
    assert_eq!(w.get_ref().data, b"a");
    assert_eq!(w.buffer(), b"\n");
    let mut w: ArrayLineWriter<Recorder, 4> = ArrayLineWriter::new(Recorder::new(1));
    assert_eq!(w.write(b"a\nbc\nde\n").unwrap(), 5);
    assert_eq!(w.buffer(), b"\nbc\n");
}

#[test]
fn line_writer_get_mut_reaches_inner_writer() {
    let mut w: ArrayLineWriter<Recorder, 8> = ArrayLineWriter::new(Recorder::new(100));
    w.get_mut().data.push(b'!');
    assert_eq!(w.get_ref().data, b"!");
}

/// A writer with an efficient vectored write that records what it receives.
#[derive(Debug)]
struct VectoredRecorder {
    data: Vec<u8>,
    calls: usize,
}

impl Write for VectoredRecorder {
    fn write(&mut self, buf: &[u8]) -> Result<usize, Error> {
        self.data.extend_from_slice(buf);
        self.calls += 1;
        Ok(buf.len())
    }

    fn flush(&mut self) -> Result<(), Error> {
        Ok(())
    }

    fn write_vectored(&mut self, bufs: &[&[u8]]) -> Result<usize, Error> {
        let mut n = 0;
        for buf in bufs {
            self.data.extend_from_slice(buf);
            n += buf.len();
        }
        self.calls += 1;
        Ok(n)
    }

    fn is_write_vectored(&self) -> bool {
        true
    }
}

#[test]
fn buf_writer_write_vectored_buffers_whole_slices_that_fit() {
    let mut w: ArrayBufWriter<Recorder, 8> = ArrayBufWriter::new(Recorder::new(100));
    assert!(!w.is_write_vectored());
    w.write(b"ab").unwrap();
    let bufs: [&[u8]; 4] = [b"", b"cd", b"ef", b"ghij"];
    assert_eq!(w.write_vectored(&bufs).unwrap(), 4);
    assert_eq!(w.buffer(), b"abcdef");
    assert!(w.get_ref().data.is_empty());
    let none: [&[u8]; 2] = [b"", b""];
    assert_eq!(w.write_vectored(&none).unwrap(), 0);
}

#[test]
fn buf_writer_write_vectored_forwards_large_input_to_vectored_writer() {
    let inner = VectoredRecorder { data: Vec::new(), calls: 0 };
    let mut w: ArrayBufWriter<VectoredRecorder, 8> = ArrayBufWriter::new(inner);
    assert!(w.is_write_vectored());
    let small: [&[u8]; 2] = [b"ab", b"cd"];
    assert_eq!(w.write_vectored(&small).unwrap(), 4);
    assert_eq!(w.buffer(), b"abcd");
    let large: [&[u8]; 2] = [b"efg", b"hijkl"];
    assert_eq!(w.write_vectored(&large).unwrap(), 8);
    assert_eq!(w.get_ref().data, b"abcdefghijkl");
    assert_eq!(w.get_ref().calls, 2);
    assert!(w.buffer().is_empty());
}

#[test]
fn line_writer_write_vectored_writes_lines_and_buffers_tail() {
    let inner = VectoredRecorder { data: Vec::new(), calls: 0 };
    let mut w: ArrayLineWriter<VectoredRecorder, 16> = ArrayLineWriter::new(inner);
    let bufs: [&[u8]; 3] = [b"ab", b"c\nd", b"ef"];
    assert_eq!(w.write_vectored(&bufs).unwrap(), 7);
    assert_eq!(w.get_ref().data, b"abc\nd");
    assert_eq!(w.buffer(), b"ef");
    let more: [&[u8]; 2] = [b"gh", b"ij"];
    assert_eq!(w.write_vectored(&more).unwrap(), 4);
    assert_eq!(w.buffer(), b"efghij");
}

#[test]
fn line_writer_write_vectored_without_vectored_inner_writes_first_slice() {
    let mut w: ArrayLineWriter<Recorder, 16> = ArrayLineWriter::new(Recorder::new(100));
    let bufs: [&[u8]; 3] = [b"", b"x\ny", b"z"];
    assert_eq!(w.write_vectored(&bufs).unwrap(), 3);
    assert_eq!(w.get_ref().data, b"x\n");
    assert_eq!(w.buffer(), b"y");
}

#[test]
fn advance_slices_skips_consumed_and_empty_slices() {
    let mut bufs: [&[u8]; 3] = [b"ab", b"", b"cde"];
    assert_eq!(advance_slices(&mut bufs, 0, 2), 2);
    assert_eq!(bufs[2], b"cde");
    assert_eq!(advance_slices(&mut bufs, 2, 1), 2);
    assert_eq!(bufs[2], b"de");
    assert_eq!(advance_slices(&mut bufs, 2, 2), 3);
    let mut empty: [&[u8]; 2] = [b"", b""];
    assert_eq!(advance_slices(&mut empty, 0, 0), 2);
}

#[test]
fn write_all_vectored_writes_every_byte_in_order() {
    let mut r = Recorder::new(3);
    r.interrupts = 1;
    let mut bufs: [&[u8]; 4] = [b"ab", b"", b"cdef", b"g"];
    r.write_all_vectored(&mut bufs).unwrap();
    assert_eq!(r.data, b"abcdefg");
    assert_eq!(r.calls, vec![b"ab".to_vec(), b"cde".to_vec(), b"f".to_vec(), b"g".to_vec()]);
}

#[test]
fn write_all_vectored_reports_write_zero() {
    let mut r = Recorder::new(0);
    let mut bufs: [&[u8]; 2] = [b"", b"x"];
    let e = r.write_all_vectored(&mut bufs).unwrap_err();
    assert_eq!(e.kind(), ErrorKind::WriteZero);
    let mut none: [&[u8]; 1] = [b""];
    assert!(r.write_all_vectored(&mut none).is_ok());
}

#[test]
fn line_writer_write_all_vectored_buffers_last_partial_line() {
    let inner = VectoredRecorder { data: Vec::new(), calls: 0 };
    let mut w: ArrayLineWriter<VectoredRecorder, 16> = ArrayLineWriter::new(inner);
    let mut bufs: [&[u8]; 3] = [b"one\n", b"two\nth", b"ree"];
    w.write_all_vectored(&mut bufs).unwrap();
    // The whole slice holding the last newline goes to the inner writer.
    assert_eq!(w.get_ref().data, b"one\ntwo\nth");
    assert_eq!(w.buffer(), b"ree");
}

/// A writer whose every write and flush fails with a broken pipe.
#[derive(Debug)]
struct Broken {
    calls: usize,
}

impl Write for Broken {
    fn write(&mut self, _buf: &[u8]) -> Result<usize, Error> {
        self.calls += 1;
        Err(Error::from(ErrorKind::BrokenPipe))
    }

    fn flush(&mut self) -> Result<(), Error> {
        self.calls += 1;
        Err(Error::from(ErrorKind::BrokenPipe))
    }
}

#[test]
fn write_step_decides_each_result() {
    let zero = Error::from(ErrorKind::WriteZero);
    assert!(matches!(write_step(Ok(3), 5, Error::from(ErrorKind::WriteZero)), WriteStep::Accepted(3)));
    match write_step(Ok(0), 5, zero) {
        WriteStep::Stop(e) => assert_eq!(e.kind(), ErrorKind::WriteZero),
        _ => panic!("a write of no byte stops the loop"),
    }
    let interrupted = Error::from(ErrorKind::Interrupted);
    assert!(matches!(
        write_step(Err(interrupted), 1, Error::from(ErrorKind::WriteZero)),
        WriteStep::Retry
    ));
    match write_step(Err(Error::from(ErrorKind::Interrupted)), 0, Error::from(ErrorKind::WriteZero)) {
        WriteStep::Stop(e) => assert_eq!(e.kind(), ErrorKind::Interrupted),
        _ => panic!("no retries are left"),
    }
    match write_step(Err(Error::from(ErrorKind::BrokenPipe)), 9, Error::from(ErrorKind::WriteZero)) {
        WriteStep::Stop(e) => assert_eq!(e.kind(), ErrorKind::BrokenPipe),
        _ => panic!("other errors stop the loop"),
    }
}

#[test]
fn line_writer_short_data_never_reaches_inner_writer() {
    let mut w: ArrayLineWriter<Broken, 16> = ArrayLineWriter::new(Broken { calls: 0 });
    assert_eq!(w.write(b"abc").unwrap(), 3);
    w.write_all(b"de").unwrap();
    let bufs: [&[u8]; 2] = [b"f", b"g"];
    assert_eq!(w.write_vectored(&bufs).unwrap(), 1);
    assert_eq!(w.buffer(), b"abcdef");
    assert_eq!(w.get_ref().calls, 0);
}

#[test]
fn line_writer_flush_writes_out_partial_line() {
    let mut w: ArrayLineWriter<Recorder, 64> = ArrayLineWriter::new(Recorder::new(100));
    w.write_all(b"ab\ncd").unwrap();
    assert_eq!(w.get_ref().data, b"ab\n");
    w.flush().unwrap();
    assert_eq!(w.get_ref().data, b"ab\ncd");
}

#[test]
fn line_writer_into_inner_writes_out_buffer() {
    let mut w: ArrayLineWriter<Recorder, 64> = ArrayLineWriter::new(Recorder::new(100));
    w.write_all(b"abc").unwrap();
    let inner = w.into_inner().unwrap();
    assert_eq!(inner.data, b"abc");
}

#[test]
fn line_writer_into_inner_hands_on_inner_error() {
    let mut w: ArrayLineWriter<Broken, 16> = ArrayLineWriter::new(Broken { calls: 0 });
    w.write_all(b"abc").unwrap();
    let err = w.into_inner().unwrap_err();
    assert_eq!(err.error().kind(), ErrorKind::BrokenPipe);
    let w = err.into_inner();
    assert_eq!(w.buffer(), b"abc");
}

#[test]
fn buf_writer_flush_hands_on_inner_error() {
    let mut w: ArrayBufWriter<Broken, 8> = ArrayBufWriter::new(Broken { calls: 0 });
    w.write(b"xy").unwrap();
    assert_eq!(w.flush().unwrap_err().kind(), ErrorKind::BrokenPipe);
    assert_eq!(w.buffer(), b"xy");
}

#[test]
fn line_writer_debug_string_shows_writer_and_buffer_use() {
    let mut w: ArrayLineWriter<Vec<u8>, 16> = ArrayLineWriter::new(Vec::new());
    assert_eq!(w.debug_string(&format!("{:?}", w.get_ref())), "ArrayLineWriter { writer: [], buffer: 0/16, .. }");
    w.get_mut().push(1);
    assert_eq!(w.debug_string(&format!("{:?}", w.get_ref())), "ArrayLineWriter { writer: [1], buffer: 0/16, .. }");
}

#[test]
fn line_writer_flush_reaches_through_inner_buffered_writer() {
    let inner: ArrayBufWriter<Recorder, 8> = ArrayBufWriter::new(Recorder::new(100));
    let mut w: ArrayLineWriter<ArrayBufWriter<Recorder, 8>, 16> = ArrayLineWriter::new(inner);
    w.write_all(b"ab\ncd").unwrap();
    assert_eq!(w.get_ref().buffer(), b"ab\n");
    assert!(w.get_ref().get_ref().data.is_empty());
    w.flush().unwrap();
    assert_eq!(w.get_ref().get_ref().data, b"ab\ncd");
    assert_eq!(w.get_ref().get_ref().flushed, 1);
}
