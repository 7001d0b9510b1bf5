# io_core

I/O building blocks in the style of `std::io`, verified with Verus: borrowed buffers that are
filled incrementally through write-only cursors, an I/O error type, a `Write` trait, buffered
writers whose buffer is a fixed-size array (one of them line-buffered), and the platform
fallbacks they rely on.

## Layout

- `src/io/borrowed_buf.rs`: `BorrowedBuf` and `BorrowedCursor` (filled region plus an
  initialization flag) and `TrackingBorrowedBuf` and `TrackingBorrowedCursor` (filled region
  inside an initialized region). Contracts speak of the buffer's contents, filled count and
  initialized count, and of the storage the buffer borrows.
- `src/io/error.rs`: `ErrorKind`, `SimpleMessage`, `Error` and its rendering.
- `src/io/write.rs`: the `Write` trait, whose contracts model the bytes a writer has accepted
  and those it still holds back (`pending`, which a successful `flush` empties),
  with vectored writes over several slices and `write_all` / `write_all_vectored` that retry
  interrupted writes. `write_step` states what such a loop does with each result of a write
  (accept the count, retry an interruption, stop on a write of no byte or on any other
  error), and the loops of the buffered writers use it too. A writer that promises, through
  `interrupt_bound`, to be interrupted at most `k <= INTERRUPTED_RETRY_LIMIT` times in a row
  never makes these loops report an interrupted error.
- `src/io/array_buffered/`: `ArrayBufWriter` and `ArrayLineWriter`, specified by what each
  operation leaves in the buffer and by the bytes accepted: those that reached the inner
  writer followed by those still buffered.
- `src/sys/`: error decoding for platforms without an operating system, the pipe fallback, and
  conversion traits between platform types and their representations.
- `app/`: what cannot be verified: the process-wide table of operating-system functions,
  terminal detection, raw file-descriptor traits for std types, and adapters between std's I/O
  traits and this crate's.
- `tests/`: executable tests of the library.
