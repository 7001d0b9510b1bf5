use io_core::io::{BorrowedBuf, TrackingBorrowedBuf};

#[test]
fn borrowed_buf_starts_empty_and_initialized() {
    let mut storage = [1u8, 2, 3, 4];
    let buf = BorrowedBuf::from_slice(&mut storage);
    assert_eq!(buf.capacity(), 4);
    assert_eq!(buf.len(), 0);
    assert!(buf.is_init());
    assert_eq!(buf.filled(), &[] as &[u8]);
}

#[test]
fn borrowed_buf_from_uninit_is_not_initialized() {
    let mut storage = [0u8; 3];
    let buf = BorrowedBuf::from_uninit_slice(&mut storage);
    assert!(!buf.is_init());
    assert_eq!(buf.capacity(), 3);
}

#[test]
fn cursor_append_fills_buffer() {
    let mut storage = [0u8; 8];
    let mut buf = BorrowedBuf::from_uninit_slice(&mut storage);
    {
        let mut cursor = buf.unfilled();
        assert_eq!(cursor.capacity(), 8);
        cursor.append(&[1, 2, 3]);
        assert_eq!(cursor.written(), 3);
        assert_eq!(cursor.capacity(), 5);
        cursor.append(&[4]);
        assert_eq!(cursor.written(), 4);
    }
    assert_eq!(buf.len(), 4);
    assert_eq!(buf.filled(), &[1, 2, 3, 4]);
    let filled = buf.into_filled();
    assert_eq!(filled, &[1, 2, 3, 4]);
    assert_eq!(storage, [1, 2, 3, 4, 0, 0, 0, 0]);
}

#[test]
fn cursor_advance_checked_on_initialized_buffer() {
    let mut storage = [5u8, 6, 7, 8];
    let mut buf = BorrowedBuf::from_slice(&mut storage);
    {
        let mut cursor = buf.unfilled();
        cursor.advance_checked(3);
        assert_eq!(cursor.capacity(), 1);
    }
    assert_eq!(buf.filled(), &[5, 6, 7]);
}

#[test]
fn cursor_as_mut_then_advance() {
    let mut storage = [0u8; 5];
    let mut buf = BorrowedBuf::from_uninit_slice(&mut storage);
    {
        let mut cursor = buf.unfilled();
        let space = cursor.as_mut();
        space[0] = 9;
        space[1] = 8;
        cursor.advance(2);
        assert_eq!(cursor.written(), 2);
    }
    assert_eq!(buf.filled(), &[9, 8]);
    assert!(!buf.is_init());
}

#[test]
fn clear_resets_filled_but_keeps_contents() {
    let mut storage = [0u8; 4];
    let mut buf = BorrowedBuf::from_slice(&mut storage);
    buf.unfilled().append(&[1, 2]);
    assert_eq!(buf.len(), 2);
    buf.clear();
    assert_eq!(buf.len(), 0);
    assert!(buf.is_init());
    buf.unfilled().advance_checked(2);
    assert_eq!(buf.filled(), &[1, 2]);
}

#[test]
fn set_init_marks_buffer_initialized() {
    let mut storage = [0u8; 2];
    let mut buf = BorrowedBuf::from_uninit_slice(&mut storage);
    buf.set_init();
    assert!(buf.is_init());
    let mut cursor = buf.unfilled();
    cursor.set_init();
    assert!(cursor.is_init());
}

#[test]
fn filled_mut_changes_filled_part() {
    let mut storage = [0u8; 4];
    let mut buf = BorrowedBuf::from_slice(&mut storage);
    buf.unfilled().append(&[1, 2, 3]);
    buf.filled_mut()[1] = 7;
    assert_eq!(buf.filled(), &[1, 7, 3]);
    let filled = buf.into_filled_mut();
    filled[0] = 4;
    assert_eq!(storage, [4, 7, 3, 0]);
}

#[test]
fn with_unfilled_buf_takes_over_what_the_closure_filled() {
    let mut storage = [0u8; 6];
    let mut buf = BorrowedBuf::from_uninit_slice(&mut storage);
    buf.unfilled().append(&[1]);
    {
        let mut cursor = buf.unfilled();
        let seen = cursor.with_unfilled_buf(|inner| {
            assert_eq!(inner.capacity(), 5);
            assert_eq!(inner.len(), 0);
            assert!(!inner.is_init());
            inner.unfilled().append(&[2, 3]);
            inner.set_init();
            inner.len()
        });
        assert_eq!(seen, 2);
        assert_eq!(cursor.written(), 3);
        assert!(cursor.is_init());
    }
    assert_eq!(buf.filled(), &[1, 2, 3]);
    assert_eq!(buf.capacity(), 6);
}

#[test]
fn ensure_init_fills_unfilled_part_with_default() {
    let mut storage = [7u8; 5];
    let mut buf = BorrowedBuf::from_uninit_slice(&mut storage);
    buf.unfilled().append(&[1, 2]);
    {
        let mut cursor = buf.unfilled();
        let rest = cursor.ensure_init();
        assert_eq!(rest, &[0, 0, 0]);
        rest[0] = 5;
        assert!(cursor.is_init());
    }
    assert!(buf.is_init());
    buf.unfilled().advance_checked(1);
    assert_eq!(buf.filled(), &[1, 2, 5]);
}

#[test]
fn ensure_init_keeps_initialized_contents() {
    let mut storage = [7u8; 3];
    let mut buf = BorrowedBuf::from_slice(&mut storage);
    let mut cursor = buf.unfilled();
    assert_eq!(cursor.ensure_init(), &[7, 7, 7]);
}

#[test]
fn from_cursor_covers_unfilled_part() {
    let mut storage = [1u8, 2, 3, 4];
    let mut buf = BorrowedBuf::from_slice(&mut storage);
    buf.unfilled().advance_checked(1);
    let cursor = buf.unfilled();
    let mut sub = BorrowedBuf::from_cursor(cursor);
    assert_eq!(sub.capacity(), 3);
    assert_eq!(sub.len(), 0);
    assert!(sub.is_init());
    sub.unfilled().append(&[9]);
    assert_eq!(sub.filled(), &[9]);
    assert_eq!(storage, [1, 9, 3, 4]);
}

#[test]
fn reborrowed_cursor_shares_written_count() {
    let mut storage = [0u8; 4];
    let mut buf = BorrowedBuf::from_slice(&mut storage);
    let mut cursor = buf.unfilled();
    {
        let mut inner = cursor.reborrow();
        inner.append(&[3]);
        assert_eq!(inner.written(), 1);
    }
    assert_eq!(cursor.written(), 1);
    cursor.append(&[4]);
    assert_eq!(cursor.written(), 2);
}

#[test]
fn tracking_buf_tracks_filled_and_initialized() {
    let mut storage = [0u8; 6];
    let mut buf = TrackingBorrowedBuf::from_uninit_slice(&mut storage);
    assert_eq!(buf.capacity(), 6);
    assert_eq!(buf.len(), 0);
    assert!(buf.is_empty());
    assert_eq!(buf.init_len(), 0);
    {
        let mut cursor = buf.unfilled();
        cursor.append(&[1, 2]);
        assert_eq!(cursor.written(), 2);
        assert_eq!(cursor.capacity(), 4);
        cursor.set_init(3);
        assert_eq!(cursor.init_ref(), &[0, 0, 0]);
        cursor.init_mut()[0] = 8;
        cursor.advance(1);
        assert_eq!(cursor.written(), 3);
        assert_eq!(cursor.init_ref(), &[0, 0]);
        assert_eq!(cursor.uninit_mut().len(), 1);
    }
    assert_eq!(buf.len(), 3);
    assert!(!buf.is_empty());
    assert_eq!(buf.init_len(), 5);
    assert_eq!(buf.filled(), &[1, 2, 8]);
}

#[test]
fn tracking_set_init_never_shrinks() {
    let mut storage = [0u8; 4];
    let mut buf = TrackingBorrowedBuf::from_uninit_slice(&mut storage);
    buf.set_init(3);
    assert_eq!(buf.init_len(), 3);
    buf.set_init(1);
    assert_eq!(buf.init_len(), 3);
    buf.unfilled().advance_unchecked(4);
    assert_eq!(buf.init_len(), 4);
    assert_eq!(buf.len(), 4);
}

#[test]
fn tracking_clear_keeps_initialized_length() {
    let mut storage = [1u8, 2, 3];
    let mut buf = TrackingBorrowedBuf::from_slice(&mut storage);
    assert_eq!(buf.init_len(), 3);
    buf.unfilled().advance(2);
    buf.clear();
    assert_eq!(buf.len(), 0);
    assert_eq!(buf.init_len(), 3);
}

#[test]
fn tracking_with_unfilled_buf_measures_from_unfilled_start() {
    let mut storage = [0u8; 6];
    let mut buf = TrackingBorrowedBuf::from_uninit_slice(&mut storage);
    buf.unfilled().append(&[1, 2]);
    buf.set_init(3);
    {
        let mut cursor = buf.unfilled();
        cursor.with_unfilled_buf(|inner| {
            assert_eq!(inner.capacity(), 4);
            assert_eq!(inner.init_len(), 1);
            inner.unfilled().append(&[5, 6]);
            inner.set_init(3);
        });
        assert_eq!(cursor.written(), 2);
    }
    assert_eq!(buf.len(), 4);
    assert_eq!(buf.init_len(), 5);
    assert_eq!(buf.filled(), &[1, 2, 5, 6]);
}

#[test]
fn tracking_ensure_init_initializes_everything() {
    let mut storage = [9u8; 4];
    let mut buf = TrackingBorrowedBuf::from_uninit_slice(&mut storage);
    buf.unfilled().append(&[1]);
    {
        let mut cursor = buf.unfilled();
        assert_eq!(cursor.ensure_init(), &[0, 0, 0]);
    }
    assert_eq!(buf.init_len(), 4);
    assert_eq!(buf.len(), 1);
}

#[test]
fn tracking_from_cursor_starts_with_initialized_unfilled_part() {
    let mut storage = [1u8, 2, 3, 4, 5];
    let mut buf = TrackingBorrowedBuf::from_slice(&mut storage);
    buf.unfilled().advance(2);
    let sub = TrackingBorrowedBuf::from_cursor(buf.unfilled());
    assert_eq!(sub.capacity(), 3);
    assert_eq!(sub.init_len(), 3);
    assert_eq!(sub.len(), 0);
}

#[test]
fn tracking_reborrow_counts_from_cursor_start() {
    let mut storage = [0u8; 5];
    let mut buf = TrackingBorrowedBuf::from_slice(&mut storage);
    buf.unfilled().append(&[1]);
    let mut cursor = buf.unfilled();
    assert_eq!(cursor.written(), 0);
    {
        let mut again = cursor.reborrow();
        again.append(&[2, 3]);
        assert_eq!(again.written(), 2);
    }
    assert_eq!(cursor.written(), 2);
    let filled = {
        let _ = cursor;
        buf.into_filled()
    };
    assert_eq!(filled, &[1, 2, 3]);
}

#[test]
fn with_unfilled_buf_closure_appends_into_room_it_was_given() {
    let mut arr = [0u8; 4];
    let mut b = BorrowedBuf::from_slice(&mut arr[..]);
    {
        let mut c = b.unfilled();
        c.append(&[1]);
        let seen = c.with_unfilled_buf(|inner| {
            inner.unfilled().append(&[2, 3]);
            (inner.capacity(), inner.len())
        });
        assert_eq!(seen, (3, 2));
        assert_eq!(c.written(), 3);
        assert_eq!(c.capacity(), 1);
    }
    assert_eq!(b.filled(), &[1u8, 2, 3]);
}

#[test]
fn borrowed_buf_debug_string_shows_init_filled_capacity() {
    let mut arr = [0u8; 4];
    let mut b = BorrowedBuf::from_slice(&mut arr[..]);
    b.unfilled().append(&[1]);
    assert_eq!(b.debug_string(), "BorrowedBuf { init: true, filled: 1, capacity: 4 }");
}

#[test]
fn tracking_buf_debug_string_shows_init_filled_capacity() {
    let mut m = [0u8; 4];
    let mut b = TrackingBorrowedBuf::from_uninit_slice(&mut m[..]);
    b.unfilled().append(&[1, 2]);
    assert_eq!(b.debug_string(), "BorrowedBufTracking { init: 2, filled: 2, capacity: 4 }");
}
