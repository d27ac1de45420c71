use regionc::{allocate, blackbox, free, Buffer, BufferError, BufferOp, Byte};

#[test]
fn runtime_borrow_check_scenario() {
    let mut buf = allocate(1024);
    let r = buf.borrow(512, 0).unwrap();
    assert_eq!(r.len(), 512);
    assert_eq!(buf.borrow_mut(512, 0), Err(BufferError::MutableBorrowOfBorrowed));
}

#[test]
fn new_buffer_is_zeroed() {
    let buf = Buffer::new(3);
    assert_eq!(buf.render(), "Buffer(00 00 00)");
    assert_eq!(buf.get(2), Ok(0));
    assert_eq!(Buffer::new(0).render(), "Buffer()");
}

#[test]
fn write_then_read_and_render_hex() {
    let mut buf = allocate(2);
    buf.set(0, 255).unwrap();
    buf.set(1, 10).unwrap();
    assert_eq!(buf.get(0), Ok(255));
    assert_eq!(buf.render(), "Buffer(ff 0a)");
}

#[test]
fn borrow_returns_data_and_blocks_writes() {
    let mut buf = allocate(4);
    buf.set(1, 7).unwrap();
    buf.set(2, 8).unwrap();
    assert_eq!(buf.borrow(2, 1), Ok(vec![7, 8]));
    assert_eq!(buf.set(1, 1), Err(BufferError::WriteToBorrowed));
    assert_eq!(buf.get(1), Ok(7));
    assert_eq!(buf.set(3, 9), Ok(()));
    assert_eq!(buf.borrow(1, 1), Ok(vec![7]));
}

#[test]
fn free_rules() {
    let mut buf = allocate(2);
    buf.borrow(1, 1).unwrap();
    assert_eq!(buf.free(), Err(BufferError::FreeWhileBorrowed));
    assert!(!buf.is_freed());
    let mut other = allocate(2);
    assert_eq!(free(&mut other), Ok(()));
    assert!(other.is_freed());
    assert_eq!(other.free(), Ok(()));
    assert_eq!(other.get(0), Err(BufferError::UseAfterFree));
    assert_eq!(other.set(0, 1), Err(BufferError::UseAfterFree));
    assert_eq!(other.borrow(1, 0), Err(BufferError::UseAfterFree));
    assert_eq!(other.render(), "Buffer()");
}

#[test]
fn out_of_bounds() {
    let mut buf = allocate(4);
    assert_eq!(buf.get(4), Err(BufferError::OutOfBounds));
    assert_eq!(buf.set(9, 1), Err(BufferError::OutOfBounds));
    assert_eq!(buf.borrow(3, 2), Err(BufferError::OutOfBounds));
    assert_eq!(buf.borrow_mut(usize::MAX, 1), Err(BufferError::OutOfBounds));
    assert_eq!(buf.borrow(0, 4), Ok(vec![]));
}

#[test]
fn run_stops_at_first_violation() {
    let mut buf = allocate(8);
    let ops = vec![
        BufferOp::Write { index: 0, value: 1 },
        BufferOp::Borrow { size: 2, index: 0 },
        BufferOp::Write { index: 3, value: 2 },
        BufferOp::Write { index: 1, value: 3 },
        BufferOp::Free,
    ];
    assert_eq!(buf.run(&ops), Err((3, BufferError::WriteToBorrowed)));
    assert_eq!(buf.get(3), Ok(2));
    assert_eq!(buf.get(1), Ok(0));
}

#[test]
fn run_that_keeps_rules_completes() {
    let mut buf = allocate(4);
    let ops = vec![
        BufferOp::Write { index: 0, value: 5 },
        BufferOp::BorrowMut { size: 1, index: 3 },
        BufferOp::Borrow { size: 1, index: 2 },
        BufferOp::Write { index: 1, value: 6 },
    ];
    assert_eq!(buf.run(&ops), Ok(()));
    assert_eq!(buf.render(), "Buffer(05 06 00 00)");
    assert_eq!(buf.apply(BufferOp::Free), Err(BufferError::FreeWhileBorrowed));
    assert_eq!(buf.apply(BufferOp::BorrowMut { size: 2, index: 1 }), Err(BufferError::MutableBorrowOfBorrowed));
}

#[test]
fn byte_flags() {
    let mut b = Byte::new(9);
    assert!(!b.borrowed);
    b.borrow();
    assert!(b.borrowed);
    b.release();
    assert_eq!(b, Byte { data: 9, borrowed: false });
}

#[test]
fn blackbox_is_identity() {
    assert_eq!(blackbox(41), 41);
    assert_eq!(blackbox("x"), "x");
}
