use rush::rwlock::{Order, Preference, Request, RwLock};

#[test]
fn new_lock_wakes_nobody() {
    let lock = RwLock::new(5u32, Preference::Reader, Order::Fifo);
    assert_eq!(*lock.data(), 5);
    assert!(lock.preferenceAndOrder().is_empty());
    assert!(!lock.waitOnType("read"));
    assert!(!lock.waitOnType("write"));
    assert!(lock.waitOnType("other"));
}

#[test]
fn reader_preference_lets_readers_share() {
    let mut lock = RwLock::new((), Preference::Reader, Order::Fifo);
    let first = lock.read(Request::Arrive(1));
    let second = lock.read(Request::Arrive(2));
    assert!(first.is_some());
    assert!(second.is_some());
    assert!(lock.write(Request::Arrive(3)).is_none());
    assert!(lock.waitOnType("write"));
    // The first reader leaves: one reader still holds the lock, the
    // waiting writer is told to try again.
    assert_eq!(first.unwrap().release(&mut lock), vec![3]);
    assert!(lock.write(Request::Woken(3)).is_none());
    assert_eq!(second.unwrap().release(&mut lock), vec![3]);
    let w = lock.write(Request::Woken(3));
    assert!(w.is_some());
    assert!(w.unwrap().release(&mut lock).is_empty());
}

#[test]
fn reader_preference_blocks_writer_while_readers_wait() {
    let mut lock = RwLock::new((), Preference::Reader, Order::Fifo);
    let w = lock.write(Request::Arrive(1)).unwrap();
    assert!(lock.read(Request::Arrive(2)).is_none());
    assert!(lock.write(Request::Arrive(3)).is_none());
    // The writer leaves: the waiting reader is woken, not the writer.
    assert_eq!(w.release(&mut lock), vec![2]);
}

#[test]
fn writer_preference_holds_back_readers() {
    let mut lock = RwLock::new(0u8, Preference::Writer, Order::Lifo);
    let w = lock.write(Request::Arrive(1)).unwrap();
    assert!(lock.read(Request::Arrive(2)).is_none());
    assert!(lock.write(Request::Arrive(3)).is_none());
    assert!(lock.write(Request::Arrive(4)).is_none());
    assert!(lock.waitOnType("read"));
    // Last in, first out: the latest waiting writer is woken.
    assert_eq!(w.release(&mut lock), vec![4]);
    assert!(lock.write(Request::Woken(4)).is_some());
}

#[test]
fn fifo_and_lifo_wake_readers_in_opposite_orders() {
    for (order, expected) in [(Order::Fifo, vec![2, 3, 4]), (Order::Lifo, vec![4, 3, 2])] {
        let mut lock = RwLock::new((), Preference::Writer, order);
        let w = lock.write(Request::Arrive(1)).unwrap();
        for t in [2, 3, 4] {
            assert!(lock.read(Request::Arrive(t)).is_none());
        }
        assert_eq!(w.release(&mut lock), expected);
    }
}

#[test]
fn wake_lists_of_each_policy() {
    let mut lock = RwLock::new((), Preference::Writer, Order::Fifo);
    let w = lock.write(Request::Arrive(1)).unwrap();
    assert!(lock.read(Request::Arrive(10)).is_none());
    assert!(lock.read(Request::Arrive(11)).is_none());
    assert!(lock.write(Request::Arrive(20)).is_none());
    assert!(lock.write(Request::Arrive(21)).is_none());
    assert_eq!(lock.prefReaderOrderFifo(), vec![10, 11]);
    assert_eq!(lock.prefReaderOrderLifo(), vec![11, 10]);
    assert_eq!(lock.prefWriterOrderFifo(), vec![20]);
    assert_eq!(lock.prefWriterOrderLifo(), vec![21]);
    assert_eq!(lock.prefReader(), vec![10, 11]);
    assert_eq!(lock.prefWriter(), vec![20]);
    assert_eq!(lock.preferenceAndOrder(), vec![20]);
    lock.checkDatas();
    assert_eq!(w.release(&mut lock), vec![20]);
}

#[test]
fn fifo_lets_in_the_first_waiter() {
    let mut lock = RwLock::new((), Preference::Writer, Order::Fifo);
    let w = lock.write(Request::Arrive(1)).unwrap();
    assert!(lock.write(Request::Arrive(2)).is_none());
    assert!(lock.write(Request::Arrive(3)).is_none());
    assert_eq!(w.release(&mut lock), vec![2]);
    let w2 = lock.write(Request::Woken(2)).unwrap();
    // Writer 2 left the queue; writer 3 is next.
    assert_eq!(w2.release(&mut lock), vec![3]);
}

#[test]
fn a_barging_writer_does_not_take_a_woken_writers_place() {
    let mut lock = RwLock::new((), Preference::Writer, Order::Fifo);
    let w1 = lock.write(Request::Arrive(1)).unwrap();
    assert!(lock.write(Request::Arrive(2)).is_none());
    // Writer 1 leaves and wakes writer 2.
    assert_eq!(w1.release(&mut lock), vec![2]);
    // Writer 3 arrives before writer 2 asks again, and is let in.
    let w3 = lock.write(Request::Arrive(3)).unwrap();
    // Writer 2 asks again and waits; its ticket is still queued.
    assert!(lock.write(Request::Woken(2)).is_none());
    // Writer 3 leaves and wakes writer 2, which is then let in.
    assert_eq!(w3.release(&mut lock), vec![2]);
    assert!(lock.write(Request::Woken(2)).is_some());
}

#[test]
fn a_barging_reader_does_not_take_a_woken_readers_place() {
    let mut lock = RwLock::new((), Preference::Writer, Order::Fifo);
    let w = lock.write(Request::Arrive(1)).unwrap();
    assert!(lock.read(Request::Arrive(2)).is_none());
    assert_eq!(w.release(&mut lock), vec![2]);
    // Reader 3 arrives first and is let in; reader 2 stays queued.
    let r3 = lock.read(Request::Arrive(3)).unwrap();
    assert_eq!(lock.prefReaderOrderFifo(), vec![2]);
    let r2 = lock.read(Request::Woken(2)).unwrap();
    assert!(lock.prefReaderOrderFifo().is_empty());
    assert!(r3.release(&mut lock).is_empty());
    assert!(r2.release(&mut lock).is_empty());
}

#[test]
fn lifo_lets_in_the_thread_that_asks() {
    let mut lock = RwLock::new((), Preference::Writer, Order::Lifo);
    let w = lock.write(Request::Arrive(1)).unwrap();
    assert!(lock.write(Request::Arrive(2)).is_none());
    assert!(lock.write(Request::Arrive(3)).is_none());
    assert_eq!(w.release(&mut lock), vec![3]);
    // Writer 2 asks first and is let in; writer 3 stays queued.
    let w2 = lock.write(Request::Woken(2)).unwrap();
    assert_eq!(lock.prefWriterOrderLifo(), vec![3]);
    assert_eq!(w2.release(&mut lock), vec![3]);
}

#[test]
fn counts_of_readers_are_reported() {
    let mut lock = RwLock::new((), Preference::Reader, Order::Fifo);
    lock.well_formed();
    assert_eq!(lock.active_readers(), 0);
    let r = lock.read(Request::Arrive(1)).unwrap();
    assert_eq!(lock.active_readers(), 1);
    r.release(&mut lock);
    assert_eq!(lock.active_readers(), 0);
    lock.well_formed();
}
