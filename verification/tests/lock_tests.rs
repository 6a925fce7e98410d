use rwlock::lock::{ReadStart, RwLock, RwLockReadGuard, RwLockWriteGuard, Wakeup, WriteStart};
use rwlock::policy::{Order, Preference};

fn granted_read(r: Result<ReadStart, ()>) -> RwLockReadGuard {
    match r {
        Ok(ReadStart::Granted(g)) => g,
        Ok(ReadStart::Waiting(t)) => panic!("reader {} waits", t),
        Err(()) => panic!("read failed"),
    }
}

fn waiting_read(r: Result<ReadStart, ()>) -> u64 {
    match r {
        Ok(ReadStart::Waiting(t)) => t,
        _ => panic!("reader did not wait"),
    }
}

fn granted_write(r: Result<WriteStart, ()>) -> RwLockWriteGuard {
    match r {
        Ok(WriteStart::Granted(g)) => g,
        Ok(WriteStart::Waiting(t)) => panic!("writer {} waits", t),
        Err(()) => panic!("write failed"),
    }
}

fn waiting_write(r: Result<WriteStart, ()>) -> u64 {
    match r {
        Ok(WriteStart::Waiting(t)) => t,
        _ => panic!("writer did not wait"),
    }
}

#[test]
fn new_lock_is_free() {
    let lock = RwLock::new(10u32, Preference::Reader, Order::Fifo);
    assert_eq!(lock.preference(), Preference::Reader);
    assert_eq!(lock.order(), Order::Fifo);
    assert_eq!(lock.next_ticket(), 0);
    assert!(lock.claim_read(0).is_none());
    assert!(lock.claim_write(0).is_none());
}

#[test]
fn readers_share_the_lock() {
    let mut lock = RwLock::new(String::from("shared"), Preference::Reader, Order::Fifo);
    let g0 = granted_read(lock.read());
    let g1 = granted_read(lock.read());
    assert_eq!(g0.ticket(), 0);
    assert_eq!(g1.ticket(), 1);
    assert_eq!(lock.read_value(&g0), "shared");
    assert_eq!(lock.read_value(&g1), "shared");
    assert!(matches!(lock.release_read(g0), Wakeup::Nobody));
    assert!(matches!(lock.release_read(g1), Wakeup::Nobody));
}

#[test]
fn writer_excludes_readers_and_writers() {
    for pref in [Preference::Reader, Preference::Writer] {
        let mut lock = RwLock::new(0i64, pref, Order::Fifo);
        let w = granted_write(lock.write());
        assert_eq!(waiting_read(lock.read()), 1);
        assert_eq!(waiting_write(lock.write()), 2);
        assert!(lock.claim_read(1).is_none());
        assert!(lock.claim_write(2).is_none());
        *lock.value_mut(&w) = 42;
        assert_eq!(*lock.write_value(&w), 42);
        let woken = lock.release_write(w);
        match pref {
            Preference::Writer => assert!(matches!(woken, Wakeup::Writer(2))),
            Preference::Reader => match woken {
                Wakeup::Readers(v) => assert_eq!(v, vec![1]),
                _ => panic!("readers should run first"),
            },
        }
    }
}

#[test]
fn writers_preferred_reader_waits_behind_waiting_writer() {
    let mut lock = RwLock::new(5u8, Preference::Writer, Order::Fifo);
    let r0 = granted_read(lock.read());
    assert_eq!(waiting_write(lock.write()), 1);
    assert_eq!(waiting_read(lock.read()), 2);
    match lock.release_read(r0) {
        Wakeup::Writer(t) => assert_eq!(t, 1),
        _ => panic!("the writer should run"),
    }
    let w = lock.claim_write(1).expect("writer holds the lock");
    *lock.value_mut(&w) = 7;
    match lock.release_write(w) {
        Wakeup::Readers(v) => assert_eq!(v, vec![2]),
        _ => panic!("the reader should run"),
    }
    let r2 = lock.claim_read(2).expect("reader holds the lock");
    assert_eq!(*lock.read_value(&r2), 7);
    assert!(matches!(lock.release_read(r2), Wakeup::Nobody));
}

#[test]
fn readers_preferred_reader_passes_waiting_writer() {
    let mut lock = RwLock::new((), Preference::Reader, Order::Fifo);
    let r0 = granted_read(lock.read());
    assert_eq!(waiting_write(lock.write()), 1);
    let r2 = granted_read(lock.read());
    assert!(matches!(lock.release_read(r0), Wakeup::Nobody));
    match lock.release_read(r2) {
        Wakeup::Writer(t) => assert_eq!(t, 1),
        _ => panic!("the writer should run"),
    }
    assert!(lock.claim_write(1).is_some());
}

#[test]
fn readers_preferred_writer_waits_for_waiting_reader() {
    let mut lock = RwLock::new(1u16, Preference::Reader, Order::Fifo);
    let w0 = granted_write(lock.write());
    assert_eq!(waiting_read(lock.read()), 1);
    assert_eq!(waiting_write(lock.write()), 2);
    match lock.release_write(w0) {
        Wakeup::Readers(v) => assert_eq!(v, vec![1]),
        _ => panic!("the reader should run"),
    }
    let r1 = lock.claim_read(1).expect("reader holds the lock");
    match lock.release_read(r1) {
        Wakeup::Writer(t) => assert_eq!(t, 2),
        _ => panic!("the writer should run"),
    }
}

#[test]
fn fifo_wakes_the_first_waiting_writer() {
    let mut lock = RwLock::new(0u32, Preference::Writer, Order::Fifo);
    let w0 = granted_write(lock.write());
    assert_eq!(waiting_write(lock.write()), 1);
    assert_eq!(waiting_write(lock.write()), 2);
    assert_eq!(waiting_write(lock.write()), 3);
    assert!(matches!(lock.release_write(w0), Wakeup::Writer(1)));
    let w1 = lock.claim_write(1).unwrap();
    assert!(matches!(lock.release_write(w1), Wakeup::Writer(2)));
    let w2 = lock.claim_write(2).unwrap();
    assert!(matches!(lock.release_write(w2), Wakeup::Writer(3)));
    let w3 = lock.claim_write(3).unwrap();
    assert!(matches!(lock.release_write(w3), Wakeup::Nobody));
}

#[test]
fn lifo_wakes_the_last_waiting_writer() {
    let mut lock = RwLock::new(0u32, Preference::Writer, Order::Lifo);
    let w0 = granted_write(lock.write());
    assert_eq!(waiting_write(lock.write()), 1);
    assert_eq!(waiting_write(lock.write()), 2);
    assert_eq!(waiting_write(lock.write()), 3);
    assert!(matches!(lock.release_write(w0), Wakeup::Writer(3)));
    let w3 = lock.claim_write(3).unwrap();
    assert!(matches!(lock.release_write(w3), Wakeup::Writer(2)));
    let w2 = lock.claim_write(2).unwrap();
    assert!(matches!(lock.release_write(w2), Wakeup::Writer(1)));
}

#[test]
fn lifo_applies_to_read_release_too() {
    let mut lock = RwLock::new(0u32, Preference::Writer, Order::Lifo);
    let r0 = granted_read(lock.read());
    assert_eq!(waiting_write(lock.write()), 1);
    assert_eq!(waiting_write(lock.write()), 2);
    assert!(matches!(lock.release_read(r0), Wakeup::Writer(2)));
}

#[test]
fn read_then_release_restores_the_lock() {
    let mut lock = RwLock::new(3u8, Preference::Writer, Order::Fifo);
    let g = granted_read(lock.read());
    assert!(lock.claim_read(0).is_some());
    assert!(matches!(lock.release_read(g), Wakeup::Nobody));
    assert!(lock.claim_read(0).is_none());
    assert_eq!(lock.next_ticket(), 1);
    // The lock is free again: a writer gets it at once.
    let w = granted_write(lock.write());
    assert_eq!(w.ticket(), 1);
}

#[test]
fn write_then_release_restores_the_lock() {
    let mut lock = RwLock::new(3u8, Preference::Reader, Order::Lifo);
    let w = granted_write(lock.write());
    assert!(matches!(lock.release_write(w), Wakeup::Nobody));
    assert!(lock.claim_write(0).is_none());
    let r = granted_read(lock.read());
    assert_eq!(r.ticket(), 1);
}

#[test]
fn all_waiting_readers_are_admitted_together() {
    let mut lock = RwLock::new(0u8, Preference::Writer, Order::Fifo);
    let w = granted_write(lock.write());
    assert_eq!(waiting_read(lock.read()), 1);
    assert_eq!(waiting_read(lock.read()), 2);
    assert_eq!(waiting_read(lock.read()), 3);
    match lock.release_write(w) {
        Wakeup::Readers(v) => assert_eq!(v, vec![1, 2, 3]),
        _ => panic!("the readers should run"),
    }
    for t in 1..4 {
        assert!(lock.claim_read(t).is_some());
    }
    // A writer now waits for the admitted readers.
    assert_eq!(waiting_write(lock.write()), 4);
}
