use kernel::sync::rwlock::RwLock;
use kernel::sync::spinlock::SpinLock;
use kernel::sync::waitqueue::WaitQueue;

#[test]
fn waitqueue_fifo() {
    let mut q = WaitQueue::new();
    assert_eq!(q.waiters(), 0);
    q.wait(1);
    q.wait(2);
    q.wait(3);
    assert_eq!(q.waiters(), 3);
    assert_eq!(q.wake_one(), Some(1));
    assert_eq!(q.wake_all(), vec![2, 3]);
    assert_eq!(q.waiters(), 0);
    assert_eq!(q.wake_one(), None);
}

#[test]
fn spinlock_excludes_and_restores_interrupts() {
    let mut l = SpinLock::new(42u32);
    let (g, irq) = l.try_lock(true);
    assert!(g.is_some());
    assert!(!irq);
    let (g2, irq2) = l.try_lock(false);
    assert!(g2.is_none());
    assert!(!irq2);
    assert!(l.unlock(g.unwrap()));
    assert!(!l.locked);
    assert_eq!(l.data, 42);
}

#[test]
fn rwlock_readers_share_writer_excludes() {
    let mut l = RwLock::new(0u8);
    let r1 = l.read(1).unwrap();
    let r2 = l.read(2).unwrap();
    assert!(l.write(3).is_none());
    assert_eq!(l.state, 2);
    assert_eq!(l.release_read(r1), None);
    assert_eq!(l.release_read(r2), Some(3));
    let w = l.write(3).unwrap();
    assert!(l.read(4).is_none());
    assert!(l.write(5).is_none());
    let (readers, writer) = l.release_write(w);
    assert_eq!(readers, vec![4]);
    assert_eq!(writer, Some(5));
    assert_eq!(l.state, 0);
}
