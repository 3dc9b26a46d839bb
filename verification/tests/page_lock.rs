use pdf_classifier_core::page::Page;
use pdf_classifier_core::page_keeper::PageKeeper;
use pdf_classifier_core::page_lock::PageLock;

#[test]
fn unlocked_increments() {
    let mut lock = PageLock::Unlocked(Page(4));
    lock.increment();
    assert_eq!(*lock.get(), Page(5));

    lock.increment_by(Page(3));
    assert_eq!(*lock.get(), Page(8));
}

#[test]
fn try_increment_noops_when_locked() {
    let mut lock = PageLock::Unlocked(Page(4)).lock();
    assert!(lock.try_increment_by(Page(1)).is_none());
    assert_eq!(*lock.get(), Page(4));

    let mut lock = lock.unlock();
    assert!(lock.try_increment_by(Page(1)).is_some());
    assert_eq!(*lock.get(), Page(5));
}

#[test]
fn lock_round_trip_preserves_page() {
    let lock = PageLock::Unlocked(Page(7)).lock();
    assert_eq!(*lock.get(), Page(7));
    let lock = lock.unlock();
    assert_eq!(*lock.get(), Page(7));
}

#[test]
fn lock_and_unlock_set_the_variant() {
    assert_eq!(PageLock::Unlocked(Page(2)).lock(), PageLock::Locked(Page(2)));
    assert_eq!(PageLock::Locked(Page(2)).lock(), PageLock::Locked(Page(2)));
    assert_eq!(PageLock::Locked(Page(2)).unlock(), PageLock::Unlocked(Page(2)));
    assert_eq!(PageLock::Unlocked(Page(2)).unlock(), PageLock::Unlocked(Page(2)));
}

#[test]
fn increments_compose() {
    let mut a = PageLock::Unlocked(Page(10));
    a.increment_by(Page(3));
    a.increment_by(Page(4));
    let mut b = PageLock::Unlocked(Page(10));
    b.increment_by(Page(7));
    assert_eq!(a, b);
}

#[test]
fn page_keeper_refuses_when_locked() {
    let mut keeper = PageKeeper::Unlocked(Page(1));
    assert!(keeper.increment().is_some());
    assert!(keeper.increment_by(5).is_some());
    let mut keeper = keeper.lock();
    assert!(keeper.increment().is_none());
    assert!(keeper.increment_by(5).is_none());
    let mut keeper = keeper.unlock();
    assert!(keeper.increment().is_some());
    match keeper {
        PageKeeper::Unlocked(p) => assert_eq!(p, Page(8)),
        PageKeeper::Locked(_) => panic!("keeper should be unlocked"),
    }
}

#[test]
fn page_arithmetic() {
    assert_eq!(Page(5).previous(), Page(4));
    let mut p = Page(5);
    p.next();
    assert_eq!(p, Page(6));
    assert_eq!(Page(5).add(Page(3)), Page(8));
    assert_eq!(Page(5).sub(Page(3)), Page(2));
    let mut q = Page(1);
    q.add_assign(Page(9));
    assert_eq!(q, Page(10));
    assert_eq!(Page::from_usize(12), Page(12));
    assert_eq!(Page::from_u32(12).num(), 12);
}
