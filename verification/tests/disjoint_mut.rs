use svtav1::disjoint_mut::{BorrowTracker, DisjointMut, Region};

#[test]
fn disjoint_mut_basic() {
    let mut buf = DisjointMut::<u8>::new(64);
    buf.write(0, 42);
    buf.write(63, 99);
    assert_eq!(*buf.read(0), 42);
    assert_eq!(*buf.read(63), 99);
}

#[test]
fn disjoint_mut_range() {
    let mut buf = DisjointMut::<u8>::new(16);
    buf.write_range(4, &[10, 20, 30, 40]);
    assert_eq!(buf.read_range(4, 8), &[10, 20, 30, 40]);
}

#[test]
fn region_overlap() {
    let a = Region::new(0, 10);
    let b = Region::new(5, 15);
    let c = Region::new(10, 20);
    let d = Region::new(20, 30);

    assert!(a.overlaps(&b));
    assert!(b.overlaps(&a));
    assert!(!a.overlaps(&c));
    assert!(!a.overlaps(&d));
    assert!(!c.overlaps(&d));
}

#[test]
fn region_adjacent_no_overlap() {
    let a = Region::new(0, 64);
    let b = Region::new(64, 128);
    assert!(!a.overlaps(&b));
    assert!(!b.overlaps(&a));
}

#[test]
fn borrow_tracker_disjoint() {
    let mut tracker = BorrowTracker::new();
    tracker.borrow(Region::new(0, 64));
    tracker.borrow(Region::new(64, 128));
    assert!(tracker.has_active_borrows());
    tracker.release(Region::new(0, 64));
    tracker.release(Region::new(64, 128));
    assert!(!tracker.has_active_borrows());
}

#[test]
fn disjoint_mut_from_vec() {
    let data = vec![1u8, 2, 3, 4];
    let buf = DisjointMut::from_vec(data);
    assert_eq!(buf.len(), 4);
    assert_eq!(*buf.read(2), 3);
}

#[test]
fn region_mut_access() {
    let mut buf = DisjointMut::<u8>::new(16);
    let region = buf.region_mut(4, 8);
    region[0] = 100;
    region[3] = 200;
    assert_eq!(*buf.read(4), 100);
    assert_eq!(*buf.read(7), 200);
}

#[test]
fn region_len_and_empty() {
    let r = Region::new(3, 10);
    assert_eq!(r.len(), 7);
    assert!(!r.is_empty());
    assert!(Region::new(5, 5).is_empty());
}

#[test]
fn borrow_tracker_release_keeps_others() {
    let mut tracker = BorrowTracker::new();
    assert!(!tracker.has_active_borrows());
    tracker.borrow(Region::new(0, 8));
    tracker.borrow(Region::new(8, 16));
    tracker.release(Region::new(0, 8));
    assert!(tracker.has_active_borrows());
}
