use s3_get_object::backpressure::S3BackpressureHandle;

#[test]
fn a_new_handle_has_the_given_window() {
    let handle = S3BackpressureHandle::new(100);
    assert_eq!(handle.read_window_end_offset(), 100);
    assert!(!handle.is_exhausted_at(99));
    assert!(handle.is_exhausted_at(100));
    assert!(handle.is_exhausted_at(101));
}

#[test]
fn increments_add_up() {
    let mut handle = S3BackpressureHandle::new(100);
    assert_eq!(handle.increment_read_window(30), Some(30));
    assert_eq!(handle.increment_read_window(0), Some(0));
    assert_eq!(handle.increment_read_window(12), Some(12));
    assert_eq!(handle.read_window_end_offset(), 142);
}

#[test]
fn increments_wrap_around() {
    let mut handle = S3BackpressureHandle::new(u64::MAX);
    assert_eq!(handle.increment_read_window(3), Some(3));
    assert_eq!(handle.read_window_end_offset(), 2);
}

#[test]
fn a_window_is_extended_no_further_than_asked() {
    let mut handle = S3BackpressureHandle::new(100);
    assert_eq!(handle.ensure_read_window(250), Some(150));
    assert_eq!(handle.read_window_end_offset(), 250);
    assert_eq!(handle.ensure_read_window(250), Some(0));
    assert_eq!(handle.ensure_read_window(20), Some(0));
    assert_eq!(handle.read_window_end_offset(), 250);
    assert!(!handle.is_exhausted_at(249));
}

#[test]
fn a_dummy_handle_never_blocks() {
    let mut handle = S3BackpressureHandle::dummy();
    assert_eq!(handle.read_window_end_offset(), u64::MAX);
    assert_eq!(handle.increment_read_window(1), None);
    assert_eq!(handle.increment_read_window(usize::MAX), None);
    assert_eq!(handle.ensure_read_window(17), None);
    assert_eq!(handle.ensure_read_window(u64::MAX), None);
    assert_eq!(handle.read_window_end_offset(), u64::MAX);
    assert!(!handle.is_exhausted_at(0));
    assert!(!handle.is_exhausted_at(u64::MAX));
}

#[test]
fn grants_add_up_to_the_movement_of_the_window() {
    let mut handle = S3BackpressureHandle::new(100);
    let granted = [
        handle.increment_read_window(30),
        handle.ensure_read_window(120),
        handle.ensure_read_window(190),
        handle.increment_read_window(0),
        handle.increment_read_window(5),
        handle.ensure_read_window(200),
    ];
    assert_eq!(granted, [Some(30), Some(0), Some(60), Some(0), Some(5), Some(5)]);
    let total: u64 = granted.iter().flatten().sum();
    assert_eq!(handle.read_window_end_offset() - 100, total);

    let mut handle = S3BackpressureHandle::new(u64::MAX - 8);
    let granted = [handle.increment_read_window(3), handle.ensure_read_window(u64::MAX)];
    assert_eq!(granted, [Some(3), Some(5)]);
    assert_eq!(handle.read_window_end_offset(), u64::MAX);
}
