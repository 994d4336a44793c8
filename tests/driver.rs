use live::driver::{Driver, FRAME_MILLIS};

#[test]
fn counter_counts_frames() {
    let mut d = Driver::new();
    assert!(d.is_running());
    assert_eq!(d.next_frame(), 0);
    assert_eq!(d.next_frame(), 1);
    assert_eq!(d.next_frame(), 2);
}

#[test]
fn stop_ends_the_loop() {
    let mut d = Driver::new();
    d.next_frame();
    d.stop();
    assert!(!d.is_running());
    assert_eq!(d.next_frame(), 1);
    d.stop();
    assert!(!d.is_running());
}

#[test]
fn frame_pause_is_about_sixty_hertz() {
    assert_eq!(FRAME_MILLIS, 16);
}
