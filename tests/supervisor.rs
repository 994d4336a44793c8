use live::supervisor::{classify, Change, Supervisor};

#[test]
fn two_edits_during_build_start_one_more() {
    let mut s = Supervisor::new();
    assert!(s.source_changed());
    assert!(s.is_running());
    assert!(!s.source_changed());
    assert!(!s.source_changed());
    assert!(s.rebuild_ended());
    assert!(s.is_running());
    assert!(!s.rebuild_ended());
    assert!(!s.is_running());
}

#[test]
fn edit_when_idle_starts_build() {
    let mut s = Supervisor::new();
    assert!(!s.is_running());
    assert!(s.source_changed());
    assert!(!s.rebuild_ended());
    assert!(s.source_changed());
}

#[test]
fn spurious_end_starts_nothing() {
    let mut s = Supervisor::new();
    assert!(!s.rebuild_ended());
    assert!(!s.is_running());
}

#[test]
fn shutdown_stops_build_in_flight() {
    let mut s = Supervisor::new();
    assert!(!s.shutdown());
    s.source_changed();
    s.source_changed();
    assert!(s.shutdown());
    assert!(!s.is_running());
    assert!(!s.rebuild_ended());
}

#[test]
fn classify_artifact_paths() {
    let a = "target/debug/liblive.so";
    assert_eq!(classify("target/debug/liblive.so", a), Change::Artifact);
    assert_eq!(classify("/home/u/live/target/debug/liblive.so", a), Change::Artifact);
    assert_eq!(classify("/home/u/live/xtarget/debug/liblive.so", a), Change::Source);
    assert_eq!(classify("/home/u/live/src/draw.rs", a), Change::Source);
    assert_eq!(classify("liblive.so", a), Change::Source);
    assert_eq!(classify("/home/u/live/target/debug/liblive.so.1700000000", a), Change::Source);
    assert_eq!(classify("", a), Change::Source);
}
