use live::host::{Handle, Step};

const ARTIFACT: &str = "target/debug/liblive.so";

fn loaded_at(t: u64) -> Handle {
    let mut h = Handle::new(ARTIFACT.to_string());
    let steps = h.check_for_update(Some(t));
    assert_eq!(steps, vec![Step::Stage(t), Step::InvalidateCache(t), Step::Load(t)]);
    assert_eq!(h.load_finished(true), vec![Step::Init]);
    h
}

#[test]
fn new_host_is_empty() {
    let h = Handle::new(ARTIFACT.to_string());
    assert!(!h.is_loaded());
    assert_eq!(h.staged(), None);
    assert_eq!(h.target(), ARTIFACT);
    assert_eq!(h.draw(0), vec![]);
}

#[test]
fn rewritten_artifact_swaps_module_once() {
    let t0: u64 = 1_700_000_000;
    let t1: u64 = 1_700_000_042;
    let mut h = loaded_at(t0);
    assert!(h.is_loaded());
    assert_eq!(h.staged(), Some(t0));

    let steps = h.check_for_update(Some(t1));
    assert_eq!(
        steps,
        vec![
            Step::Deinit,
            Step::RemoveStaged(t0),
            Step::Stage(t1),
            Step::InvalidateCache(t1),
            Step::Load(t1),
        ]
    );
    assert!(!h.is_loaded());
    assert_eq!(h.load_finished(true), vec![Step::Init]);
    assert!(h.is_loaded());
    assert_eq!(h.staged(), Some(t1));
    assert_eq!(h.staged_path(t1), "target/debug/liblive.so.1700000042");
    assert_eq!(h.draw(7), vec![Step::Draw(7)]);
    assert_eq!(h.check_for_update(Some(t1)), vec![]);
}

#[test]
fn increasing_times_reload_once_each() {
    let mut h = Handle::new(ARTIFACT.to_string());
    let mut reloads = 0;
    for t in [10u64, 11, 12, 20, 35] {
        let steps = h.check_for_update(Some(t));
        assert!(steps.contains(&Step::Stage(t)));
        reloads += 1;
        assert_eq!(h.load_finished(true), vec![Step::Init]);
        assert_eq!(h.check_for_update(Some(t)), vec![]);
    }
    assert_eq!(reloads, 5);
}

#[test]
fn older_or_missing_times_do_not_reload() {
    let mut h = loaded_at(50);
    assert_eq!(h.check_for_update(None), vec![]);
    assert_eq!(h.check_for_update(Some(49)), vec![]);
    assert_eq!(h.check_for_update(Some(50)), vec![]);
    assert_eq!(h.check_for_update(Some(0)), vec![]);
    assert!(h.is_loaded());
    assert_eq!(h.staged(), Some(50));
}

#[test]
fn reload_deinits_old_module_before_init() {
    let mut h = loaded_at(3);
    let mut steps = h.reload(4);
    steps.extend(h.load_finished(true));
    assert_eq!(steps.iter().filter(|s| **s == Step::Deinit).count(), 1);
    assert_eq!(steps.iter().filter(|s| **s == Step::Init).count(), 1);
    assert_eq!(steps.first(), Some(&Step::Deinit));
    assert_eq!(steps.last(), Some(&Step::Init));
}

#[test]
fn first_reload_has_no_deinit() {
    let mut h = Handle::new(ARTIFACT.to_string());
    let steps = h.reload(9);
    assert_eq!(steps, vec![Step::Stage(9), Step::InvalidateCache(9), Step::Load(9)]);
}

#[test]
fn failed_reload_leaves_host_empty() {
    let mut h = loaded_at(100);
    h.check_for_update(Some(200));
    assert_eq!(h.load_finished(false), vec![]);
    assert!(!h.is_loaded());
    assert_eq!(h.draw(12), vec![]);
    assert_eq!(h.staged(), Some(200));
    assert_eq!(h.shutdown(), vec![Step::RemoveStaged(200)]);
}

#[test]
fn load_finished_without_reload_does_nothing() {
    let mut h = loaded_at(5);
    assert_eq!(h.load_finished(true), vec![]);
    assert_eq!(h.load_finished(false), vec![]);
    assert!(h.is_loaded());
}

#[test]
fn shutdown_deinits_once_and_removes_staged_copy() {
    let mut h = loaded_at(77);
    assert_eq!(h.shutdown(), vec![Step::Deinit, Step::RemoveStaged(77)]);
    assert!(!h.is_loaded());
    assert_eq!(h.staged(), None);
    assert_eq!(h.shutdown(), vec![]);
    assert_eq!(h.draw(1), vec![]);
}

#[test]
fn shutdown_of_empty_host_asks_nothing() {
    let mut h = Handle::new(ARTIFACT.to_string());
    assert_eq!(h.shutdown(), vec![]);
}

#[test]
fn at_most_one_staged_copy_over_reloads() {
    let mut h = Handle::new(ARTIFACT.to_string());
    let mut on_disk: Vec<u64> = Vec::new();
    for t in [1u64, 2, 3, 4] {
        for step in h.check_for_update(Some(t)) {
            match step {
                Step::Stage(s) => on_disk.push(s),
                Step::RemoveStaged(s) => on_disk.retain(|x| *x != s),
                _ => {}
            }
            assert!(on_disk.len() <= 1);
        }
        h.load_finished(t % 2 == 0);
    }
    assert_eq!(on_disk, vec![4]);
}

#[test]
fn staged_path_appends_decimal_time() {
    let h = Handle::new("out/libm.dylib".to_string());
    assert_eq!(h.staged_path(0), "out/libm.dylib.0");
    assert_eq!(h.staged_path(9), "out/libm.dylib.9");
    assert_eq!(h.staged_path(10), "out/libm.dylib.10");
    assert_eq!(h.staged_path(1234567890), "out/libm.dylib.1234567890");
    assert_eq!(h.staged_path(u64::MAX), "out/libm.dylib.18446744073709551615");
}

#[test]
fn init_and_deinit_alternate_and_draw_only_when_live() {
    let mut h = Handle::new(ARTIFACT.to_string());
    let mut trace: Vec<Step> = Vec::new();
    trace.extend(h.draw(0));
    trace.extend(h.check_for_update(Some(10)));
    trace.extend(h.load_finished(true));
    trace.extend(h.draw(1));
    trace.extend(h.check_for_update(Some(11)));
    trace.extend(h.draw(2));
    trace.extend(h.load_finished(false));
    trace.extend(h.draw(3));
    trace.extend(h.check_for_update(Some(12)));
    trace.extend(h.load_finished(true));
    trace.extend(h.draw(4));
    trace.extend(h.shutdown());
    trace.extend(h.shutdown());

    let mut live = false;
    let mut inits = 0;
    let mut deinits = 0;
    for step in &trace {
        match step {
            Step::Init => {
                assert!(!live);
                live = true;
                inits += 1;
            }
            Step::Deinit => {
                assert!(live);
                live = false;
                deinits += 1;
            }
            Step::Draw(_) => assert!(live),
            Step::Load(_) => assert!(!live),
            _ => {}
        }
    }
    assert!(!live);
    assert_eq!(inits, 2);
    assert_eq!(deinits, 2);
    assert_eq!(trace.iter().filter(|s| matches!(s, Step::Draw(_))).count(), 2);
}
