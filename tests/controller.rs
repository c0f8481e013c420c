use blind_control::controller::{ControlChannel, Controller, MemoryPin};

fn channel() -> ControlChannel<MemoryPin> {
    ControlChannel::new(MemoryPin { level: true }, MemoryPin { level: true })
}

#[test]
fn new_channel_is_at_rest() {
    let c = channel();
    assert!(!c.is_active());
}

#[test]
fn up_then_down_drives_only_down() {
    let mut c = channel();
    c.set_limit(Some(50), Some(70));
    c.up();
    c.down();
    assert!(c.is_active());
    // One update of 60 ms would stop an upward run of 50 ms, not a downward one of 70 ms.
    c.update(60);
    assert!(c.is_active());
    c.update(10);
    assert!(!c.is_active());
}

#[test]
fn countdown_stops_after_limit() {
    let mut c = channel();
    c.set_limit(Some(100), None);
    c.up();
    c.update(40);
    assert!(c.is_active());
    c.update(40);
    assert!(c.is_active());
    c.update(40);
    assert!(!c.is_active());
}

#[test]
fn countdown_stops_exactly_at_limit() {
    let mut c = channel();
    c.set_limit(None, Some(80));
    c.down();
    c.update(40);
    assert!(c.is_active());
    c.update(40);
    assert!(!c.is_active());
}

#[test]
fn unlimited_motion_keeps_running() {
    let mut c = channel();
    c.up();
    c.update(u32::MAX);
    c.update(u32::MAX);
    assert!(c.is_active());
}

#[test]
fn tighter_limit_applies_to_running_motion() {
    let mut c = channel();
    c.up();
    c.set_limit(Some(5), None);
    c.update(5);
    assert!(!c.is_active());
}

#[test]
fn removed_limit_lets_running_motion_go_on() {
    let mut c = channel();
    c.set_limit(Some(5), None);
    c.up();
    c.set_limit(None, None);
    c.update(1000);
    assert!(c.is_active());
}

#[test]
fn limit_set_while_idle_applies_later() {
    let mut c = channel();
    c.set_limit(None, Some(10));
    c.update(1000);
    assert!(!c.is_active());
    c.down();
    c.update(9);
    assert!(c.is_active());
    c.update(1);
    assert!(!c.is_active());
}

#[test]
fn stop_twice_is_stop_once() {
    let mut c = channel();
    c.up();
    c.stop();
    assert!(!c.is_active());
    c.stop();
    assert!(!c.is_active());
    c.down();
    assert!(c.is_active());
}

#[test]
fn out_of_range_index_changes_nothing() {
    let mut k = Controller::new([channel(), channel()]);
    k.up(2);
    k.down(2);
    k.limit(2, Some(1), Some(1));
    k.stop(200);
    assert!(!k.is_active());
    k.up(1);
    k.stop(2);
    assert!(k.is_active());
}

#[test]
fn aggregate_active_iff_some_channel_active() {
    let mut k = Controller::new([channel(), channel(), channel()]);
    assert!(!k.is_active());
    k.down(2);
    assert!(k.is_active());
    k.stop(2);
    assert!(!k.is_active());
    k.up(0);
    k.up(1);
    k.stop_all();
    assert!(!k.is_active());
}

#[test]
fn aggregate_inactive_after_expiry() {
    let mut k = Controller::new([channel(), channel()]);
    k.limit(0, Some(10), None);
    k.limit(1, None, Some(20));
    k.up(0);
    k.down(1);
    k.update(10);
    assert!(k.is_active());
    k.update(10);
    assert!(!k.is_active());
}
