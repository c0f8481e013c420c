use blind_control::elapsed::ElapsedTime;
use blind_control::receiver::LineReceiver;
use blind_control::string::String;

fn feed<const LEN: usize>(r: &mut LineReceiver<LEN>, s: &str) {
    for b in s.bytes() {
        r.receive(b);
    }
}

#[test]
fn buffer_truncates_at_capacity() {
    let mut s: String<3> = String::new();
    for b in b"abcd" {
        s.push(*b);
    }
    assert_eq!(s.as_bytes(), b"abc");
    s.clear();
    assert_eq!(s.as_bytes(), b"");
    s.push(b'z');
    assert_eq!(s.as_bytes(), b"z");
}

#[test]
fn completed_line_is_taken_once() {
    let mut r: LineReceiver<32> = LineReceiver::new();
    assert!(r.take().is_none());
    feed(&mut r, "up 1\r");
    let line = r.take().unwrap();
    assert_eq!(line.as_bytes(), b"up 1");
    assert!(r.take().is_none());
}

#[test]
fn second_line_overwrites_first() {
    let mut r: LineReceiver<32> = LineReceiver::new();
    feed(&mut r, "up 1\nstop\n");
    assert_eq!(r.take().unwrap().as_bytes(), b"stop");
    assert!(r.take().is_none());
}

#[test]
fn control_bytes_are_ignored() {
    let mut r: LineReceiver<32> = LineReceiver::new();
    feed(&mut r, "he\x07l\tp\n");
    assert_eq!(r.take().unwrap().as_bytes(), b"help");
}

#[test]
fn long_line_is_truncated() {
    let mut r: LineReceiver<4> = LineReceiver::new();
    feed(&mut r, "down 1\n");
    assert_eq!(r.take().unwrap().as_bytes(), b"down");
}

#[test]
fn elapsed_time_drains_to_zero() {
    let mut t = ElapsedTime::new();
    assert_eq!(t.drain(), 0);
    t.tick();
    t.tick();
    t.tick();
    assert_eq!(t.drain(), 3);
    assert_eq!(t.drain(), 0);
    t.tick();
    assert_eq!(t.drain(), 1);
}
