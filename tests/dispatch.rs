use blind_control::command::Command;
use blind_control::controller::{ControlChannel, Controller, MemoryPin};
use blind_control::dispatch::{execute, handle_line, Reply};

fn controller() -> Controller<MemoryPin, 2> {
    Controller::new([
        ControlChannel::new(MemoryPin { level: false }, MemoryPin { level: false }),
        ControlChannel::new(MemoryPin { level: false }, MemoryPin { level: false }),
    ])
}

#[test]
fn lines_are_answered() {
    let mut k = controller();
    assert_eq!(handle_line(&mut k, b"up 1"), Reply::Done);
    assert!(k.is_active());
    assert_eq!(handle_line(&mut k, b"help"), Reply::Help);
    assert!(k.is_active());
    assert_eq!(handle_line(&mut k, b"stpo"), Reply::UnknownCommand);
    assert!(k.is_active());
    assert_eq!(handle_line(&mut k, b"stop"), Reply::Done);
    assert!(!k.is_active());
}

#[test]
fn limit_command_times_motion() {
    let mut k = controller();
    assert_eq!(handle_line(&mut k, b"limit 0 down 30"), Reply::Done);
    assert_eq!(handle_line(&mut k, b"down 0"), Reply::Done);
    k.update(29);
    assert!(k.is_active());
    k.update(1);
    assert!(!k.is_active());
}

#[test]
fn out_of_range_command_is_still_done() {
    let mut k = controller();
    assert_eq!(execute(&mut k, Command::Up { index: 2 }), Reply::Done);
    assert!(!k.is_active());
    assert_eq!(execute(&mut k, Command::Stop { index: Some(1) }), Reply::Done);
    assert!(!k.is_active());
}
