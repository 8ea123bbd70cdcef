use pty_shell::dispatcher::{Dispatcher, Event, Notification, Source};
use pty_shell::handler::PtyHandler;
use pty_shell::pump::{Direction, Pump, PumpAction, PumpEvent, PumpState, INPUT_READ, OUTPUT_READ};

fn forwarded(a: PumpAction) -> Vec<u8> {
    match a {
        PumpAction::Forward(b) => b,
        other => panic!("expected bytes to forward, got {:?}", other),
    }
}

#[test]
fn input_bytes_are_forwarded_unchanged() {
    let mut p = Pump::new(Direction::Input);
    let typed: Vec<u8> = vec![0x03, b'l', b's', b'\r', 0x1b, b'[', b'A', 0xff];
    assert_eq!(forwarded(p.step(PumpEvent::Read(typed.clone()))), typed);
    assert_eq!(p.state(), PumpState::Reading);
}

#[test]
fn output_bytes_are_forwarded_in_order() {
    let mut p = Pump::new(Direction::Output);
    let mut all = Vec::new();
    for chunk in [b"pwd".to_vec(), b"-out".to_vec(), b"put\r\n".to_vec()] {
        all.extend(forwarded(p.step(PumpEvent::Read(chunk))));
    }
    assert_eq!(all, b"pwd-output\r\n".to_vec());
}

#[test]
fn end_of_child_output_raises_shutdown_once() {
    let mut p = Pump::new(Direction::Output);
    forwarded(p.step(PumpEvent::Read(b"bye".to_vec())));
    assert!(matches!(p.step(PumpEvent::Read(Vec::new())), PumpAction::RaiseShutdown));
    assert_eq!(p.state(), PumpState::Finished);
    assert!(matches!(p.step(PumpEvent::Read(Vec::new())), PumpAction::Stop));
    assert!(matches!(p.step(PumpEvent::Read(b"more".to_vec())), PumpAction::Stop));
}

#[test]
fn end_of_real_input_stops_without_shutdown() {
    let mut p = Pump::new(Direction::Input);
    assert!(matches!(p.step(PumpEvent::Read(Vec::new())), PumpAction::Stop));
    assert_eq!(p.state(), PumpState::Finished);
}

#[test]
fn failure_is_fatal() {
    let mut p = Pump::new(Direction::Input);
    assert!(matches!(p.step(PumpEvent::Failed), PumpAction::Abort));
    assert_eq!(p.state(), PumpState::Aborted);
    assert!(matches!(p.step(PumpEvent::Read(b"x".to_vec())), PumpAction::Stop));
    let mut q = Pump::new(Direction::Output);
    assert!(matches!(q.step(PumpEvent::Failed), PumpAction::Abort));
}

#[test]
fn read_sizes() {
    assert_eq!(Pump::new(Direction::Input).buffer_len(), 128);
    assert_eq!(Pump::new(Direction::Output).buffer_len(), 10240);
    assert_eq!(INPUT_READ, 128);
    assert_eq!(OUTPUT_READ, 10 * 1024);
}

struct Seen(Vec<u8>, usize);

impl PtyHandler for Seen {
    fn output(&mut self, data: &[u8]) {
        assert!(!data.is_empty());
        self.0.extend_from_slice(data);
    }

    fn shutdown(&mut self) {
        self.1 += 1;
    }
}

#[test]
fn child_output_flows_through_pump_and_tap_to_the_hook() {
    let mut p = Pump::new(Direction::Output);
    let mut d = Dispatcher::new();
    let mut h = Seen(Vec::new(), 0);
    let mut screen = Vec::new();
    for read in [b"pwd-".to_vec(), b"output\r\n".to_vec(), Vec::new()] {
        match p.step(PumpEvent::Read(read)) {
            PumpAction::Forward(bytes) => {
                screen.extend_from_slice(&bytes);
                d.handle(&mut h, Event::Readable(Source::OutputTap, bytes));
            }
            PumpAction::RaiseShutdown => {
                d.handle(&mut h, Event::Notified(Notification::Shutdown));
                d.handle(&mut h, Event::EndOfBatch);
            }
            other => panic!("unexpected {:?}", other),
        }
    }
    assert_eq!(screen, b"pwd-output\r\n".to_vec());
    assert_eq!(h.0, screen);
    assert_eq!(h.1, 1);
}
