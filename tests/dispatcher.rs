use pty_shell::dispatcher::{Action, Dispatcher, Event, Notification, Phase, Source};
use pty_shell::handler::PtyHandler;
use pty_shell::winsize::Winsize;

#[derive(Default)]
struct Recorder {
    inputs: Vec<Vec<u8>>,
    outputs: Vec<Vec<u8>>,
    resizes: Vec<Winsize>,
    shutdowns: usize,
}

impl PtyHandler for Recorder {
    fn input(&mut self, data: &[u8]) {
        self.inputs.push(data.to_vec());
    }

    fn output(&mut self, data: &[u8]) {
        self.outputs.push(data.to_vec());
    }

    fn resize(&mut self, winsize: &Winsize) {
        self.resizes.push(*winsize);
    }

    fn shutdown(&mut self) {
        self.shutdowns += 1;
    }
}

struct Silent;

impl PtyHandler for Silent {}

fn shut_down(d: &mut Dispatcher, h: &mut Recorder) {
    assert_eq!(d.handle(h, Event::Notified(Notification::Shutdown)), Action::DrainTaps);
    assert_eq!(d.handle(h, Event::EndOfBatch), Action::Stop);
}

#[test]
fn output_reaches_the_hook_unchanged() {
    let mut d = Dispatcher::new();
    let mut h = Recorder::default();
    let a = d.handle(&mut h, Event::Readable(Source::OutputTap, b"pwd-output\r\n".to_vec()));
    assert_eq!(a, Action::Continue);
    assert_eq!(h.outputs, vec![b"pwd-output\r\n".to_vec()]);
    assert!(h.inputs.is_empty());
}

#[test]
fn child_output_then_exit_is_seen_then_shut_down() {
    let mut d = Dispatcher::new();
    let mut h = Recorder::default();
    d.handle(&mut h, Event::Readable(Source::OutputTap, b"/home/pwd-output\r\n".to_vec()));
    shut_down(&mut d, &mut h);
    let all: Vec<u8> = h.outputs.concat();
    assert!(!all.is_empty());
    assert!(all.windows(10).any(|w| w == b"pwd-output"));
    assert_eq!(h.shutdowns, 1);
    assert_eq!(d.phase(), Phase::Stopped);
}

#[test]
fn input_is_cut_at_the_input_read_size() {
    let mut d = Dispatcher::new();
    let mut h = Recorder::default();
    let data: Vec<u8> = (0..300u32).map(|i| (i % 251) as u8).collect();
    d.handle(&mut h, Event::Readable(Source::InputTap, data.clone()));
    let lens: Vec<usize> = h.inputs.iter().map(|c| c.len()).collect();
    assert_eq!(lens, vec![128, 128, 44]);
    assert_eq!(h.inputs.concat(), data);
}

#[test]
fn output_is_cut_at_the_output_read_size() {
    let mut d = Dispatcher::new();
    let mut h = Recorder::default();
    let data: Vec<u8> = (0..25000u32).map(|i| (i % 253) as u8).collect();
    d.handle(&mut h, Event::Readable(Source::OutputTap, data.clone()));
    let lens: Vec<usize> = h.outputs.iter().map(|c| c.len()).collect();
    assert_eq!(lens, vec![10240, 10240, 4520]);
    assert_eq!(h.outputs.concat(), data);
}

#[test]
fn empty_read_calls_no_hook() {
    let mut d = Dispatcher::new();
    let mut h = Recorder::default();
    assert_eq!(d.handle(&mut h, Event::Readable(Source::InputTap, Vec::new())), Action::Continue);
    assert!(h.inputs.is_empty());
}

#[test]
fn taps_keep_their_order() {
    let mut d = Dispatcher::new();
    let mut h = Recorder::default();
    d.handle(&mut h, Event::Readable(Source::OutputTap, b"ab".to_vec()));
    d.handle(&mut h, Event::Readable(Source::InputTap, b"x".to_vec()));
    d.handle(&mut h, Event::Readable(Source::OutputTap, b"cd".to_vec()));
    assert_eq!(h.outputs.concat(), b"abcd".to_vec());
    assert_eq!(h.inputs.concat(), b"x".to_vec());
}

#[test]
fn resize_burst_asks_for_one_query() {
    let mut d = Dispatcher::new();
    let mut h = Recorder::default();
    for _ in 0..3 {
        let a = d.handle(&mut h, Event::Notified(Notification::ResizeOccurred));
        assert_eq!(a, Action::Continue);
    }
    assert_eq!(d.handle(&mut h, Event::EndOfBatch), Action::QueryWindow);
    assert_eq!(d.handle(&mut h, Event::EndOfBatch), Action::Continue);
    assert!(h.resizes.is_empty());
}

#[test]
fn resize_reaches_the_hook_with_the_applied_size() {
    let mut d = Dispatcher::new();
    let mut h = Recorder::default();
    d.handle(&mut h, Event::Notified(Notification::ResizeOccurred));
    assert_eq!(d.handle(&mut h, Event::EndOfBatch), Action::QueryWindow);
    let w = Winsize::new(24, 80, 0, 0);
    assert_eq!(d.handle(&mut h, Event::Resized(w)), Action::Continue);
    assert_eq!(h.resizes, vec![Winsize { ws_row: 24, ws_col: 80, ws_xpixel: 0, ws_ypixel: 0 }]);
    assert_eq!(d.pty_size(), Some(w));
}

#[test]
fn same_size_twice_leaves_the_size_alone() {
    let mut d = Dispatcher::new();
    let mut h = Recorder::default();
    let w = Winsize::new(40, 120, 800, 600);
    d.handle(&mut h, Event::Resized(w));
    let first = d.pty_size();
    d.handle(&mut h, Event::Resized(w));
    assert_eq!(d.pty_size(), first);
    assert_eq!(first, Some(w));
}

#[test]
fn no_size_before_any_resize() {
    let d = Dispatcher::new();
    assert_eq!(d.pty_size(), None);
    assert_eq!(d.phase(), Phase::Running);
}

#[test]
fn drained_bytes_come_before_shutdown() {
    let mut d = Dispatcher::new();
    let mut h = Recorder::default();
    assert_eq!(d.handle(&mut h, Event::Notified(Notification::Shutdown)), Action::DrainTaps);
    assert_eq!(d.phase(), Phase::Draining);
    d.handle(&mut h, Event::Readable(Source::OutputTap, b"last words".to_vec()));
    assert_eq!(h.shutdowns, 0);
    assert_eq!(d.handle(&mut h, Event::EndOfBatch), Action::Stop);
    assert_eq!(h.outputs, vec![b"last words".to_vec()]);
    assert_eq!(h.shutdowns, 1);
}

#[test]
fn shutdown_fires_exactly_once() {
    let mut d = Dispatcher::new();
    let mut h = Recorder::default();
    shut_down(&mut d, &mut h);
    assert_eq!(d.handle(&mut h, Event::Notified(Notification::Shutdown)), Action::Stop);
    assert_eq!(d.handle(&mut h, Event::EndOfBatch), Action::Stop);
    assert_eq!(d.handle(&mut h, Event::Readable(Source::OutputTap, b"late".to_vec())), Action::Stop);
    assert_eq!(d.handle(&mut h, Event::Resized(Winsize::new(1, 1, 0, 0))), Action::Stop);
    assert_eq!(h.shutdowns, 1);
    assert!(h.outputs.is_empty());
    assert!(h.resizes.is_empty());
}

#[test]
fn second_shutdown_notice_while_draining_is_ignored() {
    let mut d = Dispatcher::new();
    let mut h = Recorder::default();
    d.handle(&mut h, Event::Notified(Notification::Shutdown));
    assert_eq!(d.handle(&mut h, Event::Notified(Notification::Shutdown)), Action::Continue);
    assert_eq!(d.handle(&mut h, Event::EndOfBatch), Action::Stop);
    assert_eq!(h.shutdowns, 1);
}

#[test]
fn shutdown_wins_over_a_pending_resize() {
    let mut d = Dispatcher::new();
    let mut h = Recorder::default();
    d.handle(&mut h, Event::Notified(Notification::ResizeOccurred));
    d.handle(&mut h, Event::Notified(Notification::Shutdown));
    assert_eq!(d.handle(&mut h, Event::EndOfBatch), Action::Stop);
    assert_eq!(h.shutdowns, 1);
}

#[test]
fn default_hooks_do_nothing() {
    let mut d = Dispatcher::new();
    let mut h = Silent;
    assert_eq!(d.handle(&mut h, Event::Readable(Source::InputTap, b"ls\r".to_vec())), Action::Continue);
    assert_eq!(d.handle(&mut h, Event::Resized(Winsize::new(24, 80, 0, 0))), Action::Continue);
    assert_eq!(d.handle(&mut h, Event::Notified(Notification::Shutdown)), Action::DrainTaps);
    assert_eq!(d.handle(&mut h, Event::EndOfBatch), Action::Stop);
}
