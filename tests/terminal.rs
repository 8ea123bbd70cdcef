use pty_shell::session::{role_of, Role};
use pty_shell::terminal::ModeGuard;
use pty_shell::winsize::Winsize;

#[test]
fn restore_brings_back_the_first_capture() {
    let mut g: ModeGuard<u32> = ModeGuard::new();
    assert!(!g.is_raw());
    assert!(g.enter_raw(7));
    assert!(g.is_raw());
    assert!(!g.enter_raw(9));
    assert_eq!(g.restore(), Some(7));
    assert!(!g.is_raw());
    assert_eq!(g.restore(), Some(7));
}

#[test]
fn restore_without_capture_applies_nothing() {
    let mut g: ModeGuard<u32> = ModeGuard::new();
    assert_eq!(g.restore(), None);
    assert!(!g.is_raw());
}

#[test]
fn capture_after_restore_is_refused() {
    let mut g: ModeGuard<(u8, u8)> = ModeGuard::new();
    assert!(g.enter_raw((1, 2)));
    assert_eq!(g.restore(), Some((1, 2)));
    assert!(!g.enter_raw((3, 4)));
    assert_eq!(g.restore(), Some((1, 2)));
}

#[test]
fn fork_roles() {
    assert_eq!(role_of(0), Role::Child);
    assert_eq!(role_of(4242), Role::Parent);
    assert_eq!(role_of(-1), Role::Parent);
}

#[test]
fn winsize_fields() {
    let w = Winsize::new(24, 80, 640, 480);
    assert_eq!((w.ws_row, w.ws_col, w.ws_xpixel, w.ws_ypixel), (24, 80, 640, 480));
    assert_eq!(w, Winsize { ws_row: 24, ws_col: 80, ws_xpixel: 640, ws_ypixel: 480 });
}
