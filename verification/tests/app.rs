use cryolock::app::{
    has_buffer, AuthAction, BufferShape, Cover, CryoLock, KeyAction, KeyEvent, KeyReply,
    KEY_BACKSPACE, KEY_ESCAPE, KEY_KP_ENTER, KEY_RETURN,
};
use std::sync::mpsc;

use cryolock::auth::{AuthHandle, AuthRequest, AuthResult};
use cryolock::config::{Config, Settings};
use cryolock::render::{InputState, Renderer};

type App = CryoLock<&'static str, char, u64, ()>;

const SECOND: u128 = 1_000_000_000;

fn app_with_timeout(seconds: u64) -> App {
    app_with_results(seconds).0
}

/// A session with the auth thread's end of the channel for results.
fn app_with_results(seconds: u64) -> (App, mpsc::Sender<AuthResult>) {
    let (req_tx, _) = mpsc::channel::<AuthRequest>();
    let (res_tx, res_rx) = mpsc::channel::<AuthResult>();
    let config = Config::from_settings(Settings {
        dpms_timeout_seconds: Some(seconds),
        background_color: None,
        text_color: None,
        ring_idle_color: None,
        ring_typing_color: None,
        ring_wrong_color: None,
        font_family: None,
        font_size: None,
        show_clock: None,
        clock_format: None,
    });
    (CryoLock::new(config, AuthHandle::new(req_tx, res_rx), Renderer::new(None)), res_tx)
}

fn app() -> App {
    app_with_timeout(120)
}

fn text(t: &str) -> KeyEvent {
    KeyEvent { keysym: 0x61, utf8: Some(t.to_string()) }
}

fn key(keysym: u32) -> KeyEvent {
    // Function keys come with a control character as their text.
    KeyEvent { keysym, utf8: Some("\r".to_string()) }
}

/// The auth thread of these sessions is gone, so that a password comes back.
fn describe(reply: KeyReply) -> String {
    match reply {
        KeyReply::Ignore => "ignore".to_string(),
        KeyReply::Wake => "wake".to_string(),
        KeyReply::Redraw => "redraw".to_string(),
        KeyReply::Submitted(Ok(())) => "delivered".to_string(),
        KeyReply::Submitted(Err(AuthRequest::Attempt(p))) => format!("submit {}", p),
        KeyReply::Submitted(Err(AuthRequest::Shutdown)) => "shutdown".to_string(),
    }
}

fn cover(output: u32, surface: u32, power: Option<u64>) -> Cover<char, u64> {
    Cover { output, created: Some(('s', surface)), power }
}

#[test]
fn new_session_is_idle() {
    let app = app();
    assert!(app.running);
    assert!(!app.locked);
    assert!(app.session_lock.is_none());
    assert!(app.lock_surfaces.is_empty());
    assert!(app.dpms_controls.is_empty());
    assert_eq!(app.input_state, InputState::Idle);
    assert_eq!(app.password_buf, "");
    assert!(!app.dpms_state.is_blanked());
}

#[test]
fn typed_text_is_submitted() {
    for enter in [KEY_RETURN, KEY_KP_ENTER] {
        let mut app = app();
        assert_eq!(describe(app.handle_key(&text("s3"))), "redraw");
        assert_eq!(app.input_state, InputState::Typing);
        assert_eq!(describe(app.handle_key(&text("\u{e9}"))), "redraw");
        assert_eq!(app.password_buf, "s3\u{e9}");
        assert_eq!(describe(app.handle_key(&key(enter))), "submit s3\u{e9}");
        assert_eq!(app.input_state, InputState::Verifying);
        assert_eq!(app.password_buf, "");
    }
}

#[test]
fn decision_hands_the_password_out() {
    let mut app = app();
    assert!(matches!(app.handle_key_at(&text("pw"), 0), KeyAction::Redraw));
    match app.handle_key_at(&key(KEY_RETURN), SECOND) {
        KeyAction::Submit(password) => assert_eq!(password, "pw"),
        _ => panic!("expected a submission"),
    }
    assert!(matches!(app.handle_key_at(&text("x"), SECOND), KeyAction::Ignore));
}

#[test]
fn submitted_password_reaches_the_auth_thread() {
    let (req_tx, req_rx) = mpsc::channel();
    let (_res_tx, res_rx) = mpsc::channel();
    let mut app = app();
    app.auth_handle = AuthHandle::new(req_tx, res_rx);
    app.handle_key(&text("hunter"));
    app.handle_key(&text("2"));
    assert!(req_rx.try_recv().is_err());
    assert_eq!(describe(app.handle_key(&key(KEY_RETURN))), "delivered");
    match req_rx.try_recv().unwrap() {
        AuthRequest::Attempt(password) => assert_eq!(password, "hunter2"),
        AuthRequest::Shutdown => panic!("expected an attempt"),
    }
    assert!(req_rx.try_recv().is_err());
}

#[test]
fn empty_password_is_not_submitted() {
    let mut app = app();
    assert_eq!(describe(app.handle_key(&key(KEY_RETURN))), "ignore");
    assert_eq!(app.input_state, InputState::Idle);
}

#[test]
fn backspace_undoes_typing() {
    let mut app = app();
    app.handle_key(&text("a"));
    app.handle_key(&text("\u{e9}"));
    assert_eq!(describe(app.handle_key(&key(KEY_BACKSPACE))), "redraw");
    assert_eq!((app.password_buf.as_str(), app.input_state), ("a", InputState::Typing));
    app.handle_key(&key(KEY_BACKSPACE));
    assert_eq!((app.password_buf.as_str(), app.input_state), ("", InputState::Idle));
    assert_eq!(describe(app.handle_key(&key(KEY_BACKSPACE))), "redraw");
    assert_eq!(app.input_state, InputState::Idle);
}

#[test]
fn escape_clears() {
    let mut app = app();
    app.handle_key(&text("abc"));
    assert_eq!(describe(app.handle_key(&key(KEY_ESCAPE))), "redraw");
    assert_eq!((app.password_buf.as_str(), app.input_state), ("", InputState::Idle));
}

#[test]
fn keys_without_text_are_ignored() {
    let mut app = app();
    assert_eq!(describe(app.handle_key(&KeyEvent { keysym: 0xffe1, utf8: None })), "ignore");
    assert_eq!(describe(app.handle_key(&text(""))), "ignore");
    assert_eq!(describe(app.handle_key(&text("\u{1}"))), "ignore");
    assert_eq!(app.input_state, InputState::Idle);
    // Text with anything to show is taken whole.
    assert_eq!(describe(app.handle_key(&text("\u{1}x"))), "redraw");
    assert_eq!(app.password_buf, "\u{1}x");
}

#[test]
fn keys_are_ignored_while_verifying() {
    let mut app = app();
    app.handle_key(&text("pw"));
    app.handle_key(&key(KEY_RETURN));
    for event in [text("x"), key(KEY_RETURN), key(KEY_ESCAPE), key(KEY_BACKSPACE)] {
        assert_eq!(describe(app.handle_key(&event)), "ignore");
        assert_eq!((app.password_buf.as_str(), app.input_state), ("", InputState::Verifying));
    }
}

#[test]
fn failures_stay_locked() {
    for result in [AuthResult::Failure, AuthResult::Error] {
        let mut app = app();
        app.handle_key(&text("pw"));
        app.handle_key(&key(KEY_RETURN));
        assert_eq!(app.handle_auth_result(None), AuthAction::Nothing);
        assert_eq!(app.input_state, InputState::Verifying);
        assert_eq!(app.handle_auth_result(Some(result)), AuthAction::Redraw);
        assert_eq!(app.input_state, InputState::Wrong);
        assert!(app.running);
    }
}

#[test]
fn any_key_clears_a_failure() {
    let mut app = app();
    app.handle_auth_result(Some(AuthResult::Failure));
    assert_eq!(describe(app.handle_key(&text("x"))), "redraw");
    assert_eq!((app.password_buf.as_str(), app.input_state), ("x", InputState::Typing));
    app.handle_auth_result(Some(AuthResult::Failure));
    assert_eq!(app.password_buf, "");
    assert_eq!(describe(app.handle_key(&key(KEY_RETURN))), "redraw");
    assert_eq!((app.password_buf.as_str(), app.input_state), ("", InputState::Idle));
}

#[test]
fn success_ends_the_session() {
    let mut app = app();
    assert_eq!(app.handle_auth_result(Some(AuthResult::Success)), AuthAction::Unlock { wake: false });
    assert!(!app.running);
}

#[test]
fn polling_acts_on_what_has_arrived() {
    let (mut app, results) = app_with_results(120);
    assert_eq!(app.poll_auth(), AuthAction::Nothing);
    assert_eq!(app.input_state, InputState::Idle);
    results.send(AuthResult::Failure).unwrap();
    results.send(AuthResult::Success).unwrap();
    assert_eq!(app.poll_auth(), AuthAction::Redraw);
    assert_eq!(app.input_state, InputState::Wrong);
    assert!(app.running);
    assert_eq!(app.poll_auth(), AuthAction::Unlock { wake: false });
    assert!(!app.running);
    drop(results);
    assert_eq!(app.poll_auth(), AuthAction::Nothing);
}

#[test]
fn key_wakes_blanked_monitors_and_is_swallowed() {
    let mut app = app_with_timeout(1);
    app.bind_dpms_for_output(1, 10);
    app.handle_key_at(&text("a"), 0);
    assert!(app.dpms_state.tick_at(SECOND, &app.dpms_controls));
    assert!(matches!(app.handle_key_at(&text("b"), 5 * SECOND), KeyAction::Wake));
    assert_eq!((app.password_buf.as_str(), app.input_state), ("a", InputState::Typing));
    assert!(!app.dpms_state.is_blanked());
    assert!(!app.dpms_state.tick_at(6 * SECOND - 1, &app.dpms_controls));
    assert!(app.dpms_state.tick_at(6 * SECOND, &app.dpms_controls));
    assert_eq!(app.handle_auth_result(Some(AuthResult::Success)), AuthAction::Unlock { wake: true });
    assert!(!app.dpms_state.is_blanked());
}

#[test]
fn ticking_needs_an_output() {
    let mut app = app_with_timeout(0);
    assert!(!app.tick_dpms());
    let mut app = app_with_timeout(3600);
    app.bind_dpms_for_output(1, 10);
    assert!(!app.tick_dpms());
}

#[test]
fn lock_request() {
    let mut app = app();
    app.lock(Some("lock"));
    assert_eq!(app.session_lock, Some("lock"));
    assert!(app.running);
    assert!(app.unlocks_at_exit(true));
    assert!(!app.unlocks_at_exit(false));
    app.on_finished();
    assert!(!app.running);

    let mut app = self::app();
    app.lock(None);
    assert!(!app.running);
    assert!(!app.unlocks_at_exit(true));
}

#[test]
fn locked_outputs_are_covered() {
    let mut app = app();
    app.lock(Some("lock"));
    assert!(!app.on_new_output());
    app.on_locked(vec![cover(1, 11, Some(100)), cover(2, 12, None)]);
    assert!(app.locked);
    assert!(app.on_new_output());
    app.cover_output(cover(3, 13, Some(300)));
    let ids: Vec<(u32, u32, u32, u32)> = app
        .lock_surfaces
        .iter()
        .map(|e| (e.output, e.surface, e.width, e.height))
        .collect();
    assert_eq!(ids, vec![(1, 11, 0, 0), (2, 12, 0, 0), (3, 13, 0, 0)]);
    assert_eq!(app.dpms_controls.len(), 2);
    assert_eq!(app.dpms_controls[&3], 300);
}

#[test]
fn no_surface_without_a_session_lock() {
    let mut app = app();
    app.on_locked(vec![cover(1, 11, Some(100))]);
    assert!(app.lock_surfaces.is_empty());
    assert_eq!(app.dpms_controls[&1], 100);
    app.create_lock_surface_for_output('s', 5, 6);
    assert!(app.lock_surfaces.is_empty());
}

#[test]
fn removed_outputs_lose_their_surfaces() {
    let mut app = app();
    app.lock(Some("lock"));
    app.on_locked(vec![
        cover(1, 11, Some(100)),
        cover(2, 12, Some(200)),
        cover(1, 13, None),
        cover(3, 14, None),
    ]);
    assert_eq!(app.on_output_destroyed(1), Some(100));
    let ids: Vec<u32> = app.lock_surfaces.iter().map(|e| e.surface).collect();
    assert_eq!(ids, vec![12, 14]);
    assert!(!app.dpms_controls.contains_key(&1));
    assert_eq!(app.on_output_destroyed(1), None);
    assert_eq!(app.on_output_destroyed(3), None);
    assert_eq!(app.lock_surfaces.len(), 1);
}

#[test]
fn configured_surface_gets_its_frame() {
    let mut app = app();
    app.lock(Some("lock"));
    app.on_locked(vec![cover(1, 11, None), cover(2, 12, None)]);
    assert_eq!(app.on_configure(99, 4, 4), None);
    assert!(app.render_frame(1).is_none());
    assert_eq!(app.on_configure(12, 3, 2), Some(1));
    assert!(app.render_frame(0).is_none());
    let (shape, frame) = app.render_frame(1).unwrap();
    assert_eq!(shape, BufferShape { width: 3, height: 2, stride: 12, size: 24 });
    assert!(shape.exceeds(23));
    assert!(!shape.exceeds(24));
    assert_eq!(frame.pixmap.data().len(), 24);
    assert!(frame.dots.is_none());
}

#[test]
fn frame_has_a_dot_for_every_byte() {
    let mut app = app();
    app.lock(Some("lock"));
    app.on_locked(vec![cover(1, 11, None)]);
    app.on_configure(11, 1, 1);
    app.handle_key(&text("\u{e9}a"));
    let (_, frame) = app.render_frame(0).unwrap();
    assert_eq!(frame.dots.unwrap().count, 3);
}

#[test]
fn buffer_limit() {
    assert!(has_buffer(0, u32::MAX));
    assert!(has_buffer(3840, 2160));
    assert!(has_buffer(0x1fff_ffff, 1));
    assert!(!has_buffer(0x2000_0000, 1));
    assert!(!has_buffer(u32::MAX, u32::MAX));
}
