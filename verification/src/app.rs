//! The session: what keys, authentication results, outputs and the clock do to
//! the lock screen, and what is to be done about each of them.
//!
//! [`CryoLock`] holds the state. Its methods decide; they return what the caller
//! is to carry out on the compositor, the monitors and the auth thread.

use std::collections::HashMap;
use std::sync::mpsc;
use vstd::prelude::*;
use vstd::string::StringExecFns;

use crate::auth;
use crate::auth::AuthHandle;
use crate::auth::AuthRequest;
use crate::auth::AuthResult;
use crate::auth::PollError;
use crate::config::Config;
use crate::dpms;
use crate::dpms::DpmsState;
use crate::pixels;
use crate::render;
use crate::render::Frame;
use crate::render::InputState;
use crate::render::Renderer;
use crate::secret;
use crate::text;

verus! {

/// Keysym of the Return key.
pub const KEY_RETURN: u32 = 0xff0d;

/// Keysym of the Enter key on the keypad.
pub const KEY_KP_ENTER: u32 = 0xff8d;

/// Keysym of the Backspace key.
pub const KEY_BACKSPACE: u32 = 0xff08;

/// Keysym of the Escape key.
pub const KEY_ESCAPE: u32 = 0xff1b;

/// A key press.
pub struct KeyEvent {
    /// The key's symbol.
    pub keysym: u32,
    /// The text that the key enters, if any.
    pub utf8: Option<String>,
}

/// A [`KeyEvent`], with its text as characters.
pub struct KeyEventView {
    pub keysym: u32,
    pub utf8: Option<Seq<char>>,
}

impl View for KeyEvent {
    type V = KeyEventView;

    open spec fn view(&self) -> KeyEventView {
        KeyEventView {
            keysym: self.keysym,
            utf8: match self.utf8 {
                Some(t) => Some(t@),
                None => None,
            },
        }
    }
}

/// What has been done about a key press, and what is left to do.
pub enum KeyReply {
    /// Nothing.
    Ignore,
    /// Power all outputs on.
    Wake,
    /// Draw all surfaces again.
    Redraw,
    /// A password was sent to the auth thread, from which it comes back if the
    /// thread has terminated; draw all surfaces again.
    Submitted(Result<(), AuthRequest>),
}

/// What is to be done about a key press.
pub enum KeyAction {
    /// Nothing.
    Ignore,
    /// Power all outputs on.
    Wake,
    /// Draw all surfaces again.
    Redraw,
    /// Send this password to the auth thread and draw all surfaces again.
    Submit(String),
}

/// A [`KeyAction`], with the password as characters.
pub enum KeyActionView {
    Ignore,
    Wake,
    Redraw,
    Submit(Seq<char>),
}

impl View for KeyAction {
    type V = KeyActionView;

    open spec fn view(&self) -> KeyActionView {
        match self {
            KeyAction::Ignore => KeyActionView::Ignore,
            KeyAction::Wake => KeyActionView::Wake,
            KeyAction::Redraw => KeyActionView::Redraw,
            KeyAction::Submit(password) => KeyActionView::Submit(password@),
        }
    }
}

/// What is to be done about an authentication result.
#[derive(Debug, Clone, Copy, PartialEq, Eq, Structural)]
pub enum AuthAction {
    /// Nothing: there is no result.
    Nothing,
    /// The session is to be unlocked; if `wake`, power all outputs on first.
    Unlock { wake: bool },
    /// Draw all surfaces again.
    Redraw,
}

// ---------------------------------------------------------------------------
// Input and authentication
// ---------------------------------------------------------------------------

/// What the user sees and does: the part of the state that keys and
/// authentication results act on.
#[verifier::ext_equal]
pub struct SessionView {
    pub input: InputState,
    pub password: Seq<char>,
    pub blanked: bool,
    pub running: bool,
}

/// The text that a key enters, if any of it can be shown.
pub open spec fn entered_text(event: KeyEventView) -> Option<Seq<char>> {
    match event.utf8 {
        Some(t) if text::printable(t) => Some(t),
        _ => None,
    }
}

impl SessionView {
    /// A password is held exactly while one is being typed.
    pub open spec fn is_sound(self) -> bool {
        self.input == InputState::Typing <==> self.password.len() > 0
    }

    /// The session with nothing typed.
    pub open spec fn cleared(self) -> SessionView {
        SessionView { input: InputState::Idle, password: Seq::empty(), ..self }
    }

    /// The session with `t` typed behind `typed`.
    pub open spec fn typing(self, typed: Seq<char>, t: Seq<char>) -> SessionView {
        SessionView { input: InputState::Typing, password: typed + t, ..self }
    }

    /// The session after a key press while a password can be typed.
    pub open spec fn edited(self, event: KeyEventView) -> (SessionView, KeyActionView) {
        if event.keysym == KEY_RETURN || event.keysym == KEY_KP_ENTER {
            if self.password.len() > 0 {
                (
                    SessionView { input: InputState::Verifying, password: Seq::empty(), ..self },
                    KeyActionView::Submit(self.password),
                )
            } else {
                (self, KeyActionView::Ignore)
            }
        } else if event.keysym == KEY_BACKSPACE {
            if self.password.len() <= 1 {
                (self.cleared(), KeyActionView::Redraw)
            } else {
                (
                    SessionView { password: self.password.drop_last(), ..self },
                    KeyActionView::Redraw,
                )
            }
        } else if event.keysym == KEY_ESCAPE {
            (self.cleared(), KeyActionView::Redraw)
        } else {
            match entered_text(event) {
                Some(t) => (self.typing(self.password, t), KeyActionView::Redraw),
                None => (self, KeyActionView::Ignore),
            }
        }
    }

    /// The session after a key press, and what is to be done about it.
    pub open spec fn keyed(self, event: KeyEventView) -> (SessionView, KeyActionView) {
        if self.blanked {
            // The key wakes the monitors and does nothing else.
            (SessionView { blanked: false, ..self }, KeyActionView::Wake)
        } else if self.input == InputState::Verifying {
            (self, KeyActionView::Ignore)
        } else if self.input == InputState::Wrong {
            // Any key clears the failure; one that enters text starts anew.
            match entered_text(event) {
                Some(t) => (self.typing(Seq::empty(), t), KeyActionView::Redraw),
                None => (self.cleared(), KeyActionView::Redraw),
            }
        } else {
            self.edited(event)
        }
    }

    /// Whether a key press makes the session forget the password that it holds,
    /// so that it is wiped.
    pub open spec fn forgets(self, event: KeyEventView) -> bool {
        &&& !self.blanked
        &&& match self.input {
            InputState::Verifying => false,
            InputState::Wrong => true,
            _ => {
                ||| event.keysym == KEY_ESCAPE
                ||| self.keyed(event).1 is Submit
            },
        }
    }

    /// The session after a poll for an authentication result, and what is to
    /// be done about it.
    pub open spec fn authenticated(self, result: Option<AuthResult>) -> (SessionView, AuthAction) {
        match result {
            None => (self, AuthAction::Nothing),
            Some(AuthResult::Success) => (
                SessionView { blanked: false, running: false, ..self },
                AuthAction::Unlock { wake: self.blanked },
            ),
            Some(_) => (
                SessionView { input: InputState::Wrong, password: Seq::empty(), ..self },
                AuthAction::Redraw,
            ),
        }
    }
}

/// Holds the lock surface and associated rendering state for a single output.
pub struct LockSurfaceEntry<S> {
    /// The compositor's surface.
    pub lock_surface: S,
    /// Protocol id of the surface.
    pub surface: u32,
    /// Protocol id of the output that the surface covers.
    pub output: u32,
    pub width: u32,
    pub height: u32,
}

/// Central state of the locker. `L` is the compositor's session lock, `S` its
/// lock surface, `P` an output's power control and `F` a font.
pub struct CryoLock<L, S, P, F> {
    // -- Session lock --
    pub session_lock: Option<L>,
    pub lock_surfaces: Vec<LockSurfaceEntry<S>>,
    pub locked: bool,
    // -- DPMS --
    /// Power controls of the outputs, by protocol id.
    pub dpms_controls: HashMap<u32, P>,
    // -- Configuration --
    pub config: Config,
    // -- Authentication --
    pub auth_handle: AuthHandle,
    // -- Rendering & input --
    pub renderer: Renderer<F>,
    pub input_state: InputState,
    pub password_buf: String,
    // -- DPMS idle tracking --
    pub dpms_state: DpmsState,
    // -- Event-loop control --
    pub running: bool,
}

impl<L, S, P, F> CryoLock<L, S, P, F> {
    /// What keys and authentication results act on.
    pub open spec fn session(self) -> SessionView {
        SessionView {
            input: self.input_state,
            password: self.password_buf@,
            blanked: self.dpms_state@.blanked,
            running: self.running,
        }
    }

    /// Whether the outputs, the surfaces and the configuration are the same.
    pub open spec fn same_setup(self, other: Self) -> bool {
        &&& self.session_lock == other.session_lock
        &&& self.lock_surfaces == other.lock_surfaces
        &&& self.locked == other.locked
        &&& self.dpms_controls == other.dpms_controls
        &&& self.config == other.config
        &&& self.renderer == other.renderer
        &&& self.dpms_state@.timeout_secs == other.dpms_state@.timeout_secs
    }

    /// Whether the input, the timer and the configuration are the same.
    pub open spec fn same_session(self, other: Self) -> bool {
        &&& self.config == other.config
        &&& self.auth_handle == other.auth_handle
        &&& self.renderer == other.renderer
        &&& self.input_state == other.input_state
        &&& self.password_buf == other.password_buf
        &&& self.dpms_state == other.dpms_state
    }

    /// Whether the password that was held `before` was wiped. If none is held
    /// now, what is left is what the wiping left.
    pub open spec fn wiped_password(self, before: Self) -> bool {
        exists|left: String|
            {
                &&& #[trigger] secret::wipes(before.password_buf, left)
                &&& self.password_buf@.len() == 0 ==> self.password_buf == left
            }
    }

    /// Whether the password that was held `before` was wiped on a failure, and
    /// kept otherwise.
    pub open spec fn wipes_on(self, before: Self, result: Option<AuthResult>) -> bool {
        match result {
            Some(AuthResult::Failure) | Some(AuthResult::Error) => secret::wipes(
                before.password_buf,
                self.password_buf,
            ),
            _ => self.password_buf == before.password_buf,
        }
    }

    /// The state at the start: unlocked, with no surface, no power control and
    /// nothing typed.
    pub fn new(config: Config, auth_handle: AuthHandle, renderer: Renderer<F>) -> (app: Self)
        ensures
            app.session_lock is None,
            app.lock_surfaces@.len() == 0,
            !app.locked,
            app.dpms_controls@ == Map::<u32, P>::empty(),
            app.config == config,
            app.auth_handle == auth_handle,
            app.renderer == renderer,
            app.session() == (SessionView {
                input: InputState::Idle,
                password: Seq::empty(),
                blanked: false,
                running: true,
            }),
            app.session().is_sound(),
            app.dpms_state@ == dpms::DpmsView::fresh(
                app.dpms_state@.started,
                config.dpms_timeout_seconds as nat,
            ),
            app.dpms_state@.starts_now(),
    {
        let timeout: u64 = config.dpms_timeout_seconds;
        CryoLock {
            session_lock: None,
            lock_surfaces: Vec::new(),
            locked: false,
            dpms_controls: HashMap::new(),
            config,
            auth_handle,
            renderer,
            input_state: InputState::Idle,
            password_buf: String::new(),
            dpms_state: DpmsState::new(timeout),
            running: true,
        }
    }

    fn clear_password(&mut self)
        ensures
            secret::wipes(old(self).password_buf, final(self).password_buf),
            final(self).password_buf@ == Seq::<char>::empty(),
            final(self).input_state == old(self).input_state,
            final(self).dpms_state == old(self).dpms_state,
            final(self).running == old(self).running,
            final(self).auth_handle == old(self).auth_handle,
            final(self).same_setup(*old(self)),
    {
        secret::wipe(&mut self.password_buf);
    }

    /// Process a single key press: buffer characters, submit on Enter, etc.
    pub fn handle_key(&mut self, event: &KeyEvent) -> (reply: KeyReply)
        ensures
            final(self).session() == old(self).session().keyed(event@).0,
            match old(self).session().keyed(event@).1 {
                KeyActionView::Ignore => reply is Ignore,
                KeyActionView::Wake => reply is Wake,
                KeyActionView::Redraw => reply is Redraw,
                KeyActionView::Submit(typed) => {
                    &&& reply matches KeyReply::Submitted(sent)
                    &&& exists|tx: &mut mpsc::Sender<AuthRequest>, password: String|
                        {
                            &&& #[trigger] auth::sends(tx, AuthRequest::Attempt(password), sent)
                            &&& *tx == old(self).auth_handle.requests()
                            &&& *final(tx) == final(self).auth_handle.requests()
                            &&& password@ == typed
                            &&& sent matches Err(returned) ==> returned == AuthRequest::Attempt(
                                password,
                            )
                        }
                },
            },
            !(reply is Submitted) ==> final(self).auth_handle == old(self).auth_handle,
            final(self).auth_handle.results() == old(self).auth_handle.results(),
            old(self).session().forgets(event@) ==> final(self).wiped_password(*old(self)),
            old(self).session().is_sound() ==> final(self).session().is_sound(),
            exists|now: u128|
                {
                    &&& old(self).dpms_state@.reads(now)
                    &&& final(self).dpms_state@ == (#[trigger] old(self).dpms_state@.active(
                        now as nat,
                    )).woken(now as nat)
                },
            final(self).same_setup(*old(self)),
    {
        let now: u128 = self.dpms_state.read_clock();
        match self.handle_key_at(event, now) {
            KeyAction::Ignore => KeyReply::Ignore,
            KeyAction::Wake => KeyReply::Wake,
            KeyAction::Redraw => KeyReply::Redraw,
            KeyAction::Submit(password) => KeyReply::Submitted(
                self.auth_handle.try_authenticate(password),
            ),
        }
    }

    /// Decide on a key press at time `now`, which restarts the idle timer.
    pub fn handle_key_at(&mut self, event: &KeyEvent, now: u128) -> (action: KeyAction)
        ensures
            (final(self).session(), action@) == old(self).session().keyed(event@),
            old(self).session().forgets(event@) ==> final(self).wiped_password(*old(self)),
            old(self).session().is_sound() ==> final(self).session().is_sound(),
            final(self).dpms_state@ == old(self).dpms_state@.active(now as nat).woken(now as nat),
            final(self).auth_handle == old(self).auth_handle,
            final(self).same_setup(*old(self)),
    {
        // Record user activity for DPMS idle tracking.
        self.dpms_state.record_activity_at(now);

        // If monitors are blanked, wake them on any keypress and swallow the key.
        if self.dpms_state.wake_at(now) {
            return KeyAction::Wake;
        }
        let entered: Option<&String> = match &event.utf8 {
            Some(t) => if text::is_printable(t.as_str()) {
                Some(t)
            } else {
                None
            },
            None => None,
        };
        match self.input_state {
            InputState::Verifying => {
                // Ignore all input while PAM is working.
                return KeyAction::Ignore;
            },
            InputState::Wrong => {
                // Any key clears the wrong state.
                self.clear_password();
                match entered {
                    Some(t) => {
                        // It starts a new attempt.
                        self.password_buf.append(t.as_str());
                        self.input_state = InputState::Typing;
                    },
                    None => {
                        self.input_state = InputState::Idle;
                    },
                }
                return KeyAction::Redraw;
            },
            InputState::Idle => {},
            InputState::Typing => {},
        }
        if event.keysym == KEY_RETURN || event.keysym == KEY_KP_ENTER {
            // Submit the password to the auth thread.
            if self.password_buf.as_str().is_empty() {
                return KeyAction::Ignore;
            }
            let password: String = self.password_buf.clone();
            self.clear_password();
            self.input_state = InputState::Verifying;
            KeyAction::Submit(password)
        } else if event.keysym == KEY_BACKSPACE {
            self.password_buf.pop();
            if self.password_buf.as_str().is_empty() {
                self.input_state = InputState::Idle;
            }
            KeyAction::Redraw
        } else if event.keysym == KEY_ESCAPE {
            self.clear_password();
            self.input_state = InputState::Idle;
            KeyAction::Redraw
        } else {
            match entered {
                Some(t) => {
                    self.password_buf.append(t.as_str());
                    self.input_state = InputState::Typing;
                    KeyAction::Redraw
                },
                None => KeyAction::Ignore,
            }
        }
    }

    /// Non-blocking poll for authentication results. Call after each dispatch.
    pub fn poll_auth(&mut self) -> (action: AuthAction)
        ensures
            exists|rx: &mut mpsc::Receiver<AuthResult>, polled: Result<AuthResult, PollError>|
                {
                    let result = auth::found_result(polled);
                    &&& #[trigger] auth::receives(rx, polled)
                    &&& *rx == old(self).auth_handle.results()
                    &&& *final(rx) == final(self).auth_handle.results()
                    &&& (final(self).session(), action) == old(self).session().authenticated(result)
                    &&& final(self).dpms_state@ == if result == Some(AuthResult::Success) {
                        old(self).dpms_state@.switched_on()
                    } else {
                        old(self).dpms_state@
                    }
                    &&& final(self).wipes_on(*old(self), result)
                },
            old(self).session().is_sound() ==> final(self).session().is_sound(),
            final(self).auth_handle.requests() == old(self).auth_handle.requests(),
            final(self).same_setup(*old(self)),
    {
        let result: Option<AuthResult> = self.auth_handle.poll_result();
        self.handle_auth_result(result)
    }

    /// Act on what a poll for an authentication result gave.
    pub fn handle_auth_result(&mut self, result: Option<AuthResult>) -> (action: AuthAction)
        ensures
            (final(self).session(), action) == old(self).session().authenticated(result),
            result is None ==> *final(self) == *old(self),
            final(self).wipes_on(*old(self), result),
            old(self).session().is_sound() ==> final(self).session().is_sound(),
            final(self).dpms_state@ == if result == Some(AuthResult::Success) {
                old(self).dpms_state@.switched_on()
            } else {
                old(self).dpms_state@
            },
            final(self).auth_handle == old(self).auth_handle,
            final(self).same_setup(*old(self)),
    {
        match result {
            None => AuthAction::Nothing,
            Some(AuthResult::Success) => {
                // Ensure monitors are on before we exit.
                let wake: bool = self.dpms_state.ensure_on();
                self.running = false;
                AuthAction::Unlock { wake }
            },
            Some(_) => {
                self.input_state = InputState::Wrong;
                self.clear_password();
                AuthAction::Redraw
            },
        }
    }

    /// Tick the DPMS idle timer. Call after each dispatch round. Returns `true`
    /// if all outputs are to be powered off now.
    pub fn tick_dpms(&mut self) -> (blank: bool)
        ensures
            exists|now: u128|
                {
                    &&& old(self).dpms_state@.reads(now)
                    &&& final(self).dpms_state@ == #[trigger] old(self).dpms_state@.ticked(
                        now as nat,
                        dpms::has_output(old(self).dpms_controls@),
                    )
                    &&& blank == old(self).dpms_state@.blanks(
                        now as nat,
                        dpms::has_output(old(self).dpms_controls@),
                    )
                },
            final(self).session() == (SessionView {
                blanked: final(self).dpms_state@.blanked,
                ..old(self).session()
            }),
            final(self).auth_handle == old(self).auth_handle,
            final(self).same_setup(*old(self)),
    {
        self.dpms_state.tick(&self.dpms_controls)
    }
}

// ---------------------------------------------------------------------------
// Locking, outputs and surfaces
// ---------------------------------------------------------------------------

/// The layout of a surface's buffer in shared memory, in ARGB8888.
#[derive(Debug, Clone, Copy, PartialEq, Eq, Structural)]
pub struct BufferShape {
    pub width: i32,
    pub height: i32,
    /// Bytes in a row.
    pub stride: i32,
    /// Bytes in all.
    pub size: usize,
}

/// Whether the buffer of a surface of this size has at most `i32::MAX` bytes.
pub open spec fn buffer_fits(width: u32, height: u32) -> bool {
    4 * (width * height) <= i32::MAX
}

/// Whether the buffer of a surface of this size can be had.
pub fn has_buffer(width: u32, height: u32) -> (r: bool)
    ensures
        r == buffer_fits(width, height),
{
    let pixels: u64 = width as u64;
    assert(0 <= width * height <= u32::MAX * u32::MAX) by (nonlinear_arith)
        requires
            0 <= width <= u32::MAX,
            0 <= height <= u32::MAX,
    ;
    pixels * height as u64 <= 0x1fff_ffff
}

impl BufferShape {
    /// Whether a pool of `pool_len` bytes is too small for this buffer.
    pub fn exceeds(&self, pool_len: usize) -> (r: bool)
        ensures
            r == (pool_len < self.size),
    {
        pool_len < self.size
    }
}

impl<S> LockSurfaceEntry<S> {
    /// The entry once the compositor has given the surface a size.
    pub open spec fn sized(self, width: u32, height: u32) -> Self {
        LockSurfaceEntry { width, height, ..self }
    }

    /// The entry of a new surface, which has no size yet.
    pub open spec fn unsized_entry(lock_surface: S, surface: u32, output: u32) -> Self {
        LockSurfaceEntry { lock_surface, surface, output, width: 0, height: 0 }
    }
}

/// Whether no entry has the given surface.
pub open spec fn none_with<S>(entries: Seq<LockSurfaceEntry<S>>, surface: u32) -> bool {
    forall|j: int| 0 <= j < entries.len() ==> (#[trigger] entries[j]).surface != surface
}

/// Whether entry `i` is the first one with the given surface.
pub open spec fn is_first_with<S>(
    entries: Seq<LockSurfaceEntry<S>>,
    surface: u32,
    i: int,
) -> bool {
    &&& 0 <= i < entries.len()
    &&& entries[i].surface == surface
    &&& forall|j: int| 0 <= j < i ==> (#[trigger] entries[j]).surface != surface
}

/// What was created for an output once the session is locked.
pub struct Cover<S, P> {
    /// Protocol id of the output.
    pub output: u32,
    /// The lock surface with its protocol id; none without a session lock.
    pub created: Option<(S, u32)>,
    /// The power control; none where the compositor offers no power management.
    pub power: Option<P>,
}

impl<S, P> Cover<S, P> {
    /// The surface's entry, if there is a surface.
    pub open spec fn entries(self) -> Seq<LockSurfaceEntry<S>> {
        match self.created {
            Some((lock_surface, surface)) => seq![
                LockSurfaceEntry::unsized_entry(lock_surface, surface, self.output),
            ],
            None => Seq::empty(),
        }
    }

    /// The power controls with that of this output, if it has one.
    pub open spec fn controls(self, others: Map<u32, P>) -> Map<u32, P> {
        match self.power {
            Some(power) => others.insert(self.output, power),
            None => others,
        }
    }
}

/// The entries of the surfaces that were created, in order.
pub open spec fn new_surfaces<S, P>(covers: Seq<Cover<S, P>>) -> Seq<LockSurfaceEntry<S>>
    decreases covers.len(),
{
    if covers.len() == 0 {
        Seq::empty()
    } else {
        new_surfaces(covers.drop_last()) + covers.last().entries()
    }
}

/// The power controls with those of the covered outputs.
pub open spec fn with_controls<S, P>(others: Map<u32, P>, covers: Seq<Cover<S, P>>) -> Map<u32, P>
    decreases covers.len(),
{
    if covers.len() == 0 {
        others
    } else {
        covers.last().controls(with_controls(others, covers.drop_last()))
    }
}

/// The entries that do not belong to an output.
pub open spec fn without_output<S>(
    entries: Seq<LockSurfaceEntry<S>>,
    output: u32,
) -> Seq<LockSurfaceEntry<S>> {
    entries.filter(|e: LockSurfaceEntry<S>| e.output != output)
}

impl<L, S, P, F> CryoLock<L, S, P, F> {
    /// Take over the session lock that was requested; where it could not be
    /// requested, the event loop ends.
    pub fn lock(&mut self, requested: Option<L>)
        ensures
            requested is Some ==> final(self).session_lock == requested && final(self).running
                == old(self).running,
            requested is None ==> final(self).session_lock == old(self).session_lock,
            requested is None ==> !final(self).running,
            final(self).lock_surfaces == old(self).lock_surfaces,
            final(self).locked == old(self).locked,
            final(self).dpms_controls == old(self).dpms_controls,
            final(self).same_session(*old(self)),
    {
        match requested {
            Some(lock) => {
                self.session_lock = Some(lock);
            },
            None => {
                self.running = false;
            },
        }
    }

    /// The compositor has locked the session: enter what was created for each
    /// output.
    pub fn on_locked(&mut self, covers: Vec<Cover<S, P>>)
        ensures
            final(self).locked,
            final(self).lock_surfaces@ == if old(self).session_lock is Some {
                old(self).lock_surfaces@ + new_surfaces(covers@)
            } else {
                old(self).lock_surfaces@
            },
            final(self).dpms_controls@ == with_controls(old(self).dpms_controls@, covers@),
            final(self).session_lock == old(self).session_lock,
            final(self).running == old(self).running,
            final(self).same_session(*old(self)),
    {
        self.locked = true;
        let ghost entries = self.lock_surfaces@;
        assert(entries + new_surfaces(covers@.take(0)) =~= entries);
        for cover in it: covers
            invariant
                self.locked,
                it.seq() == covers@,
                self.lock_surfaces@ == if old(self).session_lock is Some {
                    entries + new_surfaces(covers@.take(it.index()))
                } else {
                    entries
                },
                entries == old(self).lock_surfaces@,
                self.dpms_controls@ == with_controls(
                    old(self).dpms_controls@,
                    covers@.take(it.index()),
                ),
                self.session_lock == old(self).session_lock,
                self.running == old(self).running,
                self.same_session(*old(self)),
        {
            assert(covers@.take(it.index() + 1).drop_last() =~= covers@.take(it.index()));
            self.cover_output(cover);
            assert(self.lock_surfaces@ =~= if old(self).session_lock is Some {
                entries + new_surfaces(covers@.take(it.index() + 1))
            } else {
                entries
            });
        }
        assert(covers@.take(covers@.len() as int) =~= covers@);
    }

    /// Enter what was created for an output: its lock surface and its power
    /// control, as far as there are any.
    pub fn cover_output(&mut self, cover: Cover<S, P>)
        ensures
            final(self).lock_surfaces@ == if old(self).session_lock is Some {
                old(self).lock_surfaces@ + cover.entries()
            } else {
                old(self).lock_surfaces@
            },
            final(self).dpms_controls@ == cover.controls(old(self).dpms_controls@),
            final(self).session_lock == old(self).session_lock,
            final(self).locked == old(self).locked,
            final(self).running == old(self).running,
            final(self).same_session(*old(self)),
    {
        let ghost entries = self.lock_surfaces@;
        let output: u32 = cover.output;
        match cover.created {
            Some((lock_surface, surface)) => {
                self.create_lock_surface_for_output(lock_surface, surface, output);
            },
            None => {},
        }
        assert(self.lock_surfaces@ =~= if self.session_lock is Some {
            entries + cover.entries()
        } else {
            entries
        });
        match cover.power {
            Some(power) => {
                self.bind_dpms_for_output(output, power);
            },
            None => {},
        }
    }

    /// The compositor has rejected or ended the session lock.
    pub fn on_finished(&mut self)
        ensures
            !final(self).running,
            final(self).auth_handle == old(self).auth_handle,
            final(self).same_setup(*old(self)),
            final(self).same_session(*old(self)),
    {
        self.running = false;
    }

    /// A new output has appeared. Returns `true` if the session is locked
    /// already, so that the output is to get a lock surface and a power
    /// control at once.
    pub fn on_new_output(&self) -> (cover: bool)
        ensures
            cover == self.locked,
    {
        self.locked
    }

    /// Enter the lock surface that was created for an output. Without a session
    /// lock there is none to enter.
    pub fn create_lock_surface_for_output(&mut self, lock_surface: S, surface: u32, output: u32)
        ensures
            final(self).lock_surfaces@ == if old(self).session_lock is Some {
                old(self).lock_surfaces@.push(
                    LockSurfaceEntry::unsized_entry(lock_surface, surface, output),
                )
            } else {
                old(self).lock_surfaces@
            },
            final(self).session_lock == old(self).session_lock,
            final(self).locked == old(self).locked,
            final(self).dpms_controls == old(self).dpms_controls,
            final(self).running == old(self).running,
            final(self).same_session(*old(self)),
    {
        if self.session_lock.is_none() {
            return;
        }
        self.lock_surfaces.push(
            LockSurfaceEntry { lock_surface, surface, output, width: 0, height: 0 },
        );
    }

    /// Enter the power control that was bound for an output.
    pub fn bind_dpms_for_output(&mut self, output: u32, power: P)
        ensures
            final(self).dpms_controls@ == old(self).dpms_controls@.insert(output, power),
            final(self).session_lock == old(self).session_lock,
            final(self).lock_surfaces == old(self).lock_surfaces,
            final(self).locked == old(self).locked,
            final(self).running == old(self).running,
            final(self).same_session(*old(self)),
    {
        self.dpms_controls.insert(output, power);
    }

    /// The compositor has given a surface its size. Returns which entry is to be
    /// rendered: the first one with that surface, if there is any.
    pub fn on_configure(&mut self, surface: u32, width: u32, height: u32) -> (index: Option<usize>)
        ensures
            match index {
                Some(i) => {
                    &&& is_first_with(old(self).lock_surfaces@, surface, i as int)
                    &&& final(self).lock_surfaces@ == old(self).lock_surfaces@.update(
                        i as int,
                        old(self).lock_surfaces@[i as int].sized(width, height),
                    )
                },
                None => {
                    &&& none_with(old(self).lock_surfaces@, surface)
                    &&& final(self).lock_surfaces@ == old(self).lock_surfaces@
                },
            },
            final(self).session_lock == old(self).session_lock,
            final(self).locked == old(self).locked,
            final(self).dpms_controls == old(self).dpms_controls,
            final(self).running == old(self).running,
            final(self).same_session(*old(self)),
    {
        let mut i: usize = 0;
        while i < self.lock_surfaces.len()
            invariant
                i <= self.lock_surfaces@.len(),
                *self == *old(self),
                none_with(self.lock_surfaces@.take(i as int), surface),
            decreases self.lock_surfaces@.len() - i,
        {
            let ghost past = self.lock_surfaces@.take(i as int);
            let ghost entries = self.lock_surfaces@;
            assert(forall|j: int| 0 <= j < i ==> #[trigger] entries[j] == past[j]);
            if self.lock_surfaces[i].surface == surface {
                self.lock_surfaces[i].width = width;
                self.lock_surfaces[i].height = height;
                return Some(i);
            }
            i += 1;
        }
        assert(self.lock_surfaces@.take(i as int) =~= self.lock_surfaces@);
        None
    }

    /// An output has gone, and its lock surfaces with it. Returns its power
    /// control, which is to be destroyed.
    pub fn on_output_destroyed(&mut self, output: u32) -> (power: Option<P>)
        ensures
            final(self).lock_surfaces@ == without_output(old(self).lock_surfaces@, output),
            final(self).dpms_controls@ == old(self).dpms_controls@.remove(output),
            power == if old(self).dpms_controls@.contains_key(output) {
                Some(old(self).dpms_controls@[output])
            } else {
                None
            },
            final(self).session_lock == old(self).session_lock,
            final(self).locked == old(self).locked,
            final(self).running == old(self).running,
            final(self).same_session(*old(self)),
    {
        let ghost all = self.lock_surfaces@;
        let ghost mut seen: int = 0;
        let ghost keep = |e: LockSurfaceEntry<S>| e.output != output;
        let mut i: usize = 0;
        assert(all.take(0).filter(keep) + all.skip(0) =~= all) by {
            reveal(Seq::filter);
        }
        assert(all.take(0).filter(keep).len() == 0) by {
            reveal(Seq::filter);
        }
        while i < self.lock_surfaces.len()
            invariant
                0 <= seen <= all.len(),
                keep == (|e: LockSurfaceEntry<S>| e.output != output),
                i == all.take(seen).filter(keep).len(),
                self.lock_surfaces@ == all.take(seen).filter(keep) + all.skip(seen),
                self.session_lock == old(self).session_lock,
                self.locked == old(self).locked,
                self.dpms_controls == old(self).dpms_controls,
                self.running == old(self).running,
                self.same_session(*old(self)),
            decreases all.len() - seen,
        {
            let ghost kept = all.take(seen).filter(keep);
            assert(self.lock_surfaces@[i as int] == all[seen]);
            assert(all.take(seen + 1).drop_last() =~= all.take(seen));
            proof {
                reveal(Seq::filter);
            }
            if self.lock_surfaces[i].output == output {
                self.lock_surfaces.remove(i);
                assert(self.lock_surfaces@ =~= kept + all.skip(seen + 1));
            } else {
                i += 1;
                assert(self.lock_surfaces@ =~= kept.push(all[seen]) + all.skip(seen + 1));
            }
            proof {
                seen = seen + 1;
            }
        }
        assert(seen == all.len());
        assert(all.take(seen) =~= all);
        assert(self.lock_surfaces@ =~= all.filter(keep));
        self.dpms_controls.remove(&output)
    }

    /// Compose the frame of a lock surface, with the layout of the buffer that
    /// it is to be presented in. A surface without a size has no frame.
    pub fn render_frame(&self, index: usize) -> (r: Option<(BufferShape, Frame)>)
        requires
            index < self.lock_surfaces@.len(),
            buffer_fits(
                self.lock_surfaces@[index as int].width,
                self.lock_surfaces@[index as int].height,
            ),
        ensures
            ({
                let width = self.lock_surfaces@[index as int].width;
                let height = self.lock_surfaces@[index as int].height;
                let password_len = vstd::utf8::encode_utf8(self.password_buf@).len() as usize;
                let has_font = self.renderer.font is Some;
                match r {
                    None => width == 0 || height == 0,
                    Some((shape, frame)) => {
                        &&& width > 0 && height > 0
                        &&& shape.width == width
                        &&& shape.height == height
                        &&& shape.stride == 4 * width
                        &&& shape.size == 4 * (width * height)
                        &&& pixels::is_whole(frame.pixmap)
                        &&& frame.is_blank(width, height, render::background_color(self.config))
                        &&& frame.ring == render::ring_color(self.config, self.input_state)
                        &&& frame.shows_dots(self.config, self.input_state, password_len)
                        &&& frame.shows_clock(self.config, has_font)
                        &&& frame.shows_status(self.config, self.input_state, has_font)
                    },
                }
            }),
    {
        let entry: &LockSurfaceEntry<S> = &self.lock_surfaces[index];
        let width: u32 = entry.width;
        let height: u32 = entry.height;
        if width == 0 || height == 0 {
            return None;
        }
        proof {
            assert(width <= width * height && height <= width * height) by (nonlinear_arith)
                requires
                    width >= 1,
                    height >= 1,
            ;
            assert(height * (width * 4) == 4 * (width * height)) by (nonlinear_arith);
        }
        let stride: i32 = width as i32 * 4;
        let size: usize = (height as i32 * stride) as usize;
        let shape: BufferShape = BufferShape {
            width: width as i32,
            height: height as i32,
            stride,
            size,
        };
        match self.renderer.render_frame(
            width,
            height,
            &self.config,
            self.input_state,
            self.password_buf.as_str().len(),
        ) {
            Some(frame) => Some((shape, frame)),
            None => None,
        }
    }

    /// Whether the session is to be unlocked at the end of the event loop, given
    /// whether the compositor holds it locked.
    pub fn unlocks_at_exit(&self, is_locked: bool) -> (unlock: bool)
        ensures
            unlock == (self.session_lock is Some && is_locked),
    {
        self.session_lock.is_some() && is_locked
    }
}

// ---------------------------------------------------------------------------
// Laws of the session
// ---------------------------------------------------------------------------

/// Keys and authentication results keep the session sound: a password is held
/// exactly while one is being typed.
pub proof fn lemma_session_stays_sound(
    s: SessionView,
    event: KeyEventView,
    result: Option<AuthResult>,
)
    requires
        s.is_sound(),
    ensures
        s.keyed(event).0.is_sound(),
        s.authenticated(result).0.is_sound(),
{
}

/// Of keys and authentication results, only a success ends the event loop and
/// asks for the session to be unlocked: no key does, and neither does a failure
/// or an error.
pub proof fn lemma_only_success_unlocks(
    s: SessionView,
    event: KeyEventView,
    result: Option<AuthResult>,
)
    ensures
        s.keyed(event).0.running == s.running,
        result != Some(AuthResult::Success) ==> s.authenticated(result).0.running == s.running,
        s.authenticated(result).1 is Unlock <==> result == Some(AuthResult::Success),
        result == Some(AuthResult::Success) ==> !s.authenticated(result).0.running,
{
}

/// A failed attempt is shown as wrong, keeps the session running and leaves no
/// password; an error is treated as a failure.
pub proof fn lemma_failure_stays_locked(s: SessionView)
    ensures
        s.authenticated(Some(AuthResult::Error)) == s.authenticated(Some(AuthResult::Failure)),
        s.authenticated(Some(AuthResult::Failure)).0.input == InputState::Wrong,
        s.authenticated(Some(AuthResult::Failure)).0.password.len() == 0,
        s.authenticated(Some(AuthResult::Failure)).0.running == s.running,
{
}

/// While the monitors are blanked, any key wakes them and does nothing else.
pub proof fn lemma_key_wakes_and_is_swallowed(s: SessionView, event: KeyEventView)
    requires
        s.blanked,
    ensures
        s.keyed(event).1 is Wake,
        s.keyed(event).0 == (SessionView { blanked: false, ..s }),
{
}

/// While a password is being verified, no key changes anything but the blanking
/// of the monitors, and none submits.
pub proof fn lemma_keys_are_ignored_while_verifying(s: SessionView, event: KeyEventView)
    requires
        s.input == InputState::Verifying,
    ensures
        s.keyed(event).0 == (SessionView { blanked: false, ..s }),
        !(s.keyed(event).1 is Submit),
        !s.blanked ==> s.keyed(event).1 is Ignore,
{
}

/// Any key clears a failure; what is held afterwards is the text of that key.
pub proof fn lemma_any_key_clears_failure(s: SessionView, event: KeyEventView)
    requires
        s.input == InputState::Wrong,
        !s.blanked,
    ensures
        s.keyed(event).0.input != InputState::Wrong,
        s.keyed(event).0.password == match entered_text(event) {
            Some(t) => t,
            None => Seq::empty(),
        },
{
    if let Some(t) = entered_text(event) {
        assert(Seq::<char>::empty() + t == t);
    }
}

/// Nothing that is shown changes without the surfaces being drawn again: a key
/// that is ignored leaves the session as it was, and one that wakes the
/// monitors leaves the picture.
pub proof fn lemma_changes_are_drawn(s: SessionView, event: KeyEventView)
    ensures
        s.keyed(event).1 is Ignore ==> s.keyed(event).0 == s,
        s.keyed(event).1 is Wake ==> s.keyed(event).0.input == s.input && s.keyed(
            event,
        ).0.password == s.password,
{
}

/// A password is submitted as it was typed, never empty, and is not held any
/// longer.
pub proof fn lemma_submission(s: SessionView, event: KeyEventView)
    requires
        s.keyed(event).1 is Submit,
    ensures
        s.keyed(event).1 == KeyActionView::Submit(s.password),
        s.password.len() > 0,
        s.keyed(event).0.password.len() == 0,
        s.keyed(event).0.input == InputState::Verifying,
{
}

/// Whatever the session forgets is wiped: where a password goes, other than
/// character by character, the key is one that forgets it.
pub proof fn lemma_forgotten_passwords_are_wiped(s: SessionView, event: KeyEventView)
    ensures
        !s.forgets(event) && event.keysym != KEY_BACKSPACE ==> s.password.is_prefix_of(
            s.keyed(event).0.password,
        ),
        !s.forgets(event) ==> s.keyed(event).0.password.len() + 1 >= s.password.len(),
        s.keyed(event).1 is Submit ==> s.forgets(event),
{
}

/// Escape forgets what was typed.
pub proof fn lemma_escape_clears(s: SessionView, event: KeyEventView)
    requires
        event.keysym == KEY_ESCAPE,
        !s.blanked,
        s.input == InputState::Idle || s.input == InputState::Typing,
    ensures
        s.keyed(event).0 == s.cleared(),
{
}

/// Whether a key does nothing but enter text.
pub open spec fn is_text_key(event: KeyEventView) -> bool {
    &&& event.keysym != KEY_RETURN
    &&& event.keysym != KEY_KP_ENTER
    &&& event.keysym != KEY_BACKSPACE
    &&& event.keysym != KEY_ESCAPE
    &&& entered_text(event) is Some
}

/// Backspace takes back the last character: after a key that entered a single
/// one, the session is what it was before that key.
pub proof fn lemma_backspace_undoes_typing(
    s: SessionView,
    event: KeyEventView,
    backspace: KeyEventView,
)
    requires
        s.is_sound(),
        !s.blanked,
        s.input == InputState::Idle || s.input == InputState::Typing,
        is_text_key(event),
        entered_text(event)->0.len() == 1,
        backspace.keysym == KEY_BACKSPACE,
    ensures
        s.keyed(event).0.keyed(backspace).0 == s,
{
    let t = entered_text(event)->0;
    assert((s.password + t).drop_last() == s.password);
    assert(s.keyed(event).0.keyed(backspace).0 =~= s);
}

/// The session after a run of keys.
pub open spec fn keyed_run(s: SessionView, events: Seq<KeyEventView>) -> SessionView
    decreases events.len(),
{
    if events.len() == 0 {
        s
    } else {
        keyed_run(s, events.drop_last()).keyed(events.last()).0
    }
}

/// The text that a run of keys enters, put together.
pub open spec fn entered_run(events: Seq<KeyEventView>) -> Seq<char>
    decreases events.len(),
{
    if events.len() == 0 {
        Seq::empty()
    } else {
        entered_run(events.drop_last()) + match entered_text(events.last()) {
            Some(t) => t,
            None => Seq::empty(),
        }
    }
}

/// What is typed is what is submitted: a run of text keys on an idle screen,
/// followed by Enter, submits their text put together.
pub proof fn lemma_typed_text_is_submitted(
    s: SessionView,
    events: Seq<KeyEventView>,
    enter: KeyEventView,
)
    requires
        s.input == InputState::Idle,
        s.is_sound(),
        !s.blanked,
        events.len() > 0,
        forall|i: int| 0 <= i < events.len() ==> is_text_key(#[trigger] events[i]),
        enter.keysym == KEY_RETURN || enter.keysym == KEY_KP_ENTER,
    ensures
        keyed_run(s, events).keyed(enter).1 == KeyActionView::Submit(entered_run(events)),
        keyed_run(s, events).keyed(enter).0.password.len() == 0,
{
    lemma_text_keys_accumulate(s, events);
}

proof fn lemma_text_keys_accumulate(s: SessionView, events: Seq<KeyEventView>)
    requires
        s.input == InputState::Idle,
        s.is_sound(),
        !s.blanked,
        forall|i: int| 0 <= i < events.len() ==> is_text_key(#[trigger] events[i]),
    ensures
        keyed_run(s, events).password == entered_run(events),
        keyed_run(s, events).input == if events.len() > 0 {
            InputState::Typing
        } else {
            InputState::Idle
        },
        events.len() > 0 ==> keyed_run(s, events).password.len() > 0,
        !keyed_run(s, events).blanked,
    decreases events.len(),
{
    if events.len() > 0 {
        let past = events.drop_last();
        assert forall|i: int| 0 <= i < past.len() implies is_text_key(#[trigger] past[i]) by {
            assert(is_text_key(events[i]));
        }
        lemma_text_keys_accumulate(s, past);
        assert(is_text_key(events[events.len() - 1]));
        assert(events.last() == events[events.len() - 1]);
    } else {
        assert(s.password =~= Seq::empty());
    }
}

/// Apart from typing, no frame shows dots: in a sound session nothing of a
/// password is to be seen while it is verified or after it failed.
pub proof fn lemma_dots_only_while_typing(
    s: SessionView,
    frame: Frame,
    config: Config,
)
    requires
        s.is_sound(),
        s.input != InputState::Typing,
        frame.shows_dots(
            config,
            s.input,
            vstd::utf8::encode_utf8(s.password).len() as usize,
        ),
    ensures
        frame.dots is None,
{
    assert(s.password =~= Seq::empty());
    assert(vstd::utf8::encode_utf8(Seq::empty()).len() == 0);
}

// ---------------------------------------------------------------------------
// Laws of single keys
// ---------------------------------------------------------------------------

/// Whether a text has a character to show: one beyond the control characters
/// U+0000 to U+001F and U+007F to U+009F.
pub open spec fn has_visible(t: Seq<char>) -> bool {
    exists|i: int|
        0 <= i < t.len() && 0x20 <= (#[trigger] t[i]) as u32 && !(0x7f <= t[i] as u32 <= 0x9f)
}

/// Whether a key is none of Return (0xff0d), Enter on the keypad (0xff8d),
/// Backspace (0xff08) and Escape (0xff1b).
pub open spec fn is_plain_key(event: KeyEventView) -> bool {
    &&& event.keysym != 0xff0d
    &&& event.keysym != 0xff8d
    &&& event.keysym != 0xff08
    &&& event.keysym != 0xff1b
}

/// What a key enters is its text, whole, if that has anything to show, and
/// nothing otherwise.
pub proof fn lemma_visible_text_is_entered(event: KeyEventView)
    ensures
        event.utf8 matches Some(t) ==> {
            &&& has_visible(t) ==> entered_text(event) == Some(t)
            &&& !has_visible(t) ==> entered_text(event) is None
        },
        event.utf8 is None ==> entered_text(event) is None,
{
    if let Some(t) = event.utf8 {
        if has_visible(t) {
            let i = choose|i: int|
                0 <= i < t.len() && 0x20 <= (#[trigger] t[i]) as u32 && !(0x7f <= t[i] as u32
                    <= 0x9f);
            assert(!text::control(t[i]));
        }
        if text::printable(t) {
            let i = choose|i: int| 0 <= i < t.len() && !text::control(#[trigger] t[i]);
            assert(0x20 <= t[i] as u32);
        }
    }
}

/// A key that enters nothing, such as Shift, does nothing: on a screen that
/// takes input the session stays exactly as it was, whatever was typed before,
/// and nothing is asked for.
pub proof fn lemma_key_without_text_does_nothing(s: SessionView, event: KeyEventView)
    requires
        !s.blanked,
        s.input == InputState::Idle || s.input == InputState::Typing,
        event.keysym != 0xff0d && event.keysym != 0xff8d,
        event.keysym != 0xff08 && event.keysym != 0xff1b,
        event.utf8 matches Some(t) ==> forall|i: int|
            0 <= i < t.len() ==> (#[trigger] t[i]) as u32 <= 0x1f || 0x7f <= t[i] as u32 <= 0x9f,
    ensures
        s.keyed(event).0 == s,
        s.keyed(event).1 is Ignore,
{
    lemma_visible_text_is_entered(event);
}

/// A key that enters text puts it behind what was typed, whole and once, and
/// changes nothing else but the indicator.
pub proof fn lemma_text_key_appends_its_text(s: SessionView, event: KeyEventView)
    requires
        !s.blanked,
        s.input == InputState::Idle || s.input == InputState::Typing,
        event.keysym != 0xff0d && event.keysym != 0xff8d,
        event.keysym != 0xff08 && event.keysym != 0xff1b,
        event.utf8 is Some,
        exists|i: int|
            0 <= i < event.utf8->0.len() && 0x20 <= (#[trigger] event.utf8->0[i]) as u32 && !(0x7f
                <= event.utf8->0[i] as u32 <= 0x9f),
    ensures
        s.keyed(event).0.password == s.password + event.utf8->0,
        s.keyed(event).0.input == InputState::Typing,
        s.keyed(event).0.blanked == s.blanked,
        s.keyed(event).0.running == s.running,
        s.keyed(event).1 is Redraw,
{
    lemma_visible_text_is_entered(event);
}

/// Return and the keypad's Enter submit what was typed, as it is, and leave
/// nothing behind; on an empty screen they do nothing.
pub proof fn lemma_enter_submits_what_was_typed(s: SessionView, event: KeyEventView)
    requires
        !s.blanked,
        s.input == InputState::Idle || s.input == InputState::Typing,
        event.keysym == 0xff0d || event.keysym == 0xff8d,
    ensures
        s.password.len() > 0 ==> {
            &&& s.keyed(event).1 == KeyActionView::Submit(s.password)
            &&& s.keyed(event).0.password.len() == 0
            &&& s.keyed(event).0.input == InputState::Verifying
            &&& s.keyed(event).0.blanked == s.blanked
            &&& s.keyed(event).0.running == s.running
        },
        s.password.len() == 0 ==> s.keyed(event).0 == s && s.keyed(event).1 is Ignore,
{
}

/// Backspace takes one character off the end, and off nowhere else; with none
/// left the screen is idle.
pub proof fn lemma_backspace_takes_the_last_character(s: SessionView, event: KeyEventView)
    requires
        !s.blanked,
        s.input == InputState::Idle || s.input == InputState::Typing,
        event.keysym == 0xff08,
    ensures
        s.password.len() > 0 ==> s.keyed(event).0.password == s.password.subrange(
            0,
            s.password.len() - 1,
        ),
        s.password.len() == 0 ==> s.keyed(event).0.password.len() == 0,
        s.keyed(event).0.input == if s.password.len() <= 1 {
            InputState::Idle
        } else {
            s.input
        },
        s.keyed(event).0.blanked == s.blanked,
        s.keyed(event).0.running == s.running,
        s.keyed(event).1 is Redraw,
{
    if s.password.len() > 0 {
        assert(s.keyed(event).0.password =~= s.password.subrange(0, s.password.len() - 1));
    }
}

/// Escape leaves an idle screen with nothing typed.
pub proof fn lemma_escape_leaves_nothing(s: SessionView, event: KeyEventView)
    requires
        !s.blanked,
        s.input == InputState::Idle || s.input == InputState::Typing,
        event.keysym == 0xff1b,
    ensures
        s.keyed(event).0.password.len() == 0,
        s.keyed(event).0.input == InputState::Idle,
        s.keyed(event).0.blanked == s.blanked,
        s.keyed(event).0.running == s.running,
        s.keyed(event).1 is Redraw,
{
}

/// After a failure any key brings the screen back, drawn again: with the text
/// of that key, if it enters any, and idle otherwise. That holds of Return,
/// Backspace and Escape too.
pub proof fn lemma_key_after_failure_starts_anew(s: SessionView, event: KeyEventView)
    requires
        !s.blanked,
        s.input == InputState::Wrong,
    ensures
        event.utf8 matches Some(t) ==> {
            &&& has_visible(t) ==> s.keyed(event).0.password == t && s.keyed(event).0.input
                == InputState::Typing
            &&& !has_visible(t) ==> s.keyed(event).0.password.len() == 0 && s.keyed(event).0.input
                == InputState::Idle
        },
        event.utf8 is None ==> s.keyed(event).0.password.len() == 0 && s.keyed(event).0.input
            == InputState::Idle,
        s.keyed(event).0.blanked == s.blanked,
        s.keyed(event).0.running == s.running,
        s.keyed(event).1 is Redraw,
{
    lemma_visible_text_is_entered(event);
    if let Some(t) = entered_text(event) {
        assert(Seq::<char>::empty() + t =~= t);
    }
}

/// A key on blanked monitors turns them on and touches nothing else, whatever
/// the key and the state; a key while a password is verified touches nothing.
pub proof fn lemma_swallowed_keys_touch_nothing(s: SessionView, event: KeyEventView)
    ensures
        s.blanked ==> {
            &&& s.keyed(event).1 is Wake
            &&& !s.keyed(event).0.blanked
            &&& s.keyed(event).0.input == s.input
            &&& s.keyed(event).0.password == s.password
            &&& s.keyed(event).0.running == s.running
        },
        !s.blanked && s.input == InputState::Verifying ==> {
            &&& s.keyed(event).1 is Ignore
            &&& s.keyed(event).0 == s
        },
{
}

/// A password is wiped on exactly these keys, with the monitors on: on any key
/// after a failure, on Escape, and on Return or Enter behind a password.
pub proof fn lemma_keys_that_wipe(s: SessionView, event: KeyEventView)
    ensures
        s.forgets(event) <==> !s.blanked && {
            ||| s.input == InputState::Wrong
            ||| s.input != InputState::Verifying && event.keysym == 0xff1b
            ||| s.input != InputState::Verifying && s.password.len() > 0 && (event.keysym == 0xff0d
                || event.keysym == 0xff8d)
        },
{
}

/// A poll that finds no result changes nothing, whatever the state, and asks
/// for nothing.
pub proof fn lemma_poll_without_result_does_nothing(s: SessionView)
    ensures
        s.authenticated(None).0 == s,
        s.authenticated(None).1 is Nothing,
{
}

/// A success ends the event loop with the monitors on, powered on first if they
/// were blanked, and touches neither the indicator nor what was typed.
pub proof fn lemma_success_ends_the_loop(s: SessionView)
    ensures
        !s.authenticated(Some(AuthResult::Success)).0.running,
        !s.authenticated(Some(AuthResult::Success)).0.blanked,
        s.authenticated(Some(AuthResult::Success)).0.input == s.input,
        s.authenticated(Some(AuthResult::Success)).0.password == s.password,
        s.authenticated(Some(AuthResult::Success)).1 == (AuthAction::Unlock { wake: s.blanked }),
{
}

/// A failure and an error show the failure, drawn again, with nothing typed,
/// and change neither the monitors nor the event loop.
pub proof fn lemma_failure_is_shown(s: SessionView, result: AuthResult)
    requires
        result != AuthResult::Success,
    ensures
        s.authenticated(Some(result)).0.input == InputState::Wrong,
        s.authenticated(Some(result)).0.password.len() == 0,
        s.authenticated(Some(result)).0.blanked == s.blanked,
        s.authenticated(Some(result)).0.running == s.running,
        s.authenticated(Some(result)).1 is Redraw,
{
}

/// After a failed attempt, and any number of polls without a result, a text key
/// starts a new attempt.
pub proof fn lemma_failure_allows_a_new_attempt(
    s: SessionView,
    result: AuthResult,
    event: KeyEventView,
)
    requires
        result != AuthResult::Success,
        !s.blanked,
        event.utf8 is Some,
        has_visible(event.utf8->0),
    ensures
        s.authenticated(Some(result)).0.authenticated(None).0.keyed(event).0.password
            == event.utf8->0,
        s.authenticated(Some(result)).0.authenticated(None).0.keyed(event).0.input
            == InputState::Typing,
{
    lemma_key_after_failure_starts_anew(s.authenticated(Some(result)).0, event);
}

/// The text that a run of keys enters is put together key by key.
pub proof fn lemma_entered_text_accumulates(events: Seq<KeyEventView>, event: KeyEventView)
    ensures
        entered_run(Seq::empty()).len() == 0,
        event.utf8 is Some && has_visible(event.utf8->0) ==> entered_run(events.push(event))
            == entered_run(events) + event.utf8->0,
        event.utf8 is None || !has_visible(event.utf8->0) ==> entered_run(events.push(event))
            == entered_run(events),
{
    lemma_visible_text_is_entered(event);
    assert(events.push(event).drop_last() =~= events);
    assert(entered_run(events) + Seq::<char>::empty() =~= entered_run(events));
}

/// Keys act one after the other.
pub proof fn lemma_keys_act_one_by_one(
    s: SessionView,
    events: Seq<KeyEventView>,
    event: KeyEventView,
)
    ensures
        keyed_run(s, Seq::empty()) == s,
        keyed_run(s, events.push(event)) == keyed_run(s, events).keyed(event).0,
{
    assert(events.push(event).drop_last() =~= events);
}

/// Keys without text between the others do not matter: whatever plain keys are
/// pressed on an empty screen, what is held is the text of those that enter
/// some, and Return or Enter submits exactly that.
pub proof fn lemma_other_keys_do_not_disturb_typing(
    s: SessionView,
    events: Seq<KeyEventView>,
    enter: KeyEventView,
)
    requires
        s.input == InputState::Idle,
        s.password.len() == 0,
        !s.blanked,
        forall|i: int| 0 <= i < events.len() ==> is_plain_key(#[trigger] events[i]),
        enter.keysym == 0xff0d || enter.keysym == 0xff8d,
    ensures
        keyed_run(s, events).password == entered_run(events),
        keyed_run(s, events).input == if entered_run(events).len() > 0 {
            InputState::Typing
        } else {
            InputState::Idle
        },
        !keyed_run(s, events).blanked,
        keyed_run(s, events).running == s.running,
        entered_run(events).len() > 0 ==> keyed_run(s, events).keyed(enter).1
            == KeyActionView::Submit(entered_run(events)),
        entered_run(events).len() == 0 ==> keyed_run(s, events).keyed(enter).1 is Ignore,
    decreases events.len(),
{
    if events.len() > 0 {
        let past = events.drop_last();
        let event = events.last();
        assert(events =~= past.push(event));
        assert(event == events[events.len() - 1]);
        assert forall|i: int| 0 <= i < past.len() implies is_plain_key(#[trigger] past[i]) by {
            assert(is_plain_key(events[i]));
        }
        lemma_other_keys_do_not_disturb_typing(s, past, enter);
        let before = keyed_run(s, past);
        lemma_visible_text_is_entered(event);
        if event.utf8 is Some && has_visible(event.utf8->0) {
            lemma_text_key_appends_its_text(before, event);
            assert(event.utf8->0.len() > 0);
        } else {
            lemma_key_without_text_does_nothing(before, event);
            assert(entered_run(past) + Seq::<char>::empty() =~= entered_run(past));
        }
    } else {
        assert(s.password =~= Seq::empty());
    }
    lemma_enter_submits_what_was_typed(keyed_run(s, events), enter);
}

/// The laws of the session speak of the state that is held: the indicator, the
/// characters that are buffered, the monitors and the event loop.
pub proof fn lemma_session_is_what_is_held<L, S, P, F>(app: CryoLock<L, S, P, F>)
    ensures
        app.session().input == app.input_state,
        app.session().password == app.password_buf@,
        app.session().blanked == app.dpms_state@.blanked,
        app.session().running == app.running,
{
}

/// A key is seen as it was pressed, with its symbol and its text.
pub proof fn lemma_key_is_seen_as_pressed(event: KeyEvent, action: KeyAction)
    ensures
        event@.keysym == event.keysym,
        event.utf8 is Some ==> event@.utf8 == Some(event.utf8->0@),
        event.utf8 is None ==> event@.utf8 is None,
        action is Ignore <==> action@ is Ignore,
        action is Wake <==> action@ is Wake,
        action is Redraw <==> action@ is Redraw,
        action matches KeyAction::Submit(password) ==> action@ == KeyActionView::Submit(password@),
{
}

/// Where the setup is said to stay, each part of it stays; and where the
/// session is said to stay, each part of that.
pub proof fn lemma_what_stays<L, S, P, F>(
    after: CryoLock<L, S, P, F>,
    before: CryoLock<L, S, P, F>,
)
    ensures
        after.same_setup(before) ==> {
            &&& after.session_lock == before.session_lock
            &&& after.lock_surfaces == before.lock_surfaces
            &&& after.locked == before.locked
            &&& after.dpms_controls == before.dpms_controls
            &&& after.config == before.config
            &&& after.renderer == before.renderer
            &&& after.dpms_state@.timeout_secs == before.dpms_state@.timeout_secs
        },
        after.same_session(before) ==> {
            &&& after.config == before.config
            &&& after.auth_handle == before.auth_handle
            &&& after.renderer == before.renderer
            &&& after.input_state == before.input_state
            &&& after.password_buf == before.password_buf
            &&& after.dpms_state == before.dpms_state
        },
{
}

/// Where a password is said to be wiped, it was: the buffer that was held went
/// through a wiping, whose empty remainder is held afterwards unless something
/// new was typed.
pub proof fn lemma_wiping_reaches_the_buffer<L, S, P, F>(
    after: CryoLock<L, S, P, F>,
    before: CryoLock<L, S, P, F>,
    result: AuthResult,
)
    ensures
        after.wiped_password(before) ==> exists|left: String| #[trigger]
            secret::wipes(before.password_buf, left) && (after.password_buf@.len() == 0
                ==> after.password_buf == left),
        result != AuthResult::Success && after.wipes_on(before, Some(result)) ==> secret::wipes(
            before.password_buf,
            after.password_buf,
        ),
        after.wipes_on(before, Some(AuthResult::Success)) ==> after.password_buf
            == before.password_buf,
        after.wipes_on(before, None) ==> after.password_buf == before.password_buf,
{
}

// ---------------------------------------------------------------------------
// Laws of the surfaces
// ---------------------------------------------------------------------------

/// Each output that is covered adds its own surface, behind the others and
/// without a size, or none where none was created.
pub proof fn lemma_surfaces_follow_the_outputs<S, P>(
    covers: Seq<Cover<S, P>>,
    cover: Cover<S, P>,
)
    ensures
        new_surfaces(Seq::<Cover<S, P>>::empty()).len() == 0,
        cover.created is None ==> new_surfaces(covers.push(cover)) == new_surfaces(covers),
        cover.created matches Some((lock_surface, surface)) ==> new_surfaces(covers.push(cover))
            == new_surfaces(covers).push(
            LockSurfaceEntry { lock_surface, surface, output: cover.output, width: 0, height: 0 },
        ),
{
    assert(covers.push(cover).drop_last() =~= covers);
    match cover.created {
        Some((lock_surface, surface)) => {
            assert(new_surfaces(covers.push(cover)) =~= new_surfaces(covers).push(
                LockSurfaceEntry {
                    lock_surface,
                    surface,
                    output: cover.output,
                    width: 0,
                    height: 0,
                },
            ));
        },
        None => {
            assert(new_surfaces(covers.push(cover)) =~= new_surfaces(covers));
        },
    }
}

/// A single output enters its surface and its power control under its own id,
/// and touches no other output's control.
pub proof fn lemma_cover_enters_its_own_output<S, P>(cover: Cover<S, P>, others: Map<u32, P>)
    ensures
        cover.created is None ==> cover.entries().len() == 0,
        cover.created matches Some((lock_surface, surface)) ==> cover.entries() == seq![
            LockSurfaceEntry { lock_surface, surface, output: cover.output, width: 0, height: 0 },
        ],
        cover.power matches Some(power) ==> cover.controls(others).contains_key(cover.output)
            && cover.controls(others)[cover.output] == power,
        cover.power is None ==> cover.controls(others) == others,
        forall|id: u32|
            id != cover.output ==> {
                &&& #[trigger] cover.controls(others).contains_key(id) == others.contains_key(id)
                &&& others.contains_key(id) ==> cover.controls(others)[id] == others[id]
            },
{
}

/// The power controls are entered output by output.
pub proof fn lemma_controls_follow_the_outputs<S, P>(
    others: Map<u32, P>,
    covers: Seq<Cover<S, P>>,
    cover: Cover<S, P>,
)
    ensures
        with_controls(others, Seq::<Cover<S, P>>::empty()) == others,
        cover.power is None ==> with_controls(others, covers.push(cover)) == with_controls(
            others,
            covers,
        ),
        cover.power matches Some(power) ==> with_controls(others, covers.push(cover))
            == with_controls(others, covers).insert(cover.output, power),
{
    assert(covers.push(cover).drop_last() =~= covers);
}

/// Removing an output takes out its surfaces one by one, wherever they stand
/// and however many there are, and keeps the others in their order.
pub proof fn lemma_removal_keeps_the_order<S>(
    entries: Seq<LockSurfaceEntry<S>>,
    entry: LockSurfaceEntry<S>,
    output: u32,
)
    ensures
        without_output(Seq::<LockSurfaceEntry<S>>::empty(), output).len() == 0,
        entry.output == output ==> without_output(entries.push(entry), output) == without_output(
            entries,
            output,
        ),
        entry.output != output ==> without_output(entries.push(entry), output) == without_output(
            entries,
            output,
        ).push(entry),
{
    reveal(Seq::filter);
    assert(entries.push(entry).drop_last() =~= entries);
}

/// The entry that is configured is the first one of that surface; it gets its
/// size and keeps all else.
pub proof fn lemma_configured_entry<S>(
    entries: Seq<LockSurfaceEntry<S>>,
    surface: u32,
    i: int,
    j: int,
    width: u32,
    height: u32,
)
    requires
        0 <= j < entries.len(),
    ensures
        is_first_with(entries, surface, i) ==> 0 <= i < entries.len() && entries[i].surface
            == surface && (j < i ==> entries[j].surface != surface),
        none_with(entries, surface) ==> entries[j].surface != surface,
        entries[j].sized(width, height).width == width,
        entries[j].sized(width, height).height == height,
        entries[j].sized(width, height).surface == entries[j].surface,
        entries[j].sized(width, height).output == entries[j].output,
        entries[j].sized(width, height).lock_surface == entries[j].lock_surface,
{
}

/// A new surface is entered as it is, and has no size.
pub proof fn lemma_new_entry_has_no_size<S>(lock_surface: S, surface: u32, output: u32)
    ensures
        ({
            let entry = LockSurfaceEntry::unsized_entry(lock_surface, surface, output);
            &&& entry.lock_surface == lock_surface
            &&& entry.surface == surface
            &&& entry.output == output
            &&& entry.width == 0
            &&& entry.height == 0
        }),
{
}

/// A buffer can be had exactly up to 2147483647 bytes, four to a pixel.
pub proof fn lemma_buffer_limit(width: u32, height: u32)
    ensures
        buffer_fits(width, height) <==> width * height * 4 <= 2147483647,
{
}

/// Every output that a surface was created for when the session was locked is
/// covered by that surface.
pub proof fn lemma_locked_outputs_are_covered<S, P>(covers: Seq<Cover<S, P>>, i: int)
    requires
        0 <= i < covers.len(),
        covers[i].created is Some,
    ensures
        new_surfaces(covers).contains(
            LockSurfaceEntry::unsized_entry(
                (covers[i].created->0).0,
                (covers[i].created->0).1,
                covers[i].output,
            ),
        ),
    decreases covers.len(),
{
    let past = new_surfaces(covers.drop_last());
    let last = covers.last().entries();
    let e = LockSurfaceEntry::unsized_entry(
        (covers[i].created->0).0,
        (covers[i].created->0).1,
        covers[i].output,
    );
    if i < covers.len() - 1 {
        lemma_locked_outputs_are_covered(covers.drop_last(), i);
        let j = choose|j: int| 0 <= j < past.len() && past[j] == e;
        assert(new_surfaces(covers)[j] == e);
    } else {
        assert(last[0] == e);
        assert(new_surfaces(covers)[past.len() as int] == e);
    }
}

/// Once an output has gone, no surface of it is left, and every other surface
/// stays.
pub proof fn lemma_removed_output_has_no_surface<S>(
    entries: Seq<LockSurfaceEntry<S>>,
    output: u32,
)
    ensures
        forall|i: int|
            0 <= i < without_output(entries, output).len() ==> (#[trigger] without_output(
                entries,
                output,
            )[i]).output != output,
        forall|e: LockSurfaceEntry<S>|
            entries.contains(e) && e.output != output ==> #[trigger] without_output(
                entries,
                output,
            ).contains(e),
        forall|e: LockSurfaceEntry<S>| #[trigger]
            without_output(entries, output).contains(e) ==> entries.contains(e),
{
    broadcast use vstd::seq_lib::group_filter_ensures;

    let keep = |e: LockSurfaceEntry<S>| e.output != output;
    let left = entries.filter(keep);
    assert forall|i: int| 0 <= i < left.len() implies (#[trigger] left[i]).output != output by {
        assert(keep(left[i]));
    }
    assert forall|e: LockSurfaceEntry<S>|
        entries.contains(e) && e.output != output implies #[trigger] left.contains(e) by {
        let i = choose|i: int| 0 <= i < entries.len() && entries[i] == e;
        assert(keep(entries[i]));
    }
    assert forall|e: LockSurfaceEntry<S>| #[trigger] left.contains(e) implies entries.contains(
        e,
    ) by {
        entries.lemma_filter_contains_rev(keep, e);
    }
}

/// Removing an output takes back the entering of its surface.
pub proof fn lemma_removal_undoes_creation<S>(
    entries: Seq<LockSurfaceEntry<S>>,
    lock_surface: S,
    surface: u32,
    output: u32,
)
    requires
        forall|i: int| 0 <= i < entries.len() ==> (#[trigger] entries[i]).output != output,
    ensures
        without_output(
            entries.push(LockSurfaceEntry::unsized_entry(lock_surface, surface, output)),
            output,
        ) == entries,
{
    let e = LockSurfaceEntry::unsized_entry(lock_surface, surface, output);
    let keep = |e: LockSurfaceEntry<S>| e.output != output;
    reveal(Seq::filter);
    assert(entries.push(e).drop_last() =~= entries);
    lemma_nothing_to_remove(entries, output);
}

proof fn lemma_nothing_to_remove<S>(entries: Seq<LockSurfaceEntry<S>>, output: u32)
    requires
        forall|i: int| 0 <= i < entries.len() ==> (#[trigger] entries[i]).output != output,
    ensures
        without_output(entries, output) == entries,
    decreases entries.len(),
{
    reveal(Seq::filter);
    if entries.len() > 0 {
        let past = entries.drop_last();
        assert forall|i: int| 0 <= i < past.len() implies (#[trigger] past[i]).output != output by {
            assert(past[i] == entries[i]);
        }
        lemma_nothing_to_remove(past, output);
        assert(entries.last() == entries[entries.len() - 1]);
        assert(past.push(entries.last()) =~= entries);
    }
}

} // verus!
