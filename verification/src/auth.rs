//! Authentication: the messages between the event loop and the thread that
//! authenticates, and the course of a single attempt.
//!
//! - A password is wiped as soon as it has been handed on; no finished attempt
//!   still holds one.
//! - Authenticating blocks, so it happens on a thread of its own. The event loop
//!   sends requests to it over a channel and polls another for results.
//! - The PAM service is `cryolock` where it is configured, else `login`.

use std::sync::mpsc;
use vstd::prelude::*;

use crate::secret;

verus! {

/// The result of a single authentication attempt.
#[derive(Debug, Clone, Copy, PartialEq, Eq, Structural)]
pub enum AuthResult {
    /// Password was correct: unlock the session.
    Success,
    /// Password was wrong: stay locked, signal the UI.
    Failure,
    /// PAM encountered an internal error (treated as failure).
    Error,
}

/// Messages sent from the event loop to the auth thread.
pub enum AuthRequest {
    /// Attempt authentication with this password (will be wiped after use).
    Attempt(String),
    /// Shut down the auth thread.
    Shutdown,
}

/// Why a poll found no result.
#[derive(Debug, Clone, Copy, PartialEq, Eq, Structural)]
pub enum PollError {
    /// No result is there yet.
    Empty,
    /// The auth thread is gone and has left no result.
    Disconnected,
}

// ---------------------------------------------------------------------------
// Channels
// ---------------------------------------------------------------------------

/// `std::sync::mpsc::Sender`.
#[verifier::external_type_specification]
#[verifier::external_body]
#[verifier::reject_recursive_types(T)]
pub struct ExSender<T>(std::sync::mpsc::Sender<T>);

/// `std::sync::mpsc::Receiver`.
#[verifier::external_type_specification]
#[verifier::external_body]
#[verifier::reject_recursive_types(T)]
pub struct ExReceiver<T>(std::sync::mpsc::Receiver<T>);

/// `std::sync::mpsc::Sender::send`: a message that cannot be delivered comes
/// back as it was. Whether it can be delivered rests with the other thread.
/// The sending end is one that has been used once more; nothing else is claimed
/// of it.
#[verifier::external_body]
fn send_request(
    tx: &mut mpsc::Sender<AuthRequest>,
    request: AuthRequest,
) -> (r: Result<(), AuthRequest>)
    ensures
        r matches Err(returned) ==> returned == request,
{
    match tx.send(request) {
        Ok(()) => Ok(()),
        Err(mpsc::SendError(returned)) => Err(returned),
    }
}

/// `std::sync::mpsc::Receiver::try_recv`: what has arrived, if anything. That
/// rests with the other thread, so nothing is claimed of it, nor of the
/// receiving end afterwards.
#[verifier::external_body]
fn receive_result(rx: &mut mpsc::Receiver<AuthResult>) -> (r: Result<AuthResult, PollError>) {
    match rx.try_recv() {
        Ok(result) => Ok(result),
        Err(mpsc::TryRecvError::Empty) => Err(PollError::Empty),
        Err(mpsc::TryRecvError::Disconnected) => Err(PollError::Disconnected),
    }
}

/// Whether `r` is what came of sending `request`: an outcome of `send_request`
/// on the sending end `tx`, which the call leaves as `*final(tx)`.
pub closed spec fn sends(
    tx: &mut mpsc::Sender<AuthRequest>,
    request: AuthRequest,
    r: Result<(), AuthRequest>,
) -> bool {
    call_ensures(send_request, (tx, request), r)
}

/// Whether `polled` is what came of looking for a result: an outcome of
/// `receive_result` on the receiving end `rx`, which the call leaves as
/// `*final(rx)`.
pub closed spec fn receives(
    rx: &mut mpsc::Receiver<AuthResult>,
    polled: Result<AuthResult, PollError>,
) -> bool {
    call_ensures(receive_result, (rx,), polled)
}

/// Handle for the main event loop to communicate with the auth thread. Its
/// methods take it by mutable reference, so that their contracts can say that
/// a channel is used once: from the end that it was, a single call leads to the
/// end that it is afterwards.
pub struct AuthHandle {
    /// Send password attempts to the auth thread.
    tx: mpsc::Sender<AuthRequest>,
    /// Receive auth results back.
    rx: mpsc::Receiver<AuthResult>,
}

/// The result that a poll found, if it found one.
pub open spec fn found_result(polled: Result<AuthResult, PollError>) -> Option<AuthResult> {
    match polled {
        Ok(result) => Some(result),
        Err(_) => None,
    }
}

/// The result that a poll gives: none unless one has arrived.
pub fn ready_result(polled: Result<AuthResult, PollError>) -> (r: Option<AuthResult>)
    ensures
        r == found_result(polled),
{
    match polled {
        Ok(result) => Some(result),
        Err(_) => None,
    }
}

impl AuthHandle {
    /// Where requests are sent.
    pub closed spec fn requests(self) -> mpsc::Sender<AuthRequest> {
        self.tx
    }

    /// Where results are received.
    pub closed spec fn results(self) -> mpsc::Receiver<AuthResult> {
        self.rx
    }

    /// A handle on the ends of the two channels.
    pub fn new(tx: mpsc::Sender<AuthRequest>, rx: mpsc::Receiver<AuthResult>) -> (handle: Self)
        ensures
            handle.requests() == tx,
            handle.results() == rx,
    {
        AuthHandle { tx, rx }
    }

    /// Send a request, once.
    fn send(&mut self, request: AuthRequest) -> (r: Result<(), AuthRequest>)
        ensures
            exists|tx: &mut mpsc::Sender<AuthRequest>|
                {
                    &&& #[trigger] sends(tx, request, r)
                    &&& *tx == old(self).requests()
                    &&& *final(tx) == final(self).requests()
                },
            final(self).results() == old(self).results(),
            r matches Err(returned) ==> returned == request,
    {
        let r: Result<(), AuthRequest> = send_request(&mut self.tx, request);
        proof {
            let tx = choose|tx: &mut mpsc::Sender<AuthRequest>|
                call_ensures(send_request, (tx, request), r) && *tx == old(self).tx && *final(tx)
                    == self.tx;
            assert(sends(tx, request, r));
        }
        r
    }

    /// Submit a password for authentication. The string will be wiped by the
    /// auth thread after use; the caller should also wipe their copy. If the
    /// auth thread has terminated, the request comes back.
    pub fn try_authenticate(&mut self, password: String) -> (r: Result<(), AuthRequest>)
        ensures
            exists|tx: &mut mpsc::Sender<AuthRequest>|
                {
                    &&& #[trigger] sends(tx, AuthRequest::Attempt(password), r)
                    &&& *tx == old(self).requests()
                    &&& *final(tx) == final(self).requests()
                },
            final(self).results() == old(self).results(),
            r matches Err(returned) ==> returned == AuthRequest::Attempt(password),
    {
        self.send(AuthRequest::Attempt(password))
    }

    /// Non-blocking poll for an authentication result.
    /// Returns `None` if no result is ready yet.
    pub fn poll_result(&mut self) -> (r: Option<AuthResult>)
        ensures
            exists|rx: &mut mpsc::Receiver<AuthResult>, polled: Result<AuthResult, PollError>|
                {
                    &&& #[trigger] receives(rx, polled)
                    &&& *rx == old(self).results()
                    &&& *final(rx) == final(self).results()
                    &&& r == found_result(polled)
                },
            final(self).requests() == old(self).requests(),
    {
        let polled: Result<AuthResult, PollError> = receive_result(&mut self.rx);
        proof {
            let rx = choose|rx: &mut mpsc::Receiver<AuthResult>|
                call_ensures(receive_result, (rx,), polled) && *rx == old(self).rx && *final(rx)
                    == self.rx;
            assert(receives(rx, polled));
        }
        ready_result(polled)
    }

    /// Signal the auth thread to exit. Best-effort; safe to ignore errors.
    pub fn shutdown(&mut self) -> (r: Result<(), AuthRequest>)
        ensures
            exists|tx: &mut mpsc::Sender<AuthRequest>|
                {
                    &&& #[trigger] sends(tx, AuthRequest::Shutdown, r)
                    &&& *tx == old(self).requests()
                    &&& *final(tx) == final(self).requests()
                },
            final(self).results() == old(self).results(),
            r matches Err(returned) ==> returned == AuthRequest::Shutdown,
    {
        self.send(AuthRequest::Shutdown)
    }
}

// ---------------------------------------------------------------------------
// The auth thread
// ---------------------------------------------------------------------------

/// What the auth thread does next.
pub enum WorkerStep {
    /// Make an attempt with this password and send its result.
    Authenticate(String),
    /// Wait for the next request.
    Wait,
    /// Leave the thread.
    Exit,
}

/// The step that follows on a request, or on a closed channel (`None`).
pub open spec fn step_on_request(received: Option<AuthRequest>) -> WorkerStep {
    match received {
        Some(AuthRequest::Attempt(password)) => WorkerStep::Authenticate(password),
        Some(AuthRequest::Shutdown) => WorkerStep::Exit,
        None => WorkerStep::Exit,
    }
}

/// The step that follows on a reply, which was delivered or not.
pub open spec fn step_on_reply(delivered: bool) -> WorkerStep {
    if delivered {
        WorkerStep::Wait
    } else {
        WorkerStep::Exit
    }
}

/// What the auth thread does with a request, or on finding the channel closed.
pub fn auth_thread_request(received: Option<AuthRequest>) -> (step: WorkerStep)
    ensures
        step == step_on_request(received),
{
    match received {
        Some(AuthRequest::Attempt(password)) => WorkerStep::Authenticate(password),
        Some(AuthRequest::Shutdown) => WorkerStep::Exit,
        None => WorkerStep::Exit,
    }
}

/// What the auth thread does once it has sent a result, or failed to.
pub fn auth_thread_reply(delivered: bool) -> (step: WorkerStep)
    ensures
        step == step_on_reply(delivered),
{
    if delivered {
        WorkerStep::Wait
    } else {
        WorkerStep::Exit
    }
}

/// What has become of the auth thread.
#[verifier::ext_equal]
pub struct WorkerView {
    /// The passwords that an attempt was made with and a result sent for, in
    /// this order.
    pub answered: Seq<String>,
    /// Whether the thread has ended.
    pub ended: bool,
}

/// What has become of the auth thread once all of `received` has come in.
/// `delivered[i]` says whether a result for `received[i]` could be delivered.
pub open spec fn worker_run(
    received: Seq<Option<AuthRequest>>,
    delivered: Seq<bool>,
) -> WorkerView
    decreases received.len(),
{
    if received.len() == 0 {
        WorkerView { answered: Seq::empty(), ended: false }
    } else {
        let past = worker_run(received.drop_last(), delivered);
        if past.ended {
            past
        } else {
            match step_on_request(received.last()) {
                WorkerStep::Authenticate(password) => WorkerView {
                    answered: past.answered.push(password),
                    ended: step_on_reply(delivered[received.len() - 1]) is Exit,
                },
                WorkerStep::Wait => past,
                WorkerStep::Exit => WorkerView { ended: true, ..past },
            }
        }
    }
}

/// The auth thread answers every attempt once and in order, until it ends; it
/// ends on a shutdown, on a closed channel, or on a result that cannot be
/// delivered.
pub proof fn lemma_attempts_are_answered_in_order(
    received: Seq<Option<AuthRequest>>,
    delivered: Seq<bool>,
)
    ensures
        ({
            let run = worker_run(received, delivered);
            let n = run.answered.len() as int;
            &&& n <= received.len()
            &&& forall|i: int|
                0 <= i < n ==> received[i] == Some(
                    AuthRequest::Attempt(#[trigger] run.answered[i]),
                )
            &&& forall|i: int| 0 <= i < n - 1 ==> #[trigger] delivered[i]
            &&& if run.ended {
                ||| n > 0 && !delivered[n - 1]
                ||| n < received.len() && !(received[n] matches Some(AuthRequest::Attempt(_)))
            } else {
                &&& n == received.len()
                &&& n > 0 ==> delivered[n - 1]
            }
        }),
    decreases received.len(),
{
    if received.len() > 0 {
        let past = received.drop_last();
        lemma_attempts_are_answered_in_order(past, delivered);
        let before = worker_run(past, delivered);
        let run = worker_run(received, delivered);
        assert forall|i: int| 0 <= i < run.answered.len() implies received[i] == Some(
            AuthRequest::Attempt(#[trigger] run.answered[i]),
        ) by {
            if i < before.answered.len() {
                assert(past[i] == Some(AuthRequest::Attempt(before.answered[i])));
            }
        }
    }
}

/// Once the auth thread has ended, nothing that comes in is answered.
pub proof fn lemma_nothing_is_answered_after_the_end(
    received: Seq<Option<AuthRequest>>,
    more: Seq<Option<AuthRequest>>,
    delivered: Seq<bool>,
)
    requires
        worker_run(received, delivered).ended,
    ensures
        worker_run(received + more, delivered) == worker_run(received, delivered),
    decreases more.len(),
{
    if more.len() > 0 {
        lemma_nothing_is_answered_after_the_end(received, more.drop_last(), delivered);
        assert((received + more).drop_last() == received + more.drop_last());
    } else {
        assert(received + more == received);
    }
}

/// A shutdown and a closed channel end the auth thread, without an answer.
pub proof fn lemma_shutdown_ends_the_thread(
    received: Seq<Option<AuthRequest>>,
    delivered: Seq<bool>,
)
    ensures
        ({
            let run = worker_run(received, delivered);
            let after = WorkerView { ended: true, ..run };
            &&& worker_run(received.push(Some(AuthRequest::Shutdown)), delivered) == after
            &&& worker_run(received.push(None), delivered) == after
        }),
{
    assert(received.push(Some(AuthRequest::Shutdown)).drop_last() == received);
    assert(received.push(None).drop_last() == received);
}

/// The file whose presence says that a PAM service of our own is configured.
pub const PAM_SERVICE_FILE: &'static str = "/etc/pam.d/cryolock";

/// Determine which PAM service to use: our own where it is configured.
pub fn pam_service(configured: bool) -> (service: &'static str)
    ensures
        service@ == if configured {
            "cryolock"@
        } else {
            "login"@
        },
{
    if configured {
        "cryolock"
    } else {
        "login"
    }
}

/// The login name that the environment gives: `USER`, or else `LOGNAME`.
pub fn username_from_env(user: Option<String>, logname: Option<String>) -> (name: Option<String>)
    ensures
        name == if user is Some {
            user
        } else {
            logname
        },
{
    match user {
        Some(name) => Some(name),
        None => logname,
    }
}

/// The login name where the environment gives none: that of the account, or
/// `root` where there is no such account.
pub fn username_from_account(account: Option<String>) -> (name: String)
    ensures
        name@ == match account {
            Some(account) => account@,
            None => "root"@,
        },
{
    match account {
        Some(name) => name,
        None => "root".to_string(),
    }
}

// ---------------------------------------------------------------------------
// A single attempt
// ---------------------------------------------------------------------------

/// A step of an authentication attempt: what is to be done next.
#[derive(Debug, Clone, Copy, PartialEq, Eq, Structural)]
pub enum AttemptStep {
    /// Create the PAM client.
    OpenClient,
    /// Supply the credentials, for which the password is still held.
    SetCredentials,
    /// Let PAM authenticate.
    Authenticate,
    /// The attempt is over.
    Done(AuthResult),
}

/// How a step of an attempt ended.
#[derive(Debug, Clone, Copy, PartialEq, Eq, Structural)]
pub enum StepOutcome {
    /// It was done; for `Authenticate`, PAM accepted the password.
    Passed,
    /// PAM turned the user or the password down.
    Denied,
    /// It could not be done, for want of a client or by an internal error of PAM.
    Broken,
}

/// PAM denies permission.
pub const PAM_PERM_DENIED: i32 = 6;

/// PAM could not authenticate the user: the password is wrong.
pub const PAM_AUTH_ERR: i32 = 7;

/// PAM does not know the user.
pub const PAM_USER_UNKNOWN: i32 = 10;

/// The user has tried too often.
pub const PAM_MAXTRIES: i32 = 11;

/// The user must change the password first.
pub const PAM_NEW_AUTHTOK_REQD: i32 = 12;

/// The user's account has expired.
pub const PAM_ACCT_EXPIRED: i32 = 13;

/// The user's credentials have expired.
pub const PAM_CRED_EXPIRED: i32 = 16;

/// The user's password has expired.
pub const PAM_AUTHTOK_EXPIRED: i32 = 27;

/// Whether a Linux-PAM return code turns the user or the password down. Every
/// other failure is an internal error of PAM.
pub open spec fn is_denial(code: i32) -> bool {
    ||| code == PAM_PERM_DENIED
    ||| code == PAM_AUTH_ERR
    ||| code == PAM_USER_UNKNOWN
    ||| code == PAM_MAXTRIES
    ||| code == PAM_NEW_AUTHTOK_REQD
    ||| code == PAM_ACCT_EXPIRED
    ||| code == PAM_CRED_EXPIRED
    ||| code == PAM_AUTHTOK_EXPIRED
}

/// How a step ended in which PAM failed with the given return code.
pub fn failed_outcome(code: i32) -> (outcome: StepOutcome)
    ensures
        outcome == if is_denial(code) {
            StepOutcome::Denied
        } else {
            StepOutcome::Broken
        },
{
    if code == PAM_PERM_DENIED || code == PAM_AUTH_ERR || code == PAM_USER_UNKNOWN || code
        == PAM_MAXTRIES || code == PAM_NEW_AUTHTOK_REQD || code == PAM_ACCT_EXPIRED || code
        == PAM_CRED_EXPIRED || code == PAM_AUTHTOK_EXPIRED {
        StepOutcome::Denied
    } else {
        StepOutcome::Broken
    }
}

/// An authentication attempt under way.
pub struct Attempt {
    password: String,
    step: AttemptStep,
}

/// The state of an attempt.
#[verifier::ext_equal]
pub struct AttemptView {
    pub password: Seq<char>,
    pub step: AttemptStep,
}

impl AttemptView {
    /// The state after the current step, which ended as `outcome` says. Without
    /// a client there is no attempt; supplying the credentials cannot fail.
    pub open spec fn next(self, outcome: StepOutcome) -> AttemptView {
        match self.step {
            AttemptStep::OpenClient => if outcome == StepOutcome::Passed {
                AttemptView { step: AttemptStep::SetCredentials, ..self }
            } else {
                AttemptView { password: Seq::empty(), step: AttemptStep::Done(AuthResult::Error) }
            },
            AttemptStep::SetCredentials => AttemptView {
                password: Seq::empty(),
                step: AttemptStep::Authenticate,
            },
            AttemptStep::Authenticate => AttemptView {
                step: AttemptStep::Done(
                    match outcome {
                        StepOutcome::Passed => AuthResult::Success,
                        StepOutcome::Denied => AuthResult::Failure,
                        StepOutcome::Broken => AuthResult::Error,
                    },
                ),
                ..self
            },
            AttemptStep::Done(_) => self,
        }
    }

    /// Whether a step that ends as `outcome` says is the last to need the
    /// password, so that it is wiped.
    pub open spec fn drops_password(self, outcome: StepOutcome) -> bool {
        ||| self.step is OpenClient && outcome != StepOutcome::Passed
        ||| self.step is SetCredentials
    }

    /// The password is held only until it has been supplied.
    pub open spec fn is_sound(self) -> bool {
        self.step is Authenticate || self.step is Done ==> self.password.len() == 0
    }
}

impl View for Attempt {
    type V = AttemptView;

    closed spec fn view(&self) -> AttemptView {
        AttemptView { password: self.password@, step: self.step }
    }
}

impl Attempt {
    /// The string that holds the password.
    pub closed spec fn held(self) -> String {
        self.password
    }

    /// Begin an attempt with a password.
    pub fn new(password: String) -> (attempt: Self)
        ensures
            attempt@ == (AttemptView { password: password@, step: AttemptStep::OpenClient }),
            attempt.held() == password,
    {
        Attempt { password, step: AttemptStep::OpenClient }
    }

    /// What is to be done next.
    pub fn step(&self) -> (step: AttemptStep)
        ensures
            step == self@.step,
    {
        self.step
    }

    /// The password, for as long as it is held.
    pub fn password(&self) -> (password: &str)
        ensures
            password@ == self@.password,
    {
        self.password.as_str()
    }

    /// Go on after the current step, which ended as `outcome` says. The password
    /// is wiped once it is no longer needed.
    pub fn advance(&mut self, outcome: StepOutcome)
        ensures
            final(self)@ == old(self)@.next(outcome),
            old(self)@.drops_password(outcome) ==> secret::wipes(
                old(self).held(),
                final(self).held(),
            ),
            !old(self)@.drops_password(outcome) ==> final(self).held() == old(self).held(),
    {
        match self.step {
            AttemptStep::OpenClient => {
                if outcome == StepOutcome::Passed {
                    self.step = AttemptStep::SetCredentials;
                } else {
                    secret::wipe(&mut self.password);
                    self.step = AttemptStep::Done(AuthResult::Error);
                }
            },
            AttemptStep::SetCredentials => {
                secret::wipe(&mut self.password);
                self.step = AttemptStep::Authenticate;
            },
            AttemptStep::Authenticate => {
                self.step = AttemptStep::Done(
                    match outcome {
                        StepOutcome::Passed => AuthResult::Success,
                        StepOutcome::Denied => AuthResult::Failure,
                        StepOutcome::Broken => AuthResult::Error,
                    },
                );
            },
            AttemptStep::Done(_) => {},
        }
    }
}

/// The state that an attempt with `password` is in once its steps ended as
/// `outcomes` say.
pub open spec fn attempt_run(password: Seq<char>, outcomes: Seq<StepOutcome>) -> AttemptView
    decreases outcomes.len(),
{
    if outcomes.len() == 0 {
        AttemptView { password, step: AttemptStep::OpenClient }
    } else {
        attempt_run(password, outcomes.drop_last()).next(outcomes.last())
    }
}

/// An attempt is over after three steps at most, and then holds no password.
pub proof fn lemma_finished_attempt_holds_no_password(
    password: Seq<char>,
    outcomes: Seq<StepOutcome>,
)
    ensures
        attempt_run(password, outcomes).is_sound(),
        outcomes.len() >= 3 ==> attempt_run(password, outcomes).step is Done,
        attempt_run(password, outcomes).step is Done ==> attempt_run(
            password,
            outcomes,
        ).password.len() == 0,
    decreases outcomes.len(),
{
    reveal_with_fuel(attempt_run, 4);
    if outcomes.len() > 0 {
        lemma_finished_attempt_holds_no_password(password, outcomes.drop_last());
    }
}

/// On its way to an end an attempt wipes the password, in exactly one step: the
/// one after which it is held no longer.
pub proof fn lemma_password_is_wiped_once(password: Seq<char>, outcomes: Seq<StepOutcome>)
    requires
        attempt_run(password, outcomes).step is Done,
    ensures
        exists|i: int|
            0 <= i < outcomes.len() && #[trigger] wipes_at(password, outcomes, i),
        forall|i: int, j: int|
            0 <= i < outcomes.len() && 0 <= j < outcomes.len() && #[trigger] wipes_at(
                password,
                outcomes,
                i,
            ) && #[trigger] wipes_at(password, outcomes, j) ==> i == j,
{
    lemma_wiping_steps(password, outcomes);
}

/// Whether step `i` of an attempt wipes the password.
pub open spec fn wipes_at(password: Seq<char>, outcomes: Seq<StepOutcome>, i: int) -> bool {
    attempt_run(password, outcomes.take(i)).drops_password(outcomes[i])
}

/// The password is wiped at most once, and was wiped wherever it is not needed
/// any more.
proof fn lemma_wiping_steps(password: Seq<char>, outcomes: Seq<StepOutcome>)
    ensures
        forall|i: int, j: int|
            0 <= i < outcomes.len() && 0 <= j < outcomes.len() && #[trigger] wipes_at(
                password,
                outcomes,
                i,
            ) && #[trigger] wipes_at(password, outcomes, j) ==> i == j,
        (exists|i: int|
            0 <= i < outcomes.len() && #[trigger] wipes_at(password, outcomes, i)) <==> {
            let step = attempt_run(password, outcomes).step;
            step is Authenticate || step is Done
        },
    decreases outcomes.len(),
{
    if outcomes.len() > 0 {
        let past = outcomes.drop_last();
        let last = past.len() as int;
        lemma_wiping_steps(password, past);
        assert(outcomes.take(last) == past);
        assert forall|i: int| 0 <= i < last implies #[trigger] wipes_at(password, outcomes, i)
            == wipes_at(password, past, i) by {
            assert(outcomes.take(i) == past.take(i));
        }
        if exists|i: int| 0 <= i < last && wipes_at(password, past, i) {
            let i = choose|i: int| 0 <= i < last && wipes_at(password, past, i);
            assert(wipes_at(password, outcomes, i));
        }
        assert(wipes_at(password, outcomes, last) == attempt_run(password, past).drops_password(
            outcomes.last(),
        ));
    }
}

/// An attempt succeeds if and only if the client was created and PAM accepted
/// the password. It fails if and only if PAM turned it down, and errs if and
/// only if the client could not be created or PAM broke down. The password
/// that is supplied is the one that was given.
pub proof fn lemma_attempt_outcome(
    password: Seq<char>,
    opened: StepOutcome,
    set: StepOutcome,
    authenticated: StepOutcome,
)
    ensures
        opened == StepOutcome::Passed ==> attempt_run(password, seq![opened]) == (AttemptView {
            password,
            step: AttemptStep::SetCredentials,
        }),
        attempt_run(password, seq![opened, set, authenticated]).step == AttemptStep::Done(
            if opened != StepOutcome::Passed {
                AuthResult::Error
            } else {
                match authenticated {
                    StepOutcome::Passed => AuthResult::Success,
                    StepOutcome::Denied => AuthResult::Failure,
                    StepOutcome::Broken => AuthResult::Error,
                }
            },
        ),
{
    let three = seq![opened, set, authenticated];
    assert(three.drop_last() == seq![opened, set]);
    assert(seq![opened, set].drop_last() == seq![opened]);
    assert(seq![opened].drop_last() == Seq::<StepOutcome>::empty());
    reveal_with_fuel(attempt_run, 4);
}

/// What becomes of an attempt, step by step. With a client the password is kept
/// for the credentials; without one the attempt errs. Once the credentials are
/// supplied the password is gone. What PAM then says is the result: success,
/// failure for a denial, error for a breakdown. A result stays.
pub proof fn lemma_each_step_of_an_attempt(
    password: Seq<char>,
    outcome: StepOutcome,
    result: AuthResult,
)
    ensures
        ({
            let opening = AttemptView { password, step: AttemptStep::OpenClient };
            let supplying = AttemptView { password, step: AttemptStep::SetCredentials };
            let asking = AttemptView { password, step: AttemptStep::Authenticate };
            let over = AttemptView { password, step: AttemptStep::Done(result) };
            &&& outcome is Passed ==> opening.next(outcome) == supplying
            &&& !(outcome is Passed) ==> {
                &&& opening.next(outcome).step == AttemptStep::Done(AuthResult::Error)
                &&& opening.next(outcome).password.len() == 0
            }
            &&& supplying.next(outcome).step is Authenticate
            &&& supplying.next(outcome).password.len() == 0
            &&& outcome is Passed ==> asking.next(outcome).step == AttemptStep::Done(
                AuthResult::Success,
            )
            &&& outcome is Denied ==> asking.next(outcome).step == AttemptStep::Done(
                AuthResult::Failure,
            )
            &&& outcome is Broken ==> asking.next(outcome).step == AttemptStep::Done(
                AuthResult::Error,
            )
            &&& asking.next(outcome).password == password
            &&& over.next(outcome) == over
        }),
{
}

/// The password is wiped in exactly those steps in which an attempt lets go of
/// it, whatever it was; in all others it stays as it is.
pub proof fn lemma_password_goes_only_by_wiping(attempt: AttemptView, outcome: StepOutcome)
    ensures
        attempt.drops_password(outcome) ==> attempt.next(outcome).password.len() == 0,
        !attempt.drops_password(outcome) ==> attempt.next(outcome).password == attempt.password,
        attempt.step is SetCredentials ==> attempt.drops_password(outcome),
        attempt.step is OpenClient ==> (attempt.drops_password(outcome) <==> !(outcome is Passed)),
        attempt.step is Authenticate || attempt.step is Done ==> !attempt.drops_password(outcome),
{
}

/// Of Linux-PAM's return codes exactly these turn the user or the password down:
/// 6, 7, 10, 11, 12, 13, 16 and 27.
pub proof fn lemma_codes_of_a_denial(code: i32)
    ensures
        is_denial(code) <==> code == 6 || code == 7 || 10 <= code <= 13 || code == 16 || code == 27,
{
}

/// The auth thread authenticates with the very password of an attempt, leaves on
/// a shutdown and on a closed channel, and goes on exactly if its result got
/// through.
pub proof fn lemma_each_step_of_the_thread(password: String, delivered: bool)
    ensures
        step_on_request(Some(AuthRequest::Attempt(password))) == WorkerStep::Authenticate(password),
        step_on_request(Some(AuthRequest::Shutdown)) is Exit,
        step_on_request(None) is Exit,
        step_on_reply(true) is Wait,
        step_on_reply(false) is Exit,
{
}

/// A running thread answers the next attempt, and runs on if the answer got
/// through.
pub proof fn lemma_next_attempt_is_answered(
    received: Seq<Option<AuthRequest>>,
    delivered: Seq<bool>,
    password: String,
)
    requires
        !worker_run(received, delivered).ended,
    ensures
        ({
            let run = worker_run(received.push(Some(AuthRequest::Attempt(password))), delivered);
            &&& run.answered == worker_run(received, delivered).answered.push(password)
            &&& run.ended == !delivered[received.len() as int]
        }),
{
    assert(received.push(Some(AuthRequest::Attempt(password))).drop_last() =~= received);
}

/// A poll gives the result that was found, whichever it is, and none where none
/// was found, for whatever reason.
pub proof fn lemma_poll_gives_what_was_found(result: AuthResult, error: PollError)
    ensures
        found_result(Ok(result)) == Some(result),
        found_result(Err(error)) is None,
{
}

/// Nothing else is a use of a channel: sending and looking are outcomes of the
/// calls on that very end.
proof fn lemma_only_calls_use_a_channel(
    tx: &mut mpsc::Sender<AuthRequest>,
    request: AuthRequest,
    sent: Result<(), AuthRequest>,
    rx: &mut mpsc::Receiver<AuthResult>,
    polled: Result<AuthResult, PollError>,
)
    ensures
        sends(tx, request, sent) <==> call_ensures(send_request, (tx, request), sent),
        receives(rx, polled) <==> call_ensures(receive_result, (rx,), polled),
{
}

/// A handle's ends are the channels' ends that it holds, and an attempt's string
/// is the one that it holds.
proof fn lemma_what_is_held(handle: AuthHandle, attempt: Attempt)
    ensures
        handle.requests() == handle.tx,
        handle.results() == handle.rx,
        attempt.held() == attempt.password,
        attempt@.password == attempt.password@,
        attempt@.step == attempt.step,
{
}

} // verus!
