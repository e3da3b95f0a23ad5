use std::sync::mpsc;

use cryolock::auth::{
    auth_thread_reply, auth_thread_request, failed_outcome, pam_service, ready_result,
    username_from_account, username_from_env, Attempt, AttemptStep, AuthHandle, AuthRequest,
    AuthResult, PollError, StepOutcome, WorkerStep, PAM_SERVICE_FILE,
};
use cryolock::secret::wipe;

fn attempt_of(request: AuthRequest) -> String {
    match request {
        AuthRequest::Attempt(password) => password,
        AuthRequest::Shutdown => panic!("expected an attempt"),
    }
}

#[test]
fn requests_and_results_pass_through_the_handle() {
    let (req_tx, req_rx) = mpsc::channel();
    let (res_tx, res_rx) = mpsc::channel();
    let mut handle = AuthHandle::new(req_tx, res_rx);
    assert_eq!(handle.poll_result(), None);
    assert!(handle.try_authenticate("hunter2".to_string()).is_ok());
    assert!(handle.shutdown().is_ok());
    assert_eq!(attempt_of(req_rx.recv().unwrap()), "hunter2");
    assert!(matches!(req_rx.recv().unwrap(), AuthRequest::Shutdown));
    res_tx.send(AuthResult::Failure).unwrap();
    res_tx.send(AuthResult::Success).unwrap();
    assert_eq!(handle.poll_result(), Some(AuthResult::Failure));
    assert_eq!(handle.poll_result(), Some(AuthResult::Success));
    assert_eq!(handle.poll_result(), None);
}

#[test]
fn requests_come_back_from_a_dead_thread() {
    let (req_tx, req_rx) = mpsc::channel();
    let (res_tx, res_rx) = mpsc::channel();
    let mut handle = AuthHandle::new(req_tx, res_rx);
    drop(req_rx);
    drop(res_tx);
    match handle.try_authenticate("pw".to_string()) {
        Err(request) => assert_eq!(attempt_of(request), "pw"),
        Ok(()) => panic!("nobody is there to receive it"),
    }
    assert!(matches!(handle.shutdown(), Err(AuthRequest::Shutdown)));
    assert_eq!(handle.poll_result(), None);
}

#[test]
fn only_an_arrived_result_is_ready() {
    assert_eq!(ready_result(Ok(AuthResult::Error)), Some(AuthResult::Error));
    assert_eq!(ready_result(Err(PollError::Empty)), None);
    assert_eq!(ready_result(Err(PollError::Disconnected)), None);
}

#[test]
fn worker_steps() {
    match auth_thread_request(Some(AuthRequest::Attempt("pw".to_string()))) {
        WorkerStep::Authenticate(password) => assert_eq!(password, "pw"),
        _ => panic!("expected an attempt"),
    }
    assert!(matches!(auth_thread_request(Some(AuthRequest::Shutdown)), WorkerStep::Exit));
    assert!(matches!(auth_thread_request(None), WorkerStep::Exit));
    assert!(matches!(auth_thread_reply(true), WorkerStep::Wait));
    assert!(matches!(auth_thread_reply(false), WorkerStep::Exit));
}

/// Runs the auth thread's steps; `delivered[i]` says whether the i-th result
/// gets through.
fn answers(received: Vec<Option<AuthRequest>>, delivered: &[bool]) -> (Vec<String>, bool) {
    let mut answered = Vec::new();
    for request in received {
        match auth_thread_request(request) {
            WorkerStep::Authenticate(password) => {
                answered.push(password);
                match auth_thread_reply(delivered[answered.len() - 1]) {
                    WorkerStep::Wait => {}
                    _ => return (answered, true),
                }
            }
            WorkerStep::Wait => {}
            WorkerStep::Exit => return (answered, true),
        }
    }
    (answered, false)
}

#[test]
fn attempts_are_answered_in_order() {
    let attempt = |p: &str| Some(AuthRequest::Attempt(p.to_string()));
    let (answered, ended) = answers(vec![attempt("a"), attempt("b")], &[true, true]);
    assert_eq!(answered, vec!["a", "b"]);
    assert!(!ended);
    // Nothing is answered behind a shutdown or a closed channel.
    for end in [Some(AuthRequest::Shutdown), None] {
        let (answered, ended) = answers(vec![attempt("a"), end, attempt("b")], &[true, true]);
        assert_eq!(answered, vec!["a"]);
        assert!(ended);
    }
    // A result that cannot be delivered is the last.
    let (answered, ended) = answers(vec![attempt("a"), attempt("b")], &[false, true]);
    assert_eq!(answered, vec!["a"]);
    assert!(ended);
}

#[test]
fn pam_failures_are_denials_or_errors() {
    for code in 0..=31 {
        let denial = [6, 7, 10, 11, 12, 13, 16, 27].contains(&code);
        let expected = if denial { StepOutcome::Denied } else { StepOutcome::Broken };
        assert_eq!(failed_outcome(code), expected, "code {}", code);
    }
    assert_eq!(failed_outcome(-1), StepOutcome::Broken);
    assert_eq!(failed_outcome(i32::MAX), StepOutcome::Broken);
}

#[test]
fn successful_attempt() {
    let mut attempt = Attempt::new("pw".to_string());
    assert_eq!(attempt.step(), AttemptStep::OpenClient);
    attempt.advance(StepOutcome::Passed);
    assert_eq!(attempt.step(), AttemptStep::SetCredentials);
    assert_eq!(attempt.password(), "pw");
    attempt.advance(StepOutcome::Passed);
    assert_eq!(attempt.step(), AttemptStep::Authenticate);
    assert_eq!(attempt.password(), "");
    attempt.advance(StepOutcome::Passed);
    assert_eq!(attempt.step(), AttemptStep::Done(AuthResult::Success));
    attempt.advance(StepOutcome::Denied);
    assert_eq!(attempt.step(), AttemptStep::Done(AuthResult::Success));
}

#[test]
fn rejected_attempt() {
    let mut attempt = Attempt::new("pw".to_string());
    attempt.advance(StepOutcome::Passed);
    attempt.advance(StepOutcome::Passed);
    attempt.advance(StepOutcome::Denied);
    assert_eq!(attempt.step(), AttemptStep::Done(AuthResult::Failure));
    assert_eq!(attempt.password(), "");
}

#[test]
fn attempt_on_a_broken_pam() {
    let mut attempt = Attempt::new("pw".to_string());
    attempt.advance(StepOutcome::Passed);
    attempt.advance(StepOutcome::Passed);
    attempt.advance(StepOutcome::Broken);
    assert_eq!(attempt.step(), AttemptStep::Done(AuthResult::Error));
    assert_eq!(attempt.password(), "");
}

#[test]
fn attempt_without_a_client() {
    for outcome in [StepOutcome::Denied, StepOutcome::Broken] {
        let mut attempt = Attempt::new("pw".to_string());
        attempt.advance(outcome);
        assert_eq!(attempt.step(), AttemptStep::Done(AuthResult::Error));
        assert_eq!(attempt.password(), "");
    }
}

#[test]
fn wiped_secrets_are_empty() {
    let mut secret = "hunter2".to_string();
    wipe(&mut secret);
    assert_eq!(secret, "");
    wipe(&mut secret);
    assert_eq!(secret, "");
}

#[test]
fn pam_service_names() {
    assert_eq!(PAM_SERVICE_FILE, "/etc/pam.d/cryolock");
    assert_eq!(pam_service(true), "cryolock");
    assert_eq!(pam_service(false), "login");
}

#[test]
fn login_names() {
    let some = |s: &str| Some(s.to_string());
    assert_eq!(username_from_env(some("ada"), some("bob")), some("ada"));
    assert_eq!(username_from_env(None, some("bob")), some("bob"));
    assert_eq!(username_from_env(None, None), None);
    assert_eq!(username_from_account(some("eve")), "eve");
    assert_eq!(username_from_account(None), "root");
}
