use mdshelf::auth::setup::{setup_verify_step, VerifyAction, VerifyEvent, VerifyState};
use mdshelf::auth::crypto::{pkce_challenge, random_token};
use mdshelf::auth::routes::{callback_step, CallbackAction, CallbackEvent, CallbackState};

#[test]
fn pkce_challenge_matches_rfc7636_example() {
    let verifier = "dBjftJeZ4CVP-mB92K27uhbUJU1p1r_wW1gFWFOEjXk";
    assert_eq!(pkce_challenge(verifier), "E9Melhoa2OwvFrEMTJguCHaoeK1t8URWbuGJSstw-cM");
}

#[test]
fn random_tokens_are_unique() {
    assert_ne!(random_token(32), random_token(32));
    assert_eq!(random_token(32).len(), 43);
}

fn query(enabled: bool, error: Option<&str>, code: Option<&str>, state: Option<&str>) -> CallbackEvent {
    CallbackEvent::Query {
        auth_enabled: enabled,
        error: error.map(str::to_string),
        code: code.map(str::to_string),
        state: state.map(str::to_string),
    }
}

fn respond(action: CallbackAction) -> (u16, String) {
    match action {
        CallbackAction::Respond { status, body } => (status, body),
        other => panic!("expected an answer, got {other:?}"),
    }
}

#[test]
fn a_complete_sign_in_walks_every_step_and_ends_at_the_next_url() {
    let CallbackAction::TakeFlow { state_token, then } =
        callback_step(CallbackState::Received, query(true, None, Some("c0de"), Some("st4te")))
    else {
        panic!("expected the flow to be taken");
    };
    assert_eq!(state_token, "st4te");
    let flow = Some(("verifier".to_string(), "nonce".to_string(), "/docs/hr".to_string()));
    let CallbackAction::Exchange { code, verifier, then } = callback_step(then, CallbackEvent::Flow(flow)) else {
        panic!("expected an exchange");
    };
    assert_eq!((code.as_str(), verifier.as_str()), ("c0de", "verifier"));
    let tokens = Some((Some("id.token".to_string()), Some("refresh".to_string())));
    let CallbackAction::Verify { id_token, nonce, then } = callback_step(then, CallbackEvent::Tokens(tokens)) else {
        panic!("expected verification");
    };
    assert_eq!((id_token.as_str(), nonce.as_str()), ("id.token", "nonce"));
    let CallbackAction::CreateSession { email, refresh_token, then } =
        callback_step(then, CallbackEvent::Identity(Some("ana@corp.com".to_string())))
    else {
        panic!("expected a session");
    };
    assert_eq!(email, "ana@corp.com");
    assert_eq!(refresh_token.as_deref(), Some("refresh"));
    let CallbackAction::SignIn { session_id, next } =
        callback_step(then, CallbackEvent::Session(Some("sid".to_string())))
    else {
        panic!("expected the sign-in");
    };
    assert_eq!((session_id.as_str(), next.as_str()), ("sid", "/docs/hr"));
}

#[test]
fn every_failure_of_the_callback_gets_its_own_answer() {
    assert_eq!(respond(callback_step(CallbackState::Received, query(false, None, Some("c"), Some("s")))).0, 404);
    assert_eq!(
        respond(callback_step(CallbackState::Received, query(true, Some("access_denied"), None, None))),
        (401, "Sign-in did not complete: access_denied".to_string())
    );
    assert_eq!(
        respond(callback_step(CallbackState::Received, query(true, None, Some("c"), None))),
        (400, "missing `code` or `state`".to_string())
    );
    let expired = respond(callback_step(
        CallbackState::AwaitingFlow { code: "c".to_string() },
        CallbackEvent::Flow(None),
    ));
    assert_eq!(
        expired,
        (400, "This sign-in link has expired or was already used. Please start again.".to_string())
    );
    let waiting = || CallbackState::AwaitingTokens { nonce: "n".to_string(), next: "/".to_string() };
    assert_eq!(respond(callback_step(waiting(), CallbackEvent::Tokens(None))), (401, "Sign-in failed.".to_string()));
    assert_eq!(
        respond(callback_step(waiting(), CallbackEvent::Tokens(Some((None, None))))),
        (401, "Sign-in failed.".to_string())
    );
    let verifying = CallbackState::AwaitingIdentity { next: "/".to_string(), refresh_token: None };
    assert_eq!(respond(callback_step(verifying, CallbackEvent::Identity(None))).0, 401);
    let creating = CallbackState::AwaitingSession { next: "/".to_string() };
    assert_eq!(respond(callback_step(creating, CallbackEvent::Session(None))), (500, "Sign-in failed.".to_string()));
}

#[test]
fn the_test_sign_in_accepts_only_its_own_state_and_notes_a_missing_refresh_token() {
    let waiting = || VerifyState::AwaitingCallback {
        state_token: "s1".to_string(),
        verifier: "v".to_string(),
        nonce: "n".to_string(),
    };
    let callback = |error: Option<&str>, code: Option<&str>, state: Option<&str>| VerifyEvent::Callback {
        error: error.map(str::to_string),
        code: code.map(str::to_string),
        state: state.map(str::to_string),
    };
    let (next, action) = setup_verify_step(waiting(), callback(None, Some("c"), Some("s1")));
    assert!(matches!(action, VerifyAction::Exchange { ref code, ref verifier } if code == "c" && verifier == "v"));
    let (next, action) =
        setup_verify_step(next, VerifyEvent::Tokens(Some((Some("idt".to_string()), None))));
    assert!(matches!(action, VerifyAction::Verify { ref id_token, ref nonce } if id_token == "idt" && nonce == "n"));
    let (_, action) = setup_verify_step(next, VerifyEvent::Identity(Some("ana@corp.com".to_string())));
    assert!(matches!(action, VerifyAction::Succeed { ref email, note_no_refresh: true } if email == "ana@corp.com"));

    let fail = |action: VerifyAction| match action {
        VerifyAction::Fail(message) => message,
        other => panic!("expected a failure, got {other:?}"),
    };
    assert_eq!(
        fail(setup_verify_step(waiting(), callback(None, Some("c"), Some("other"))).1),
        "the callback carried an unexpected `state` value"
    );
    assert_eq!(fail(setup_verify_step(waiting(), callback(Some("access_denied"), None, None)).1), "Google reported: access_denied");
    assert_eq!(fail(setup_verify_step(waiting(), callback(None, None, Some("s1"))).1), "the callback was missing `code` or `state`");
    let tokens = || VerifyState::AwaitingTokens { nonce: "n".to_string() };
    assert_eq!(fail(setup_verify_step(tokens(), VerifyEvent::Tokens(None)).1), "exchanging the authorization code");
    assert_eq!(fail(setup_verify_step(tokens(), VerifyEvent::Tokens(Some((None, None)))).1), "Google returned no ID token");
    let identity = VerifyState::AwaitingIdentity { has_refresh_token: true };
    assert_eq!(fail(setup_verify_step(identity, VerifyEvent::Identity(None)).1), "verifying the ID token");
}
