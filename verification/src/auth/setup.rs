//! The decisions of the test sign-in that `mdshelf auth setup` drives against the
//! identity provider. Listening for the browser and talking to the provider happen at
//! the edge; each answer comes back here as an event.
use vstd::prelude::*;

use crate::auth::routes::opt_view;
use crate::text::{push_str, string_of};

verus! {

/// Where the test sign-in stands.
#[derive(Debug, Clone)]
pub enum VerifyState {
    /// The sign-in URL was shown; the browser is expected back with this `state`.
    AwaitingCallback { state_token: String, verifier: String, nonce: String },
    /// The code is being exchanged for tokens.
    AwaitingTokens { nonce: String },
    /// The ID token is being verified; whether a refresh token came with it.
    AwaitingIdentity { has_refresh_token: bool },
    /// Over, one way or the other.
    Finished,
}

/// What came back.
#[derive(Debug, Clone)]
pub enum VerifyEvent {
    /// The browser reached the callback with these `error`, `code` and `state`
    /// parameters.
    Callback { error: Option<String>, code: Option<String>, state: Option<String> },
    /// The token endpoint's answer as (ID token, refresh token), or `None` when the
    /// exchange failed.
    Tokens(Option<(Option<String>, Option<String>)>),
    /// The verified address, or `None` when verification failed.
    Identity(Option<String>),
}

/// What to do next.
#[derive(Debug, Clone)]
pub enum VerifyAction {
    /// Exchange the code, with the PKCE verifier.
    Exchange { code: String, verifier: String },
    /// Verify the ID token against the nonce.
    Verify { id_token: String, nonce: String },
    /// The configuration works: this address signed in. `note_no_refresh` asks for
    /// the note that sessions cannot be re-validated without a refresh token.
    Succeed { email: String, note_no_refresh: bool },
    /// The test failed, for this reason.
    Fail(String),
}

pub ghost enum VStateView {
    AwaitingCallback(Seq<char>, Seq<char>, Seq<char>),
    AwaitingTokens(Seq<char>),
    AwaitingIdentity(bool),
    Finished,
}

pub ghost enum VEventView {
    Callback(Option<Seq<char>>, Option<Seq<char>>, Option<Seq<char>>),
    Tokens(Option<(Option<Seq<char>>, Option<Seq<char>>)>),
    Identity(Option<Seq<char>>),
}

pub ghost enum VActionView {
    Exchange(Seq<char>, Seq<char>),
    Verify(Seq<char>, Seq<char>),
    Succeed(Seq<char>, bool),
    Fail(Seq<char>),
}

pub open spec fn vstate_view(s: VerifyState) -> VStateView {
    match s {
        VerifyState::AwaitingCallback { state_token, verifier, nonce } => VStateView::AwaitingCallback(state_token@, verifier@, nonce@),
        VerifyState::AwaitingTokens { nonce } => VStateView::AwaitingTokens(nonce@),
        VerifyState::AwaitingIdentity { has_refresh_token } => VStateView::AwaitingIdentity(has_refresh_token),
        VerifyState::Finished => VStateView::Finished,
    }
}

pub open spec fn vevent_view(e: VerifyEvent) -> VEventView {
    match e {
        VerifyEvent::Callback { error, code, state } => VEventView::Callback(opt_view(error), opt_view(code), opt_view(state)),
        VerifyEvent::Tokens(t) => VEventView::Tokens(match t {
            Some((i, r)) => Some((opt_view(i), opt_view(r))),
            None => None,
        }),
        VerifyEvent::Identity(i) => VEventView::Identity(opt_view(i)),
    }
}

pub open spec fn vaction_view(a: VerifyAction) -> VActionView {
    match a {
        VerifyAction::Exchange { code, verifier } => VActionView::Exchange(code@, verifier@),
        VerifyAction::Verify { id_token, nonce } => VActionView::Verify(id_token@, nonce@),
        VerifyAction::Succeed { email, note_no_refresh } => VActionView::Succeed(email@, note_no_refresh),
        VerifyAction::Fail(m) => VActionView::Fail(m@),
    }
}

/// The test sign-in's decisions:
/// - a callback carrying an `error` fails with the provider's words;
/// - one without `code` or `state` fails;
/// - one whose `state` is not the one sent fails;
/// - otherwise the code is exchanged;
/// - a failed exchange, a missing ID token or a failed verification fails;
/// - a verified address succeeds, with a note when no refresh token came back.
///
/// An event that does not answer the step in progress fails, and so does anything
/// after the end.
pub open spec fn verify_step_spec(s: VStateView, e: VEventView) -> (VStateView, VActionView) {
    match (s, e) {
        (VStateView::AwaitingCallback(expected, verifier, nonce), VEventView::Callback(error, code, state)) => match error {
            Some(x) => (VStateView::Finished, VActionView::Fail("Google reported: "@ + x)),
            None => match (code, state) {
                (Some(c), Some(t)) => if t == expected {
                    (VStateView::AwaitingTokens(nonce), VActionView::Exchange(c, verifier))
                } else {
                    (VStateView::Finished, VActionView::Fail("the callback carried an unexpected `state` value"@))
                },
                _ => (VStateView::Finished, VActionView::Fail("the callback was missing `code` or `state`"@)),
            },
        },
        (VStateView::AwaitingTokens(nonce), VEventView::Tokens(t)) => match t {
            None => (VStateView::Finished, VActionView::Fail("exchanging the authorization code"@)),
            Some((None, _)) => (VStateView::Finished, VActionView::Fail("Google returned no ID token"@)),
            Some((Some(id), r)) => (VStateView::AwaitingIdentity(r is Some), VActionView::Verify(id, nonce)),
        },
        (VStateView::AwaitingIdentity(has_refresh), VEventView::Identity(i)) => match i {
            Some(email) => (VStateView::Finished, VActionView::Succeed(email, !has_refresh)),
            None => (VStateView::Finished, VActionView::Fail("verifying the ID token"@)),
        },
        _ => (VStateView::Finished, VActionView::Fail("the test sign-in received an unexpected answer"@)),
    }
}

fn fail(message: &str) -> (r: (VerifyState, VerifyAction))
    ensures
        vstate_view(r.0) == VStateView::Finished,
        vaction_view(r.1) == VActionView::Fail(message@),
{
    (VerifyState::Finished, VerifyAction::Fail(String::from_str(message)))
}

/// See [`verify_step_spec`]: the next state and action of the test sign-in.
pub fn setup_verify_step(state: VerifyState, event: VerifyEvent) -> (r: (VerifyState, VerifyAction))
    ensures
        (vstate_view(r.0), vaction_view(r.1)) == verify_step_spec(vstate_view(state), vevent_view(event)),
{
    match (state, event) {
        (VerifyState::AwaitingCallback { state_token, verifier, nonce }, VerifyEvent::Callback { error, code, state }) => match error {
            Some(x) => {
                let mut m: Vec<char> = Vec::new();
                push_str(&mut m, "Google reported: ");
                push_str(&mut m, x.as_str());
                proof {
                    reveal_strlit("Google reported: ");
                }
                assert(m@ =~= "Google reported: "@ + x@);
                (VerifyState::Finished, VerifyAction::Fail(string_of(&m)))
            },
            None => match (code, state) {
                (Some(c), Some(t)) => if crate::text::str_eq(t.as_str(), state_token.as_str()) {
                    (VerifyState::AwaitingTokens { nonce }, VerifyAction::Exchange { code: c, verifier })
                } else {
                    fail("the callback carried an unexpected `state` value")
                },
                _ => fail("the callback was missing `code` or `state`"),
            },
        },
        (VerifyState::AwaitingTokens { nonce }, VerifyEvent::Tokens(t)) => match t {
            None => fail("exchanging the authorization code"),
            Some((None, _)) => fail("Google returned no ID token"),
            Some((Some(id_token), refresh)) => {
                let has = refresh.is_some();
                (VerifyState::AwaitingIdentity { has_refresh_token: has }, VerifyAction::Verify { id_token, nonce })
            },
        },
        (VerifyState::AwaitingIdentity { has_refresh_token }, VerifyEvent::Identity(i)) => match i {
            Some(email) => (VerifyState::Finished, VerifyAction::Succeed { email, note_no_refresh: !has_refresh_token }),
            None => fail("verifying the ID token"),
        },
        _ => fail("the test sign-in received an unexpected answer"),
    }
}

/// Only the provider's own answer to the request that was sent can succeed: a
/// success needs a callback carrying exactly the `state` sent, an exchange that
/// yielded an ID token, and a verified address.
pub proof fn lemma_success_needs_the_sent_state(expected: Seq<char>, verifier: Seq<char>, nonce: Seq<char>, e: VEventView)
    ensures
        (verify_step_spec(VStateView::AwaitingCallback(expected, verifier, nonce), e).1 is Exchange) <==> (
            e matches VEventView::Callback(err, c, t) && err is None && c is Some && t == Some(expected)),
        !(verify_step_spec(VStateView::AwaitingCallback(expected, verifier, nonce), e).1 is Succeed),
{
}

} // verus!
