//! The session cookie the sign-in routes set and clear, as values; the web framework
//! turns it into a header at the edge.
use vstd::prelude::*;

use crate::auth::{AuthSettings, SESSION_COOKIE};
use crate::text::{push_str, starts_with, string_of};

verus! {

/// A `Set-Cookie` for the session: always `Path=/`, `HttpOnly` and `SameSite=Lax`.
#[derive(Debug, Clone)]
pub struct SessionCookie {
    pub name: String,
    pub value: String,
    pub path: String,
    pub http_only: bool,
    /// `SameSite=Lax`.
    pub same_site_lax: bool,
    pub secure: bool,
    pub max_age_secs: u64,
}

/// The attributes a browser compares when one cookie is to replace another.
pub open spec fn cookie_scope(c: SessionCookie) -> (Seq<char>, Seq<char>, bool, bool, bool) {
    (c.name@, c.path@, c.http_only, c.same_site_lax, c.secure)
}

/// The session cookie. `Secure` is set only on an HTTPS origin, so local development
/// over loopback keeps working; it lives as long as a session may.
pub fn session_cookie(settings: &AuthSettings, value: String) -> (r: SessionCookie)
    ensures
        r.name@ == SESSION_COOKIE@,
        r.value@ == value@,
        r.path@ == "/"@,
        r.http_only,
        r.same_site_lax,
        r.secure == starts_with(settings.public_url@, "https://"@),
        r.max_age_secs == settings.session_max_age,
{
    SessionCookie {
        name: String::from_str(SESSION_COOKIE),
        value,
        path: String::from_str("/"),
        http_only: true,
        same_site_lax: true,
        secure: settings.is_secure_origin(),
        max_age_secs: settings.session_max_age,
    }
}

/// The cookie that ends a session: empty and already expired, with the attributes of
/// the live one so that the browser replaces it.
pub fn cleared_cookie(settings: &AuthSettings) -> (r: SessionCookie)
    ensures
        r.name@ == SESSION_COOKIE@,
        r.value@.len() == 0,
        r.path@ == "/"@,
        r.http_only,
        r.same_site_lax,
        r.secure == starts_with(settings.public_url@, "https://"@),
        r.max_age_secs == 0,
{
    proof {
        reveal_strlit("");
    }
    SessionCookie {
        name: String::from_str(SESSION_COOKIE),
        value: String::from_str(""),
        path: String::from_str("/"),
        http_only: true,
        same_site_lax: true,
        secure: settings.is_secure_origin(),
        max_age_secs: 0,
    }
}

/// Logging out works: for any settings, the clearing cookie has exactly the scope of
/// every live session cookie, whatever its value, so the browser overwrites it.
pub proof fn lemma_cleared_cookie_replaces_live(settings: AuthSettings, live: SessionCookie, cleared: SessionCookie, value: Seq<char>)
    requires
        live.name@ == SESSION_COOKIE@,
        live.value@ == value,
        live.path@ == "/"@,
        live.http_only,
        live.same_site_lax,
        live.secure == starts_with(settings.public_url@, "https://"@),
        cleared.name@ == SESSION_COOKIE@,
        cleared.path@ == "/"@,
        cleared.http_only,
        cleared.same_site_lax,
        cleared.secure == starts_with(settings.public_url@, "https://"@),
    ensures
        cookie_scope(live) == cookie_scope(cleared),
{
}

/// Where the sign-in callback stands between the outside calls it makes.
#[derive(Debug, Clone)]
pub enum CallbackState {
    /// The provider has just redirected the browser back.
    Received,
    /// The pending flow for the request's `state` was asked for; `code` is the
    /// authorization code that came with it.
    AwaitingFlow { code: String },
    /// The code is being exchanged for tokens.
    AwaitingTokens { nonce: String, next: String },
    /// The ID token is being verified.
    AwaitingIdentity { next: String, refresh_token: Option<String> },
    /// The session is being created.
    AwaitingSession { next: String },
}

/// What the outside world answered.
#[derive(Debug, Clone)]
pub enum CallbackEvent {
    /// The request: whether sign-in is on, and its `error`, `code` and `state` parameters.
    Query { auth_enabled: bool, error: Option<String>, code: Option<String>, state: Option<String> },
    /// The pending flow, as (PKCE verifier, nonce, where to go next), if the state
    /// named a live one; taking it consumes it.
    Flow(Option<(String, String, String)>),
    /// The token endpoint's answer as (ID token, refresh token), or `None` when the
    /// exchange failed.
    Tokens(Option<(Option<String>, Option<String>)>),
    /// The verified address behind the ID token, or `None` when verification failed.
    Identity(Option<String>),
    /// The new session's id, or `None` when it could not be created.
    Session(Option<String>),
}

/// What the callback does next.
#[derive(Debug, Clone)]
pub enum CallbackAction {
    /// Answer with this status and text; the sign-in is over.
    Respond { status: u16, body: String },
    /// Take (and so consume) the pending flow for this `state`.
    TakeFlow { state_token: String, then: CallbackState },
    /// Exchange the code, with the flow's PKCE verifier.
    Exchange { code: String, verifier: String, then: CallbackState },
    /// Verify the ID token against the flow's nonce.
    Verify { id_token: String, nonce: String, then: CallbackState },
    /// Create a session for the address, keeping the refresh token if there is one.
    CreateSession { email: String, refresh_token: Option<String>, then: CallbackState },
    /// Set the session cookie to this id and redirect to `next`.
    SignIn { session_id: String, next: String },
}

pub ghost enum StateView {
    Received,
    AwaitingFlow(Seq<char>),
    AwaitingTokens(Seq<char>, Seq<char>),
    AwaitingIdentity(Seq<char>, Option<Seq<char>>),
    AwaitingSession(Seq<char>),
}

pub ghost enum EventView {
    Query(bool, Option<Seq<char>>, Option<Seq<char>>, Option<Seq<char>>),
    Flow(Option<(Seq<char>, Seq<char>, Seq<char>)>),
    Tokens(Option<(Option<Seq<char>>, Option<Seq<char>>)>),
    Identity(Option<Seq<char>>),
    Session(Option<Seq<char>>),
}

pub ghost enum ActionView {
    Respond(u16, Seq<char>),
    TakeFlow(Seq<char>, StateView),
    Exchange(Seq<char>, Seq<char>, StateView),
    Verify(Seq<char>, Seq<char>, StateView),
    CreateSession(Seq<char>, Option<Seq<char>>, StateView),
    SignIn(Seq<char>, Seq<char>),
}

pub open spec fn opt_view(o: Option<String>) -> Option<Seq<char>> {
    match o {
        Some(s) => Some(s@),
        None => None,
    }
}

pub open spec fn state_view(s: CallbackState) -> StateView {
    match s {
        CallbackState::Received => StateView::Received,
        CallbackState::AwaitingFlow { code } => StateView::AwaitingFlow(code@),
        CallbackState::AwaitingTokens { nonce, next } => StateView::AwaitingTokens(nonce@, next@),
        CallbackState::AwaitingIdentity { next, refresh_token } => StateView::AwaitingIdentity(next@, opt_view(refresh_token)),
        CallbackState::AwaitingSession { next } => StateView::AwaitingSession(next@),
    }
}

pub open spec fn event_view(e: CallbackEvent) -> EventView {
    match e {
        CallbackEvent::Query { auth_enabled, error, code, state } => EventView::Query(auth_enabled, opt_view(error), opt_view(code), opt_view(state)),
        CallbackEvent::Flow(f) => EventView::Flow(match f {
            Some((v, n, x)) => Some((v@, n@, x@)),
            None => None,
        }),
        CallbackEvent::Tokens(t) => EventView::Tokens(match t {
            Some((i, r)) => Some((opt_view(i), opt_view(r))),
            None => None,
        }),
        CallbackEvent::Identity(i) => EventView::Identity(opt_view(i)),
        CallbackEvent::Session(s) => EventView::Session(opt_view(s)),
    }
}

pub open spec fn action_view(a: CallbackAction) -> ActionView {
    match a {
        CallbackAction::Respond { status, body } => ActionView::Respond(status, body@),
        CallbackAction::TakeFlow { state_token, then } => ActionView::TakeFlow(state_token@, state_view(then)),
        CallbackAction::Exchange { code, verifier, then } => ActionView::Exchange(code@, verifier@, state_view(then)),
        CallbackAction::Verify { id_token, nonce, then } => ActionView::Verify(id_token@, nonce@, state_view(then)),
        CallbackAction::CreateSession { email, refresh_token, then } => ActionView::CreateSession(email@, opt_view(refresh_token), state_view(then)),
        CallbackAction::SignIn { session_id, next } => ActionView::SignIn(session_id@, next@),
    }
}

/// The answer to an unknown, replayed or expired `state`: one text for all three, so
/// the caller cannot tell them apart.
pub const EXPIRED_FLOW: &'static str = "This sign-in link has expired or was already used. Please start again.";

/// The answer to every failure after the flow was found.
pub const SIGN_IN_FAILED: &'static str = "Sign-in failed.";

/// The sign-in callback's decisions. Without sign-in the route does not exist; a
/// provider-reported error ends it (401); without both `code` and `state` it is a bad
/// request; an unknown, replayed or expired state gets one 400 answer; a failed
/// exchange, a missing ID token or a failed verification is a 401, and a session that
/// could not be created a 500; otherwise the browser gets the cookie and is sent on to
/// where it was going. An event that does not answer the step in progress is a 500.
pub open spec fn callback_spec(s: StateView, e: EventView) -> ActionView {
    match (s, e) {
        (StateView::Received, EventView::Query(enabled, error, code, state)) => if !enabled {
            ActionView::Respond(404, Seq::empty())
        } else {
            match error {
                Some(x) => ActionView::Respond(401, "Sign-in did not complete: "@ + x),
                None => match (code, state) {
                    (Some(c), Some(t)) => ActionView::TakeFlow(t, StateView::AwaitingFlow(c)),
                    _ => ActionView::Respond(400, "missing `code` or `state`"@),
                },
            }
        },
        (StateView::AwaitingFlow(c), EventView::Flow(f)) => match f {
            None => ActionView::Respond(400, EXPIRED_FLOW@),
            Some((v, n, x)) => ActionView::Exchange(c, v, StateView::AwaitingTokens(n, x)),
        },
        (StateView::AwaitingTokens(n, x), EventView::Tokens(t)) => match t {
            Some((Some(id), r)) => ActionView::Verify(id, n, StateView::AwaitingIdentity(x, r)),
            _ => ActionView::Respond(401, SIGN_IN_FAILED@),
        },
        (StateView::AwaitingIdentity(x, r), EventView::Identity(i)) => match i {
            Some(email) => ActionView::CreateSession(email, r, StateView::AwaitingSession(x)),
            None => ActionView::Respond(401, SIGN_IN_FAILED@),
        },
        (StateView::AwaitingSession(x), EventView::Session(id)) => match id {
            Some(sid) => ActionView::SignIn(sid, x),
            None => ActionView::Respond(500, SIGN_IN_FAILED@),
        },
        _ => ActionView::Respond(500, SIGN_IN_FAILED@),
    }
}

fn respond(status: u16, body: &str) -> (r: CallbackAction)
    ensures
        action_view(r) == ActionView::Respond(status, body@),
{
    CallbackAction::Respond { status, body: String::from_str(body) }
}

/// See [`callback_spec`]: the next step of the sign-in callback.
pub fn callback_step(state: CallbackState, event: CallbackEvent) -> (r: CallbackAction)
    ensures
        action_view(r) == callback_spec(state_view(state), event_view(event)),
{
    proof {
        reveal_strlit("");
        reveal_strlit("missing `code` or `state`");
    }
    match (state, event) {
        (CallbackState::Received, CallbackEvent::Query { auth_enabled, error, code, state }) => {
            if !auth_enabled {
                assert(""@ =~= Seq::<char>::empty());
                return respond(404, "");
            }
            match error {
                Some(x) => {
                    let mut m: Vec<char> = Vec::new();
                    push_str(&mut m, "Sign-in did not complete: ");
                    push_str(&mut m, x.as_str());
                    proof {
                        reveal_strlit("Sign-in did not complete: ");
                    }
                    assert(m@ =~= "Sign-in did not complete: "@ + x@);
                    CallbackAction::Respond { status: 401, body: string_of(&m) }
                },
                None => match (code, state) {
                    (Some(c), Some(t)) => CallbackAction::TakeFlow {
                        state_token: t,
                        then: CallbackState::AwaitingFlow { code: c },
                    },
                    _ => respond(400, "missing `code` or `state`"),
                },
            }
        },
        (CallbackState::AwaitingFlow { code }, CallbackEvent::Flow(f)) => match f {
            None => respond(400, EXPIRED_FLOW),
            Some((verifier, nonce, next)) => CallbackAction::Exchange {
                code,
                verifier,
                then: CallbackState::AwaitingTokens { nonce, next },
            },
        },
        (CallbackState::AwaitingTokens { nonce, next }, CallbackEvent::Tokens(t)) => match t {
            Some((Some(id_token), refresh_token)) => CallbackAction::Verify {
                id_token,
                nonce,
                then: CallbackState::AwaitingIdentity { next, refresh_token },
            },
            _ => respond(401, SIGN_IN_FAILED),
        },
        (CallbackState::AwaitingIdentity { next, refresh_token }, CallbackEvent::Identity(i)) => match i {
            Some(email) => CallbackAction::CreateSession {
                email,
                refresh_token,
                then: CallbackState::AwaitingSession { next },
            },
            None => respond(401, SIGN_IN_FAILED),
        },
        (CallbackState::AwaitingSession { next }, CallbackEvent::Session(id)) => match id {
            Some(session_id) => CallbackAction::SignIn { session_id, next },
            None => respond(500, SIGN_IN_FAILED),
        },
        _ => respond(500, SIGN_IN_FAILED),
    }
}

} // verus!
