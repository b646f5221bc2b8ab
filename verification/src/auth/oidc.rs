//! What the identity provider tells us, as plain values. Talking to it happens at the
//! edge; these are the shapes its answers take.
use vstd::prelude::*;

verus! {

/// Scopes requested at sign-in: the ACL model is email-only, so nothing else is asked.
pub const SCOPES: &'static str = "openid email";

/// Endpoints resolved from a provider's discovery document.
#[derive(Debug, Clone)]
pub struct ProviderMetadata {
    pub issuer: String,
    pub authorization_endpoint: String,
    pub token_endpoint: String,
    pub jwks_uri: String,
}

/// The verified identity behind a session. Only the address is retained downstream.
#[derive(Debug, Clone)]
pub struct Identity {
    pub email: String,
    pub subject: String,
}

/// Token endpoint response. `refresh_token` is absent on a refresh that reuses the
/// existing grant, which is normal and not an error.
#[derive(Debug, Clone)]
pub struct TokenResponse {
    pub id_token: Option<String>,
    pub refresh_token: Option<String>,
    pub expires_in: Option<i64>,
}

/// Why a refresh attempt failed.
#[derive(Debug, Clone)]
pub enum RefreshFailure {
    /// The provider explicitly refused: the grant is dead, the account is gone or
    /// suspended, or consent was withdrawn.
    Rejected(String),
    /// The provider could not be reached, or answered with a server error.
    Unreachable(String),
}

impl RefreshFailure {
    /// The provider's (or the library's) explanation.
    pub fn reason(&self) -> (r: &str)
        ensures
            r@ == match self {
                RefreshFailure::Rejected(reason) => reason@,
                RefreshFailure::Unreachable(reason) => reason@,
            },
    {
        match self {
            RefreshFailure::Rejected(reason) => reason.as_str(),
            RefreshFailure::Unreachable(reason) => reason.as_str(),
        }
    }

    /// Which of the two it was, as logged: during an outage that distinction is the
    /// whole diagnosis.
    pub fn kind(&self) -> (r: &'static str)
        ensures
            r@ == match self {
                RefreshFailure::Rejected(_) => "rejected"@,
                RefreshFailure::Unreachable(_) => "unreachable"@,
            },
    {
        match self {
            RefreshFailure::Rejected(_) => "rejected",
            RefreshFailure::Unreachable(_) => "unreachable",
        }
    }
}

/// The members of `body` read as JSON, when it is a JSON object: each key with the
/// member's text when the member is a string, in serde_json's key order; `None` when
/// `body` is not JSON or not an object.
pub uninterp spec fn json_members_of(body: Seq<char>) -> Option<Seq<(Seq<char>, Option<Seq<char>>)>>;

pub open spec fn members_view(v: Seq<(String, Option<String>)>) -> Seq<(Seq<char>, Option<Seq<char>>)> {
    v.map_values(|m: (String, Option<String>)| (m.0@, match m.1 {
        Some(t) => Some(t@),
        None => None,
    }))
}

/// `serde_json::from_str::<serde_json::Value>` (serde_json). Claimed: the result is
/// `json_members_of(body)`: for an object, each member as (key, its text if it is a
/// string, as `Value::as_str` gives it); nothing otherwise. What serde_json accepts as
/// JSON is its parser's to say, and no clause restates it.
#[verifier::external_body]
fn parse_json_members(body: &str) -> (r: Option<Vec<(String, Option<String>)>>)
    ensures
        match r {
            Some(v) => json_members_of(body@) == Some(members_view(v@)),
            None => json_members_of(body@) is None,
        },
{
    match serde_json::from_str::<serde_json::Value>(body) {
        Ok(serde_json::Value::Object(map)) => {
            Some(map.into_iter().map(|(k, v)| (k, v.as_str().map(str::to_string))).collect())
        },
        _ => None,
    }
}

/// The text of the first member named `key` whose value is a string, if any.
pub open spec fn string_member(members: Seq<(Seq<char>, Option<Seq<char>>)>, key: Seq<char>) -> Option<Seq<char>>
    decreases members.len(),
{
    if members.len() == 0 {
        None
    } else if members[0].0 == key {
        members[0].1
    } else {
        string_member(members.drop_first(), key)
    }
}

/// The OAuth error code of a token endpoint's error body: the `error` member when the
/// body is a JSON object whose `error` is a string, else `unspecified error`. The full
/// body can carry request parameters, so only the short machine code is ever surfaced
/// into errors and logs.
pub open spec fn summarize_error_spec(body: Seq<char>) -> Seq<char> {
    match json_members_of(body) {
        Some(members) => match string_member(members, "error"@) {
            Some(code) => code,
            None => "unspecified error"@,
        },
        None => "unspecified error"@,
    }
}

/// See [`summarize_error_spec`].
pub fn summarize_error(body: &str) -> (r: String)
    ensures
        r@ == summarize_error_spec(body@),
{
    proof {
        reveal_strlit("error");
    }
    let members = match parse_json_members(body) {
        Some(m) => m,
        None => return String::from_str("unspecified error"),
    };
    let ghost all = members_view(members@);
    assert(all.skip(0) =~= all);
    let mut i: usize = 0;
    while i < members.len()
        invariant
            i <= members.len(),
            all == members_view(members@),
            json_members_of(body@) == Some(all),
            string_member(all, "error"@) == string_member(all.skip(i as int), "error"@),
        decreases members.len() - i,
    {
        proof {
            reveal_strlit("error");
        }
        let ghost rest = all.skip(i as int);
        assert(rest[0] == all[i as int]);
        assert(rest.drop_first() =~= all.skip(i + 1));
        if crate::text::str_eq(members[i].0.as_str(), "error") {
            match &members[i].1 {
                Some(code) => return code.clone(),
                None => return String::from_str("unspecified error"),
            }
        }
        i += 1;
    }
    assert(all.skip(members@.len() as int) =~= Seq::<(Seq<char>, Option<Seq<char>>)>::empty());
    String::from_str("unspecified error")
}

} // verus!
