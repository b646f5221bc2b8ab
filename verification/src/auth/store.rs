//! The records the sidecar database holds, as everything outside it sees them.
use vstd::prelude::*;

verus! {

/// Outcome recorded for a request in the access log.
#[derive(Debug, Clone, Copy, PartialEq, Eq, Structural)]
pub enum Outcome {
    Allow,
    Deny,
    /// A request under the link prefix whose token matched no row.
    BadLink,
}

impl Outcome {
    pub open spec fn spec_str(self) -> Seq<char> {
        match self {
            Outcome::Allow => "allow"@,
            Outcome::Deny => "deny"@,
            Outcome::BadLink => "bad-link"@,
        }
    }

    pub fn as_str(self) -> (r: &'static str)
        ensures
            r@ == self.spec_str(),
    {
        match self {
            Outcome::Allow => "allow",
            Outcome::Deny => "deny",
            Outcome::BadLink => BAD_LINK_OUTCOME,
        }
    }
}

/// The access-log `outcome` value for an unknown token.
pub const BAD_LINK_OUTCOME: &'static str = "bad-link";

/// A live session row.
#[derive(Debug, Clone)]
pub struct SessionRecord {
    pub id: String,
    pub email: String,
    pub created_at: i64,
    pub last_seen_at: i64,
    pub refresh_token_enc: Option<Vec<u8>>,
}

/// One entry from the access log.
#[derive(Debug, Clone)]
pub struct AccessEntry {
    pub email: String,
    pub path: String,
    pub ts: i64,
    pub outcome: String,
}

/// One share link. Carries no token and no token hash.
#[derive(Debug, Clone)]
pub struct LinkRecord {
    /// Short public id, also the access-log pseudonym.
    pub id: String,
    /// Canonicalised site root path, stable across mount renames.
    pub site: String,
    /// Site-relative path of the shared page.
    pub path: String,
    pub expires_at: i64,
    pub created_at: i64,
    pub issued_by: String,
    pub revoked_at: Option<i64>,
}

impl LinkRecord {
    pub open spec fn spec_is_live(&self, now: i64) -> bool {
        self.revoked_at is None && self.expires_at > now
    }

    /// Whether the link is still servable on its own terms. Says nothing about the
    /// issuer's access, which is revalidated separately on every request.
    pub fn is_live(&self, now: i64) -> (r: bool)
        ensures
            r == self.spec_is_live(now),
    {
        self.revoked_at.is_none() && self.expires_at > now
    }

    pub open spec fn spec_state(&self, now: i64) -> Seq<char> {
        if self.revoked_at is Some {
            "revoked"@
        } else if self.expires_at <= now {
            "expired"@
        } else {
            "live"@
        }
    }

    /// One word for a listing: `live`, `revoked` or `expired`.
    pub fn state(&self, now: i64) -> (r: &'static str)
        ensures
            r@ == self.spec_state(now),
    {
        if self.revoked_at.is_some() {
            "revoked"
        } else if self.expires_at <= now {
            "expired"
        } else {
            "live"
        }
    }
}

/// One derived row of the rule index.
#[derive(Debug, Clone)]
pub struct RuleRow {
    pub path: String,
    pub level: String,
    pub effect: String,
    pub email: String,
}

/// Milliseconds since the Unix epoch, by the system clock (`SystemTime::now`), or 0 for
/// a clock set before 1970. Nothing is claimed of the value: it is the time.
#[verifier::external_body]
pub fn now_ms() -> i64 {
    std::time::SystemTime::now()
        .duration_since(std::time::UNIX_EPOCH)
        .map(|d| d.as_millis() as i64)
        .unwrap_or(0)
}

} // verus!
