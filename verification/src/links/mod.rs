//! Share links: a bearer credential that reaches exactly one page for a bounded time.
//!
//! A token is shown once and never stored; only its SHA-256 is. The short public id
//! is derived from that hash, so nothing printed or logged discloses the token.
use vstd::prelude::*;

use crate::auth::crypto::{base64url, base64url_of, sha256, sha256_of};
use crate::config::{
    duration_or, duration_spec, mount_spec, normalize_mount, parse_duration, LinksConfig,
};
use crate::text::{
    chars_of, decimal, push_decimal, push_padded, push_str, string_of, trim_end_char,
    zero_padded,
};
use crate::links::time::{
    civil_from_days, civil_from_days_spec, days_in_range, format_instant, format_instant_spec,
    parse_until, parse_until_spec, until_panics,
};
use crate::config::DurationError;
use crate::acl::index::trim_end_char_vec;

pub mod commands;
pub mod control;
pub mod pages;
pub mod time;

verus! {

/// Random bytes in a token.
pub const TOKEN_BYTES: usize = 16;

/// Length of the unpadded base64url encoding of a token.
pub const TOKEN_CHARS: usize = 22;

/// Bytes of the token hash that become the public link id.
pub const ID_BYTES: usize = 3;

/// The pseudonym an unknown token is recorded under: constant, so nothing derived from
/// the presented token reaches the database.
pub const BAD_LINK_PSEUDONYM: &'static str = "link:unknown";

/// `rand::fill` on a byte buffer. Claimed: the buffer keeps its length; its contents
/// are whatever the thread's CSPRNG produced, of which nothing is said.
#[verifier::external_body]
pub(crate) fn fill_random(buf: &mut Vec<u8>)
    ensures
        final(buf)@.len() == old(buf)@.len(),
{
    rand::fill(&mut buf[..]);
}

/// A freshly minted token, shown once and never recoverable. It has no `Debug`, no
/// `Clone` and no way to print it but `expose`.
pub struct LinkToken {
    value: String,
}

impl LinkToken {
    /// The token's text.
    pub closed spec fn text(&self) -> Seq<char> {
        self.value@
    }

    /// A new token: sixteen bytes from the OS CSPRNG, base64url-encoded.
    pub fn generate() -> (t: LinkToken)
        ensures
            exists|bytes: Seq<u8>| bytes.len() == TOKEN_BYTES && t.text() == base64url_of(bytes),
            wellformed_token(t.text()),
    {
        let mut buf: Vec<u8> = Vec::new();
        let mut i: usize = 0;
        while i < TOKEN_BYTES
            invariant
                i <= TOKEN_BYTES,
                buf.len() == i,
            decreases TOKEN_BYTES - i,
        {
            buf.push(0u8);
            i += 1;
        }
        fill_random(&mut buf);
        let value = base64url(buf.as_slice());
        assert forall|i: int| 0 <= i < value@.len() implies token_char(#[trigger] value@[i]) by {
            assert(crate::auth::crypto::base64url_char(value@[i]));
        }
        LinkToken { value }
    }

    /// A token from text already in hand.
    pub fn from_text(value: &str) -> (t: LinkToken)
        ensures
            t.text() == value@,
    {
        LinkToken { value: value.to_owned() }
    }

    /// The plaintext token. Only the line that prints the URL may call this.
    pub fn expose(&self) -> (r: &str)
        ensures
            r@ == self.text(),
    {
        self.value.as_str()
    }

    /// `sha256(token)`, the only form that is ever stored.
    pub fn hash(&self) -> (r: Vec<u8>)
        ensures
            r@ == token_hash_spec(self.text()),
            r@.len() == 32,
    {
        token_hash(self.value.as_str())
    }

    /// The public id, derived from the hash so it reveals nothing about the token.
    pub fn id(&self) -> (r: String)
        ensures
            r@ == link_id_spec(token_hash_spec(self.text())),
    {
        let h = self.hash();
        link_id(h.as_slice())
    }
}

/// The SHA-256 of a token's UTF-8 bytes.
pub open spec fn token_hash_spec(token: Seq<char>) -> Seq<u8> {
    sha256_of(vstd::utf8::encode_utf8(token))
}

/// `sha256(token)`.
pub fn token_hash(token: &str) -> (r: Vec<u8>)
    ensures
        r@ == token_hash_spec(token@),
        r@.len() == 32,
{
    sha256(token.as_bytes())
}

/// A lowercase hexadecimal digit.
pub open spec fn hex_digit(d: int) -> char {
    if d < 10 {
        ((48 + d) as u32) as char
    } else {
        ((87 + d) as u32) as char
    }
}

/// The first `ID_BYTES` bytes of `hash`, as two lowercase hex digits each.
pub open spec fn link_id_spec(hash: Seq<u8>) -> Seq<char>
    decreases hash.len(),
{
    let n = if hash.len() < ID_BYTES { hash.len() } else { ID_BYTES as nat };
    if n == 0 {
        Seq::empty()
    } else {
        link_id_spec(hash.take(n - 1)) + seq![
            hex_digit(hash[n - 1] as int / 16),
            hex_digit(hash[n - 1] as int % 16),
        ]
    }
}

fn hex_exec(d: u8) -> (c: char)
    requires
        d < 16,
    ensures
        c == hex_digit(d as int),
{
    let b: u8 = if d < 10 { 48u8 + d } else { 87u8 + d };
    b as char
}

/// The short id used in listings, in `share revoke`, and as the access-log pseudonym.
pub fn link_id(hash: &[u8]) -> (r: String)
    ensures
        r@ == link_id_spec(hash@),
{
    let n: usize = if hash.len() < ID_BYTES { hash.len() } else { ID_BYTES };
    let mut out: Vec<char> = Vec::new();
    let mut i: usize = 0;
    while i < n
        invariant
            i <= n <= hash@.len(),
            n <= ID_BYTES,
            out@ == link_id_spec(hash@.take(i as int)),
        decreases n - i,
    {
        let b = hash[i];
        out.push(hex_exec(b / 16));
        out.push(hex_exec(b % 16));
        assert(hash@.take(i + 1).take(i as int) =~= hash@.take(i as int));
        assert(out@ =~= link_id_spec(hash@.take(i + 1)));
        i += 1;
    }
    proof {
        if hash@.len() > ID_BYTES {
            assert(hash@.take(ID_BYTES as int).take(ID_BYTES - 1) =~= hash@.take(ID_BYTES - 1));
            assert(link_id_spec(hash@) == link_id_spec(hash@.take(ID_BYTES as int)));
        } else {
            assert(hash@.take(n as int) =~= hash@);
        }
    }
    string_of(&out)
}

/// The pseudonym a link read is recorded under in the access log.
pub fn link_pseudonym(id: &str) -> (r: String)
    ensures
        r@ == "link:"@ + id@,
{
    let mut out: Vec<char> = Vec::new();
    push_str(&mut out, "link:");
    push_str(&mut out, id);
    string_of(&out)
}

pub open spec fn token_char(c: char) -> bool {
    ('0' <= c <= '9') || ('a' <= c <= 'z') || ('A' <= c <= 'Z') || c == '-' || c == '_'
}

/// Twenty-two characters of the base64url alphabet.
pub open spec fn wellformed_token(s: Seq<char>) -> bool {
    s.len() == TOKEN_CHARS && forall|i: int| 0 <= i < s.len() ==> token_char(#[trigger] s[i])
}

/// Whether a path segment could be a token at all. Used only to bound the work done
/// for junk: a well-formed token that matches no link is answered exactly like a
/// malformed one.
pub fn is_wellformed_token(candidate: &str) -> (r: bool)
    ensures
        r == wellformed_token(candidate@),
{
    let v = chars_of(candidate);
    if v.len() != TOKEN_CHARS {
        return false;
    }
    let mut i: usize = 0;
    while i < v.len()
        invariant
            i <= v.len(),
            v@ == candidate@,
            forall|j: int| 0 <= j < i ==> token_char(#[trigger] v@[j]),
        decreases v.len() - i,
    {
        let c = v[i];
        if !(('0' <= c && c <= '9') || ('a' <= c && c <= 'z') || ('A' <= c && c <= 'Z') || c
            == '-' || c == '_') {
            return false;
        }
        i += 1;
    }
    true
}

/// Resolved `[links]` settings; lifetimes are in seconds.
#[derive(Debug, Clone)]
pub struct LinkSettings {
    /// The incident kill switch: rows survive, nothing serves.
    pub enabled: bool,
    /// Route prefix, normalized like a site mount.
    pub prefix: String,
    pub default_lifetime: u64,
    pub max_lifetime: u64,
    pub revoked_retention: u64,
}

impl Default for LinkSettings {
    fn default() -> (r: LinkSettings)
        ensures
            r.enabled,
            r.prefix@ == "/s"@,
            r.default_lifetime == DEFAULT_LINK_LIFETIME,
            r.max_lifetime == DEFAULT_MAX_LIFETIME,
            r.revoked_retention == DEFAULT_REVOKED_RETENTION,
    {
        LinkSettings::defaults()
    }
}

/// Seconds in a day: how long a link lives when nobody says.
pub const DEFAULT_LINK_LIFETIME: u64 = 86_400;
/// Seconds in thirty days: the longest a link may live when nobody says.
pub const DEFAULT_MAX_LIFETIME: u64 = 2_592_000;
/// Seconds in ninety days: how long revoked links are kept.
pub const DEFAULT_REVOKED_RETENTION: u64 = 7_776_000;

/// What a `[links]` section resolves to.
pub open spec fn settings_from(links: LinksConfig, s: LinkSettings) -> bool {
    &&& s.enabled == links.enabled
    &&& s.prefix@ == match mount_spec(links.prefix@) {
        Ok(m) => m,
        Err(_) => "/s"@,
    }
    &&& s.default_lifetime as nat == duration_or(links.default_lifetime@, DEFAULT_LINK_LIFETIME as nat)
    &&& s.max_lifetime as nat == duration_or(links.max_lifetime@, DEFAULT_MAX_LIFETIME as nat)
    &&& s.revoked_retention as nat == duration_or(
        links.revoked_retention@,
        DEFAULT_REVOKED_RETENTION as nat,
    )
}

fn duration_with_default(raw: &str, fallback: u64) -> (r: u64)
    ensures
        r as nat == duration_or(raw@, fallback as nat),
{
    match parse_duration(raw) {
        Ok(secs) => secs,
        Err(_) => fallback,
    }
}

impl LinkSettings {
    /// Resolve a `[links]` section. Durations were validated at load time, so the
    /// fallbacks are never reached by a configuration mdshelf accepted.
    pub fn from_links_config(links: &LinksConfig) -> (r: LinkSettings)
        ensures
            settings_from(*links, r),
    {
        let prefix = match normalize_mount(links.prefix.as_str()) {
            Ok(m) => m,
            Err(_) => String::from_str("/s"),
        };
        LinkSettings {
            enabled: links.enabled,
            prefix,
            default_lifetime: duration_with_default(
                links.default_lifetime.as_str(),
                DEFAULT_LINK_LIFETIME,
            ),
            max_lifetime: duration_with_default(links.max_lifetime.as_str(), DEFAULT_MAX_LIFETIME),
            revoked_retention: duration_with_default(
                links.revoked_retention.as_str(),
                DEFAULT_REVOKED_RETENTION,
            ),
        }
    }

    /// Resolve from a loaded configuration; no `[links]` section means the defaults.
    pub fn from_config(config: &crate::config::Config) -> (r: LinkSettings)
        ensures
            match config.links {
                Some(l) => settings_from(l, r),
                None => r.enabled && r.prefix@ == "/s"@ && r.default_lifetime
                    == DEFAULT_LINK_LIFETIME && r.max_lifetime == DEFAULT_MAX_LIFETIME
                    && r.revoked_retention == DEFAULT_REVOKED_RETENTION,
            },
    {
        match &config.links {
            Some(l) => LinkSettings::from_links_config(l),
            None => LinkSettings::defaults(),
        }
    }

    /// The settings of an empty `[links]` section.
    pub fn defaults() -> (r: LinkSettings)
        ensures
            r.enabled,
            r.prefix@ == "/s"@,
            r.default_lifetime == DEFAULT_LINK_LIFETIME,
            r.max_lifetime == DEFAULT_MAX_LIFETIME,
            r.revoked_retention == DEFAULT_REVOKED_RETENTION,
    {
        LinkSettings {
            enabled: true,
            prefix: String::from_str("/s"),
            default_lifetime: DEFAULT_LINK_LIFETIME,
            max_lifetime: DEFAULT_MAX_LIFETIME,
            revoked_retention: DEFAULT_REVOKED_RETENTION,
        }
    }

    /// The URL of a link, given the origin browsers reach this server on.
    pub fn url(&self, base_url: &str, token: &LinkToken) -> (r: String)
        ensures
            r@ == trim_end_char(base_url@, '/') + self.prefix@ + "/"@ + token.text(),
    {
        let b = chars_of(base_url);
        let trimmed = trim_end_char_vec(&b, '/');
        let mut out: Vec<char> = Vec::new();
        crate::text::push_all(&mut out, &trimmed);
        push_str(&mut out, self.prefix.as_str());
        push_str(&mut out, "/");
        push_str(&mut out, token.expose());
        string_of(&out)
    }

    /// Whether `path` is routed to the link handler: the prefix itself or anything
    /// under it.
    pub fn owns_path(&self, path: &str) -> (r: bool)
        ensures
            r == (path@ == self.prefix@ || crate::text::starts_with(path@, self.prefix@ + "/"@)),
    {
        let p = chars_of(path);
        let mut under: Vec<char> = Vec::new();
        push_str(&mut under, self.prefix.as_str());
        push_str(&mut under, "/");
        if crate::text::str_eq(path, self.prefix.as_str()) {
            return true;
        }
        let r = under.len() <= p.len() && crate::text::range_eq(&p, 0, under.len(), &under, 0, under.len());
        proof {
            if under@.len() <= p@.len() {
                assert(under@.subrange(0, under@.len() as int) =~= under@);
            }
        }
        r
    }
}

/// Why an expiry was refused.
#[derive(Debug, Clone)]
pub enum ExpiryError {
    /// Both `--for` and `--until` were given.
    Both,
    /// `--for` is not a duration.
    ForInvalid(DurationError),
    /// `--until` names no instant.
    UntilInvalid(String),
    /// The expiry is not after now; carries the expiry.
    Past(i64),
    /// The link would outlive the configured cap; carries the cap in seconds.
    TooLong(u64),
}

/// An `ExpiryError` as values.
pub enum ExpiryProblem {
    Both,
    ForInvalid(DurationError),
    UntilInvalid,
    Past(int),
    TooLong(nat),
}

impl ExpiryError {
    pub open spec fn problem(&self) -> ExpiryProblem {
        match self {
            ExpiryError::Both => ExpiryProblem::Both,
            ExpiryError::ForInvalid(e) => ExpiryProblem::ForInvalid(*e),
            ExpiryError::UntilInvalid(_) => ExpiryProblem::UntilInvalid,
            ExpiryError::Past(at) => ExpiryProblem::Past(*at as int),
            ExpiryError::TooLong(cap) => ExpiryProblem::TooLong(*cap as nat),
        }
    }
}

/// Optional text as a value.
pub open spec fn opt_text(o: Option<&str>) -> Option<Seq<char>> {
    match o {
        Some(s) => Some(s@),
        None => None,
    }
}

/// The expiry a request asks for, before the cap and the clock are consulted.
pub open spec fn requested_expiry(
    default_lifetime: nat,
    for_duration: Option<Seq<char>>,
    until: Option<Seq<char>>,
    now: int,
) -> Result<int, ExpiryProblem> {
    match for_duration {
        Some(raw) => match duration_spec(raw) {
            Ok(secs) => Ok(now + secs * 1000),
            Err(e) => Err(ExpiryProblem::ForInvalid(e)),
        },
        None => match until {
            Some(raw) => match parse_until_spec(raw) {
                Some(ms) => Ok(ms),
                None => Err(ExpiryProblem::UntilInvalid),
            },
            None => Ok(now + default_lifetime * 1000),
        },
    }
}

/// The expiry instant a request asks for, or the rule it broke.
pub open spec fn expiry_spec(
    s: LinkSettings,
    for_duration: Option<Seq<char>>,
    until: Option<Seq<char>>,
    now: int,
) -> Result<int, ExpiryProblem> {
    if for_duration is Some && until is Some {
        Err(ExpiryProblem::Both)
    } else {
        match requested_expiry(s.default_lifetime as nat, for_duration, until, now) {
            Err(p) => Err(p),
            Ok(at) => if at <= now {
                Err(ExpiryProblem::Past(at))
            } else if at - now > s.max_lifetime * 1000 {
                Err(ExpiryProblem::TooLong(s.max_lifetime as nat))
            } else {
                Ok(at)
            },
        }
    }
}

pub open spec fn fits_i64(x: int) -> bool {
    i64::MIN <= x <= i64::MAX
}

/// The arithmetic of `resolve_expiry` stays within 64 bits, and `--until` is text that
/// `parse_until` can read without slicing through a character.
pub open spec fn expiry_computable(
    s: LinkSettings,
    for_duration: Option<Seq<char>>,
    until: Option<Seq<char>>,
    now: int,
) -> bool {
    &&& fits_i64(s.max_lifetime * 1000)
    &&& fits_i64(s.default_lifetime * 1000)
    &&& fits_i64(now + s.default_lifetime * 1000)
    &&& (for_duration matches Some(raw) ==> (duration_spec(raw) matches Ok(secs) ==> fits_i64(
        (secs * 1000) as int,
    ) && fits_i64(now + secs * 1000)))
    &&& (until matches Some(raw) ==> !until_panics(raw) && (parse_until_spec(raw) matches Some(
        ms,
    ) ==> fits_i64(ms - now)))
}

/// The expiry instant a request asks for, or an error naming the rule it broke. One
/// implementation, shared by `mdshelf share` and the mint endpoint, so the cap the
/// browser enforces and the cap the server enforces cannot drift apart.
pub fn resolve_expiry(
    settings: &LinkSettings,
    for_duration: Option<&str>,
    until: Option<&str>,
    now: i64,
) -> (r: Result<i64, ExpiryError>)
    requires
        expiry_computable(*settings, opt_text(for_duration), opt_text(until), now as int),
    ensures
        match r {
            Ok(at) => expiry_spec(*settings, opt_text(for_duration), opt_text(until), now as int)
                == Ok::<int, ExpiryProblem>(at as int),
            Err(e) => expiry_spec(*settings, opt_text(for_duration), opt_text(until), now as int)
                == Err::<int, ExpiryProblem>(e.problem()),
        },
{
    if for_duration.is_some() && until.is_some() {
        return Err(ExpiryError::Both);
    }
    let expires_at: i64 = match for_duration {
        Some(raw) => match parse_duration(raw) {
            Ok(secs) => now + (secs * 1000) as i64,
            Err(e) => return Err(ExpiryError::ForInvalid(e)),
        },
        None => match until {
            Some(raw) => match parse_until(raw) {
                Ok(ms) => ms,
                Err(message) => return Err(ExpiryError::UntilInvalid(message)),
            },
            None => now + (settings.default_lifetime * 1000) as i64,
        },
    };
    if expires_at <= now {
        return Err(ExpiryError::Past(expires_at));
    }
    if expires_at - now > (settings.max_lifetime * 1000) as i64 {
        return Err(ExpiryError::TooLong(settings.max_lifetime));
    }
    Ok(expires_at)
}

/// A lifetime cap as the refusal names it: whole days when it has any, else seconds.
pub open spec fn cap_text(secs: nat) -> Seq<char> {
    if secs / 86_400 > 0 {
        decimal(secs / 86_400) + "d"@
    } else {
        decimal(secs) + "s"@
    }
}

pub fn humanize_cap(secs: u64) -> (r: String)
    ensures
        r@ == cap_text(secs as nat),
{
    let mut out: Vec<char> = Vec::new();
    let days = secs / 86_400;
    if days > 0 {
        push_decimal(&mut out, days);
        push_str(&mut out, "d");
    } else {
        push_decimal(&mut out, secs);
        push_str(&mut out, "s");
    }
    string_of(&out)
}

/// The text shown for a refused expiry.
pub open spec fn expiry_text(p: ExpiryProblem) -> Seq<char> {
    match p {
        ExpiryProblem::Both => "--for and --until say the same thing two different ways; pass one"@,
        ExpiryProblem::ForInvalid(e) => "--for is invalid: "@ + e.text(),
        ExpiryProblem::UntilInvalid => "--until is invalid"@,
        ExpiryProblem::Past(at) => "that expiry is in the past ("@ + format_instant_spec(at)
            + "); nothing was created"@,
        ExpiryProblem::TooLong(cap) => "that would outlive the "@ + cap_text(cap)
            + " cap in [links] max_lifetime; nothing was created"@,
    }
}

impl ExpiryError {
    /// The refusal, in words.
    pub fn message(&self) -> (r: String)
        ensures
            r@ == expiry_text(self.problem()),
    {
        let mut out: Vec<char> = Vec::new();
        match self {
            ExpiryError::Both => push_str(
                &mut out,
                "--for and --until say the same thing two different ways; pass one",
            ),
            ExpiryError::ForInvalid(e) => {
                push_str(&mut out, "--for is invalid: ");
                push_str(&mut out, e.describe());
            },
            ExpiryError::UntilInvalid(_) => push_str(&mut out, "--until is invalid"),
            ExpiryError::Past(at) => {
                push_str(&mut out, "that expiry is in the past (");
                let when = format_instant(*at);
                push_str(&mut out, when.as_str());
                push_str(&mut out, "); nothing was created");
            },
            ExpiryError::TooLong(cap) => {
                push_str(&mut out, "that would outlive the ");
                let c = humanize_cap(*cap);
                push_str(&mut out, c.as_str());
                push_str(&mut out, " cap in [links] max_lifetime; nothing was created");
            },
        }
        assert(out@ =~= expiry_text(self.problem()));
        string_of(&out)
    }
}

/// The UTC calendar date of an instant, as `YYYY-MM-DD`.
pub open spec fn date_text(ms: int) -> Seq<char> {
    let d = civil_from_days_spec(ms / 86_400_000);
    zero_padded(d.0, 4) + "-"@ + zero_padded(d.1, 2) + "-"@ + zero_padded(d.2, 2)
}

fn date_of(ms: i64) -> (r: String)
    ensures
        r@ == date_text(ms as int),
{
    let days = ms.checked_div_euclid(86_400_000).unwrap();
    let (year, month, day) = civil_from_days(days);
    let mut out: Vec<char> = Vec::new();
    proof {
        crate::links::time::lemma_civil_year_bound(days as int);
    }
    push_padded(&mut out, year, 4);
    push_str(&mut out, "-");
    push_padded(&mut out, month as i64, 2);
    push_str(&mut out, "-");
    push_padded(&mut out, day as i64, 2);
    assert(out@ =~= date_text(ms as int));
    string_of(&out)
}

/// The last day a `--until` date may name, handed to the browser as the date field's
/// `max` so the cap is visible before the form is submitted.
pub fn latest_allowed_date(settings: &LinkSettings, now: i64) -> (r: String)
    requires
        fits_i64(settings.max_lifetime * 1000),
        fits_i64(now + settings.max_lifetime * 1000),
    ensures
        r@ == date_text(now + settings.max_lifetime * 1000),
{
    let latest: i64 = now + (settings.max_lifetime * 1000) as i64;
    date_of(latest)
}

/// The first day a `--until` date may name: today, in UTC. A bare date means the end
/// of that day, so today is still a future expiry.
pub fn earliest_allowed_date(now: i64) -> (r: String)
    ensures
        r@ == date_text(now as int),
{
    date_of(now)
}

/// How many ids `mint` tries before it gives up.
pub const MINT_ATTEMPTS: u32 = 8;

/// What happened to one attempt at recording a new link.
#[derive(Debug, Clone, Copy, PartialEq, Eq, Structural)]
pub enum MintOutcome {
    /// The new token's id already names a link.
    IdTaken,
    /// The row was written.
    Inserted,
    /// The database refused the row as a duplicate.
    Collided,
    /// The database failed for another reason.
    Failed,
}

/// What `mint` does next.
#[derive(Debug, Clone, Copy, PartialEq, Eq, Structural)]
pub enum MintStep {
    /// Draw another token and try again.
    Retry,
    /// Hand the token to the caller.
    Finish,
    /// Report the database's error.
    Fail,
    /// Report that no unique id could be found.
    GiveUp,
}

/// After `attempts` attempts, the last of which ended in `outcome`, what `mint` does:
/// a collision is retried until `MINT_ATTEMPTS` attempts have been made.
pub fn mint_next(attempts: u32, outcome: MintOutcome) -> (r: MintStep)
    ensures
        r == match outcome {
            MintOutcome::Inserted => MintStep::Finish,
            MintOutcome::Failed => MintStep::Fail,
            _ => if attempts < MINT_ATTEMPTS {
                MintStep::Retry
            } else {
                MintStep::GiveUp
            },
        },
{
    match outcome {
        MintOutcome::Inserted => MintStep::Finish,
        MintOutcome::Failed => MintStep::Fail,
        _ => if attempts < MINT_ATTEMPTS {
            MintStep::Retry
        } else {
            MintStep::GiveUp
        },
    }
}

/// What recording a new link did.
#[derive(Debug, Clone, PartialEq, Eq)]
pub enum InsertResult {
    /// The row was written.
    Inserted,
    /// The store refused the row as a duplicate.
    Duplicate,
    /// The store failed for another reason; the text says why.
    Failed(String),
}

/// Why no link was minted.
#[derive(Debug, Clone, PartialEq, Eq)]
pub enum MintError {
    /// Looking an id up failed; the text says why.
    Lookup(String),
    /// Recording the link failed; the text says why.
    Recording(String),
    /// Every attempt drew an id already in use.
    Exhausted,
}

impl MintError {
    /// The sentence shown to the operator: never a token or a hash.
    pub fn message(&self) -> (r: String)
        ensures
            r@ == match self {
                MintError::Lookup(e) => e@,
                MintError::Recording(_) => "recording the new link"@,
                MintError::Exhausted => "could not allocate a unique link id after several attempts"@,
            },
    {
        match self {
            MintError::Lookup(e) => e.clone(),
            MintError::Recording(_) => String::from_str("recording the new link"),
            MintError::Exhausted => String::from_str("could not allocate a unique link id after several attempts"),
        }
    }
}

/// A link as `mint` hands it to the store to be recorded: a new link, not revoked.
#[derive(Debug, Clone, PartialEq, Eq)]
pub struct NewLink {
    /// Short public id, derived from the token.
    pub id: String,
    /// SHA-256 of the token; the token itself is never stored.
    pub token_hash: Vec<u8>,
    /// Canonicalised site root path.
    pub site: String,
    /// Site-relative path of the shared page.
    pub path: String,
    pub expires_at: i64,
    pub created_at: i64,
    pub issued_by: String,
}

/// A row's fields as values: id, token hash, site, path, expiry, creation time, issuer.
pub type RowView = (Seq<char>, Seq<u8>, Seq<char>, Seq<char>, i64, i64, Seq<char>);

pub open spec fn row_view(row: NewLink) -> RowView {
    (row.id@, row.token_hash@, row.site@, row.path@, row.expires_at, row.created_at, row.issued_by@)
}

/// Whether looking up `id` may have answered `out`.
pub open spec fn lookup_gave<L: Fn(&String) -> Result<bool, String>>(lookup: L, id: Seq<char>, out: Result<bool, String>) -> bool {
    exists|a: &String| a@ == id && #[trigger] lookup.ensures((a,), out)
}

/// Whether recording `row` may have answered `out`.
pub open spec fn insert_gave<I: Fn(&NewLink) -> InsertResult>(insert: I, row: RowView, out: InsertResult) -> bool {
    exists|a: &NewLink| row_view(*a) == row && #[trigger] insert.ensures((a,), out)
}

/// Whether a drawn `id` may have been turned away: the lookup found it taken, or the
/// store refused a row with that id as a duplicate.
pub open spec fn draw_refused<L: Fn(&String) -> Result<bool, String>, I: Fn(&NewLink) -> InsertResult>(
    lookup: L,
    insert: I,
    id: Seq<char>,
) -> bool {
    lookup_gave(lookup, id, Ok(true)) || exists|row: RowView| row.0 == id && #[trigger] insert_gave(insert, row, InsertResult::Duplicate)
}

/// Record a new link to `path` in `site`, expiring at `expires_at` and issued by `issuer`
/// at `now`, under a fresh token, retrying when its short id is already taken:
/// `id_taken` asks whether an id names a link, and `record` writes the row. A token is
/// handed back only once a row with its own id and hash and the given fields was
/// recorded.
pub fn mint<L, I>(
    id_taken: L,
    record: I,
    site: &str,
    path: &str,
    expires_at: i64,
    now: i64,
    issuer: &str,
) -> (r: Result<LinkToken, MintError>)
    where
        L: Fn(&String) -> Result<bool, String>,
        I: Fn(&NewLink) -> InsertResult,
    requires
        forall|a: &String| id_taken.requires((a,)),
        forall|a: &NewLink| record.requires((a,)),
    ensures
        match r {
            Ok(t) => {
                let h = token_hash_spec(t.text());
                &&& lookup_gave(id_taken, link_id_spec(h), Ok(false))
                &&& insert_gave(
                    record,
                    (link_id_spec(h), h, site@, path@, expires_at, now, issuer@),
                    InsertResult::Inserted,
                )
            },
            Err(MintError::Lookup(e)) => exists|id: Seq<char>| #[trigger] lookup_gave(id_taken, id, Err(e)),
            Err(MintError::Recording(e)) => exists|id: Seq<char>, h: Seq<u8>| #[trigger] insert_gave(
                record,
                (id, h, site@, path@, expires_at, now, issuer@),
                InsertResult::Failed(e),
            ),
            Err(MintError::Exhausted) => exists|ids: Seq<Seq<char>>|
                ids.len() == MINT_ATTEMPTS && forall|i: int|
                    0 <= i < MINT_ATTEMPTS ==> #[trigger] draw_refused(id_taken, record, ids[i]),
        },
{
    let mut attempts: u32 = 0;
    let ghost mut ids: Seq<Seq<char>> = Seq::empty();
    while attempts < MINT_ATTEMPTS
        invariant
            attempts <= MINT_ATTEMPTS,
            ids.len() == attempts,
            forall|i: int| 0 <= i < ids.len() ==> #[trigger] draw_refused(id_taken, record, ids[i]),
            forall|a: &String| id_taken.requires((a,)),
            forall|a: &NewLink| record.requires((a,)),
        decreases MINT_ATTEMPTS - attempts,
    {
        let token = LinkToken::generate();
        let id = token.id();
        attempts += 1;
        let outcome = match id_taken(&id) {
            Err(e) => {
                assert(lookup_gave(id_taken, id@, Err(e)));
                let r: Result<LinkToken, MintError> = Err(MintError::Lookup(e));
                assert(r matches Err(MintError::Lookup(x)) && lookup_gave(id_taken, id@, Err(x)));
                return r;
            },
            Ok(true) => {
                assert(lookup_gave(id_taken, id@, Ok(true)));
                assert(draw_refused(id_taken, record, id@));
                MintOutcome::IdTaken
            },
            Ok(false) => {
                assert(lookup_gave(id_taken, id@, Ok(false)));
                let row = NewLink {
                    id: id.clone(),
                    token_hash: token.hash(),
                    site: site.to_owned(),
                    path: path.to_owned(),
                    expires_at,
                    created_at: now,
                    issued_by: issuer.to_owned(),
                };
                let ghost rv = row_view(row);
                assert(rv == (id@, token_hash_spec(token.text()), site@, path@, expires_at, now, issuer@));
                match record(&row) {
                    InsertResult::Inserted => {
                        assert(insert_gave(record, rv, InsertResult::Inserted));
                        return Ok(token);
                    },
                    InsertResult::Duplicate => {
                        assert(insert_gave(record, rv, InsertResult::Duplicate));
                        assert(draw_refused(id_taken, record, id@));
                        MintOutcome::Collided
                    },
                    InsertResult::Failed(e) => {
                        assert(insert_gave(record, rv, InsertResult::Failed(e)));
                        let r: Result<LinkToken, MintError> = Err(MintError::Recording(e));
                        assert(r matches Err(MintError::Recording(x)) && insert_gave(record, rv, InsertResult::Failed(x)));
                        return r;
                    },
                }
            },
        };
        proof {
            let old_ids = ids;
            ids = ids.push(id@);
            assert forall|i: int| 0 <= i < ids.len() implies #[trigger] draw_refused(id_taken, record, ids[i]) by {
                if i < old_ids.len() {
                    assert(ids[i] == old_ids[i]);
                }
            }
        }
        match mint_next(attempts, outcome) {
            MintStep::Retry => {},
            _ => {
                assert(ids.len() == MINT_ATTEMPTS);
                return Err(MintError::Exhausted);
            },
        }
    }
    Err(MintError::Exhausted)
}

/// A link's expiry, when one is granted, lies strictly after `now` and no further than
/// the site's longest lifetime; asking for both a duration and a date is refused.
pub proof fn lemma_expiry_window(s: LinkSettings, for_duration: Option<Seq<char>>, until: Option<Seq<char>>, now: int)
    ensures
        expiry_spec(s, for_duration, until, now) matches Ok(at) ==> now < at && at - now <= s.max_lifetime * 1000,
        for_duration is Some && until is Some ==> expiry_spec(s, for_duration, until, now) == Err::<int, ExpiryProblem>(ExpiryProblem::Both),
        for_duration is None && until is None ==> (expiry_spec(s, for_duration, until, now) is Ok
            <==> 0 < s.default_lifetime && s.default_lifetime <= s.max_lifetime),
        for_duration is None && until is None && 0 < s.default_lifetime && s.default_lifetime <= s.max_lifetime
            ==> expiry_spec(s, for_duration, until, now) == Ok::<int, ExpiryProblem>(now + s.default_lifetime * 1000),
        for_duration matches Some(x) ==> (duration_spec(x) is Err ==> expiry_spec(s, for_duration, until, now) is Err),
        until matches Some(x) ==> (parse_until_spec(x) is None ==> expiry_spec(s, for_duration, until, now) is Err),
{
}

/// A share URL has nothing after its token: a generated token holds no `/`, so the
/// URL's last `/` is the one just before the token.
pub proof fn lemma_share_url_ends_in_token(base_url: Seq<char>, prefix: Seq<char>, token: Seq<char>)
    requires
        wellformed_token(token),
    ensures
        ({
            let url = trim_end_char(base_url, '/') + prefix + "/"@ + token;
            &&& url.skip(url.len() - TOKEN_CHARS) == token
            &&& url[url.len() - TOKEN_CHARS - 1] == '/'
            &&& forall|i: int| url.len() - TOKEN_CHARS <= i < url.len() ==> url[i] != '/'
        }),
{
    reveal_strlit("/");
    let url = trim_end_char(base_url, '/') + prefix + "/"@ + token;
    let head = trim_end_char(base_url, '/') + prefix + "/"@;
    assert(url =~= head + token);
    assert(head[head.len() - 1] == '/');
    assert(url[url.len() - TOKEN_CHARS - 1] == head[head.len() - 1]);
    assert(url.skip(url.len() - TOKEN_CHARS) =~= token);
    assert forall|i: int| url.len() - TOKEN_CHARS <= i < url.len() implies url[i] != '/' by {
        assert(url[i] == token[i - head.len()]);
        assert(token_char(token[i - head.len()]));
    }
}

} // verus!
