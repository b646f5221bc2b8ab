//! Who the visitor is: address validation, redirect hygiene, session and sign-in state,
//! and the pages sign-in serves. Which paths a visitor may read is `acl`'s business.
use vstd::prelude::*;

use crate::text::{
    chars_of, contains_seq, push_all, push_str, starts_with, string_of, trim, trim_end_char,
    has_char, contains_exec,
};
use crate::acl::index::trim_end_char_vec;
use crate::acl::edit::{first_index_of, lemma_first_index, lemma_first_index_none, trim_quotes, trim_quotes_vec, trim_vec};
use crate::text::{push_range, split_char, split_vec, str_eq, views};
use crate::config::{join_path_spec, user_config_dir, AuthConfig, Config, duration_or};

pub mod crypto;
pub mod email;
pub mod flows;
pub mod oidc;
pub mod pages;
pub mod routes;
pub mod setup;
pub mod store;

pub use email::{is_valid_email, normalize_email};

verus! {

pub const DOCS_URL: &'static str = "https://mdshelf.dev/docs/google-auth";

pub const CLIENT_ID_ENV: &'static str = "MDSHELF_GOOGLE_CLIENT_ID";

pub const CLIENT_SECRET_ENV: &'static str = "MDSHELF_GOOGLE_CLIENT_SECRET";

/// Testing override so the suite can point mdshelf at a local mock issuer.
pub const DISCOVERY_URL_ENV: &'static str = "MDSHELF_OIDC_DISCOVERY_URL";

pub const SESSION_COOKIE: &'static str = "mdshelf_session";

/// A session idle for longer than this many milliseconds is re-validated against the
/// provider before it is served again.
pub const IDLE_REFRESH_AFTER_MS: i64 = 1_800_000;

/// An in-flight authorization request expires after this many milliseconds.
pub const FLOW_TTL_MS: i64 = 600_000;

/// Google OAuth client credentials. Deliberately not `Debug`: the secret must be
/// unable to reach a log line.
#[derive(Clone)]
pub struct Credentials {
    pub client_id: String,
    pub client_secret: String,
}

/// Whether `s` holds anything but whitespace.
pub open spec fn not_blank(s: Seq<char>) -> bool {
    trim(s).len() > 0
}

fn not_blank_exec(s: &str) -> (r: bool)
    ensures
        r == not_blank(s@),
{
    let v = chars_of(s);
    let (a, b) = crate::text::trim_bounds(&v, 0, v.len());
    assert(v@.subrange(0, v@.len() as int) =~= v@);
    a < b
}

pub open spec fn opt_view(o: Option<&str>) -> Option<Seq<char>> {
    match o {
        Some(s) => Some(s@),
        None => None,
    }
}

/// The environment's value unless blank, else the stored one unless blank.
pub open spec fn chosen_credential(env: Option<Seq<char>>, stored: Option<Seq<char>>) -> Option<
    Seq<char>,
> {
    if env is Some && not_blank(env->0) {
        env
    } else if stored is Some && not_blank(stored->0) {
        stored
    } else {
        None
    }
}

/// The text of a refusal to start without credentials: it names the variable, the
/// setup command and the documentation.
pub open spec fn missing_credential_text(name: Seq<char>) -> Seq<char> {
    name + " is not set.\n  mdshelf uses your own Google OAuth client, so no credentials ship with the binary.\n  Run `mdshelf auth setup` for a guided walkthrough, or see "@
        + DOCS_URL@
}

/// A credential from the environment, else from the stored file; a blank value counts
/// as absent. The environment wins, so a secret manager can override the stored copy.
pub fn env_or(name: &str, env_value: Option<&str>, stored: Option<&str>) -> (r: Result<String, String>)
    ensures
        match r {
            Ok(v) => chosen_credential(opt_view(env_value), opt_view(stored)) == Some(v@),
            Err(m) => chosen_credential(opt_view(env_value), opt_view(stored)) is None && m@
                == missing_credential_text(name@),
        },
{
    match env_value {
        Some(e) => if not_blank_exec(e) {
            return Ok(e.to_owned());
        },
        None => {},
    }
    match stored {
        Some(s) => if not_blank_exec(s) {
            return Ok(s.to_owned());
        },
        None => {},
    }
    let mut m: Vec<char> = Vec::new();
    push_str(&mut m, name);
    push_str(
        &mut m,
        " is not set.\n  mdshelf uses your own Google OAuth client, so no credentials ship with the binary.\n  Run `mdshelf auth setup` for a guided walkthrough, or see ",
    );
    push_str(&mut m, DOCS_URL);
    Err(string_of(&m))
}

/// One line of a credentials file as a `(key, value)` entry: nothing for a blank line, a
/// `#` comment or a line without `=`; else the trimmed text before the first `=` and the
/// trimmed text after it with surrounding quotes removed.
pub open spec fn env_line_entry(line: Seq<char>) -> Option<(Seq<char>, Seq<char>)> {
    let t = trim(line);
    let k = first_index_of(t, '=');
    if t.len() == 0 || t[0] == '#' || k < 0 {
        None
    } else {
        Some((trim(t.take(k)), trim_quotes(trim(t.skip(k + 1)))))
    }
}

/// The entries of the given lines, in order.
pub open spec fn env_entries(lines: Seq<Seq<char>>) -> Seq<(Seq<char>, Seq<char>)>
    decreases lines.len(),
{
    if lines.len() == 0 {
        Seq::empty()
    } else {
        match env_line_entry(lines.last()) {
            Some(e) => env_entries(lines.drop_last()).push(e),
            None => env_entries(lines.drop_last()),
        }
    }
}

/// The entries of a credentials file's text.
pub open spec fn env_file_spec(contents: Seq<char>) -> Seq<(Seq<char>, Seq<char>)> {
    env_entries(split_char(contents, '\n'))
}

/// The value the entries give `name`: the last one wins, as in a map filled in order.
pub open spec fn env_lookup(entries: Seq<(Seq<char>, Seq<char>)>, name: Seq<char>) -> Option<
    Seq<char>,
>
    decreases entries.len(),
{
    if entries.len() == 0 {
        None
    } else if entries.last().0 == name {
        Some(entries.last().1)
    } else {
        env_lookup(entries.drop_last(), name)
    }
}

pub open spec fn pair_view(p: (String, String)) -> (Seq<char>, Seq<char>) {
    (p.0@, p.1@)
}

pub open spec fn pairs_view(s: Seq<(String, String)>) -> Seq<(Seq<char>, Seq<char>)> {
    s.map_values(|p: (String, String)| pair_view(p))
}

fn env_line_entry_exec(line: &Vec<char>) -> (r: Option<(String, String)>)
    ensures
        match r {
            Some(p) => env_line_entry(line@) == Some(pair_view(p)),
            None => env_line_entry(line@) is None,
        },
{
    let t = trim_vec(line);
    if t.len() == 0 || t[0] == '#' {
        return None;
    }
    let mut k: usize = 0;
    while k < t.len() && t[k] != '='
        invariant
            k <= t.len(),
            forall|j: int| 0 <= j < k ==> t@[j] != '=',
        decreases t.len() - k,
    {
        k += 1;
    }
    if k == t.len() {
        proof {
            lemma_first_index_none(t@, '=');
        }
        return None;
    }
    proof {
        lemma_first_index(t@, '=', k as int);
    }
    let mut key: Vec<char> = Vec::new();
    push_range(&mut key, &t, 0, k);
    let mut val: Vec<char> = Vec::new();
    push_range(&mut val, &t, k + 1, t.len());
    assert(key@ =~= t@.take(k as int));
    assert(val@ =~= t@.skip(k + 1));
    let kt = trim_vec(&key);
    let vt = trim_vec(&val);
    let vq = trim_quotes_vec(&vt);
    Some((string_of(&kt), string_of(&vq)))
}

/// The entries of a credentials file (`KEY=value` lines; blank lines, `#` comments and
/// lines without `=` are skipped), in the order they appear.
pub fn parse_env_file(contents: &str) -> (r: Vec<(String, String)>)
    ensures
        pairs_view(r@) == env_file_spec(contents@),
{
    let v = chars_of(contents);
    let lines = split_vec(&v, '\n');
    let ghost all = views(lines@);
    let mut out: Vec<(String, String)> = Vec::new();
    let mut i: usize = 0;
    assert(all.take(0) =~= Seq::<Seq<char>>::empty());
    while i < lines.len()
        invariant
            i <= lines.len(),
            all == views(lines@),
            all == split_char(v@, '\n'),
            pairs_view(out@) == env_entries(all.take(i as int)),
        decreases lines.len() - i,
    {
        let ghost pre = all.take(i + 1);
        assert(pre.drop_last() =~= all.take(i as int));
        assert(pre.last() == lines@[i as int]@);
        match env_line_entry_exec(&lines[i]) {
            Some(p) => {
                out.push(p);
                assert(pairs_view(out@) =~= env_entries(pre));
            },
            None => {},
        }
        i += 1;
    }
    assert(all.take(lines@.len() as int) =~= all);
    out
}

/// The value `entries` give `name`; the last entry for a key wins.
pub fn env_file_get(entries: &Vec<(String, String)>, name: &str) -> (r: Option<String>)
    ensures
        match r {
            Some(v) => env_lookup(pairs_view(entries@), name@) == Some(v@),
            None => env_lookup(pairs_view(entries@), name@) is None,
        },
{
    let mut i: usize = entries.len();
    assert(pairs_view(entries@).take(i as int) =~= pairs_view(entries@));
    while i > 0
        invariant
            i <= entries.len(),
            env_lookup(pairs_view(entries@), name@) == env_lookup(pairs_view(entries@).take(i as int), name@),
        decreases i,
    {
        let ghost pre = pairs_view(entries@).take(i as int);
        assert(pre.drop_last() =~= pairs_view(entries@).take(i - 1));
        if str_eq(entries[i - 1].0.as_str(), name) {
            return Some(entries[i - 1].1.clone());
        }
        i -= 1;
    }
    None
}

/// The credential a stored credentials file gives `name`, if the file could be read.
pub open spec fn stored_value(stored_file: Option<Seq<char>>, name: Seq<char>) -> Option<Seq<char>> {
    match stored_file {
        Some(f) => env_lookup(env_file_spec(f), name),
        None => None,
    }
}

impl Credentials {
    /// The credentials from the environment's values, falling back to the stored
    /// credentials file's text (`None` when it could not be read). The environment
    /// wins, so a secret manager can override the on-disk copy.
    pub fn from_env(client_id_env: Option<&str>, client_secret_env: Option<&str>, stored_file: Option<&str>) -> (r: Result<Credentials, String>)
        ensures
            ({
                let id = chosen_credential(opt_view(client_id_env), stored_value(opt_view(stored_file), CLIENT_ID_ENV@));
                let secret = chosen_credential(opt_view(client_secret_env), stored_value(opt_view(stored_file), CLIENT_SECRET_ENV@));
                match r {
                    Ok(c) => id == Some(c.client_id@) && secret == Some(c.client_secret@),
                    Err(m) => if id is None {
                        m@ == missing_credential_text(CLIENT_ID_ENV@)
                    } else {
                        secret is None && m@ == missing_credential_text(CLIENT_SECRET_ENV@)
                    },
                }
            }),
    {
        let entries: Option<Vec<(String, String)>> = match stored_file {
            Some(f) => Some(parse_env_file(f)),
            None => None,
        };
        let stored_id: Option<String> = match &entries {
            Some(e) => env_file_get(e, CLIENT_ID_ENV),
            None => None,
        };
        let stored_secret: Option<String> = match &entries {
            Some(e) => env_file_get(e, CLIENT_SECRET_ENV),
            None => None,
        };
        let id_ref: Option<&str> = match &stored_id {
            Some(s) => Some(s.as_str()),
            None => None,
        };
        let secret_ref: Option<&str> = match &stored_secret {
            Some(s) => Some(s.as_str()),
            None => None,
        };
        let client_id = match env_or(CLIENT_ID_ENV, client_id_env, id_ref) {
            Ok(v) => v,
            Err(m) => return Err(m),
        };
        let client_secret = match env_or(CLIENT_SECRET_ENV, client_secret_env, secret_ref) {
            Ok(v) => v,
            Err(m) => return Err(m),
        };
        Ok(Credentials { client_id, client_secret })
    }
}

/// Where `mdshelf auth setup` stores credentials: `~/.config/mdshelf/credentials.env`.
pub fn credentials_file(home: Option<&str>) -> (r: Option<String>)
    ensures
        match home {
            Some(h) => r matches Some(p) && p@ == join_path_spec(
                join_path_spec(h@, ".config/mdshelf"@),
                "credentials.env"@,
            ),
            None => r is None,
        },
{
    match user_config_dir(home) {
        None => None,
        Some(dir) => {
            let v = chars_of(dir.as_str());
            let mut out: Vec<char> = Vec::new();
            push_all(&mut out, &v);
            if v.len() > 0 && v[v.len() - 1] != '/' {
                out.push('/');
            }
            push_str(&mut out, "credentials.env");
            proof {
                reveal_strlit("credentials.env");
            }
            assert(out@ =~= join_path_spec(dir@, "credentials.env"@));
            Some(string_of(&out))
        },
    }
}

/// Resolved, validated sign-in settings; the two ages are in seconds.
#[derive(Debug, Clone)]
pub struct AuthSettings {
    pub session_max_age: u64,
    pub audit_retention: u64,
    pub owner_email: Option<String>,
    /// Externally visible origin, e.g. `https://docs.acme.com`. Redirect URIs are built
    /// from it, so it must match what is registered with Google exactly.
    pub public_url: String,
    pub database_path: String,
    pub key_file_path: String,
}

/// The redirect URI registered with Google.
pub open spec fn redirect_uri_spec(public_url: Seq<char>) -> Seq<char> {
    trim_end_char(public_url, '/') + "/auth/callback"@
}

impl AuthSettings {
    /// Settings from a validated configuration. The database defaults to `mdshelf.db`
    /// beside the config file and the key file to `secret.key` in the per-user
    /// directory, which needs `home`; without one there is no default to use.
    pub fn resolve(config: &Config, auth: &AuthConfig, public_url: String, home: Option<&str>) -> (r: Result<AuthSettings, String>)
        ensures
            match r {
                Ok(s) => {
                    &&& s.session_max_age as nat == duration_or(auth.session_max_age@, crate::config::DEFAULT_SESSION_MAX_AGE as nat)
                    &&& s.audit_retention as nat == duration_or(auth.audit_retention@, crate::config::DEFAULT_AUDIT_RETENTION as nat)
                    &&& s.owner_email == auth.owner_email
                    &&& s.public_url@ == trim_end_char(public_url@, '/')
                    &&& s.database_path@ == match auth.database {
                        Some(d) => d@,
                        None => join_path_spec(config.source_dir@, "mdshelf.db"@),
                    }
                    &&& s.key_file_path@ == match auth.key_file {
                        Some(k) => k@,
                        None => join_path_spec(join_path_spec(home->0@, ".config/mdshelf"@), "secret.key"@),
                    }
                },
                Err(_) => auth.key_file is None && home is None,
            },
    {
        proof {
            reveal_strlit("mdshelf.db");
            reveal_strlit("secret.key");
        }
        let database_path = match &auth.database {
            Some(d) => d.clone(),
            None => join_path(config.source_dir.as_str(), "mdshelf.db"),
        };
        let key_file_path = match &auth.key_file {
            Some(k) => k.clone(),
            None => match user_config_dir(home) {
                Some(dir) => join_path(dir.as_str(), "secret.key"),
                None => return Err(String::from_str("HOME is not set; pass an explicit path instead of relying on the default")),
            },
        };
        let u = chars_of(public_url.as_str());
        let trimmed = trim_end_char_vec(&u, '/');
        Ok(AuthSettings {
            session_max_age: auth.session_max_age(),
            audit_retention: auth.audit_retention(),
            owner_email: match &auth.owner_email {
                Some(o) => Some(o.clone()),
                None => None,
            },
            public_url: string_of(&trimmed),
            database_path,
            key_file_path,
        })
    }

    /// The redirect URI registered with Google. Trailing slashes are trimmed here too:
    /// Google compares this string exactly, so a stray `//` makes every sign-in fail.
    pub fn redirect_uri(&self) -> (r: String)
        ensures
            r@ == redirect_uri_spec(self.public_url@),
    {
        let u = chars_of(self.public_url.as_str());
        let trimmed = trim_end_char_vec(&u, '/');
        let mut out: Vec<char> = Vec::new();
        push_all(&mut out, &trimmed);
        push_str(&mut out, "/auth/callback");
        string_of(&out)
    }

    /// Whether cookies may carry the `Secure` attribute.
    pub fn is_secure_origin(&self) -> (r: bool)
        ensures
            r == starts_with(self.public_url@, "https://"@),
    {
        let u = chars_of(self.public_url.as_str());
        let mut p: Vec<char> = Vec::new();
        push_str(&mut p, "https://");
        let r = p.len() <= u.len() && crate::text::range_eq(&u, 0, p.len(), &p, 0, p.len());
        proof {
            if p@.len() <= u@.len() {
                assert(p@.subrange(0, p@.len() as int) =~= p@);
            }
        }
        r
    }
}

/// `base.join(name)` for a relative `name`.
fn join_path(base: &str, name: &str) -> (r: String)
    requires
        !(name@.len() > 0 && name@[0] == '/'),
    ensures
        r@ == join_path_spec(base@, name@),
{
    let b = chars_of(base);
    let mut out: Vec<char> = Vec::new();
    push_all(&mut out, &b);
    if b.len() > 0 && b[b.len() - 1] != '/' {
        out.push('/');
    }
    push_str(&mut out, name);
    string_of(&out)
}

/// The result of resolving a session cookie.
#[derive(Debug, Clone)]
pub enum SessionOutcome {
    /// No usable session: the visitor is anonymous and sees the interstitial.
    Anonymous,
    /// A live session belonging to this verified address.
    Active(String),
}

/// What to do with a stored session at a given moment.
#[derive(Debug, Clone, Copy, PartialEq, Eq, Structural)]
pub enum SessionCheck {
    /// Older than the absolute ceiling: discard it.
    Expired,
    /// Idle long enough that the provider must confirm it first.
    Revalidate,
    /// Serve it.
    Fresh,
}

/// `a - b`, clamped to the range of `i64`.
pub open spec fn saturating_diff(a: int, b: int) -> int {
    if a - b > i64::MAX {
        i64::MAX as int
    } else if a - b < i64::MIN {
        i64::MIN as int
    } else {
        a - b
    }
}

/// The absolute ceiling is checked first, regardless of activity; only a session that
/// has gone idle is re-validated.
pub open spec fn session_check_spec(now: int, created_at: int, last_seen_at: int, max_age_ms: int) -> SessionCheck {
    if saturating_diff(now, created_at) > max_age_ms {
        SessionCheck::Expired
    } else if saturating_diff(now, last_seen_at) > IDLE_REFRESH_AFTER_MS {
        SessionCheck::Revalidate
    } else {
        SessionCheck::Fresh
    }
}

/// `i64::saturating_sub`.
fn sat_sub(a: i64, b: i64) -> (r: i64)
    ensures
        r as int == saturating_diff(a as int, b as int),
{
    let d: i128 = a as i128 - b as i128;
    if d > i64::MAX as i128 {
        i64::MAX
    } else if d < i64::MIN as i128 {
        i64::MIN
    } else {
        d as i64
    }
}

/// What a request does with the session it presented.
pub fn session_check(now: i64, created_at: i64, last_seen_at: i64, max_age_ms: i64) -> (r: SessionCheck)
    ensures
        r == session_check_spec(now as int, created_at as int, last_seen_at as int, max_age_ms as int),
{
    let age = sat_sub(now, created_at);
    if age > max_age_ms {
        return SessionCheck::Expired;
    }
    let idle = sat_sub(now, last_seen_at);
    if idle > IDLE_REFRESH_AFTER_MS {
        SessionCheck::Revalidate
    } else {
        SessionCheck::Fresh
    }
}

/// A session id as it may appear in a log line: its first six characters and an
/// ellipsis. Session ids are bearer credentials.
pub fn redact_session_id(id: &str) -> (r: String)
    ensures
        r@ == id@.take(if id@.len() < 6 { id@.len() as int } else { 6 }) + "…"@,
{
    let v = chars_of(id);
    let n: usize = if v.len() < 6 { v.len() } else { 6 };
    let mut out: Vec<char> = Vec::new();
    crate::text::push_range(&mut out, &v, 0, n);
    push_str(&mut out, "…");
    assert(out@ =~= id@.take(n as int) + "…"@);
    string_of(&out)
}

/// A same-site path that is safe to send the browser to after sign-in.
pub open spec fn safe_next(raw: Seq<char>) -> bool {
    &&& raw.len() > 0 && raw[0] == '/'
    &&& !starts_with(raw, "//"@)
    &&& !starts_with(raw, "/\\"@)
    &&& !raw.contains('\\')
    &&& !raw.contains('\n')
    &&& !raw.contains('\r')
    &&& !contains_seq(raw, "://"@)
}

/// Validate a `next` parameter as a same-site path. Anything that could send the
/// browser to another origin is refused: absolute URLs, protocol-relative `//host`
/// paths, and backslash variants that some browsers turn into slashes. Empty means `/`.
pub fn sanitize_next(raw: &str) -> (r: Option<String>)
    ensures
        raw@.len() == 0 ==> (r matches Some(p) && p@ == seq!['/']),
        raw@.len() > 0 ==> (match r {
            Some(p) => safe_next(raw@) && p@ == raw@,
            None => !safe_next(raw@),
        }),
{
    let v = chars_of(raw);
    if v.len() == 0 {
        let mut root: Vec<char> = Vec::new();
        root.push('/');
        assert(root@ =~= seq!['/']);
        return Some(string_of(&root));
    }
    if v[0] != '/' {
        return None;
    }
    if v.len() >= 2 && (v[1] == '/' || v[1] == '\\') {
        proof {
            reveal_strlit("//");
            reveal_strlit("/\\");
            if v@[1] == '/' {
                assert(v@.take(2) =~= "//"@);
            } else {
                assert(v@.take(2) =~= "/\\"@);
            }
        }
        return None;
    }
    proof {
        reveal_strlit("//");
        reveal_strlit("/\\");
        if starts_with(raw@, "//"@) {
            assert(raw@.take(2)[1] == '/');
        }
        if starts_with(raw@, "/\\"@) {
            assert(raw@.take(2)[1] == '\\');
        }
    }
    if has_char(&v, '\\') || has_char(&v, '\n') || has_char(&v, '\r') {
        return None;
    }
    let mut sep: Vec<char> = Vec::new();
    push_str(&mut sep, "://");
    if contains_exec(&v, &sep) {
        return None;
    }
    Some(raw.to_owned())
}

/// The environment wins over the stored file: a non-blank value in the environment
/// is the one used whatever the file says; the file's value is used only when the
/// environment has none (or a blank one); and a blank value never counts.
pub proof fn lemma_environment_wins(env: Option<Seq<char>>, stored: Option<Seq<char>>)
    ensures
        env matches Some(e) && not_blank(e) ==> chosen_credential(env, stored) == env,
        !(env matches Some(e) && not_blank(e)) && (stored matches Some(v) && not_blank(v)) ==> chosen_credential(env, stored) == stored,
        chosen_credential(env, stored) matches Some(c) ==> not_blank(c),
{
}

} // verus!
