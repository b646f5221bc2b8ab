//! How the server is reachable, and the combinations refused because they would carry
//! session cookies over plain HTTP. Google permits a plain-HTTP redirect URI only for
//! loopback, so a real deployment needs a certificate one way or another.
use vstd::prelude::*;

use crate::acl::edit::first_index_of;
use crate::cli::ServeArgs;
use crate::config::{join_path_spec, user_config_dir, Config};
use crate::text::{chars_of, push_all, push_decimal, push_range, push_str, starts_with, str_eq, string_of, trim_end_char, contains_seq, has_char, contains_exec, range_eq};
use crate::acl::index::trim_end_char_vec;

verus! {

/// How this server will be exposed.
#[derive(Debug)]
pub enum TlsMode {
    /// Plain HTTP: only without sign-in, or on a loopback bind.
    Plain,
    /// A certificate supplied by the operator.
    Supplied { cert: String, key: String },
    /// A certificate obtained and renewed via ACME.
    Acme(AcmeSettings),
    /// TLS terminated by something in front of mdshelf.
    BehindProxy,
}

/// What ACME needs to obtain a certificate.
#[derive(Debug)]
pub struct AcmeSettings {
    pub domain: String,
    pub contact: Option<String>,
    pub cache_dir: String,
    pub staging: bool,
}

impl TlsMode {
    /// Whether browsers reach this server over HTTPS.
    pub fn is_https(&self) -> (r: bool)
        ensures
            r == !(self is Plain),
    {
        match self {
            TlsMode::Plain => false,
            _ => true,
        }
    }

    pub open spec fn description(&self) -> Seq<char> {
        match self {
            TlsMode::Plain => "http (no TLS)"@,
            TlsMode::Supplied { .. } => "https (supplied certificate)"@,
            TlsMode::Acme(_) => "https (ACME)"@,
            TlsMode::BehindProxy => "https (terminated upstream)"@,
        }
    }

    /// How the server is exposed, in words.
    pub fn describe(&self) -> (r: &'static str)
        ensures
            r@ == self.description(),
    {
        match self {
            TlsMode::Plain => "http (no TLS)",
            TlsMode::Supplied { .. } => "https (supplied certificate)",
            TlsMode::Acme(_) => "https (ACME)",
            TlsMode::BehindProxy => "https (terminated upstream)",
        }
    }
}

/// The hosts that name this machine only.
pub open spec fn loopback_host(host: Seq<char>) -> bool {
    host == "127.0.0.1"@ || host == "localhost"@ || host == "::1"@ || host == "[::1]"@
}

/// Whether `host` binds only this machine. `0.0.0.0` binds every interface, so it is
/// emphatically not loopback.
pub fn is_loopback_host(host: &str) -> (r: bool)
    ensures
        r == loopback_host(host@),
{
    str_eq(host, "127.0.0.1") || str_eq(host, "localhost") || str_eq(host, "::1") || str_eq(
        host,
        "[::1]",
    )
}

/// `s` without the prefix `p` when it starts with it.
pub open spec fn strip(s: Seq<char>, p: Seq<char>) -> Seq<char> {
    if starts_with(s, p) {
        s.skip(p.len() as int)
    } else {
        s
    }
}

/// The text before the first `c`, or all of `s`.
pub open spec fn before(s: Seq<char>, c: char) -> Seq<char> {
    let k = first_index_of(s, c);
    if k >= 0 {
        s.take(k)
    } else {
        s
    }
}

/// The host a URL names: after the scheme, before the path, without the port; a
/// bracketed IPv6 literal runs to its closing bracket.
pub open spec fn url_host(url: Seq<char>) -> Seq<char> {
    let rest = if starts_with(url, "http://"@) {
        url.skip(7)
    } else {
        strip(url, "https://"@)
    };
    let authority = before(rest, '/');
    if authority.len() > 0 && authority[0] == '[' {
        before(authority.skip(1), ']')
    } else {
        before(authority, ':')
    }
}

pub open spec fn loopback_url(url: Seq<char>) -> bool {
    let h = url_host(url);
    h == "localhost"@ || h == "127.0.0.1"@ || h == "::1"@
}

pub fn starts_with_exec(v: &Vec<char>, p: &str) -> (r: bool)
    ensures
        r == starts_with(v@, p@),
{
    let pv = chars_of(p);
    let r = pv.len() <= v.len() && range_eq(v, 0, pv.len(), &pv, 0, pv.len());
    proof {
        if pv@.len() <= v@.len() {
            assert(pv@.subrange(0, pv@.len() as int) =~= pv@);
        }
    }
    r
}

/// The position of the first `c` in `v[lo..hi]`, counted from `lo`, or `hi - lo`.
fn first_in(v: &Vec<char>, lo: usize, hi: usize, c: char) -> (r: usize)
    requires
        lo <= hi <= v.len(),
    ensures
        lo + r <= hi,
        v@.subrange(lo as int, (lo + r) as int) == before(v@.subrange(lo as int, hi as int), c),
{
    let ghost t = v@.subrange(lo as int, hi as int);
    let mut i: usize = lo;
    while i < hi
        invariant
            lo <= i <= hi <= v.len(),
            t == v@.subrange(lo as int, hi as int),
            forall|j: int| lo <= j < i ==> #[trigger] v@[j] != c,
        decreases hi - i,
    {
        if v[i] == c {
            proof {
                assert forall|j: int| 0 <= j < i - lo implies #[trigger] t[j] != c by {
                    assert(t[j] == v@[lo + j]);
                }
                crate::acl::edit::lemma_first_index(t, c, i - lo);
                assert(t.take(i - lo) =~= v@.subrange(lo as int, i as int));
            }
            return i - lo;
        }
        i += 1;
    }
    proof {
        assert forall|j: int| 0 <= j < t.len() implies #[trigger] t[j] != c by {
            assert(t[j] == v@[lo + j]);
        }
        crate::acl::edit::lemma_first_index_none(t, c);
    }
    hi - lo
}

/// Whether a URL points at this machine, where plain HTTP is acceptable. Not loopback
/// merely because the text contains a loopback name.
pub fn is_loopback_url(url: &str) -> (r: bool)
    ensures
        r == loopback_url(url@),
{
    let v = chars_of(url);
    proof {
        reveal_strlit("http://");
        reveal_strlit("https://");
    }
    let start: usize = if starts_with_exec(&v, "http://") {
        7
    } else if starts_with_exec(&v, "https://") {
        8
    } else {
        0
    };
    let ghost rest = v@.skip(start as int);
    assert(rest == if starts_with(url@, "http://"@) {
        url@.skip(7)
    } else {
        strip(url@, "https://"@)
    });
    assert(v@.subrange(start as int, v@.len() as int) =~= rest);
    let a = first_in(&v, start, v.len(), '/');
    let auth_end = start + a;
    let ghost authority = v@.subrange(start as int, auth_end as int);
    let mut host: Vec<char> = Vec::new();
    if a > 0 && v[start] == '[' {
        let b = first_in(&v, start + 1, auth_end, ']');
        assert(authority.skip(1) =~= v@.subrange(start + 1, auth_end as int));
        push_range(&mut host, &v, start + 1, start + 1 + b);
    } else {
        let b = first_in(&v, start, auth_end, ':');
        push_range(&mut host, &v, start, start + b);
    }
    assert(host@ == url_host(url@));
    let h = string_of(&host);
    str_eq(h.as_str(), "localhost") || str_eq(h.as_str(), "127.0.0.1") || str_eq(h.as_str(), "::1")
}

/// Why a TLS setup was refused.
#[derive(Debug, Clone)]
pub enum TlsError {
    /// A supplied certificate or key file does not exist.
    MissingFile(String),
    /// `--domain` was given a URL rather than a hostname.
    DomainIsUrl,
    /// No home directory to put the default ACME cache in.
    NoAcmeCache,
    /// `--behind-proxy` with an `http://` public URL off loopback; carries the URL.
    ProxyOverPlainHttp(String),
    /// Sign-in on a public interface with no TLS at all; carries the host.
    PlainHttpOffLoopback(String),
    /// `--public-url` is not an http(s) URL; carries it.
    BadPublicUrl(String),
    /// Nothing says which URL browsers use.
    UnknownPublicUrl,
}

impl TlsError {
    /// The refusal, in words.
    pub fn message(&self) -> (r: String)
        ensures
            r@ == match self {
                TlsError::MissingFile(p) => "TLS file "@ + p@ + " does not exist"@,
                TlsError::DomainIsUrl => "--domain takes a bare hostname such as docs.acme.com, not a URL"@,
                TlsError::NoAcmeCache => "resolving the default ACME cache needs a home directory; pass --acme-cache explicitly"@,
                TlsError::ProxyOverPlainHttp(u) => "--behind-proxy says TLS is terminated upstream, but --public-url is "@ + u@ + ".\n  Browsers would send session cookies over plain HTTP.\n  Use an https:// public URL, or terminate TLS in mdshelf with --domain or --tls-cert."@,
                TlsError::PlainHttpOffLoopback(h) => "--auth google on "@ + h@ + " would serve session cookies over plain HTTP.\n  Choose one: --domain <host>, --tls-cert <f> --tls-key <f>, or --behind-proxy --public-url https://…\n  (Google also requires an https:// redirect URI for anything but localhost.)"@,
                TlsError::BadPublicUrl(u) => "--public-url must start with http:// or https://; got `"@ + u@ + "`"@,
                TlsError::UnknownPublicUrl => "mdshelf needs to know the URL browsers use to reach this server, because Google matches the OAuth redirect URI exactly.\n  Pass --public-url https://your.domain"@,
            },
    {
        let mut out: Vec<char> = Vec::new();
        match self {
            TlsError::MissingFile(p) => {
                push_str(&mut out, "TLS file ");
                push_str(&mut out, p.as_str());
                push_str(&mut out, " does not exist");
            },
            TlsError::DomainIsUrl => push_str(&mut out, "--domain takes a bare hostname such as docs.acme.com, not a URL"),
            TlsError::NoAcmeCache => push_str(&mut out, "resolving the default ACME cache needs a home directory; pass --acme-cache explicitly"),
            TlsError::ProxyOverPlainHttp(u) => {
                push_str(&mut out, "--behind-proxy says TLS is terminated upstream, but --public-url is ");
                push_str(&mut out, u.as_str());
                push_str(&mut out, ".\n  Browsers would send session cookies over plain HTTP.\n  Use an https:// public URL, or terminate TLS in mdshelf with --domain or --tls-cert.");
            },
            TlsError::PlainHttpOffLoopback(h) => {
                push_str(&mut out, "--auth google on ");
                push_str(&mut out, h.as_str());
                push_str(&mut out, " would serve session cookies over plain HTTP.\n  Choose one: --domain <host>, --tls-cert <f> --tls-key <f>, or --behind-proxy --public-url https://…\n  (Google also requires an https:// redirect URI for anything but localhost.)");
            },
            TlsError::BadPublicUrl(u) => {
                push_str(&mut out, "--public-url must start with http:// or https://; got `");
                push_str(&mut out, u.as_str());
                push_str(&mut out, "`");
            },
            TlsError::UnknownPublicUrl => push_str(&mut out, "mdshelf needs to know the URL browsers use to reach this server, because Google matches the OAuth redirect URI exactly.\n  Pass --public-url https://your.domain"),
        }
        string_of(&out)
    }
}

/// Which mode `resolve` chooses, before any path or message is attached.
pub enum TlsChoice {
    Supplied,
    Acme,
    BehindProxy,
    Plain,
    MissingCert,
    MissingKey,
    DomainIsUrl,
    NoAcmeCache,
    ProxyOverPlainHttp,
    PlainHttpOffLoopback,
}

pub open spec fn opt_seq(o: Option<String>) -> Option<Seq<char>> {
    match o {
        Some(s) => Some(s@),
        None => None,
    }
}

/// The TLS decision. A supplied certificate wins, then ACME, then an upstream proxy;
/// with none of them, sign-in is refused anywhere but loopback.
pub open spec fn tls_choice(
    host: Seq<char>,
    args: ServeArgs,
    cert_is_file: bool,
    key_is_file: bool,
    has_home: bool,
) -> TlsChoice {
    if args.tls_cert is Some && args.tls_key is Some {
        if !cert_is_file {
            TlsChoice::MissingCert
        } else if !key_is_file {
            TlsChoice::MissingKey
        } else {
            TlsChoice::Supplied
        }
    } else if args.domain is Some {
        let d = args.domain->0@;
        if contains_seq(d, "://"@) || d.contains('/') {
            TlsChoice::DomainIsUrl
        } else if args.acme_cache is None && !has_home {
            TlsChoice::NoAcmeCache
        } else {
            TlsChoice::Acme
        }
    } else if args.behind_proxy {
        let u = match args.public_url {
            Some(u) => u@,
            None => Seq::empty(),
        };
        if args.auth is Some && starts_with(u, "http://"@) && !loopback_url(u) {
            TlsChoice::ProxyOverPlainHttp
        } else {
            TlsChoice::BehindProxy
        }
    } else if args.auth is Some && !loopback_host(host) {
        TlsChoice::PlainHttpOffLoopback
    } else {
        TlsChoice::Plain
    }
}

/// Whether a mode is the one a choice names.
pub open spec fn mode_matches(mode: TlsMode, choice: TlsChoice, args: ServeArgs, home: Option<&str>) -> bool {
    match choice {
        TlsChoice::Supplied => mode matches TlsMode::Supplied { cert, key } && Some(cert) == args.tls_cert && Some(key) == args.tls_key,
        TlsChoice::Acme => mode matches TlsMode::Acme(a) && Some(a.domain) == args.domain && a.contact == args.acme_contact && a.staging == args.acme_staging && a.cache_dir@ == match args.acme_cache {
            Some(c) => c@,
            None => join_path_spec(join_path_spec(home->0@, ".config/mdshelf"@), "acme"@),
        },
        TlsChoice::BehindProxy => mode is BehindProxy,
        TlsChoice::Plain => mode is Plain,
        _ => false,
    }
}

/// Whether an error is the one a choice names.
pub open spec fn error_matches(e: TlsError, choice: TlsChoice, host: Seq<char>, args: ServeArgs) -> bool {
    match choice {
        TlsChoice::MissingCert => e matches TlsError::MissingFile(p) && Some(p) == args.tls_cert,
        TlsChoice::MissingKey => e matches TlsError::MissingFile(p) && Some(p) == args.tls_key,
        TlsChoice::DomainIsUrl => e is DomainIsUrl,
        TlsChoice::NoAcmeCache => e is NoAcmeCache,
        TlsChoice::ProxyOverPlainHttp => e matches TlsError::ProxyOverPlainHttp(u) && Some(u) == args.public_url,
        TlsChoice::PlainHttpOffLoopback => e matches TlsError::PlainHttpOffLoopback(h) && h@ == host,
        _ => false,
    }
}

fn clone_opt(o: &Option<String>) -> (r: Option<String>)
    ensures
        r == *o,
{
    match o {
        Some(s) => Some(s.clone()),
        None => None,
    }
}

/// Work out the TLS mode, refusing combinations that would serve sessions in the
/// clear. `cert_is_file` and `key_is_file` say whether the supplied certificate and key
/// exist; `home` locates the default ACME cache.
pub fn resolve(
    config: &Config,
    args: &ServeArgs,
    cert_is_file: bool,
    key_is_file: bool,
    home: Option<&str>,
) -> (r: Result<TlsMode, TlsError>)
    ensures
        match r {
            Ok(mode) => mode_matches(mode, tls_choice(config.host@, *args, cert_is_file, key_is_file, home is Some), *args, home),
            Err(e) => error_matches(e, tls_choice(config.host@, *args, cert_is_file, key_is_file, home is Some), config.host@, *args),
        },
{
    if args.tls_cert.is_some() && args.tls_key.is_some() {
        let cert = clone_opt(&args.tls_cert).unwrap();
        let key = clone_opt(&args.tls_key).unwrap();
        if !cert_is_file {
            return Err(TlsError::MissingFile(cert));
        }
        if !key_is_file {
            return Err(TlsError::MissingFile(key));
        }
        return Ok(TlsMode::Supplied { cert, key });
    }
    if args.domain.is_some() {
        let domain = clone_opt(&args.domain).unwrap();
        let d = chars_of(domain.as_str());
        let mut sep: Vec<char> = Vec::new();
        push_str(&mut sep, "://");
        if contains_exec(&d, &sep) || has_char(&d, '/') {
            return Err(TlsError::DomainIsUrl);
        }
        let cache_dir = match &args.acme_cache {
            Some(dir) => dir.clone(),
            None => match user_config_dir(home) {
                Some(base) => {
                    let b = chars_of(base.as_str());
                    let mut out: Vec<char> = Vec::new();
                    push_all(&mut out, &b);
                    if b.len() > 0 && b[b.len() - 1] != '/' {
                        out.push('/');
                    }
                    push_str(&mut out, "acme");
                    proof {
                        reveal_strlit("acme");
                    }
                    assert(out@ =~= join_path_spec(base@, "acme"@));
                    string_of(&out)
                },
                None => return Err(TlsError::NoAcmeCache),
            },
        };
        return Ok(TlsMode::Acme(AcmeSettings {
            domain,
            contact: clone_opt(&args.acme_contact),
            cache_dir,
            staging: args.acme_staging,
        }));
    }
    if args.behind_proxy {
        if args.auth.is_some() {
            let public_url: String = match &args.public_url {
                Some(u) => u.clone(),
                None => String::new(),
            };
            let u = chars_of(public_url.as_str());
            if starts_with_exec(&u, "http://") && !is_loopback_url(public_url.as_str()) {
                proof {
                    if args.public_url is None {
                        reveal_strlit("http://");
                        assert(public_url@.len() == 0);
                    }
                }
                assert(Some(public_url) == args.public_url);
                return Err(TlsError::ProxyOverPlainHttp(public_url));
            }
        }
        return Ok(TlsMode::BehindProxy);
    }
    if args.auth.is_some() && !is_loopback_host(config.host.as_str()) {
        return Err(TlsError::PlainHttpOffLoopback(config.host.clone()));
    }
    Ok(TlsMode::Plain)
}

/// The origin browsers use, given the resolved mode.
pub open spec fn public_url_spec(host: Seq<char>, explicit: Option<Seq<char>>, mode: TlsMode, port: u16) -> Result<Seq<char>, ()> {
    match explicit {
        Some(e) => {
            let t = trim_end_char(e, '/');
            if !starts_with(t, "http://"@) && !starts_with(t, "https://"@) {
                Err(())
            } else {
                Ok(t)
            }
        },
        None => match mode {
            TlsMode::Acme(a) => Ok("https://"@ + a.domain@),
            _ => if loopback_host(host) {
                Ok((if mode is Plain { "http"@ } else { "https"@ }) + "://"@ + host + ":"@
                    + crate::text::decimal(port as nat))
            } else {
                Err(())
            },
        },
    }
}

/// The origin browsers use to reach this server. An explicit `--public-url` wins,
/// trimmed of trailing slashes; ACME serves on 443 with no port in the URL; loopback
/// binds name their own address and port; anything else must be told.
pub fn public_url(config: &Config, args: &ServeArgs, mode: &TlsMode, port: u16) -> (r: Result<String, TlsError>)
    ensures
        match r {
            Ok(u) => public_url_spec(config.host@, opt_seq(args.public_url), *mode, port) == Ok::<Seq<char>, ()>(u@),
            Err(e) => public_url_spec(config.host@, opt_seq(args.public_url), *mode, port) is Err
                && (args.public_url matches Some(x) ==> e matches TlsError::BadPublicUrl(y) && y == x)
                && (args.public_url is None ==> e is UnknownPublicUrl),
        },
{
    match &args.public_url {
        Some(explicit) => {
            let v = chars_of(explicit.as_str());
            let t = trim_end_char_vec(&v, '/');
            if !starts_with_exec(&t, "http://") && !starts_with_exec(&t, "https://") {
                return Err(TlsError::BadPublicUrl(explicit.clone()));
            }
            return Ok(string_of(&t));
        },
        None => {},
    }
    match mode {
        TlsMode::Acme(settings) => {
            let mut out: Vec<char> = Vec::new();
            push_str(&mut out, "https://");
            push_str(&mut out, settings.domain.as_str());
            return Ok(string_of(&out));
        },
        _ => {},
    }
    if is_loopback_host(config.host.as_str()) {
        let mut out: Vec<char> = Vec::new();
        if mode.is_https() {
            push_str(&mut out, "https");
        } else {
            push_str(&mut out, "http");
        }
        push_str(&mut out, "://");
        push_str(&mut out, config.host.as_str());
        push_str(&mut out, ":");
        push_decimal(&mut out, port as u64);
        return Ok(string_of(&out));
    }
    Err(TlsError::UnknownPublicUrl)
}

/// Sign-in is never served in the clear off loopback: with `--auth`, plain HTTP is
/// chosen only for a loopback bind, and an upstream proxy only when the public URL is
/// not a plain `http://` URL off loopback.
pub proof fn lemma_no_sign_in_in_the_clear(host: Seq<char>, args: ServeArgs, cert_is_file: bool, key_is_file: bool, has_home: bool)
    requires
        args.auth is Some,
    ensures
        tls_choice(host, args, cert_is_file, key_is_file, has_home) == TlsChoice::Plain ==> loopback_host(host),
        tls_choice(host, args, cert_is_file, key_is_file, has_home) == TlsChoice::BehindProxy ==> ({
            let u = match args.public_url {
                Some(u) => u@,
                None => Seq::empty(),
            };
            !(starts_with(u, "http://"@) && !loopback_url(u))
        }),
{
}

/// The public origin is always an `http(s)://` URL: an explicit one without trailing
/// slashes; under ACME `https://` and the domain; otherwise the loopback address, with
/// `https` whenever TLS is in force.
pub proof fn lemma_public_url_shape(host: Seq<char>, explicit: Option<Seq<char>>, mode: TlsMode, port: u16)
    ensures
        public_url_spec(host, explicit, mode, port) matches Ok(u) ==> (starts_with(u, "http://"@) || starts_with(u, "https://"@)),
        explicit is None && mode is Acme ==> public_url_spec(host, explicit, mode, port) == Ok::<Seq<char>, ()>("https://"@ + mode->Acme_0.domain@),
        explicit is None && !(mode is Plain) && !(mode is Acme) && loopback_host(host) ==> (public_url_spec(host, explicit, mode, port) matches Ok(u)
            && starts_with(u, "https://"@)),
{
    reveal_strlit("http://");
    reveal_strlit("https://");
    reveal_strlit("http");
    reveal_strlit("https");
    reveal_strlit("://");
    match explicit {
        Some(e) => {
            let t = trim_end_char(e, '/');
            if starts_with(t, "http://"@) || starts_with(t, "https://"@) {
                assert(public_url_spec(host, explicit, mode, port) == Ok::<Seq<char>, ()>(t));
            }
        },
        None => match mode {
            TlsMode::Acme(a) => {
                assert(("https://"@ + a.domain@).take(8) =~= "https://"@);
            },
            _ => if loopback_host(host) {
                let scheme: Seq<char> = if mode is Plain { "http"@ } else { "https"@ };
                let u = scheme + "://"@ + host + ":"@ + crate::text::decimal(port as nat);
                if mode is Plain {
                    assert(u.take(7) =~= "http://"@);
                } else {
                    assert(u.take(8) =~= "https://"@);
                }
            },
        },
    }
}

} // verus!
