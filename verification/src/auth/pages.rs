//! The two pages sign-in serves itself: the interstitial and the deny page.
//!
//! Both are self-contained HTML rather than theme templates: a partially customised
//! theme cannot break them, and their bytes cannot vary with the requested path, which
//! is what makes the deny page identical for a restricted path and a nonexistent one.
//! Where per-path detail helps the visitor, the browser fills it in from `location`.
use vstd::prelude::*;

use crate::html::{escape, escape_spec};
use crate::text::{push_str, string_of};

verus! {

pub const STYLES: &'static str = "\n:root{color-scheme:light dark;--bg:#fafafa;--fg:#18181b;--muted:#52525b;--line:#e4e4e7;--card:#fff;--accent:#10b981;--accent-fg:#fff}\n@media(prefers-color-scheme:dark){:root{--bg:#09090b;--fg:#fafafa;--muted:#a1a1aa;--line:#27272a;--card:#18181b}}\n*{box-sizing:border-box}\nbody{margin:0;min-height:100vh;display:grid;place-items:center;padding:1.5rem;background:var(--bg);color:var(--fg);\nfont:16px/1.6 ui-sans-serif,system-ui,-apple-system,\"Segoe UI\",Roboto,sans-serif;-webkit-font-smoothing:antialiased}\nmain{width:100%;max-width:26rem;background:var(--card);border:1px solid var(--line);border-radius:12px;padding:2rem}\nh1{margin:0 0 .5rem;font-size:1.25rem;font-weight:600;letter-spacing:-.01em}\np{margin:0 0 1rem;color:var(--muted)}\n.mark{width:2rem;height:2rem;border-radius:7px;background:var(--accent);margin-bottom:1.25rem}\n.who{display:block;margin:0 0 1.25rem;padding:.625rem .75rem;border:1px solid var(--line);border-radius:8px;\nfont-size:.875rem;color:var(--fg);word-break:break-all}\na.button{display:block;text-align:center;padding:.625rem 1rem;border-radius:8px;background:var(--accent);\ncolor:var(--accent-fg);text-decoration:none;font-weight:600;border:1px solid transparent}\na.button:hover{filter:brightness(.95)}\na.secondary{display:block;text-align:center;margin-top:.75rem;padding:.625rem 1rem;border-radius:8px;\nbackground:transparent;color:var(--fg);text-decoration:none;border:1px solid var(--line);font-weight:500}\na.secondary:hover{border-color:var(--muted)}\na:focus-visible{outline:2px solid var(--accent);outline-offset:2px}\nfooter{margin-top:1.5rem;font-size:.8125rem;color:var(--muted)}\n@media(prefers-reduced-motion:no-preference){a{transition:filter .15s ease,border-color .15s ease}}\n";

pub const SHELL_HEAD: &'static str = "<!doctype html>\n<html lang=\"en\">\n<head>\n<meta charset=\"utf-8\">\n<meta name=\"viewport\" content=\"width=device-width,initial-scale=1\">\n<meta name=\"robots\" content=\"noindex,nofollow\">\n<title>";

pub const SHELL_STYLE: &'static str = "</title>\n<style>";

pub const SHELL_BODY: &'static str = "</style>\n</head>\n<body>\n";

pub const SHELL_TAIL: &'static str = "\n</body>\n</html>\n";

pub const INTERSTITIAL_OPEN: &'static str = "<main>\n<div class=\"mark\" aria-hidden=\"true\"></div>\n<h1>";

pub const INTERSTITIAL_CLOSE: &'static str = "</h1>\n<p>This site is private. Sign in with the Google account you were invited with.</p>\n<a class=\"button\" id=\"signin\" href=\"/auth/login\">Sign in with Google</a>\n<footer>Served by mdshelf</footer>\n</main>\n";

pub const INTERSTITIAL_SCRIPT: &'static str = "<script>\n(function(){var a=document.getElementById('signin');if(!a)return;a.href='/auth/login?next='+encodeURIComponent(location.pathname+location.search);})();\n</script>\n";

pub const DENIED_OPEN: &'static str = "<main>\n<div class=\"mark\" aria-hidden=\"true\"></div>\n<h1>This account can&rsquo;t open this page</h1>\n<p>It may not exist, or it may not be shared with you.</p>\n<span class=\"who\">Signed in as ";

pub const DENIED_ACCOUNT: &'static str = "</span>\n<a class=\"button\" href=\"/auth/logout\">Switch account</a>\n";

pub const REQUEST_OPEN: &'static str = "<a class=\"secondary\" id=\"request\" href=\"mailto:";

pub const REQUEST_CLOSE: &'static str = "?subject=Access%20request\">Request access</a>\n";

pub const FOOTER: &'static str = "<footer>Served by mdshelf</footer>\n</main>\n";

pub const REQUEST_SCRIPT: &'static str = "<script>\n(function(){var a=document.getElementById('request');if(!a)return;a.href=a.href+'&body='+encodeURIComponent('Please grant me access to: '+location.pathname);})();\n</script>\n";

/// A complete page around `body`, asking not to be indexed.
pub open spec fn shell_spec(title: Seq<char>, body: Seq<char>) -> Seq<char> {
    SHELL_HEAD@ + title + SHELL_STYLE@ + STYLES@ + SHELL_BODY@ + body + SHELL_TAIL@
}

fn shell(title: &str, body: &Vec<char>) -> (r: String)
    ensures
        r@ == shell_spec(title@, body@),
{
    let mut out: Vec<char> = Vec::new();
    push_str(&mut out, SHELL_HEAD);
    push_str(&mut out, title);
    push_str(&mut out, SHELL_STYLE);
    push_str(&mut out, STYLES);
    push_str(&mut out, SHELL_BODY);
    crate::text::push_all(&mut out, body);
    push_str(&mut out, SHELL_TAIL);
    assert(out@ =~= shell_spec(title@, body@));
    string_of(&out)
}

pub open spec fn interstitial_spec(site_name: Seq<char>) -> Seq<char> {
    shell_spec(
        "Sign in"@,
        INTERSTITIAL_OPEN@ + escape_spec(site_name) + INTERSTITIAL_CLOSE@ + INTERSTITIAL_SCRIPT@,
    )
}

/// The sign-in page shown to anonymous visitors, for every path. The link back to the
/// page they asked for is filled in by the browser, so the bytes never vary with it.
pub fn interstitial(site_name: &str) -> (r: String)
    ensures
        r@ == interstitial_spec(site_name@),
{
    let mut body: Vec<char> = Vec::new();
    push_str(&mut body, INTERSTITIAL_OPEN);
    let name = escape(site_name);
    push_str(&mut body, name.as_str());
    push_str(&mut body, INTERSTITIAL_CLOSE);
    push_str(&mut body, INTERSTITIAL_SCRIPT);
    assert(body@ =~= INTERSTITIAL_OPEN@ + escape_spec(site_name@) + INTERSTITIAL_CLOSE@
        + INTERSTITIAL_SCRIPT@);
    shell("Sign in", &body)
}

pub open spec fn denied_spec(email: Seq<char>, owner: Option<Seq<char>>) -> Seq<char> {
    let request = match owner {
        Some(o) => REQUEST_OPEN@ + escape_spec(o) + REQUEST_CLOSE@,
        None => Seq::empty(),
    };
    let script = match owner {
        Some(_) => REQUEST_SCRIPT@,
        None => Seq::empty(),
    };
    shell_spec(
        "No access"@,
        DENIED_OPEN@ + escape_spec(email) + DENIED_ACCOUNT@ + request + FOOTER@ + script,
    )
}

/// The page a signed-in visitor gets when they may not read what they asked for, and,
/// identically, when the path does not exist at all. With an owner address it offers
/// a `mailto:` request-access link.
pub fn denied(email: &str, owner_email: Option<&str>) -> (r: String)
    ensures
        r@ == denied_spec(
            email@,
            match owner_email {
                Some(o) => Some(o@),
                None => None,
            },
        ),
{
    let mut body: Vec<char> = Vec::new();
    push_str(&mut body, DENIED_OPEN);
    let e = escape(email);
    push_str(&mut body, e.as_str());
    push_str(&mut body, DENIED_ACCOUNT);
    let ghost mid = body@;
    match owner_email {
        Some(owner) => {
            push_str(&mut body, REQUEST_OPEN);
            let o = escape(owner);
            push_str(&mut body, o.as_str());
            push_str(&mut body, REQUEST_CLOSE);
            push_str(&mut body, FOOTER);
            push_str(&mut body, REQUEST_SCRIPT);
            assert(body@ =~= mid + (REQUEST_OPEN@ + escape_spec(owner@) + REQUEST_CLOSE@) + FOOTER@
                + REQUEST_SCRIPT@);
        },
        None => {
            push_str(&mut body, FOOTER);
            assert(body@ =~= mid + Seq::<char>::empty() + FOOTER@ + Seq::<char>::empty());
        },
    }
    shell("No access", &body)
}

} // verus!
