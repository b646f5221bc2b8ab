//! The pages a link reader can receive, and the listing of one's own links.
//!
//! The deny page takes no arguments: expired, revoked, unknown, malformed and
//! nonexistent links must be answered byte-identically, and a function with nothing
//! to vary on cannot tell them apart.
use vstd::prelude::*;

use crate::html::{escape, escape_spec};
use crate::render::templates::LinkTemplateContext;
use crate::text::{push_str, string_of};

verus! {

pub const DENIED_PAGE: &'static str = "<!doctype html>\n<html lang=\"en\">\n<head>\n<meta charset=\"utf-8\">\n<meta name=\"viewport\" content=\"width=device-width,initial-scale=1\">\n<meta name=\"robots\" content=\"noindex,nofollow\">\n<title>Link unavailable</title>\n<style>:root{color-scheme:light dark;--bg:#fafafa;--fg:#18181b;--muted:#52525b;--line:#e4e4e7;--card:#fff}@media(prefers-color-scheme:dark){:root{--bg:#09090b;--fg:#fafafa;--muted:#a1a1aa;--line:#27272a;--card:#18181b}}*{box-sizing:border-box}body{margin:0;min-height:100vh;display:grid;place-items:center;padding:1.5rem;background:var(--bg);color:var(--fg);font:16px/1.6 ui-sans-serif,system-ui,-apple-system,\"Segoe UI\",Roboto,sans-serif;-webkit-font-smoothing:antialiased}main{width:100%;max-width:26rem;background:var(--card);border:1px solid var(--line);border-radius:12px;padding:2rem}h1{margin:0 0 .5rem;font-size:1.25rem;font-weight:600;letter-spacing:-.01em}p{margin:0;color:var(--muted)}footer{margin-top:1.5rem;font-size:.8125rem;color:var(--muted)}</style>\n</head>\n<body>\n<main>\n<h1>This link is not available</h1>\n<p>It may have expired, it may have been turned off, or it may never have existed. Ask whoever sent it to you for a new one.</p>\n<footer>Served by mdshelf</footer>\n</main>\n</body>\n</html>\n";

pub const READING_0: &'static str = "<!doctype html>\n<html lang=\"en\">\n<head>\n<meta charset=\"utf-8\">\n<meta name=\"viewport\" content=\"width=device-width,initial-scale=1\">\n<meta name=\"robots\" content=\"noindex,nofollow\">\n<meta name=\"referrer\" content=\"no-referrer\">\n<title>";

pub const READING_1: &'static str = "</title>\n<link rel=\"stylesheet\" href=\"/__assets/vendor/inter/inter.css\">\n<link rel=\"stylesheet\" href=\"/__mdshelf/syntax.css\">\n<link rel=\"stylesheet\" href=\"/__assets/css/main.css\">\n<link rel=\"stylesheet\" href=\"/__assets/css/syntax.css\">\n<style>:root{--accent:";

pub const READING_2: &'static str = "}.link-shell{max-width:48rem;margin:0 auto;padding:2rem 1.25rem 4rem}.link-banner{margin:0 0 2rem;padding:.75rem 1rem;border:1px solid var(--border,#e4e4e7);border-radius:10px;font-size:.875rem;line-height:1.5}</style>\n</head>\n<body class=\"mdshelf-body\">\n<div class=\"link-shell\">\n<p class=\"link-banner\">Shared by ";

pub const READING_3: &'static str = " &middot; expires in ";

pub const READING_4: &'static str = "</p>\n<article class=\"doc-article prose\">\n";

pub const READING_5: &'static str = "\n</article>\n</div>\n";

pub const READING_6: &'static str = "</body>\n</html>\n";

pub const SHARES_SHELL_0: &'static str = "<!doctype html>\n<html lang=\"en\">\n<head>\n<meta charset=\"utf-8\">\n<meta name=\"viewport\" content=\"width=device-width,initial-scale=1\">\n<meta name=\"robots\" content=\"noindex,nofollow\">\n<title>";

pub const SHARES_SHELL_1: &'static str = "</title>\n<link rel=\"stylesheet\" href=\"/__assets/vendor/inter/inter.css\">\n<style>";

pub const SHARES_SHELL_2: &'static str = "</style>\n</head>\n<body>\n";

pub const SHARES_SHELL_3: &'static str = "\n</body>\n</html>\n";

pub const SHARES_STYLES: &'static str = ":root{color-scheme:light dark;--bg:#fafafa;--fg:#18181b;--muted:#52525b;--line:#e4e4e7;--card:#fff}@media(prefers-color-scheme:dark){:root{--bg:#09090b;--fg:#fafafa;--muted:#a1a1aa;--line:#27272a;--card:#18181b}}*{box-sizing:border-box}body{margin:0;padding:2.5rem 1.5rem;background:var(--bg);color:var(--fg);font:16px/1.6 Inter,ui-sans-serif,system-ui,-apple-system,\"Segoe UI\",Roboto,sans-serif;-webkit-font-smoothing:antialiased}main{max-width:52rem;margin:0 auto;background:var(--card);border:1px solid var(--line);border-radius:12px;padding:2rem}h1{margin:0 0 .5rem;font-size:1.375rem;font-weight:600;letter-spacing:-.01em}p{margin:0 0 1rem;color:var(--muted)}.who{display:inline-block;padding:.375rem .625rem;border:1px solid var(--line);border-radius:8px;font-size:.875rem;color:var(--fg)}table{width:100%;border-collapse:collapse;margin-top:1.5rem;font-size:.9375rem}th{text-align:left;font-weight:600;color:var(--muted);font-size:.8125rem;text-transform:uppercase;letter-spacing:.04em}th,td{padding:.625rem .5rem;border-bottom:1px solid var(--line)}td.id{font-family:ui-monospace,SFMono-Regular,Menlo,monospace;color:var(--muted)}button{border:1px solid var(--line);border-radius:6px;background:transparent;color:inherit;padding:.25rem .625rem;cursor:pointer}button:hover{border-color:var(--muted)}footer{margin-top:2rem;font-size:.8125rem;color:var(--muted)}";

pub const SHARES_SCRIPT: &'static str = "<script>\n(function () {\n  document.querySelectorAll('[data-revoke]').forEach(function (control) {\n    control.addEventListener('click', function () {\n      control.disabled = true;\n      fetch('/__share/revoke', {\n        method: 'POST',\n        headers: { 'Content-Type': 'application/json' },\n        body: JSON.stringify({ id: control.getAttribute('data-revoke') })\n      }).then(function (response) {\n        if (!response.ok) { control.disabled = false; return; }\n        var row = control.closest('tr');\n        if (row) row.remove();\n      }).catch(function () { control.disabled = false; });\n    });\n  });\n})();\n</script>\n";

pub const SHARES_HEAD_0: &'static str = "<main>\n<h1>Shared by you</h1>\n<p>Every live link you have created, across all sites. Anyone holding one of these URLs can read that page without signing in, until it expires or you revoke it &mdash; and each one dies on its own if you lose access to the page it points at.</p>\n<p class=\"who\">Signed in as ";

pub const SHARES_HEAD_1: &'static str = "</p>\n";

pub const ROW_0: &'static str = "<tr data-link-id=\"";

pub const ROW_1: &'static str = "\"><td>";

pub const ROW_2: &'static str = "</td><td>in ";

pub const ROW_3: &'static str = "</td><td class=\"id\">";

pub const ROW_4: &'static str = "</td><td><button type=\"button\" data-revoke=\"";

pub const ROW_5: &'static str = "\">Revoke</button></td></tr>\n";

pub const RELOAD_0: &'static str = "(function(){var p=";

pub const RELOAD_1: &'static str = ";var s=new WebSocket((location.protocol==='https:'?'wss://':'ws://')+location.host+p);s.onmessage=function(e){if(e.data==='reload')location.reload();};})();";

pub const SHARES_EMPTY: &'static str = "<p class=\"empty\">You have no live links.</p>\n";

pub const TABLE_OPEN: &'static str = "<table>\n<thead><tr><th>Page</th><th>Expires</th><th>Link</th><th></th></tr></thead>\n<tbody>\n";

pub const TABLE_CLOSE: &'static str = "</tbody>\n</table>\n";

pub const SHARES_FOOTER: &'static str = "<footer>Served by mdshelf</footer>\n</main>\n";

/// The deny page for every dead, unknown, malformed or nonexistent link. It names no
/// path, title, site or issuer, so a stale URL reveals nothing, not even that its
/// target ever existed.
pub fn denied() -> (r: &'static str)
    ensures
        r == DENIED_PAGE,
{
    DENIED_PAGE
}

/// A lowercase hexadecimal digit.
pub open spec fn hex_lower(d: int) -> char {
    if d < 10 {
        (('0' as int) + d) as char
    } else {
        (('a' as int) + d - 10) as char
    }
}

/// How one character is written inside a JSON string: `"`, `\` and the control
/// characters escaped (`\b`, `\f`, `\n`, `\r`, `\t`, else `\u00XX`), anything else
/// as itself.
pub open spec fn json_char(c: char) -> Seq<char> {
    if c == '"' {
        seq!['\\', '"']
    } else if c == '\\' {
        seq!['\\', '\\']
    } else if c == '\u{8}' {
        seq!['\\', 'b']
    } else if c == '\u{c}' {
        seq!['\\', 'f']
    } else if c == '\n' {
        seq!['\\', 'n']
    } else if c == '\r' {
        seq!['\\', 'r']
    } else if c == '\t' {
        seq!['\\', 't']
    } else if (c as int) < 0x20 {
        seq!['\\', 'u', '0', '0', hex_lower((c as int) / 16), hex_lower((c as int) % 16)]
    } else {
        seq![c]
    }
}

pub open spec fn json_chars(s: Seq<char>) -> Seq<char>
    decreases s.len(),
{
    if s.len() == 0 {
        Seq::empty()
    } else {
        json_chars(s.drop_last()) + json_char(s.last())
    }
}

/// A string as a JSON string literal.
pub open spec fn json_quoted(s: Seq<char>) -> Seq<char> {
    seq!['"'] + json_chars(s) + seq!['"']
}

/// `serde_json::to_string` of a `str` (serde_json). Claimed: it succeeds, since a
/// string always serializes into memory, and gives the text in double quotes with
/// `"`, `\\` and the control characters escaped as serde_json's escape table does.
#[verifier::external_body]
fn json_string(s: &str) -> (r: String)
    ensures
        r@ == json_quoted(s@),
{
    serde_json::to_string(s).expect("a str always serializes to JSON")
}

/// The live-reload client for one shared page: the script around the page's reload
/// path, written as a JSON string.
pub fn reload_script(reload_path: &str) -> (r: String)
    ensures
        r@ == RELOAD_0@ + json_quoted(reload_path@) + RELOAD_1@,
{
    let mut out: Vec<char> = Vec::new();
    push_str(&mut out, RELOAD_0);
    let j = json_string(reload_path);
    push_str(&mut out, j.as_str());
    push_str(&mut out, RELOAD_1);
    string_of(&out)
}

/// The reading view of a shared page, for a theme without its own link template.
pub open spec fn reading_view_spec(
    title: Seq<char>,
    color: Seq<char>,
    issuer: Seq<char>,
    expires_in: Seq<char>,
    html: Seq<char>,
    live_reload: bool,
    reload_script: Seq<char>,
) -> Seq<char> {
    let reload = if live_reload {
        "<script>"@ + reload_script + "</script>\n"@
    } else {
        Seq::empty()
    };
    READING_0@ + escape_spec(title) + READING_1@ + escape_spec(color) + READING_2@ + escape_spec(
        issuer,
    ) + READING_3@ + escape_spec(expires_in) + READING_4@ + html + READING_5@ + reload
        + READING_6@
}

/// The reading view, for a theme that ships no link template. It links the theme's
/// own stylesheets, which are served to everyone, so a recipient sees the site's look.
pub fn reading_view_fallback(ctx: &LinkTemplateContext) -> (r: String)
    ensures
        r@ == reading_view_spec(
            ctx.page.title@,
            ctx.site.color@,
            ctx.banner.issuer@,
            ctx.banner.expires_in@,
            ctx.page.html@,
            ctx.live_reload,
            ctx.reload_script@,
        ),
{
    let mut out: Vec<char> = Vec::new();
    push_str(&mut out, READING_0);
    let t = escape(ctx.page.title.as_str());
    push_str(&mut out, t.as_str());
    push_str(&mut out, READING_1);
    let c = escape(ctx.site.color.as_str());
    push_str(&mut out, c.as_str());
    push_str(&mut out, READING_2);
    let i = escape(ctx.banner.issuer.as_str());
    push_str(&mut out, i.as_str());
    push_str(&mut out, READING_3);
    let e = escape(ctx.banner.expires_in.as_str());
    push_str(&mut out, e.as_str());
    push_str(&mut out, READING_4);
    push_str(&mut out, ctx.page.html.as_str());
    push_str(&mut out, READING_5);
    let ghost before = out@;
    if ctx.live_reload {
        push_str(&mut out, "<script>");
        push_str(&mut out, ctx.reload_script.as_str());
        push_str(&mut out, "</script>\n");
    }
    push_str(&mut out, READING_6);
    assert(out@ =~= reading_view_spec(
        ctx.page.title@,
        ctx.site.color@,
        ctx.banner.issuer@,
        ctx.banner.expires_in@,
        ctx.page.html@,
        ctx.live_reload,
        ctx.reload_script@,
    ));
    string_of(&out)
}

/// One row of the `Shared by you` page.
#[derive(Debug, Clone)]
pub struct ShareRow {
    pub id: String,
    /// Where the page lives, as its reader would type it.
    pub page: String,
    pub expires_in: String,
}

pub open spec fn row_html(id: Seq<char>, page: Seq<char>, expires_in: Seq<char>) -> Seq<char> {
    ROW_0@ + escape_spec(id) + ROW_1@ + escape_spec(page) + ROW_2@ + escape_spec(expires_in)
        + ROW_3@ + escape_spec(id) + ROW_4@ + escape_spec(id) + ROW_5@
}

pub open spec fn rows_html(rows: Seq<ShareRow>) -> Seq<char>
    decreases rows.len(),
{
    if rows.len() == 0 {
        Seq::empty()
    } else {
        rows_html(rows.drop_last()) + row_html(rows.last().id@, rows.last().page@, rows.last().expires_in@)
    }
}

/// The `Shared by you` listing.
pub open spec fn shares_page_spec(email: Seq<char>, rows: Seq<ShareRow>) -> Seq<char> {
    let listing = if rows.len() == 0 {
        SHARES_EMPTY@
    } else {
        TABLE_OPEN@ + rows_html(rows) + TABLE_CLOSE@
    };
    let body = SHARES_HEAD_0@ + escape_spec(email) + SHARES_HEAD_1@ + listing + SHARES_FOOTER@
        + SHARES_SCRIPT@;
    SHARES_SHELL_0@ + "Shared by you"@ + SHARES_SHELL_1@ + SHARES_STYLES@ + SHARES_SHELL_2@ + body
        + SHARES_SHELL_3@
}

/// Every live link somebody has created, across all sites, each with a revoke control.
#[verifier::spinoff_prover]
#[verifier::rlimit(40)]
pub fn shares_page(email: &str, rows: &[ShareRow]) -> (r: String)
    ensures
        r@ == shares_page_spec(email@, rows@),
{
    let mut body: Vec<char> = Vec::new();
    push_str(&mut body, SHARES_HEAD_0);
    let e = escape(email);
    push_str(&mut body, e.as_str());
    push_str(&mut body, SHARES_HEAD_1);
    let ghost head = body@;
    if rows.len() == 0 {
        push_str(&mut body, SHARES_EMPTY);
    } else {
        push_str(&mut body, TABLE_OPEN);
        let ghost opened = body@;
        let mut i: usize = 0;
        assert(rows@.take(0) =~= Seq::<ShareRow>::empty());
        while i < rows.len()
            invariant
                i <= rows@.len(),
                body@ == opened + rows_html(rows@.take(i as int)),
            decreases rows.len() - i,
        {
            let row = &rows[i];
            push_str(&mut body, ROW_0);
            let id = escape(row.id.as_str());
            push_str(&mut body, id.as_str());
            push_str(&mut body, ROW_1);
            let page = escape(row.page.as_str());
            push_str(&mut body, page.as_str());
            push_str(&mut body, ROW_2);
            let exp = escape(row.expires_in.as_str());
            push_str(&mut body, exp.as_str());
            push_str(&mut body, ROW_3);
            push_str(&mut body, id.as_str());
            push_str(&mut body, ROW_4);
            push_str(&mut body, id.as_str());
            push_str(&mut body, ROW_5);
            assert(rows@.take(i + 1).drop_last() =~= rows@.take(i as int));
            assert(body@ =~= opened + rows_html(rows@.take(i + 1)));
            i += 1;
        }
        assert(rows@.take(rows@.len() as int) =~= rows@);
        push_str(&mut body, TABLE_CLOSE);
    }
    push_str(&mut body, SHARES_FOOTER);
    push_str(&mut body, SHARES_SCRIPT);
    let mut out: Vec<char> = Vec::new();
    push_str(&mut out, SHARES_SHELL_0);
    push_str(&mut out, "Shared by you");
    push_str(&mut out, SHARES_SHELL_1);
    push_str(&mut out, SHARES_STYLES);
    push_str(&mut out, SHARES_SHELL_2);
    crate::text::push_all(&mut out, &body);
    push_str(&mut out, SHARES_SHELL_3);
    assert(out@ =~= shares_page_spec(email@, rows@));
    string_of(&out)
}

/// Nothing the viewer or a link supplies reaches the `Shared by you` page as markup:
/// the address appears only escaped, at one fixed place after the page's own head,
/// and escaped text holds no `<`, `>`, `"` or `'`; the listing is the empty-state
/// sentence exactly when there are no rows and the table otherwise.
pub proof fn lemma_shares_page_escapes(email: Seq<char>, rows: Seq<ShareRow>)
    ensures
        ({
            let head = SHARES_SHELL_0@ + "Shared by you"@ + SHARES_SHELL_1@ + SHARES_STYLES@ + SHARES_SHELL_2@
                + SHARES_HEAD_0@;
            let listing = if rows.len() == 0 {
                SHARES_EMPTY@
            } else {
                TABLE_OPEN@ + rows_html(rows) + TABLE_CLOSE@
            };
            shares_page_spec(email, rows) == head + escape_spec(email) + SHARES_HEAD_1@ + listing
                + SHARES_FOOTER@ + SHARES_SCRIPT@ + SHARES_SHELL_3@
        }),
        forall|i: int| 0 <= i < escape_spec(email).len() ==> !crate::html::markup_char(#[trigger] escape_spec(email)[i]),
{
    crate::html::lemma_escaped_text_is_inert(email);
    let head = SHARES_SHELL_0@ + "Shared by you"@ + SHARES_SHELL_1@ + SHARES_STYLES@ + SHARES_SHELL_2@ + SHARES_HEAD_0@;
    let listing = if rows.len() == 0 {
        SHARES_EMPTY@
    } else {
        TABLE_OPEN@ + rows_html(rows) + TABLE_CLOSE@
    };
    assert(shares_page_spec(email, rows) =~= head + escape_spec(email) + SHARES_HEAD_1@ + listing + SHARES_FOOTER@
        + SHARES_SCRIPT@ + SHARES_SHELL_3@);
}

} // verus!
