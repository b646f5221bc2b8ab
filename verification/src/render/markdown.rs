//! What rendering a markdown body produces.
use vstd::prelude::*;

use crate::content::page::query_start;
use crate::paths::{components, is_normal, is_special, path_components};
use crate::text::{
    chars_of, contains_exec, contains_seq, ends_with, join, join_vec, last_index, last_index_of,
    lower_seq, lower_vec, push_all, push_range, push_str, split_char, split_vec, starts_with,
    str_eq, string_of, trim_start_char, views,
};

verus! {

/// One heading of a rendered page, for its table of contents.
#[derive(Debug, Clone)]
pub struct Heading {
    pub level: u8,
    pub id: String,
    pub text: String,
}

/// A rendered body and its headings.
#[derive(Debug, Clone)]
pub struct Rendered {
    pub html: String,
    pub headings: Vec<Heading>,
}

/// What is needed to rewrite intra-site links to clean URLs.
#[derive(Debug, Clone)]
pub struct LinkCtx {
    /// URL prefix the page lives under, e.g. "/notes" or "/".
    pub mount: String,
    /// Directory of the source file relative to the site root, e.g. "guide".
    pub current_dir: String,
}

/// Whether a URL names another origin: a scheme, or a protocol-relative `//` start.
pub open spec fn has_scheme_spec(url: Seq<char>) -> bool {
    contains_seq(url, "://"@) || starts_with(url, "//"@)
}

/// Whether a URL names another origin.
pub fn has_scheme(url: &str) -> (r: bool)
    ensures
        r == has_scheme_spec(url@),
{
    let v = chars_of(url);
    let sep = chars_of("://");
    contains_exec(&v, &sep) || crate::server::tls::starts_with_exec(&v, "//")
}

/// A URL's path, and its query and fragment: split at the first `?` or `#`.
pub fn split_suffix(url: &str) -> (r: (String, String))
    ensures
        r.0@ == url@.take(query_start(url@)),
        r.1@ == url@.skip(query_start(url@)),
{
    let v = chars_of(url);
    let mut k: usize = 0;
    while k < v.len() && v[k] != '?' && v[k] != '#'
        invariant
            k <= v.len(),
            forall|j: int| 0 <= j < k ==> v@[j] != '?' && v@[j] != '#',
        decreases v.len() - k,
    {
        k += 1;
    }
    proof {
        crate::content::page::lemma_query_start_at(v@, k as int);
    }
    let mut a: Vec<char> = Vec::new();
    push_range(&mut a, &v, 0, k);
    let mut b: Vec<char> = Vec::new();
    push_range(&mut b, &v, k, v.len());
    assert(a@ =~= v@.take(k as int));
    assert(b@ =~= v@.skip(k as int));
    (string_of(&a), string_of(&b))
}

/// The named parts of a path, in order.
pub open spec fn normal_parts(comps: Seq<Seq<char>>) -> Seq<Seq<char>>
    decreases comps.len(),
{
    if comps.len() == 0 {
        Seq::empty()
    } else if is_normal(comps.last()) {
        normal_parts(comps.drop_last()).push(comps.last())
    } else {
        normal_parts(comps.drop_last())
    }
}

/// The parts after walking the first `n` segments of a relative link: `.` and empty
/// segments stay put, `..` steps up (at the top it stays), anything else steps in.
pub open spec fn walk(parts: Seq<Seq<char>>, segs: Seq<Seq<char>>, n: int) -> Seq<Seq<char>>
    decreases n,
{
    if n <= 0 {
        parts
    } else {
        let p = walk(parts, segs, n - 1);
        let s = segs[n - 1];
        if s.len() == 0 || s == "."@ {
            p
        } else if s == ".."@ {
            if p.len() > 0 { p.drop_last() } else { p }
        } else {
            p.push(s)
        }
    }
}

/// `rel` read from the directory `base`, as a `/`-separated path.
pub open spec fn join_relative_spec(base: Seq<char>, rel: Seq<char>) -> Seq<char> {
    let segs = split_char(rel, '/');
    join(walk(normal_parts(components(base)), segs, segs.len() as int), "/"@)
}

/// `rel` read from the directory `base`.
pub fn join_relative(base: &str, rel: &str) -> (r: String)
    ensures
        r@ == join_relative_spec(base@, rel@),
{
    proof {
        reveal_strlit(".");
        reveal_strlit("..");
        reveal_strlit("/");
    }
    let comps = path_components(base);
    let ghost cv = views(comps@);
    let mut parts: Vec<Vec<char>> = Vec::new();
    let mut i: usize = 0;
    assert(cv.take(0) =~= Seq::<Seq<char>>::empty());
    while i < comps.len()
        invariant
            i <= comps@.len(),
            cv == views(comps@),
            cv == components(base@),
            views(parts@) == normal_parts(cv.take(i as int)),
        decreases comps.len() - i,
    {
        let ghost pre = cv.take(i + 1);
        assert(pre.drop_last() =~= cv.take(i as int));
        assert(pre.last() == comps@[i as int]@);
        if !is_special(&comps[i]) {
            let mut c: Vec<char> = Vec::new();
            push_all(&mut c, &comps[i]);
            parts.push(c);
            assert(views(parts@) =~= normal_parts(pre));
        }
        i += 1;
    }
    assert(cv.take(comps@.len() as int) =~= cv);
    let rv = chars_of(rel);
    let segs = split_vec(&rv, '/');
    let ghost sv = views(segs@);
    let ghost start = views(parts@);
    let mut k: usize = 0;
    while k < segs.len()
        invariant
            k <= segs@.len(),
            sv == views(segs@),
            views(parts@) == walk(start, sv, k as int),
        decreases segs.len() - k,
    {
        proof {
            reveal_strlit(".");
            reveal_strlit("..");
        }
        assert(sv[k as int] == segs@[k as int]@);
        let seg = &segs[k];
        let is_dot = seg.len() == 1 && seg[0] == '.';
        let is_up = seg.len() == 2 && seg[0] == '.' && seg[1] == '.';
        proof {
            if seg@.len() == 1 {
                assert(is_dot == (seg@ == "."@)) by {
                    if seg@ == "."@ {
                        assert(seg@[0] == '.');
                    }
                    if is_dot {
                        assert(seg@ =~= "."@);
                    }
                }
            } else {
                assert(seg@ != "."@);
            }
            if seg@.len() == 2 {
                assert(is_up == (seg@ == ".."@)) by {
                    if seg@ == ".."@ {
                        assert(seg@[0] == '.' && seg@[1] == '.');
                    }
                    if is_up {
                        assert(seg@ =~= ".."@);
                    }
                }
            } else {
                assert(seg@ != ".."@);
            }
        }
        let ghost before = views(parts@);
        if seg.len() == 0 || is_dot {
        } else if is_up {
            if parts.len() > 0 {
                parts.pop();
                assert(views(parts@) =~= before.drop_last());
            }
        } else {
            let mut c: Vec<char> = Vec::new();
            push_all(&mut c, seg);
            parts.push(c);
            assert(views(parts@) =~= before.push(sv[k as int]));
        }
        k += 1;
    }
    let sep = chars_of("/");
    let joined = join_vec(&parts, &sep);
    string_of(&joined)
}

/// A path without a trailing `.md` extension in any case.
pub open spec fn strip_md_extension_spec(path: Seq<char>) -> Seq<char> {
    let k = last_index_of(path, '.');
    if k >= 0 && crate::content::page::eq_ignore_case(path.skip(k + 1), "md"@) {
        path.take(k)
    } else {
        path
    }
}

/// A path without a trailing `.md` extension in any case.
pub fn strip_md_extension(path: &str) -> (r: String)
    ensures
        r@ == strip_md_extension_spec(path@),
{
    let v = chars_of(path);
    proof {
        crate::text::lemma_last_index_bounds(v@, '.');
    }
    match last_index(&v, '.') {
        Some(k) => {
            let mut ext: Vec<char> = Vec::new();
            push_range(&mut ext, &v, k + 1, v.len());
            assert(ext@ =~= v@.skip(k + 1));
            if crate::content::page::eq_ignore_case_exec(&ext, "md") {
                let mut out: Vec<char> = Vec::new();
                push_range(&mut out, &v, 0, k);
                assert(out@ =~= v@.take(k as int));
                string_of(&out)
            } else {
                path.to_owned()
            }
        },
        None => path.to_owned(),
    }
}

/// A page path naming a folder's index page, as the folder's own path.
pub open spec fn strip_index_spec(path: Seq<char>) -> Seq<char> {
    if crate::content::page::eq_ignore_case(path, "index"@) {
        Seq::empty()
    } else if ends_with(path, "/index"@) || ends_with(path, "/Index"@) || ends_with(path, "/INDEX"@) {
        path.take(path.len() - 6)
    } else {
        path
    }
}

fn ends_with_str(v: &Vec<char>, p: &str) -> (r: bool)
    ensures
        r == ends_with(v@, p@),
{
    let pv = chars_of(p);
    if pv.len() > v.len() {
        return false;
    }
    let r = crate::text::range_eq(v, v.len() - pv.len(), v.len(), &pv, 0, pv.len());
    proof {
        assert(pv@.subrange(0, pv@.len() as int) =~= pv@);
        assert(v@.skip(v@.len() - pv@.len()) =~= v@.subrange(v@.len() - pv@.len(), v@.len() as int));
    }
    r
}

/// A page path naming a folder's index page, as the folder's own path.
pub fn strip_index_segment(path: &str) -> (r: String)
    ensures
        r@ == strip_index_spec(path@),
{
    let v = chars_of(path);
    if crate::content::page::eq_ignore_case_exec(&v, "index") {
        return String::new();
    }
    if ends_with_str(&v, "/index") || ends_with_str(&v, "/Index") || ends_with_str(&v, "/INDEX") {
        proof {
            reveal_strlit("/index");
            reveal_strlit("/Index");
            reveal_strlit("/INDEX");
        }
        let mut out: Vec<char> = Vec::new();
        push_range(&mut out, &v, 0, v.len() - 6);
        assert(out@ =~= v@.take(v@.len() - 6));
        return string_of(&out);
    }
    path.to_owned()
}

/// A mount as a URL prefix: nothing for the root.
pub open spec fn mount_prefix(mount: Seq<char>) -> Seq<char> {
    if mount == "/"@ { Seq::empty() } else { mount }
}

/// Where a Markdown link to another page of the site points once rendered: its clean
/// URL under the mount, query and fragment kept. Links elsewhere, to fragments, to mail
/// addresses and to anything but a `.md` file are left alone.
pub open spec fn rewrite_link_spec(url: Seq<char>, mount: Seq<char>, current_dir: Seq<char>) -> Option<Seq<char>> {
    if has_scheme_spec(url) || starts_with(url, "#"@) || starts_with(url, "mailto:"@) {
        None
    } else {
        let path = url.take(query_start(url));
        let suffix = url.skip(query_start(url));
        let target = if starts_with(path, "/"@) {
            trim_start_char(path, '/')
        } else {
            join_relative_spec(current_dir, path)
        };
        if !ends_with(lower_seq(target), ".md"@) {
            None
        } else {
            let fin = strip_index_spec(strip_md_extension_spec(target));
            let m = mount_prefix(mount);
            let base = if fin.len() == 0 {
                if m.len() == 0 { "/"@ } else { m }
            } else {
                m + "/"@ + fin
            };
            Some(base + suffix)
        }
    }
}

/// Rewrite a Markdown link to another page of the site to its clean URL.
pub fn rewrite_link(url: &str, ctx: &LinkCtx) -> (r: Option<String>)
    ensures
        match r {
            Some(u) => rewrite_link_spec(url@, ctx.mount@, ctx.current_dir@) == Some(u@),
            None => rewrite_link_spec(url@, ctx.mount@, ctx.current_dir@) is None,
        },
{
    proof {
        reveal_strlit("#");
        reveal_strlit("mailto:");
        reveal_strlit("/");
        reveal_strlit(".md");
    }
    let v = chars_of(url);
    if has_scheme(url) || crate::server::tls::starts_with_exec(&v, "#") || crate::server::tls::starts_with_exec(&v, "mailto:") {
        return None;
    }
    let (path_part, suffix) = split_suffix(url);
    let pv = chars_of(path_part.as_str());
    let target: String = if crate::server::tls::starts_with_exec(&pv, "/") {
        let t = crate::acl::index::trim_start_char_vec(&pv, '/');
        string_of(&t)
    } else {
        join_relative(ctx.current_dir.as_str(), path_part.as_str())
    };
    let tv = chars_of(target.as_str());
    let lower = lower_vec(&tv);
    if !ends_with_str(&lower, ".md") {
        return None;
    }
    let trimmed = strip_md_extension(target.as_str());
    let fin = strip_index_segment(trimmed.as_str());
    let fv = chars_of(fin.as_str());
    let m: String = if str_eq(ctx.mount.as_str(), "/") { String::new() } else { ctx.mount.clone() };
    let mv = chars_of(m.as_str());
    let mut out: Vec<char> = Vec::new();
    if fv.len() == 0 {
        if mv.len() == 0 {
            out.push('/');
        } else {
            push_all(&mut out, &mv);
        }
    } else {
        push_all(&mut out, &mv);
        out.push('/');
        push_all(&mut out, &fv);
    }
    push_str(&mut out, suffix.as_str());
    proof {
        assert(m@ == mount_prefix(ctx.mount@));
        if fv@.len() == 0 && mv@.len() == 0 {
            assert(out@ =~= "/"@ + suffix@);
        }
    }
    Some(string_of(&out))
}

/// Where a relative image reference points once rendered: the file under the mount.
/// Absolute references, fragments and other origins are left alone.
pub open spec fn rewrite_asset_spec(url: Seq<char>, mount: Seq<char>, current_dir: Seq<char>) -> Option<Seq<char>> {
    if has_scheme_spec(url) || starts_with(url, "#"@) || starts_with(url, "/"@) {
        None
    } else {
        let path = url.take(query_start(url));
        let suffix = url.skip(query_start(url));
        Some(mount_prefix(mount) + "/"@ + join_relative_spec(current_dir, path) + suffix)
    }
}

/// Rewrite a relative image reference to the file's URL.
pub fn rewrite_asset(url: &str, ctx: &LinkCtx) -> (r: Option<String>)
    ensures
        match r {
            Some(u) => rewrite_asset_spec(url@, ctx.mount@, ctx.current_dir@) == Some(u@),
            None => rewrite_asset_spec(url@, ctx.mount@, ctx.current_dir@) is None,
        },
{
    proof {
        reveal_strlit("#");
        reveal_strlit("/");
    }
    let v = chars_of(url);
    if has_scheme(url) || crate::server::tls::starts_with_exec(&v, "#") || crate::server::tls::starts_with_exec(&v, "/") {
        return None;
    }
    let (path_part, suffix) = split_suffix(url);
    let target = join_relative(ctx.current_dir.as_str(), path_part.as_str());
    let m: String = if str_eq(ctx.mount.as_str(), "/") { String::new() } else { ctx.mount.clone() };
    let mut out: Vec<char> = Vec::new();
    push_str(&mut out, m.as_str());
    out.push('/');
    push_str(&mut out, target.as_str());
    push_str(&mut out, suffix.as_str());
    Some(string_of(&out))
}

/// Text made safe to place inside an HTML element: `&`, `<`, `>` and `"` escaped.
pub open spec fn escape_char(c: char) -> Seq<char> {
    if c == '&' {
        "&amp;"@
    } else if c == '<' {
        "&lt;"@
    } else if c == '>' {
        "&gt;"@
    } else if c == '"' {
        "&quot;"@
    } else {
        seq![c]
    }
}

pub open spec fn html_escape_spec(s: Seq<char>) -> Seq<char>
    decreases s.len(),
{
    if s.len() == 0 {
        Seq::empty()
    } else {
        html_escape_spec(s.drop_last()) + escape_char(s.last())
    }
}

/// Text made safe to place inside an HTML element.
pub fn html_escape(text: &str) -> (r: String)
    ensures
        r@ == html_escape_spec(text@),
{
    let v = chars_of(text);
    let mut out: Vec<char> = Vec::new();
    let mut i: usize = 0;
    while i < v.len()
        invariant
            i <= v.len(),
            out@ == html_escape_spec(v@.take(i as int)),
        decreases v.len() - i,
    {
        let c = v[i];
        if c == '&' {
            push_str(&mut out, "&amp;");
        } else if c == '<' {
            push_str(&mut out, "&lt;");
        } else if c == '>' {
            push_str(&mut out, "&gt;");
        } else if c == '"' {
            push_str(&mut out, "&quot;");
        } else {
            out.push(c);
        }
        proof {
            reveal_strlit("&amp;");
            reveal_strlit("&lt;");
            reveal_strlit("&gt;");
            reveal_strlit("&quot;");
            let pre = v@.take(i + 1);
            assert(pre.drop_last() =~= v@.take(i as int));
            assert(pre.last() == c);
        }
        assert(out@ =~= html_escape_spec(v@.take(i + 1)));
        i += 1;
    }
    assert(v@.take(v@.len() as int) =~= v@);
    string_of(&out)
}

/// The block a `mermaid` code fence becomes: its text, escaped, in a `mermaid` div.
pub fn mermaid_block(literal: &str) -> (r: String)
    ensures
        r@ == "<div class=\"mermaid\">"@ + html_escape_spec(literal@) + "</div>\n"@,
{
    let mut out: Vec<char> = Vec::new();
    push_str(&mut out, "<div class=\"mermaid\">");
    let e = html_escape(literal);
    push_str(&mut out, e.as_str());
    push_str(&mut out, "</div>\n");
    string_of(&out)
}

/// A heading's text as the table of contents shows it: trimmed.
pub fn heading_text(collected: &str) -> (r: String)
    ensures
        r@ == crate::text::trim(collected@),
{
    let v = chars_of(collected);
    let (a, b) = crate::text::trim_bounds(&v, 0, v.len());
    assert(v@.subrange(0, v@.len() as int) =~= v@);
    let mut out: Vec<char> = Vec::new();
    push_range(&mut out, &v, a, b);
    string_of(&out)
}

} // verus!
