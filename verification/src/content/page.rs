//! Pages within a site: how a file path becomes a URL, and how page text is prepared
//! for the surfaces that emit it.
use vstd::prelude::*;

use crate::acl::frontmatter::{get_spec, FmValue};
use crate::acl::AclBlock;
use crate::render::markdown::{Heading, Rendered};
use crate::links::time::{all_digits, digits_value};
use crate::text::{
    push_all, push_str, trim_end_char, trim_start_char, lower, last_index_of, last_index,
    join, join_vec, lower_seq, lower_vec, push_range, split_char, split_vec, vec_eq, views,
    chars_of, string_of, contains_seq, contains_exec, starts_with, str_eq,
};

verus! {

/// A path segment that names something: not empty, `.` or `..`.
pub open spec fn is_normal_segment(seg: Seq<char>) -> bool {
    seg.len() > 0 && seg != seq!['.'] && seg != seq!['.', '.']
}

/// The normal components of a `/`-separated relative path, in order.
pub open spec fn keep_normal(parts: Seq<Seq<char>>) -> Seq<Seq<char>>
    decreases parts.len(),
{
    if parts.len() == 0 {
        Seq::empty()
    } else if is_normal_segment(parts.last()) {
        keep_normal(parts.drop_last()).push(parts.last())
    } else {
        keep_normal(parts.drop_last())
    }
}

pub open spec fn components(rel: Seq<char>) -> Seq<Seq<char>> {
    keep_normal(split_char(rel, '/'))
}

/// `s` without a trailing `.md`, when it has one.
pub open spec fn strip_md(s: Seq<char>) -> Seq<char> {
    if s.len() >= 3 && s.skip(s.len() - 3) == seq!['.', 'm', 'd'] {
        s.take(s.len() - 3)
    } else {
        s
    }
}

/// The stem of a path's last component.
pub open spec fn last_stem(rel: Seq<char>) -> Seq<char> {
    let comps = components(rel);
    if comps.len() == 0 {
        strip_md(Seq::empty())
    } else {
        strip_md(comps.last())
    }
}

/// Whether `rel` is a folder's index page: its stem is `index`, in any ASCII case.
pub open spec fn is_index_rel(rel: Seq<char>) -> bool {
    lower_seq(last_stem(rel)) == seq!['i', 'n', 'd', 'e', 'x']
}

/// The URL path (no leading slash, no extension) of the page at `rel`.
pub open spec fn url_path_spec(rel: Seq<char>) -> Seq<char> {
    let comps = components(rel);
    let front = if comps.len() == 0 { comps } else { comps.drop_last() };
    if is_index_rel(rel) {
        join(front, seq!['/'])
    } else {
        join(front.push(last_stem(rel)), seq!['/'])
    }
}

/// A page's URL path is clean: for a file whose last component ends in `.md` and that
/// is not a folder's index, the URL path is its folders' components joined by `/`,
/// then that last component without `.md`, as its own last segment; a folder's index
/// page has the folder's path itself.
pub proof fn lemma_page_url_drops_md(rel: Seq<char>)
    requires
        components(rel).len() > 0,
        components(rel).last().len() >= 3,
        components(rel).last().skip(components(rel).last().len() - 3) == seq!['.', 'm', 'd'],
    ensures
        ({
            let c = components(rel).last();
            let stem = c.take(c.len() - 3);
            let folders = components(rel).drop_last();
            let u = url_path_spec(rel);
            &&& !is_index_rel(rel) ==> u == if folders.len() == 0 {
                stem
            } else {
                join(folders, seq!['/']) + seq!['/'] + stem
            }
            &&& !is_index_rel(rel) ==> u.len() >= stem.len() && u.skip(u.len() - stem.len()) == stem
            &&& is_index_rel(rel) ==> u == join(folders, seq!['/'])
        }),
{
    let comps = components(rel);
    let c = comps.last();
    let stem = c.take(c.len() - 3);
    assert(last_stem(rel) == stem);
    let front = comps.drop_last();
    let parts = front.push(stem);
    assert(parts.drop_last() =~= front);
    assert(parts.last() == stem);
    let u = url_path_spec(rel);
    if !is_index_rel(rel) {
        if front.len() == 0 {
            assert(u == stem);
            assert(u.skip(0) =~= stem);
        } else {
            let head = join(front, seq!['/']);
            assert(u == head + seq!['/'] + stem);
            assert(u.skip(u.len() - stem.len()) =~= stem);
        }
    }
}

fn keep_normal_vec(parts: &Vec<Vec<char>>) -> (r: Vec<Vec<char>>)
    ensures
        views(r@) == keep_normal(views(parts@)),
{
    let mut r: Vec<Vec<char>> = Vec::new();
    let ghost all = views(parts@);
    let mut i: usize = 0;
    while i < parts.len()
        invariant
            i <= parts@.len(),
            all == views(parts@),
            views(r@) == keep_normal(all.take(i as int)),
        decreases parts.len() - i,
    {
        let seg = &parts[i];
        assert(seg@ == all[i as int]);
        assert(all.take(i + 1).drop_last() =~= all.take(i as int));
        let dot = seg.len() == 1 && seg[0] == '.';
        let dotdot = seg.len() == 2 && seg[0] == '.' && seg[1] == '.';
        proof {
            assert(dot == (seg@ == seq!['.'])) by {
                if seg@ == seq!['.'] {
                    assert(seg@[0] == '.');
                }
                if dot {
                    assert(seg@ =~= seq!['.']);
                }
            }
            assert(dotdot == (seg@ == seq!['.', '.'])) by {
                if seg@ == seq!['.', '.'] {
                    assert(seg@[0] == '.' && seg@[1] == '.');
                }
                if dotdot {
                    assert(seg@ =~= seq!['.', '.']);
                }
            }
        }
        if seg.len() > 0 && !dot && !dotdot {
            let mut copy: Vec<char> = Vec::new();
            push_range(&mut copy, seg, 0, seg.len());
            assert(copy@ =~= seg@);
            r.push(copy);
        }
        i += 1;
        assert(views(r@) =~= keep_normal(all.take(i as int)));
    }
    assert(all.take(parts@.len() as int) =~= all);
    r
}

fn strip_md_vec(s: &Vec<char>) -> (r: Vec<char>)
    ensures
        r@ == strip_md(s@),
{
    let n = s.len();
    if n >= 3 && s[n - 3] == '.' && s[n - 2] == 'm' && s[n - 1] == 'd' {
        let mut r: Vec<char> = Vec::new();
        push_range(&mut r, s, 0, n - 3);
        assert(s@.skip(n - 3) =~= seq!['.', 'm', 'd']);
        assert(r@ =~= s@.take(n - 3));
        r
    } else {
        proof {
            if n >= 3 && s@.skip(n - 3) == seq!['.', 'm', 'd'] {
                assert(s@.skip(n - 3)[0] == s@[n - 3]);
                assert(s@.skip(n - 3)[1] == s@[n - 2]);
                assert(s@.skip(n - 3)[2] == s@[n - 1]);
            }
        }
        let mut r: Vec<char> = Vec::new();
        push_range(&mut r, s, 0, n);
        assert(r@ =~= s@);
        r
    }
}

/// Translate a relative file path inside a site root into a clean URL path (without
/// leading slash and without `.md` extension), and say whether it is an index page.
pub fn url_path_from_rel(rel: &str) -> (r: (String, bool))
    ensures
        r.0@ == url_path_spec(rel@),
        r.1 == is_index_rel(rel@),
{
    let v = chars_of(rel);
    let pieces = split_vec(&v, '/');
    let mut comps = keep_normal_vec(&pieces);
    let ghost c = components(rel@);
    assert(views(comps@) == c);
    let last = match comps.pop() {
        Some(last) => last,
        None => Vec::new(),
    };
    assert(c.len() > 0 ==> views(comps@) =~= c.drop_last() && last@ == c.last());
    assert(c.len() == 0 ==> last@ == Seq::<char>::empty());
    let stem = strip_md_vec(&last);
    assert(stem@ == last_stem(rel@));
    let lowered = lower_vec(&stem);
    let index_word = chars_of("index");
    proof {
        reveal_strlit("index");
    }
    let is_index = vec_eq(&lowered, &index_word);
    assert(index_word@ =~= seq!['i', 'n', 'd', 'e', 'x']);
    assert(is_index == is_index_rel(rel@));
    if !is_index {
        comps.push(stem);
    }
    let slash = chars_of("/");
    proof {
        reveal_strlit("/");
    }
    assert(slash@ =~= seq!['/']);
    let joined = join_vec(&comps, &slash);
    proof {
        let c = components(rel@);
        if c.len() > 0 {
            assert(views(comps@) =~= if is_index { c.drop_last() } else { c.drop_last().push(last_stem(rel@)) });
        } else {
            assert(views(comps@) =~= if is_index { c } else { c.push(last_stem(rel@)) });
        }
    }
    (string_of(&joined), is_index)
}

/// The text of a `<script>` block that carries `s` verbatim: a backslash is doubled,
/// `</` becomes `<\/` and `<!--` becomes `<\!--`; everything else is kept.
pub open spec fn script_escape(s: Seq<char>) -> Seq<char>
    decreases s.len(),
{
    if s.len() == 0 {
        Seq::empty()
    } else if s[0] == '\\' {
        seq!['\\', '\\'] + script_escape(s.skip(1))
    } else if s[0] == '<' && s.len() >= 2 && s[1] == '/' {
        seq!['<', '\\', '/'] + script_escape(s.skip(2))
    } else if s[0] == '<' && s.len() >= 4 && s[1] == '!' && s[2] == '-' && s[3] == '-' {
        seq!['<', '\\', '!', '-', '-'] + script_escape(s.skip(4))
    } else {
        seq![s[0]] + script_escape(s.skip(1))
    }
}

/// How the page script reads an escaped block back: on a backslash, the next
/// character is taken literally.
pub open spec fn script_unescape(t: Seq<char>) -> Seq<char>
    decreases t.len(),
{
    if t.len() == 0 {
        Seq::empty()
    } else if t[0] == '\\' {
        if t.len() >= 2 {
            seq![t[1]] + script_unescape(t.skip(2))
        } else {
            Seq::empty()
        }
    } else {
        seq![t[0]] + script_unescape(t.skip(1))
    }
}

/// Escaping for a script block loses nothing: reading the escaped text back gives
/// exactly the source.
pub proof fn lemma_script_escape_invertible(s: Seq<char>)
    ensures
        script_unescape(script_escape(s)) == s,
    decreases s.len(),
{
    if s.len() > 0 {
        let e = script_escape(s);
        if s[0] == '\\' {
            lemma_script_escape_invertible(s.skip(1));
            let rest = script_escape(s.skip(1));
            assert(e.skip(2) =~= rest);
            assert(e[1] == '\\');
            assert(script_unescape(e) == seq![e[1]] + script_unescape(e.skip(2)));
            assert(seq![s[0]] + s.skip(1) =~= s);
        } else if s[0] == '<' && s.len() >= 2 && s[1] == '/' {
            lemma_script_escape_invertible(s.skip(2));
            let rest = script_escape(s.skip(2));
            assert(e.skip(1) =~= seq!['\\', '/'] + rest);
            assert(e.skip(1).skip(2) =~= rest);
            assert(script_unescape(e) == seq!['<'] + script_unescape(e.skip(1)));
            assert(script_unescape(e.skip(1)) == seq!['/'] + script_unescape(rest));
            assert(seq!['<'] + (seq!['/'] + s.skip(2)) =~= s);
        } else if s[0] == '<' && s.len() >= 4 && s[1] == '!' && s[2] == '-' && s[3] == '-' {
            lemma_script_escape_invertible(s.skip(4));
            let rest = script_escape(s.skip(4));
            let t1 = e.skip(1);
            assert(t1 =~= seq!['\\', '!', '-', '-'] + rest);
            let t2 = t1.skip(2);
            assert(t2 =~= seq!['-', '-'] + rest);
            let t3 = t2.skip(1);
            assert(t3 =~= seq!['-'] + rest);
            assert(t3.skip(1) =~= rest);
            assert(script_unescape(t3) == seq!['-'] + script_unescape(rest));
            assert(script_unescape(t2) == seq!['-'] + script_unescape(t3));
            assert(script_unescape(t1) == seq!['!'] + script_unescape(t2));
            assert(script_unescape(e) == seq!['<'] + script_unescape(t1));
            assert(seq!['<'] + (seq!['!'] + (seq!['-'] + (seq!['-'] + s.skip(4)))) =~= s);
        } else {
            lemma_script_escape_invertible(s.skip(1));
            let rest = script_escape(s.skip(1));
            assert(e.skip(1) =~= rest);
            assert(e[0] == s[0]);
            assert(script_unescape(e) == seq![s[0]] + script_unescape(rest));
            assert(seq![s[0]] + s.skip(1) =~= s);
        }
    }
}

/// The first character of an escaped text: a backslash stays a backslash, and
/// anything else is itself.
proof fn lemma_script_escape_head(s: Seq<char>)
    requires
        s.len() > 0,
    ensures
        script_escape(s).len() > 0,
        script_escape(s)[0] == s[0],
        s[0] != '<' && s[0] != '\\' ==> script_escape(s) == seq![s[0]] + script_escape(s.skip(1)),
{
}

/// Escaped text that starts `!--` came from text that starts `!--`.
proof fn lemma_comment_tail(s: Seq<char>)
    requires
        script_escape(s).len() >= 3,
        script_escape(s)[0] == '!',
        script_escape(s)[1] == '-',
        script_escape(s)[2] == '-',
    ensures
        s.len() >= 3 && s[0] == '!' && s[1] == '-' && s[2] == '-',
{
    lemma_script_escape_head(s);
    let r1 = s.skip(1);
    assert(script_escape(s) == seq!['!'] + script_escape(r1));
    assert(script_escape(r1).len() >= 2);
    assert(script_escape(r1)[0] == '-');
    lemma_script_escape_head(r1);
    let r2 = r1.skip(1);
    assert(script_escape(r1) == seq!['-'] + script_escape(r2));
    assert(script_escape(r2)[0] == '-');
    lemma_script_escape_head(r2);
    assert(r2[0] == s[2]);
}

/// Escaped text cannot leave a script element: it holds no `</` and no `<!--`.
pub proof fn lemma_script_escape_is_inert(s: Seq<char>)
    ensures
        forall|i: int|
            0 <= i < script_escape(s).len() - 1 ==> !(#[trigger] script_escape(s)[i] == '<'
                && script_escape(s)[i + 1] == '/'),
        forall|i: int|
            0 <= i < script_escape(s).len() - 3 ==> !(#[trigger] script_escape(s)[i] == '<'
                && script_escape(s)[i + 1] == '!' && script_escape(s)[i + 2] == '-'
                && script_escape(s)[i + 3] == '-'),
    decreases s.len(),
{
    if s.len() > 0 {
        let e = script_escape(s);
        let k: int = if s[0] == '\\' {
            2
        } else if s[0] == '<' && s.len() >= 2 && s[1] == '/' {
            3
        } else if s[0] == '<' && s.len() >= 4 && s[1] == '!' && s[2] == '-' && s[3] == '-' {
            5
        } else {
            1
        };
        let rest_src = s.skip(if k == 1 { 1 } else if k == 2 { 1 } else if k == 3 { 2 } else { 4 });
        let rest = script_escape(rest_src);
        lemma_script_escape_is_inert(rest_src);
        assert(e.skip(k) =~= rest);
        assert forall|i: int| 0 <= i < e.len() - 1 implies !(#[trigger] e[i] == '<' && e[i + 1]
            == '/') by {
            if i >= k {
                assert(e[i] == rest[i - k] && e[i + 1] == rest[i - k + 1]);
            } else if k == 1 && s[0] == '<' && i == 0 {
                if rest_src.len() > 0 {
                    lemma_script_escape_head(rest_src);
                    assert(e[1] == rest[0]);
                }
            }
        }
        assert forall|i: int| 0 <= i < e.len() - 3 implies !(#[trigger] e[i] == '<' && e[i + 1]
            == '!' && e[i + 2] == '-' && e[i + 3] == '-') by {
            if i >= k {
                assert(e[i] == rest[i - k] && e[i + 1] == rest[i - k + 1] && e[i + 2] == rest[i - k
                    + 2] && e[i + 3] == rest[i - k + 3]);
            } else if k == 1 && s[0] == '<' && i == 0 {
                if e[1] == '!' && e[2] == '-' && e[3] == '-' {
                    assert(rest[0] == '!' && rest[1] == '-' && rest[2] == '-');
                    lemma_comment_tail(rest_src);
                }
            }
        }
    }
}

/// Neutralize the only sequences that can escape a `<script>` element: `</` would
/// close it, and the comment opener `<!--` switches the tokenizer into a state where
/// the genuine closer is no longer recognized. A backslash is escaped first so the
/// transformation stays invertible.
pub fn escape_for_script_block(text: &str) -> (r: String)
    ensures
        r@ == script_escape(text@),
{
    let v = chars_of(text);
    let mut out: Vec<char> = Vec::new();
    let mut i: usize = 0;
    assert(v@.skip(0) =~= v@);
    assert(out@ + script_escape(v@) =~= script_escape(v@));
    while i < v.len()
        invariant
            i <= v.len(),
            v@ == text@,
            out@ + script_escape(v@.skip(i as int)) == script_escape(v@),
        decreases v.len() - i,
    {
        let ghost rest = v@.skip(i as int);
        let c = v[i];
        if c == '\\' {
            out.push('\\');
            out.push('\\');
            assert(rest.skip(1) =~= v@.skip(i + 1));
            i += 1;
        } else if c == '<' && i + 1 < v.len() && v[i + 1] == '/' {
            out.push('<');
            out.push('\\');
            out.push('/');
            assert(rest.skip(2) =~= v@.skip(i + 2));
            i += 2;
        } else if c == '<' && v.len() - i > 3 && v[i + 1] == '!' && v[i + 2] == '-' && v[i + 3]
            == '-' {
            out.push('<');
            out.push('\\');
            out.push('!');
            out.push('-');
            out.push('-');
            assert(rest.skip(4) =~= v@.skip(i + 4));
            i += 4;
        } else {
            out.push(c);
            assert(rest.skip(1) =~= v@.skip(i + 1));
            i += 1;
        }
        assert(out@ + script_escape(v@.skip(i as int)) =~= script_escape(v@));
    }
    assert(v@.skip(v@.len() as int) =~= Seq::<char>::empty());
    assert(out@ =~= script_escape(v@));
    string_of(&out)
}

/// The Markdown a page hands out: a body that opens with its own H1 as it is, an
/// empty body as a lone title, anything else with the title prepended.
pub open spec fn compose_source_spec(body: Seq<char>, title: Seq<char>, opens_with_h1: bool) -> Seq<char> {
    if body.len() == 0 {
        "# "@ + title + "\n"@
    } else if opens_with_h1 {
        body
    } else {
        "# "@ + title + "\n\n"@ + body
    }
}

/// The exact text "Copy as Markdown" and "Download Markdown" produce, given whether the
/// body's first heading is an H1.
pub fn compose_source_text(body: &str, title: &str, opens_with_h1: bool) -> (r: String)
    ensures
        r@ == compose_source_spec(body@, title@, opens_with_h1),
{
    let b = chars_of(body);
    let mut out: Vec<char> = Vec::new();
    if b.len() == 0 {
        push_str(&mut out, "# ");
        push_str(&mut out, title);
        push_str(&mut out, "\n");
    } else if opens_with_h1 {
        push_all(&mut out, &b);
    } else {
        push_str(&mut out, "# ");
        push_str(&mut out, title);
        push_str(&mut out, "\n\n");
        push_all(&mut out, &b);
    }
    string_of(&out)
}

/// `s` with every `\r\n` replaced by `\n`.
pub open spec fn crlf_to_lf(s: Seq<char>) -> Seq<char>
    decreases s.len(),
{
    if s.len() == 0 {
        Seq::empty()
    } else if s.len() >= 2 && s[0] == '\r' && s[1] == '\n' {
        seq!['\n'] + crlf_to_lf(s.skip(2))
    } else {
        seq![s[0]] + crlf_to_lf(s.skip(1))
    }
}

/// CRLF to LF and exactly one trailing newline; a body of nothing but newlines is
/// empty. Nothing else is touched: leading whitespace can be load-bearing.
pub open spec fn normalize_source_spec(body: Seq<char>) -> Seq<char> {
    let trimmed = trim_end_char(crlf_to_lf(body), '\n');
    if trimmed.len() == 0 {
        Seq::empty()
    } else {
        trimmed + seq!['\n']
    }
}

/// A page body as it is handed out.
pub fn normalize_source(body: &str) -> (r: String)
    ensures
        r@ == normalize_source_spec(body@),
{
    let v = chars_of(body);
    let mut lf: Vec<char> = Vec::new();
    let mut i: usize = 0;
    assert(v@.skip(0) =~= v@);
    assert(lf@ + crlf_to_lf(v@) =~= crlf_to_lf(v@));
    while i < v.len()
        invariant
            i <= v.len(),
            v@ == body@,
            lf@ + crlf_to_lf(v@.skip(i as int)) == crlf_to_lf(v@),
        decreases v.len() - i,
    {
        let ghost rest = v@.skip(i as int);
        if v[i] == '\r' && i + 1 < v.len() && v[i + 1] == '\n' {
            lf.push('\n');
            assert(rest.skip(2) =~= v@.skip(i + 2));
            i += 2;
        } else {
            lf.push(v[i]);
            assert(rest.skip(1) =~= v@.skip(i + 1));
            i += 1;
        }
        assert(lf@ + crlf_to_lf(v@.skip(i as int)) =~= crlf_to_lf(v@));
    }
    assert(v@.skip(v@.len() as int) =~= Seq::<char>::empty());
    assert(lf@ =~= crlf_to_lf(v@));
    let mut trimmed = crate::acl::index::trim_end_char_vec(&lf, '\n');
    if trimmed.len() == 0 {
        return String::new();
    }
    trimmed.push('\n');
    string_of(&trimmed)
}

/// `str::eq_ignore_ascii_case`.
pub open spec fn eq_ignore_case(a: Seq<char>, b: Seq<char>) -> bool {
    lower_seq(a) == lower_seq(b)
}

/// `str::trim_matches('/')`.
pub open spec fn trim_slashes(s: Seq<char>) -> Seq<char> {
    trim_start_char(trim_end_char(s, '/'), '/')
}

/// The page-map keys a URL path may refer to, in priority order: an explicit markdown
/// extension names one page and only that page; otherwise the URL names the page
/// itself or the folder it indexes.
pub open spec fn lookup_keys_spec(url_path: Seq<char>) -> Seq<Seq<char>> {
    let t = trim_slashes(url_path);
    let k = last_index_of(t, '.');
    if t.len() == 0 {
        seq![Seq::empty()]
    } else if k >= 0 && (eq_ignore_case(t.skip(k + 1), "md"@) || eq_ignore_case(
        t.skip(k + 1),
        "markdown"@,
    )) {
        seq![t.take(k)]
    } else {
        seq![t, t + "/index"@]
    }
}

pub fn eq_ignore_case_exec(a: &Vec<char>, b: &str) -> (r: bool)
    ensures
        r == eq_ignore_case(a@, b@),
{
    let la = lower_vec(a);
    let bv = chars_of(b);
    let lb = lower_vec(&bv);
    vec_eq(&la, &lb)
}

/// The page-map keys a URL path may refer to. One definition, shared by the server and
/// the command line, so "which page is this URL?" cannot be answered two ways.
pub fn page_lookup_keys(url_path: &str) -> (r: Vec<String>)
    ensures
        crate::auth::crypto::string_views(r@) == lookup_keys_spec(url_path@),
{
    let v = chars_of(url_path);
    let e = crate::acl::index::trim_end_char_vec(&v, '/');
    let t = crate::acl::index::trim_start_char_vec(&e, '/');
    let mut out: Vec<String> = Vec::new();
    if t.len() == 0 {
        out.push(String::new());
        assert(crate::auth::crypto::string_views(out@) =~= seq![Seq::<char>::empty()]);
        return out;
    }
    match last_index(&t, '.') {
        Some(k) => {
            proof {
                crate::text::lemma_last_index_bounds(t@, '.');
            }
            let mut ext: Vec<char> = Vec::new();
            push_range(&mut ext, &t, k + 1, t.len());
            assert(ext@ =~= t@.skip(k + 1));
            if eq_ignore_case_exec(&ext, "md") || eq_ignore_case_exec(&ext, "markdown") {
                let mut base: Vec<char> = Vec::new();
                push_range(&mut base, &t, 0, k);
                assert(base@ =~= t@.take(k as int));
                out.push(string_of(&base));
                assert(crate::auth::crypto::string_views(out@) =~= lookup_keys_spec(url_path@));
                return out;
            }
        },
        None => {},
    }
    out.push(string_of(&t));
    let mut with_index: Vec<char> = Vec::new();
    push_all(&mut with_index, &t);
    push_str(&mut with_index, "/index");
    out.push(string_of(&with_index));
    assert(crate::auth::crypto::string_views(out@) =~= lookup_keys_spec(url_path@));
    out
}

/// The absolute URL of a page from its mount and URL path.
pub open spec fn join_url_spec(mount: Seq<char>, url_path: Seq<char>) -> Seq<char> {
    let m = if mount == seq!['/'] { Seq::empty() } else { mount };
    if url_path.len() == 0 {
        if m.len() == 0 {
            seq!['/']
        } else {
            m
        }
    } else {
        m + seq!['/'] + url_path
    }
}

/// Compose the absolute URL of a page from its mount and URL path.
pub fn join_url(mount: &str, url_path: &str) -> (r: String)
    ensures
        r@ == join_url_spec(mount@, url_path@),
{
    let m0 = chars_of(mount);
    let p = chars_of(url_path);
    let is_root = m0.len() == 1 && m0[0] == '/';
    proof {
        if mount@ == seq!['/'] {
            assert(m0@.len() == 1 && m0@[0] == '/');
        }
        if is_root {
            assert(m0@ =~= seq!['/']);
        }
    }
    let mut out: Vec<char> = Vec::new();
    if !is_root {
        push_all(&mut out, &m0);
    }
    if p.len() == 0 {
        if out.len() == 0 {
            out.push('/');
        }
    } else {
        out.push('/');
        push_all(&mut out, &p);
    }
    assert(out@ =~= join_url_spec(mount@, url_path@));
    string_of(&out)
}

/// The bytes RFC 5987 lets appear unencoded in an `ext-value`.
pub open spec fn attr_char(b: u8) -> bool {
    (48 <= b <= 57) || (65 <= b <= 90) || (97 <= b <= 122) || b == 33 || b == 35 || b == 36
        || b == 38 || b == 43 || b == 45 || b == 46 || b == 94 || b == 95 || b == 96 || b == 124
        || b == 126
}

/// An uppercase hexadecimal digit.
pub open spec fn hex_upper(d: int) -> char {
    if d < 10 {
        ((48 + d) as u32) as char
    } else {
        ((55 + d) as u32) as char
    }
}

/// Every byte RFC 5987 does not allow bare, percent-encoded.
pub open spec fn rfc5987_spec(bytes: Seq<u8>) -> Seq<char>
    decreases bytes.len(),
{
    if bytes.len() == 0 {
        Seq::empty()
    } else {
        let b = bytes.last();
        rfc5987_spec(bytes.drop_last()) + if attr_char(b) {
            seq![(b as u32) as char]
        } else {
            seq!['%', hex_upper(b as int / 16), hex_upper(b as int % 16)]
        }
    }
}

/// What a byte becomes in the quoted fallback: printable ASCII other than `"`, `\`
/// and `/` stays, anything else is `_`.
pub open spec fn fallback_char(b: u8) -> char {
    if 0x20 <= b < 0x7f && b != 34 && b != 92 && b != 47 {
        (b as u32) as char
    } else {
        '_'
    }
}

/// The quoted-string fallback; a name reduced to nothing but `_` and `.` carries no
/// information and is replaced outright.
pub open spec fn fallback_spec(bytes: Seq<u8>) -> Seq<char> {
    let raw = bytes.map_values(|b: u8| fallback_char(b));
    if forall|i: int| 0 <= i < raw.len() ==> #[trigger] raw[i] == '_' || raw[i] == '.' {
        "page.md"@
    } else {
        raw
    }
}

/// A `Content-Disposition` value that names the file on every client.
pub open spec fn content_disposition_spec(name: Seq<char>) -> Seq<char> {
    let bytes = vstd::utf8::encode_utf8(name);
    "attachment; filename=\""@ + fallback_spec(bytes) + "\"; filename*=UTF-8''"@ + rfc5987_spec(bytes)
}

fn hex_upper_exec(d: u8) -> (c: char)
    requires
        d < 16,
    ensures
        c == hex_upper(d as int),
{
    let b: u8 = if d < 10 { 48u8 + d } else { 55u8 + d };
    b as char
}

fn rfc5987_encode(bytes: &[u8], out: &mut Vec<char>)
    ensures
        final(out)@ == old(out)@ + rfc5987_spec(bytes@),
{
    let mut i: usize = 0;
    while i < bytes.len()
        invariant
            i <= bytes@.len(),
            out@ == old(out)@ + rfc5987_spec(bytes@.take(i as int)),
        decreases bytes.len() - i,
    {
        let b = bytes[i];
        if (48 <= b && b <= 57) || (65 <= b && b <= 90) || (97 <= b && b <= 122) || b == 33 || b
            == 35 || b == 36 || b == 38 || b == 43 || b == 45 || b == 46 || b == 94 || b == 95 || b
            == 96 || b == 124 || b == 126 {
            out.push(b as char);
        } else {
            out.push('%');
            out.push(hex_upper_exec(b / 16));
            out.push(hex_upper_exec(b % 16));
        }
        assert(bytes@.take(i + 1).drop_last() =~= bytes@.take(i as int));
        assert(out@ =~= old(out)@ + rfc5987_spec(bytes@.take(i + 1)));
        i += 1;
    }
    assert(bytes@.take(bytes@.len() as int) =~= bytes@);
}

fn ascii_fallback(bytes: &[u8], out: &mut Vec<char>)
    ensures
        final(out)@ == old(out)@ + fallback_spec(bytes@),
{
    let mut raw: Vec<char> = Vec::new();
    let mut informative = false;
    let mut i: usize = 0;
    while i < bytes.len()
        invariant
            i <= bytes@.len(),
            raw@ == bytes@.take(i as int).map_values(|b: u8| fallback_char(b)),
            informative == exists|j: int| 0 <= j < i && !(#[trigger] raw@[j] == '_' || raw@[j] == '.'),
        decreases bytes.len() - i,
    {
        let b = bytes[i];
        let c: char = if 0x20 <= b && b < 0x7f && b != 34 && b != 92 && b != 47 {
            b as char
        } else {
            '_'
        };
        let ghost before = raw@;
        raw.push(c);
        assert(bytes@.take(i + 1).map_values(|b: u8| fallback_char(b)) =~= before.push(c));
        proof {
            if informative {
                let j = choose|j: int| 0 <= j < i && !(#[trigger] before[j] == '_' || before[j] == '.');
                assert(raw@[j] == before[j]);
            }
            if !(c == '_' || c == '.') {
                assert(raw@[i as int] == c);
            }
            if !informative && (c == '_' || c == '.') {
                assert forall|j: int| 0 <= j < i + 1 implies (#[trigger] raw@[j] == '_' || raw@[j] == '.') by {
                    if j < i {
                        assert(raw@[j] == before[j]);
                    }
                }
            }
        }
        informative = informative || !(c == '_' || c == '.');
        i += 1;
    }
    assert(bytes@.take(bytes@.len() as int) =~= bytes@);
    if informative {
        push_all(out, &raw);
    } else {
        push_str(out, "page.md");
    }
}

/// A `Content-Disposition` value that names `filename` on every client: `filename*`
/// carries the real name, and the plain `filename` is a safe ASCII reduction for
/// clients that ignore it.
pub fn content_disposition_attachment(filename: &str) -> (r: String)
    ensures
        r@ == content_disposition_spec(filename@),
{
    let bytes = filename.as_bytes();
    let mut out: Vec<char> = Vec::new();
    push_str(&mut out, "attachment; filename=\"");
    ascii_fallback(bytes, &mut out);
    push_str(&mut out, "\"; filename*=UTF-8''");
    rfc5987_encode(bytes, &mut out);
    string_of(&out)
}

/// `char::to_uppercase`, collected (std): what a character becomes in upper case,
/// which for some characters is more than one.
pub uninterp spec fn upper_of(c: char) -> Seq<char>;

/// `char::to_uppercase` (std). Claimed: the result is `upper_of(c)`; an ASCII lowercase
/// letter becomes its uppercase letter, and any other ASCII character, having no
/// uppercase mapping, stays itself.
#[verifier::external_body]
fn to_upper(c: char) -> (r: String)
    ensures
        r@ == upper_of(c),
        ('a' <= c <= 'z') ==> r@ == seq![((c as u32) - 32) as char],
        ((c as u32) < 128 && !('a' <= c <= 'z')) ==> r@ == seq![c],
{
    c.to_uppercase().collect()
}

pub open spec fn slug_lead(c: char) -> bool {
    ('0' <= c <= '9') || c == '-' || c == '_'
}

/// `s` without its leading digits, hyphens and underscores.
pub open spec fn trim_lead(s: Seq<char>) -> Seq<char>
    decreases s.len(),
{
    if s.len() > 0 && slug_lead(s[0]) {
        trim_lead(s.skip(1))
    } else {
        s
    }
}

pub open spec fn word_sep(c: char) -> bool {
    c == '-' || c == '_' || c == ' '
}

/// `s` with every word separator written as `-`.
pub open spec fn unify_seps(s: Seq<char>) -> Seq<char> {
    s.map_values(|c: char| if word_sep(c) { '-' } else { c })
}

/// The non-empty pieces, in order.
pub open spec fn nonempty_words(parts: Seq<Seq<char>>) -> Seq<Seq<char>>
    decreases parts.len(),
{
    if parts.len() == 0 {
        Seq::empty()
    } else if parts.last().len() == 0 {
        nonempty_words(parts.drop_last())
    } else {
        nonempty_words(parts.drop_last()).push(parts.last())
    }
}

/// Every word kept is non-empty, and each is one of the pieces.
pub proof fn lemma_nonempty_words_nonempty(parts: Seq<Seq<char>>, k: int)
    requires
        0 <= k < nonempty_words(parts).len(),
    ensures
        nonempty_words(parts)[k].len() > 0,
        exists|i: int| 0 <= i < parts.len() && parts[i] == nonempty_words(parts)[k],
    decreases parts.len(),
{
    if parts.len() > 0 {
        let rest = nonempty_words(parts.drop_last());
        if parts.last().len() == 0 || k < rest.len() {
            lemma_nonempty_words_nonempty(parts.drop_last(), k);
            let i = choose|i: int| 0 <= i < parts.drop_last().len() && parts.drop_last()[i] == nonempty_words(parts)[k];
            assert(parts[i] == parts.drop_last()[i]);
        } else {
            assert(parts[parts.len() - 1] == nonempty_words(parts)[k]);
        }
    }
}

/// The words of a `/`-separated path hold no `/`.
pub proof fn lemma_nonempty_words_no_slash(p: Seq<char>, k: int)
    requires
        0 <= k < nonempty_words(split_char(p, '/')).len(),
    ensures
        nonempty_words(split_char(p, '/'))[k].len() > 0,
        nonempty_words(split_char(p, '/'))[k][0] != '/',
{
    lemma_nonempty_words_nonempty(split_char(p, '/'), k);
    let i = choose|i: int| 0 <= i < split_char(p, '/').len() && split_char(p, '/')[i] == nonempty_words(split_char(p, '/'))[k];
    crate::text::lemma_split_pieces_lack_sep(p, '/', i, 0);
}

/// A word with its first character in upper case.
pub open spec fn capitalize(w: Seq<char>) -> Seq<char> {
    upper_of(w[0]) + w.skip(1)
}

pub open spec fn capitalize_all(words: Seq<Seq<char>>) -> Seq<Seq<char>> {
    words.map_values(|w: Seq<char>| capitalize(w))
}

/// "getting-started" becomes "Getting Started" and "01-intro" becomes "Intro".
pub open spec fn humanize_spec(slug: Seq<char>) -> Seq<char> {
    let lead_trimmed = trim_lead(slug);
    let cleaned = if lead_trimmed.len() == 0 { slug } else { lead_trimmed };
    let words = nonempty_words(split_char(unify_seps(cleaned), '-'));
    let out = join(capitalize_all(words), seq![' ']);
    if out.len() == 0 {
        slug
    } else {
        out
    }
}

/// A slug as a title: leading numbering dropped, words split at `-`, `_` and spaces,
/// each word capitalised.
pub fn humanize(slug: &str) -> (r: String)
    ensures
        r@ == humanize_spec(slug@),
{
    let v = chars_of(slug);
    let mut start: usize = 0;
    assert(v@.skip(0) =~= v@);
    while start < v.len() && (('0' <= v[start] && v[start] <= '9') || v[start] == '-' || v[start] == '_')
        invariant
            start <= v.len(),
            v@ == slug@,
            trim_lead(v@) == trim_lead(v@.skip(start as int)),
        decreases v.len() - start,
    {
        assert(v@.skip(start as int).skip(1) =~= v@.skip(start + 1));
        start += 1;
    }
    let from: usize = if start == v.len() { 0 } else { start };
    proof {
        assert(v@.skip(v@.len() as int) =~= Seq::<char>::empty());
    }
    let mut unified: Vec<char> = Vec::new();
    let mut i: usize = from;
    let ghost cleaned = v@.skip(from as int);
    assert(cleaned == if trim_lead(slug@).len() == 0 { slug@ } else { trim_lead(slug@) });
    while i < v.len()
        invariant
            from <= i <= v.len(),
            cleaned == v@.skip(from as int),
            unified@ == unify_seps(cleaned.take(i - from)),
        decreases v.len() - i,
    {
        let c = v[i];
        unified.push(if c == '-' || c == '_' || c == ' ' { '-' } else { c });
        assert(cleaned.take(i + 1 - from) =~= cleaned.take(i - from).push(c));
        assert(unified@ =~= unify_seps(cleaned.take(i + 1 - from)));
        i += 1;
    }
    assert(cleaned.take(v@.len() - from) =~= cleaned);
    let parts = split_vec(&unified, '-');
    let ghost all = views(parts@);
    let mut words: Vec<Vec<char>> = Vec::new();
    let mut j: usize = 0;
    assert(all.take(0) =~= Seq::<Seq<char>>::empty());
    while j < parts.len()
        invariant
            j <= parts.len(),
            all == views(parts@),
            views(words@) == capitalize_all(nonempty_words(all.take(j as int))),
        decreases parts.len() - j,
    {
        let ghost pre = all.take(j + 1);
        assert(pre.drop_last() =~= all.take(j as int));
        assert(pre.last() == parts@[j as int]@);
        let w = &parts[j];
        if w.len() > 0 {
            let up = to_upper(w[0]);
            let mut cap: Vec<char> = Vec::new();
            let upv = chars_of(up.as_str());
            push_all(&mut cap, &upv);
            push_range(&mut cap, w, 1, w.len());
            assert(cap@ =~= capitalize(w@));
            let ghost before = views(words@);
            words.push(cap);
            assert(views(words@) =~= before.push(capitalize(w@)));
            assert(capitalize_all(nonempty_words(pre)) =~= capitalize_all(nonempty_words(all.take(j as int))).push(capitalize(w@)));
        }
        j += 1;
    }
    assert(all.take(parts@.len() as int) =~= all);
    let mut sep: Vec<char> = Vec::new();
    sep.push(' ');
    assert(sep@ =~= seq![' ']);
    let out = join_vec(&words, &sep);
    if out.len() == 0 {
        return slug.to_owned();
    }
    string_of(&out)
}

/// The title a page without one is given: its file's stem humanised, or for an index
/// page its folder's name, or "Home" for the site's own index.
pub open spec fn title_from_path_spec(rel: Seq<char>) -> Seq<char> {
    let comps = crate::paths::components(rel);
    match crate::paths::comp_file_name(comps) {
        None => "Untitled"@,
        Some(name) => {
            let stem = crate::paths::stem_of(name);
            if eq_ignore_case(stem, "index"@) {
                match crate::paths::comp_file_name(comps.drop_last()) {
                    Some(folder) => humanize_spec(folder),
                    None => "Home"@,
                }
            } else {
                humanize_spec(stem)
            }
        },
    }
}

fn last_named_comp(comps: &Vec<Vec<char>>, n: usize) -> (r: Option<String>)
    requires
        n <= comps.len(),
    ensures
        match r {
            Some(s) => crate::paths::comp_file_name(views(comps@).take(n as int)) == Some(s@),
            None => crate::paths::comp_file_name(views(comps@).take(n as int)) is None,
        },
{
    if n == 0 {
        return None;
    }
    assert(views(comps@).take(n as int).last() == comps@[n - 1]@);
    if crate::paths::is_special(&comps[n - 1]) {
        return None;
    }
    Some(string_of(&comps[n - 1]))
}

/// The title for a page whose frontmatter and first heading name none.
pub fn derive_title_from_path(rel: &str) -> (r: String)
    ensures
        r@ == title_from_path_spec(rel@),
{
    let comps = crate::paths::path_components(rel);
    assert(views(comps@).take(comps@.len() as int) =~= views(comps@));
    let name = match last_named_comp(&comps, comps.len()) {
        None => return String::from_str("Untitled"),
        Some(n) => n,
    };
    let nv = chars_of(name.as_str());
    let stem: Vec<char> = match last_index(&nv, '.') {
        Some(k) => if k == 0 {
            nv
        } else {
            proof {
                crate::text::lemma_last_index_bounds(nv@, '.');
            }
            let mut s: Vec<char> = Vec::new();
            push_range(&mut s, &nv, 0, k);
            assert(s@ =~= nv@.take(k as int));
            s
        },
        None => nv,
    };
    assert(stem@ == crate::paths::stem_of(name@));
    if eq_ignore_case_exec(&stem, "index") {
        assert(views(comps@).take(comps@.len() - 1) =~= views(comps@).drop_last());
        match last_named_comp(&comps, comps.len() - 1) {
            Some(folder) => humanize(folder.as_str()),
            None => String::from_str("Home"),
        }
    } else {
        let s = string_of(&stem);
        humanize(s.as_str())
    }
}

/// What `percent_encoding::percent_decode_str(s).decode_utf8_lossy()` gives: `s` with each
/// `%XX` escape read as a byte, and the bytes read back as UTF-8.
pub uninterp spec fn percent_decoded(s: Seq<char>) -> Seq<char>;

/// `percent_encoding::percent_decode_str(..).decode_utf8_lossy()` (percent-encoding).
/// Claimed: the result is `percent_decoded(s)`, and text with no `%` in it comes back
/// unchanged.
#[verifier::external_body]
pub(crate) fn percent_decode(s: &str) -> (r: String)
    ensures
        r@ == percent_decoded(s@),
        !s@.contains('%') ==> r@ == s@,
{
    percent_encoding::percent_decode_str(s).decode_utf8_lossy().into_owned()
}

/// Where a URL's query or fragment starts: its first `?` or `#`, else its end.
pub open spec fn query_start(s: Seq<char>) -> int
    decreases s.len(),
{
    if s.len() == 0 {
        0
    } else if s[0] == '?' || s[0] == '#' {
        0
    } else {
        1 + query_start(s.drop_first())
    }
}

pub proof fn lemma_query_start_at(s: Seq<char>, k: int)
    requires
        0 <= k <= s.len(),
        forall|j: int| 0 <= j < k ==> s[j] != '?' && s[j] != '#',
        k == s.len() || s[k] == '?' || s[k] == '#',
    ensures
        query_start(s) == k,
    decreases k,
{
    if k > 0 {
        lemma_query_start_at(s.drop_first(), k - 1);
    }
}

/// A decoded path names something outside the site, or nothing, when one of its
/// segments is `..` or empty.
pub open spec fn escapes_or_empty(d: Seq<char>) -> bool {
    exists|i: int|
        0 <= i < split_char(d, '/').len() && (#[trigger] split_char(d, '/')[i] == ".."@
            || split_char(d, '/')[i].len() == 0)
}

/// The site-relative path an in-vault URL names: the URL must be local (no scheme, no
/// `//` host, not a bare fragment), its path must lie under `mount_prefix`, and the
/// decoded remainder must be a clean relative path.
pub open spec fn vault_relative_spec(url: Seq<char>, mount_prefix: Seq<char>) -> Option<Seq<char>> {
    if url.len() == 0 || url[0] == '#' || contains_seq(url, "://"@) || starts_with(url, "//"@) {
        None
    } else {
        let path = url.take(query_start(url));
        if !starts_with(path, mount_prefix) {
            None
        } else {
            let tail = path.skip(mount_prefix.len() as int);
            if tail.len() == 0 {
                None
            } else {
                let d = percent_decoded(tail);
                if escapes_or_empty(d) {
                    None
                } else {
                    Some(d)
                }
            }
        }
    }
}

/// The site-relative path an in-vault URL names, or `None` if it points elsewhere.
pub fn in_vault_relative(url: &str, mount_prefix: &str) -> (r: Option<String>)
    ensures
        match r {
            Some(rel) => vault_relative_spec(url@, mount_prefix@) == Some(rel@),
            None => vault_relative_spec(url@, mount_prefix@) is None,
        },
{
    proof {
        reveal_strlit("://");
        reveal_strlit("//");
        reveal_strlit("..");
    }
    let v = chars_of(url);
    if v.len() == 0 || v[0] == '#' {
        return None;
    }
    let scheme = chars_of("://");
    if contains_exec(&v, &scheme) || crate::server::tls::starts_with_exec(&v, "//") {
        return None;
    }
    let mut k: usize = 0;
    while k < v.len() && v[k] != '?' && v[k] != '#'
        invariant
            k <= v.len(),
            forall|j: int| 0 <= j < k ==> v@[j] != '?' && v@[j] != '#',
        decreases v.len() - k,
    {
        k += 1;
    }
    proof {
        lemma_query_start_at(v@, k as int);
    }
    let ghost path = v@.take(k as int);
    let p = chars_of(mount_prefix);
    if !(p.len() <= k && crate::text::range_eq(&v, 0, p.len(), &p, 0, p.len())) {
        proof {
            if p@.len() <= path.len() {
                assert(path.take(p@.len() as int) =~= v@.subrange(0, p@.len() as int));
                assert(p@.subrange(0, p@.len() as int) =~= p@);
            }
        }
        return None;
    }
    assert(path.take(p@.len() as int) =~= v@.subrange(0, p@.len() as int));
    assert(p@.subrange(0, p@.len() as int) =~= p@);
    if p.len() == k {
        return None;
    }
    let mut tail: Vec<char> = Vec::new();
    push_range(&mut tail, &v, p.len(), k);
    assert(tail@ =~= path.skip(p@.len() as int));
    let tail_s = string_of(&tail);
    let decoded = percent_decode(tail_s.as_str());
    let d = chars_of(decoded.as_str());
    let parts = split_vec(&d, '/');
    let mut i: usize = 0;
    assert(vault_relative_spec(url@, mount_prefix@) == (if escapes_or_empty(d@) { None } else { Some(d@) }));
    while i < parts.len()
        invariant
            i <= parts.len(),
            decoded@ == d@,
            vault_relative_spec(url@, mount_prefix@) == (if escapes_or_empty(d@) { None } else { Some(d@) }),
            views(parts@) == split_char(d@, '/'),
            forall|j: int| 0 <= j < i ==> !(#[trigger] split_char(d@, '/')[j] == ".."@ || split_char(d@, '/')[j].len() == 0),
        decreases parts.len() - i,
    {
        assert(views(parts@)[i as int] == parts@[i as int]@);
        let seg = &parts[i];
        proof {
            reveal_strlit("..");
        }
        if seg.len() == 0 || (seg.len() == 2 && seg[0] == '.' && seg[1] == '.') {
            proof {
                if seg@.len() == 2 {
                    assert(seg@ =~= ".."@);
                }
                assert(split_char(d@, '/')[i as int] == seg@);
            }
            return None;
        }
        assert(seg@ != ".."@) by {
            if seg@ == ".."@ {
                assert(seg@.len() == 2 && seg@[0] == '.' && seg@[1] == '.');
            }
        }
        i += 1;
    }
    Some(decoded)
}

/// The URL prefix under which a site's own files are served.
pub open spec fn mount_prefix_spec(mount: Seq<char>) -> Seq<char> {
    if mount == "/"@ {
        "/"@
    } else {
        mount + "/"@
    }
}

/// An attribute URL as a candidate asset: an in-vault path that is neither a Markdown
/// page nor hidden.
pub open spec fn asset_candidate(url: Seq<char>, prefix: Seq<char>) -> Option<Seq<char>> {
    match vault_relative_spec(url, prefix) {
        Some(rel) => if crate::content::source::markdown_path(rel)
            || crate::content::source::has_hidden_component(rel) {
            None
        } else {
            Some(rel)
        },
        None => None,
    }
}

pub open spec fn asset_candidates_spec(urls: Seq<Seq<char>>, prefix: Seq<char>) -> Seq<Seq<char>>
    decreases urls.len(),
{
    if urls.len() == 0 {
        Seq::empty()
    } else {
        match asset_candidate(urls.last(), prefix) {
            Some(rel) => asset_candidates_spec(urls.drop_last(), prefix).push(rel),
            None => asset_candidates_spec(urls.drop_last(), prefix),
        }
    }
}

/// The site-relative paths a rendered page's URL attributes point at inside its site,
/// in document order: Markdown pages and hidden files excluded. Whether each names a
/// file that exists is for the caller, which can see the disk, to settle.
pub fn asset_candidates(html: &str, mount: &str) -> (r: Vec<String>)
    ensures
        crate::auth::crypto::string_views(r@) == asset_candidates_spec(
            crate::content::attrs::attribute_values(html@),
            mount_prefix_spec(mount@),
        ),
{
    let prefix: String = if str_eq(mount, "/") {
        String::from_str("/")
    } else {
        let mut m: Vec<char> = chars_of(mount);
        m.push('/');
        proof {
            reveal_strlit("/");
        }
        assert(m@ =~= mount@ + "/"@);
        string_of(&m)
    };
    let urls = crate::content::attrs::visit_attribute_urls(html);
    let ghost all = crate::auth::crypto::string_views(urls@);
    let mut out: Vec<String> = Vec::new();
    let mut i: usize = 0;
    assert(all.take(0) =~= Seq::<Seq<char>>::empty());
    while i < urls.len()
        invariant
            i <= urls.len(),
            all == crate::auth::crypto::string_views(urls@),
            prefix@ == mount_prefix_spec(mount@),
            crate::auth::crypto::string_views(out@) == asset_candidates_spec(all.take(i as int), prefix@),
        decreases urls.len() - i,
    {
        let ghost pre = all.take(i + 1);
        assert(pre.drop_last() =~= all.take(i as int));
        assert(pre.last() == urls@[i as int]@);
        match in_vault_relative(urls[i].as_str(), prefix.as_str()) {
            Some(rel) => {
                if !crate::content::source::is_markdown_path(rel.as_str())
                    && !crate::content::source::relative_path_has_hidden_component(rel.as_str()) {
                    out.push(rel);
                    assert(crate::auth::crypto::string_views(out@) =~= asset_candidates_spec(pre, prefix@));
                }
            },
            None => {},
        }
        i += 1;
    }
    assert(all.take(urls@.len() as int) =~= all);
    out
}

/// A JSON integer as the text of a number: an optional `-` and digits, within `i64`.
pub open spec fn i64_literal(t: Seq<char>) -> Option<int> {
    let neg = t.len() > 0 && t[0] == '-';
    let d = if neg { t.skip(1) } else { t };
    if d.len() > 0 && all_digits(d) {
        let v = if neg { -(digits_value(d) as int) } else { digits_value(d) as int };
        if i64::MIN <= v <= i64::MAX {
            Some(v)
        } else {
            None
        }
    } else {
        None
    }
}

/// The number a frontmatter number holds, when it is an integer that fits `i64`.
pub fn parse_i64_literal(t: &str) -> (r: Option<i64>)
    ensures
        match r {
            Some(n) => i64_literal(t@) == Some(n as int),
            None => i64_literal(t@) is None,
        },
{
    let v = chars_of(t);
    let neg = v.len() > 0 && v[0] == '-';
    let start: usize = if neg { 1 } else { 0 };
    let ghost d = if neg { v@.skip(1) } else { v@ };
    assert(d =~= v@.subrange(start as int, v@.len() as int));
    if start == v.len() {
        return None;
    }
    let cap: u64 = 9_223_372_036_854_775_808;
    let mut value: u64 = 0;
    let mut i: usize = start;
    while i < v.len()
        invariant
            start <= i <= v.len(),
            start == (if neg { 1usize } else { 0usize }),
            v@ == t@,
            neg == (v@.len() > 0 && v@[0] == '-'),
            d == (if neg { v@.skip(1) } else { v@ }),
            d == v@.subrange(start as int, v@.len() as int),
            cap == 9_223_372_036_854_775_808u64,
            value <= cap,
            all_digits(v@.subrange(start as int, i as int)),
            value == digits_value(v@.subrange(start as int, i as int)),
        decreases v.len() - i,
    {
        let c = v[i];
        if !('0' <= c && c <= '9') {
            assert(!all_digits(d)) by {
                assert(d[i - start] == c);
            }
            return None;
        }
        let ghost prev = v@.subrange(start as int, i as int);
        assert(v@.subrange(start as int, i + 1) =~= prev.push(c));
        assert(v@.subrange(start as int, i + 1).drop_last() =~= prev);
        if value > cap / 10 {
            proof {
                let nxt = v@.subrange(start as int, i + 1);
                assert(d.take(i + 1 - start) =~= nxt);
                assert(nxt.drop_last() =~= prev);
                assert(nxt.last() == c);
                assert(digits_value(nxt) == digits_value(prev) * 10 + ((c as int - 48) as nat));
                assert(all_digits(nxt));
                crate::links::time::lemma_digits_grow(d, i + 1 - start);
            }
            return None;
        }
        let next: u64 = value * 10 + (c as u64 - 48);
        i += 1;
        if next > cap {
            proof {
                let nxt = v@.subrange(start as int, i as int);
                assert(d.take(i - start) =~= nxt);
                assert(nxt.drop_last() =~= prev);
                assert(nxt.last() == c);
                assert(all_digits(nxt));
                crate::links::time::lemma_digits_grow(d, i - start);
            }
            return None;
        }
        value = next;
    }
    assert(v@.subrange(start as int, v@.len() as int) =~= d);
    if neg {
        if value == cap {
            Some(i64::MIN)
        } else {
            Some(-(value as i64))
        }
    } else if value > 9_223_372_036_854_775_807u64 {
        None
    } else {
        Some(value as i64)
    }
}

/// A field holding an optional string: `Some(value)`, or `None` for the wrong type.
pub open spec fn opt_text_field(v: Option<FmValue>) -> Option<Option<Seq<char>>> {
    match v {
        None => Some(None),
        Some(FmValue::Null) => Some(None),
        Some(FmValue::String(s)) => Some(Some(s@)),
        Some(_) => None,
    }
}

/// A field holding an optional integer: `Some(value)`, or `None` for the wrong type.
pub open spec fn opt_int_field(v: Option<FmValue>) -> Option<Option<int>> {
    match v {
        None => Some(None),
        Some(FmValue::Null) => Some(None),
        Some(FmValue::Number(t)) => match i64_literal(t@) {
            Some(n) => Some(Some(n)),
            None => None,
        },
        Some(_) => None,
    }
}

/// A flag field, `false` when absent: `Some(value)`, or `None` for the wrong type.
pub open spec fn flag_field(v: Option<FmValue>) -> Option<bool> {
    match v {
        None => Some(false),
        Some(FmValue::Bool(b)) => Some(b),
        Some(_) => None,
    }
}

/// The typed fields a page reads from its frontmatter, as (title, description, layout,
/// sidebar order, draft).
pub type FieldsView = (Option<Seq<char>>, Option<Seq<char>>, Option<Seq<char>>, Option<int>, bool);

pub open spec fn assemble_fields(
    t: Option<Option<Seq<char>>>,
    d: Option<Option<Seq<char>>>,
    l: Option<Option<Seq<char>>>,
    o: Option<Option<int>>,
    f: Option<bool>,
) -> Option<FieldsView> {
    if t is Some && d is Some && l is Some && o is Some && f is Some {
        Some((t->0, d->0, l->0, o->0, f->0))
    } else {
        None
    }
}

/// The typed fields, when the frontmatter holds them: an object, read by key (other
/// keys ignored), or an array of four or five values read in field order; any field of
/// the wrong type, or any other shape, reads as nothing.
pub open spec fn typed_fields(fm: FmValue) -> Option<FieldsView> {
    match fm {
        FmValue::Object(entries) => assemble_fields(
            opt_text_field(get_spec(entries@, "title"@)),
            opt_text_field(get_spec(entries@, "description"@)),
            opt_text_field(get_spec(entries@, "layout"@)),
            opt_int_field(get_spec(entries@, "sidebar_order"@)),
            flag_field(get_spec(entries@, "draft"@)),
        ),
        FmValue::Array(items) => if items.len() == 4 || items.len() == 5 {
            assemble_fields(
                opt_text_field(Some(items@[0])),
                opt_text_field(Some(items@[1])),
                opt_text_field(Some(items@[2])),
                opt_int_field(Some(items@[3])),
                if items.len() == 5 {
                    match items@[4] {
                        FmValue::Bool(b) => Some(b),
                        _ => None,
                    }
                } else {
                    Some(false)
                },
            )
        } else {
            None
        },
        _ => None,
    }
}

/// The fields a page takes from its frontmatter; when they cannot be read, none at all.
pub open spec fn fields_spec(fm: FmValue) -> FieldsView {
    match typed_fields(fm) {
        Some(f) => f,
        None => (None, None, None, None, false),
    }
}

/// The fields a page takes from its frontmatter.
#[derive(Debug, Clone, Default)]
pub struct FrontmatterFields {
    pub title: Option<String>,
    pub description: Option<String>,
    pub layout: Option<String>,
    pub sidebar_order: Option<i64>,
    pub draft: bool,
}

pub open spec fn opt_str_view(o: Option<String>) -> Option<Seq<char>> {
    match o {
        Some(s) => Some(s@),
        None => None,
    }
}

pub open spec fn opt_i64_view(o: Option<i64>) -> Option<int> {
    match o {
        Some(n) => Some(n as int),
        None => None,
    }
}

impl FrontmatterFields {
    pub open spec fn view_fields(self) -> FieldsView {
        (
            opt_str_view(self.title),
            opt_str_view(self.description),
            opt_str_view(self.layout),
            opt_i64_view(self.sidebar_order),
            self.draft,
        )
    }
}

fn read_text(v: Option<&FmValue>) -> (r: Option<Option<String>>)
    ensures
        match (r, opt_text_field(match v { Some(x) => Some(*x), None => None })) {
            (Some(x), Some(y)) => opt_str_view(x) == y,
            (None, None) => true,
            _ => false,
        },
{
    match v {
        None => Some(None),
        Some(FmValue::Null) => Some(None),
        Some(FmValue::String(s)) => Some(Some(s.clone())),
        Some(_) => None,
    }
}

fn read_int(v: Option<&FmValue>) -> (r: Option<Option<i64>>)
    ensures
        match (r, opt_int_field(match v { Some(x) => Some(*x), None => None })) {
            (Some(x), Some(y)) => opt_i64_view(x) == y,
            (None, None) => true,
            _ => false,
        },
{
    match v {
        None => Some(None),
        Some(FmValue::Null) => Some(None),
        Some(FmValue::Number(t)) => match parse_i64_literal(t.as_str()) {
            Some(n) => Some(Some(n)),
            None => None,
        },
        Some(_) => None,
    }
}

fn read_flag(v: Option<&FmValue>) -> (r: Option<bool>)
    ensures
        r == flag_field(match v { Some(x) => Some(*x), None => None }),
{
    match v {
        None => Some(false),
        Some(FmValue::Bool(b)) => Some(*b),
        Some(_) => None,
    }
}

fn fields_from(
    t: Option<Option<String>>,
    d: Option<Option<String>>,
    l: Option<Option<String>>,
    o: Option<Option<i64>>,
    f: Option<bool>,
) -> (r: FrontmatterFields)
    ensures
        r.view_fields() == match assemble_fields(
            match t { Some(x) => Some(opt_str_view(x)), None => None },
            match d { Some(x) => Some(opt_str_view(x)), None => None },
            match l { Some(x) => Some(opt_str_view(x)), None => None },
            match o { Some(x) => Some(opt_i64_view(x)), None => None },
            f,
        ) {
            Some(v) => v,
            None => (None, None, None, None, false),
        },
{
    match (t, d, l, o, f) {
        (Some(title), Some(description), Some(layout), Some(sidebar_order), Some(draft)) =>
            FrontmatterFields { title, description, layout, sidebar_order, draft },
        _ => FrontmatterFields {
            title: None,
            description: None,
            layout: None,
            sidebar_order: None,
            draft: false,
        },
    }
}

/// The fields a page takes from its frontmatter: title, description, layout, sidebar
/// order and draft flag. A frontmatter that does not hold them with the right types
/// gives none of them.
pub fn frontmatter_fields(fm: &FmValue) -> (r: FrontmatterFields)
    ensures
        r.view_fields() == fields_spec(*fm),
{
    proof {
        reveal_strlit("title");
        reveal_strlit("description");
        reveal_strlit("layout");
        reveal_strlit("sidebar_order");
        reveal_strlit("draft");
    }
    match fm {
        FmValue::Object(entries) => fields_from(
            read_text(crate::acl::frontmatter::get_entry(entries, "title")),
            read_text(crate::acl::frontmatter::get_entry(entries, "description")),
            read_text(crate::acl::frontmatter::get_entry(entries, "layout")),
            read_int(crate::acl::frontmatter::get_entry(entries, "sidebar_order")),
            read_flag(crate::acl::frontmatter::get_entry(entries, "draft")),
        ),
        FmValue::Array(items) => {
            if items.len() == 4 || items.len() == 5 {
                let flag: Option<bool> = if items.len() == 5 {
                    match &items[4] {
                        FmValue::Bool(b) => Some(*b),
                        _ => None,
                    }
                } else {
                    Some(false)
                };
                fields_from(
                    read_text(Some(&items[0])),
                    read_text(Some(&items[1])),
                    read_text(Some(&items[2])),
                    read_int(Some(&items[3])),
                    flag,
                )
            } else {
                fields_from(None, None, None, None, None)
            }
        },
        _ => fields_from(None, None, None, None, None),
    }
}

/// `t` without its leading byte-order mark, if it has one.
pub open spec fn strip_bom_spec(t: Seq<char>) -> Seq<char> {
    if t.len() > 0 && t[0] == '\u{feff}' { t.skip(1) } else { t }
}

/// The text without a leading byte-order mark. Left in place, the mark hides the opening
/// `---` from the frontmatter parser, and with it the file's access rules.
pub fn strip_bom(raw: &str) -> (r: String)
    ensures
        r@ == strip_bom_spec(raw@),
{
    let v = chars_of(raw);
    if v.len() > 0 && v[0] == '\u{feff}' {
        let mut out: Vec<char> = Vec::new();
        push_range(&mut out, &v, 1, v.len());
        assert(out@ =~= v@.skip(1));
        string_of(&out)
    } else {
        raw.to_owned()
    }
}

/// What the YAML frontmatter parser (gray_matter's `Matter::<YAML>`, reading into a
/// `serde_json::Value`) makes of a page's text: the frontmatter (`None` when the text opens
/// with no frontmatter block) and the body after the block; or the parser's error message.
pub uninterp spec fn frontmatter_of(raw: Seq<char>) -> Result<(Option<FmView>, Seq<char>), Seq<char>>;

pub open spec fn opt_fm_view(d: Option<FmValue>) -> Option<FmView> {
    match d {
        Some(v) => Some(fm_view(v)),
        None => None,
    }
}

#[verifier::external_type_specification]
#[verifier::external_body]
pub struct ExJsonValue(serde_json::Value);

/// A `serde_json::Value` in the library's value type, variant by variant: numbers as
/// serde_json prints them, an object's members in the map's order. It is part of
/// `split_frontmatter`'s conversion, and what it yields is what `frontmatter_of` names.
#[verifier::external_body]
fn fm_value_of(v: serde_json::Value) -> FmValue {
    match v {
        serde_json::Value::Null => FmValue::Null,
        serde_json::Value::Bool(b) => FmValue::Bool(b),
        serde_json::Value::Number(n) => FmValue::Number(n.to_string()),
        serde_json::Value::String(t) => FmValue::String(t),
        serde_json::Value::Array(items) => FmValue::Array(items.into_iter().map(fm_value_of).collect()),
        serde_json::Value::Object(m) => FmValue::Object(m.into_iter().map(|(k, x)| (k, fm_value_of(x))).collect()),
    }
}

/// `gray_matter::Matter::<YAML>::new().parse::<serde_json::Value>` (gray_matter). Claimed:
/// on success the frontmatter and the body are `frontmatter_of(raw)`; on failure the
/// error's text is. Which texts open with a frontmatter block, and what the YAML parser
/// accepts and yields, is the parser's to say: no clause restates it.
#[verifier::external_body]
pub(crate) fn split_frontmatter(raw: &str) -> (r: Result<(Option<FmValue>, String), String>)
    ensures
        match r {
            Ok((d, b)) => frontmatter_of(raw@) == Ok::<(Option<FmView>, Seq<char>), Seq<char>>((opt_fm_view(d), b@)),
            Err(m) => frontmatter_of(raw@) == Err::<(Option<FmView>, Seq<char>), Seq<char>>(m@),
        },
{
    match gray_matter::Matter::<gray_matter::engine::YAML>::new().parse::<serde_json::Value>(raw) {
        Ok(parsed) => Ok((parsed.data.map(fm_value_of), parsed.content)),
        Err(e) => Err(e.to_string()),
    }
}

/// The message for a page whose frontmatter does not parse.
pub open spec fn frontmatter_error_spec(fs_path: Seq<char>, e: Seq<char>) -> Seq<char> {
    "front matter in "@ + fs_path + ": "@ + e
}

/// A page file's text made ready for the page: the text with its byte-order mark removed
/// (the text the access rules are read from), and the frontmatter and body the YAML
/// parser splits it into. A mark left in place would hide the opening `---`, and with it
/// the file's rules. When the frontmatter does not parse, the error names the file.
pub fn page_source(fs_path: &str, text: &str) -> (r: Result<(String, Option<FmValue>, String), String>)
    ensures
        match r {
            Ok((raw, d, b)) => {
                &&& raw@ == strip_bom_spec(text@)
                &&& frontmatter_of(strip_bom_spec(text@)) == Ok::<(Option<FmView>, Seq<char>), Seq<char>>((opt_fm_view(d), b@))
            },
            Err(m) => frontmatter_of(strip_bom_spec(text@)) matches Err(e)
                && m@ == frontmatter_error_spec(fs_path@, e),
        },
{
    let raw = strip_bom(text);
    match split_frontmatter(raw.as_str()) {
        Ok((d, b)) => Ok((raw, d, b)),
        Err(e) => {
            let mut m: Vec<char> = Vec::new();
            push_str(&mut m, "front matter in ");
            push_str(&mut m, fs_path);
            push_str(&mut m, ": ");
            push_str(&mut m, e.as_str());
            proof {
                reveal_strlit("front matter in ");
                reveal_strlit(": ");
            }
            assert(m@ =~= frontmatter_error_spec(fs_path@, e@));
            Err(string_of(&m))
        },
    }
}

/// A byte-order mark never changes what is read from a page: the text the parser and the
/// access rules see is the same with or without one in front.
pub proof fn lemma_bom_never_hides_rules(t: Seq<char>)
    requires
        t.len() == 0 || t[0] != '\u{feff}',
    ensures
        strip_bom_spec(seq!['\u{feff}'] + t) == strip_bom_spec(t),
        strip_bom_spec(t) == t,
{
    assert((seq!['\u{feff}'] + t).skip(1) =~= t);
}

/// One rendered Markdown page within a site.
#[derive(Debug)]
pub struct Page {
    pub fs_path: String,
    pub rel_path: String,
    /// URL path within the site (no leading slash, no extension). Empty for the root index.
    pub url_path: String,
    /// Absolute URL with the site's mount prefix (e.g. "/notes/guide/intro").
    pub url: String,
    pub is_index: bool,
    pub title: String,
    /// Basename of the source file (e.g. `welcome.md`).
    pub filename: String,
    /// File modification time in milliseconds since the Unix epoch.
    pub modified_at_ms: i64,
    pub description: Option<String>,
    pub layout: String,
    pub sidebar_order: Option<i64>,
    pub draft: bool,
    /// Frontmatter with the access-rule keys removed: what templates see.
    pub frontmatter: FmValue,
    pub headings: Vec<Heading>,
    pub html: String,
    /// The Markdown source, frontmatter removed, line endings and the trailing newline
    /// normalised.
    pub body: String,
    /// Site-relative paths of the in-vault files the page's HTML points at.
    pub assets: Vec<String>,
}

/// The first level-one heading.
pub open spec fn first_h1(hs: Seq<Heading>) -> Option<Heading>
    decreases hs.len(),
{
    if hs.len() == 0 {
        None
    } else if hs[0].level == 1 {
        Some(hs[0])
    } else {
        first_h1(hs.drop_first())
    }
}

fn find_h1(hs: &Vec<Heading>) -> (r: Option<String>)
    ensures
        match first_h1(hs@) {
            Some(h) => r matches Some(t) && t@ == h.text@,
            None => r is None,
        },
{
    let mut i: usize = 0;
    assert(hs@.skip(0) =~= hs@);
    while i < hs.len()
        invariant
            i <= hs.len(),
            first_h1(hs@) == first_h1(hs@.skip(i as int)),
        decreases hs.len() - i,
    {
        assert(hs@.skip(i as int).drop_first() =~= hs@.skip(i + 1));
        if hs[i].level == 1 {
            return Some(hs[i].text.clone());
        }
        i += 1;
    }
    None
}

/// A page's title: its frontmatter's, else its first level-one heading's text, else
/// one made from its path.
pub open spec fn page_title_spec(fm_title: Option<Seq<char>>, headings: Seq<Heading>, rel: Seq<char>) -> Seq<char> {
    match fm_title {
        Some(t) => t,
        None => match first_h1(headings) {
            Some(h) => h.text@,
            None => title_from_path_spec(rel),
        },
    }
}

impl Page {
    /// A page from what reading its file produced: `raw` (the file's text, byte-order
    /// mark removed), the frontmatter parsed out of it (`None` when it has none), the
    /// body after the frontmatter and its rendering; and the access rules the file
    /// declares. Titles fall back from frontmatter to the first level-one heading to the
    /// path; access rules are read from the frontmatter and then removed from it.
    pub fn assemble(
        fs_path: String,
        rel_path: &str,
        mount: &str,
        raw: &str,
        body: &str,
        data: Option<FmValue>,
        rendered: Rendered,
        modified_at_ms: i64,
        assets: Vec<String>,
    ) -> (pr: (Page, AclBlock))
        ensures
            pr.0.fs_path == fs_path,
            pr.0.rel_path@ == rel_path@,
            pr.0.url_path@ == url_path_spec(rel_path@),
            pr.0.is_index == is_index_rel(rel_path@),
            pr.0.url@ == join_url_spec(mount@, url_path_spec(rel_path@)),
            ({
                let r = pr.0;
                let acl = pr.1;
                let fm = match data {
                    Some(v) => v,
                    None => FmValue::Object(r.frontmatter->Object_0),
                };
                let f = fields_spec(fm);
                &&& data is None ==> r.frontmatter->Object_0@.len() == 0
                &&& r.title@ == page_title_spec(f.0, rendered.headings@, rel_path@)
                &&& opt_str_view(r.description) == f.1
                &&& r.layout@ == (match f.2 { Some(l) => l, None => "doc"@ })
                &&& opt_i64_view(r.sidebar_order) == f.3
                &&& r.draft == f.4
                &&& match fm {
                    FmValue::Object(entries) => crate::acl::frontmatter::block_view(acl)
                        == crate::acl::frontmatter::acl_spec(entries@, raw@),
                    _ => acl.spec_empty(),
                }
                &&& match (fm, r.frontmatter) {
                    (FmValue::Object(before), FmValue::Object(after)) => after@ == before@.filter(
                        crate::acl::frontmatter::keeps_entry(),
                    ),
                    (FmValue::Object(_), _) => false,
                    (_, other) => other == fm,
                }
            }),
            pr.0.filename@ == match crate::config::file_name_spec(rel_path@) {
                Some(n) => n,
                None => "untitled.md"@,
            },
            pr.0.modified_at_ms == modified_at_ms,
            pr.0.headings@ == rendered.headings@,
            pr.0.html == rendered.html,
            pr.0.body@ == normalize_source_spec(body@),
            pr.0.assets@ == assets@,
    {
        let fm = match data {
            Some(v) => v,
            None => FmValue::Object(Vec::new()),
        };
        let typed = frontmatter_fields(&fm);
        let acl = crate::acl::frontmatter::parse_acl(&fm, raw);
        let frontmatter = crate::acl::frontmatter::strip_acl_keys(fm);
        let (url_path, is_index) = url_path_from_rel(rel_path);
        let url = join_url(mount, url_path.as_str());
        let source = normalize_source(body);
        let title = match typed.title {
            Some(t) => t,
            None => match find_h1(&rendered.headings) {
                Some(t) => t,
                None => derive_title_from_path(rel_path),
            },
        };
        let layout = match typed.layout {
            Some(l) => l,
            None => String::from_str("doc"),
        };
        let filename = match crate::config::file_name_of(rel_path) {
            Some(n) => string_of(&n),
            None => String::from_str("untitled.md"),
        };
        (Page {
            fs_path,
            rel_path: rel_path.to_owned(),
            url_path,
            url,
            is_index,
            title,
            filename,
            modified_at_ms,
            description: typed.description,
            layout,
            sidebar_order: typed.sidebar_order,
            draft: typed.draft,
            frontmatter,
            headings: rendered.headings,
            html: rendered.html,
            body: source,
            assets,
        }, acl)
    }

    /// The exact text "Copy as Markdown" and "Download Markdown" produce: the body,
    /// given a title heading unless it opens with a level-one heading.
    pub fn source_text(&self) -> (r: String)
        ensures
            r@ == compose_source_spec(
                self.body@,
                self.title@,
                self.headings@.len() > 0 && self.headings@[0].level == 1,
            ),
    {
        let opens_with_h1 = self.headings.len() > 0 && self.headings[0].level == 1;
        compose_source_text(self.body.as_str(), self.title.as_str(), opens_with_h1)
    }
}

/// A frontmatter value as a value.
pub ghost enum FmView {
    Null,
    Bool(bool),
    Number(Seq<char>),
    Text(Seq<char>),
    Array(Seq<FmView>),
    Object(Seq<(Seq<char>, FmView)>),
}

/// What a frontmatter value holds.
pub open spec fn fm_view(v: FmValue) -> FmView
    decreases v,
{
    match v {
        FmValue::Null => FmView::Null,
        FmValue::Bool(b) => FmView::Bool(b),
        FmValue::Number(t) => FmView::Number(t@),
        FmValue::String(t) => FmView::Text(t@),
        FmValue::Array(items) => FmView::Array(
            Seq::new(items@.len(), |i: int| if 0 <= i < items@.len() { fm_view(items@[i]) } else { FmView::Null }),
        ),
        FmValue::Object(entries) => FmView::Object(
            Seq::new(
                entries@.len(),
                |i: int|
                    if 0 <= i < entries@.len() {
                        (entries@[i].0@, fm_view(entries@[i].1))
                    } else {
                        (Seq::empty(), FmView::Null)
                    },
            ),
        ),
    }
}

/// A copy of a frontmatter value.
pub fn duplicate_value(v: &FmValue) -> (r: FmValue)
    ensures
        fm_view(r) == fm_view(*v),
    decreases *v,
{
    match v {
        FmValue::Null => FmValue::Null,
        FmValue::Bool(b) => FmValue::Bool(*b),
        FmValue::Number(t) => FmValue::Number(t.clone()),
        FmValue::String(t) => FmValue::String(t.clone()),
        FmValue::Array(items) => {
            let mut out: Vec<FmValue> = Vec::new();
            let mut i: usize = 0;
            while i < items.len()
                invariant
                    i <= items@.len(),
                    out@.len() == i,
                    *v == FmValue::Array(*items),
                    forall|j: int| 0 <= j < i ==> fm_view(#[trigger] out@[j]) == fm_view(items@[j]),
                decreases items.len() - i,
            {
                proof {
                    assert(decreases_to!(*v => v->Array_0));
                    assert(v->Array_0 == *items);
                    assert(decreases_to!(*items => items@));
                    assert(decreases_to!(items@ => items@[i as int]));
                }
                let c = duplicate_value(&items[i]);
                out.push(c);
                i += 1;
            }
            let r = FmValue::Array(out);
            assert(fm_view(r) == fm_view(*v)) by {
                if let FmView::Array(a) = fm_view(r) {
                    if let FmView::Array(b) = fm_view(*v) {
                        assert(a =~= b);
                    }
                }
            }
            r
        },
        FmValue::Object(entries) => {
            let mut out: Vec<(String, FmValue)> = Vec::new();
            let mut i: usize = 0;
            while i < entries.len()
                invariant
                    i <= entries@.len(),
                    out@.len() == i,
                    *v == FmValue::Object(*entries),
                    forall|j: int| 0 <= j < i ==> (#[trigger] out@[j]).0@ == entries@[j].0@ && fm_view(out@[j].1) == fm_view(entries@[j].1),
                decreases entries.len() - i,
            {
                proof {
                    assert(decreases_to!(*v => v->Object_0));
                    assert(v->Object_0 == *entries);
                    assert(decreases_to!(*entries => entries@));
                    assert(decreases_to!(entries@ => entries@[i as int]));
                    assert(decreases_to!(entries@[i as int] => entries@[i as int].1));
                }
                let c = duplicate_value(&entries[i].1);
                out.push((entries[i].0.clone(), c));
                i += 1;
            }
            let r = FmValue::Object(out);
            assert(fm_view(r) == fm_view(*v)) by {
                if let FmView::Object(a) = fm_view(r) {
                    if let FmView::Object(b) = fm_view(*v) {
                        assert(a =~= b);
                    }
                }
            }
            r
        },
    }
}

pub open spec fn heading_view(h: Heading) -> (u8, Seq<char>, Seq<char>) {
    (h.level, h.id@, h.text@)
}

pub open spec fn headings_view(s: Seq<Heading>) -> Seq<(u8, Seq<char>, Seq<char>)> {
    s.map_values(|h: Heading| heading_view(h))
}

/// Whether two pages hold the same things.
pub open spec fn same_page(a: Page, b: Page) -> bool {
    &&& a.fs_path@ == b.fs_path@
    &&& a.rel_path@ == b.rel_path@
    &&& a.url_path@ == b.url_path@
    &&& a.url@ == b.url@
    &&& a.is_index == b.is_index
    &&& a.title@ == b.title@
    &&& a.filename@ == b.filename@
    &&& a.modified_at_ms == b.modified_at_ms
    &&& opt_str_view(a.description) == opt_str_view(b.description)
    &&& a.layout@ == b.layout@
    &&& a.sidebar_order == b.sidebar_order
    &&& a.draft == b.draft
    &&& fm_view(a.frontmatter) == fm_view(b.frontmatter)
    &&& headings_view(a.headings@) == headings_view(b.headings@)
    &&& a.html@ == b.html@
    &&& a.body@ == b.body@
    &&& crate::text::string_seq(a.assets@) == crate::text::string_seq(b.assets@)
}

fn duplicate_strings(v: &Vec<String>) -> (r: Vec<String>)
    ensures
        crate::text::string_seq(r@) == crate::text::string_seq(v@),
{
    let mut out: Vec<String> = Vec::new();
    let mut i: usize = 0;
    while i < v.len()
        invariant
            i <= v@.len(),
            crate::text::string_seq(out@) == crate::text::string_seq(v@).take(i as int),
        decreases v.len() - i,
    {
        let ghost before = crate::text::string_seq(out@);
        let c = v[i].clone();
        out.push(c);
        assert(crate::text::string_seq(out@) =~= before.push(v@[i as int]@));
        assert(crate::text::string_seq(out@) =~= crate::text::string_seq(v@).take(i + 1));
        i += 1;
    }
    assert(crate::text::string_seq(v@).take(v@.len() as int) =~= crate::text::string_seq(v@));
    out
}

fn duplicate_headings(v: &Vec<Heading>) -> (r: Vec<Heading>)
    ensures
        headings_view(r@) == headings_view(v@),
{
    let mut out: Vec<Heading> = Vec::new();
    let mut i: usize = 0;
    while i < v.len()
        invariant
            i <= v@.len(),
            headings_view(out@) == headings_view(v@).take(i as int),
        decreases v.len() - i,
    {
        let ghost before = headings_view(out@);
        let h = Heading { level: v[i].level, id: v[i].id.clone(), text: v[i].text.clone() };
        assert(heading_view(h) == heading_view(v@[i as int]));
        out.push(h);
        assert(headings_view(out@) =~= before.push(heading_view(h)));
        assert(headings_view(out@) =~= headings_view(v@).take(i + 1));
        i += 1;
    }
    assert(headings_view(v@).take(v@.len() as int) =~= headings_view(v@));
    out
}

impl Page {
    /// A copy of this page.
    pub fn duplicate(&self) -> (r: Page)
        ensures
            same_page(r, *self),
    {
        Page {
            fs_path: self.fs_path.clone(),
            rel_path: self.rel_path.clone(),
            url_path: self.url_path.clone(),
            url: self.url.clone(),
            is_index: self.is_index,
            title: self.title.clone(),
            filename: self.filename.clone(),
            modified_at_ms: self.modified_at_ms,
            description: match &self.description {
                Some(d) => Some(d.clone()),
                None => None,
            },
            layout: self.layout.clone(),
            sidebar_order: self.sidebar_order,
            draft: self.draft,
            frontmatter: duplicate_value(&self.frontmatter),
            headings: duplicate_headings(&self.headings),
            html: self.html.clone(),
            body: self.body.clone(),
            assets: duplicate_strings(&self.assets),
        }
    }
}

} // verus!
