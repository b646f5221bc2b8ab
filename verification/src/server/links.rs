//! What reaches the request log for a share link.
use vstd::prelude::*;

use crate::acl::edit::first_index_of;
use crate::content::attrs::{attribute_values, rewrite_spec, url_spans};
use crate::content::page::{mount_prefix_spec, percent_decoded};
use crate::text::{chars_of, push_all, push_range, push_str, split_char, starts_with, string_of, trim_start_char, views};

verus! {

/// A request path as it may be logged: a share token in it replaced by `<token>`.
pub open spec fn redact_uri_spec(path: Seq<char>, prefix: Seq<char>) -> Seq<char> {
    if !starts_with(path, prefix) {
        path
    } else {
        let tail = path.skip(prefix.len() as int);
        if !(tail.len() > 0 && tail[0] == '/') {
            path
        } else {
            let rest = tail.skip(1);
            let k = first_index_of(rest, '/');
            if k >= 0 {
                prefix + "/<token>/"@ + rest.skip(k + 1)
            } else {
                prefix + "/<token>"@
            }
        }
    }
}

/// A request path with any share token replaced by a placeholder. A link URL is its
/// token, so without this every link read would write a credential to the log. The
/// rest of the path is kept: it names an asset, which is useful and not a secret.
pub fn redact_uri(path: &str, prefix: &str) -> (r: String)
    ensures
        r@ == redact_uri_spec(path@, prefix@),
{
    let v = chars_of(path);
    let p = chars_of(prefix);
    let n = p.len();
    if !(n <= v.len() && crate::text::range_eq(&v, 0, n, &p, 0, n)) {
        proof {
            if n <= v@.len() {
                assert(p@.subrange(0, n as int) =~= p@);
            }
        }
        return path.to_owned();
    }
    assert(p@.subrange(0, n as int) =~= p@);
    if !(n < v.len() && v[n] == '/') {
        return path.to_owned();
    }
    let ghost rest = v@.skip(n + 1);
    assert(starts_with(path@, prefix@));
    assert(v@.skip(n as int).skip(1) =~= rest);
    assert(v@.skip(n as int)[0] == '/');
    let mut i: usize = n + 1;
    while i < v.len() && v[i] != '/'
        invariant
            n + 1 <= i <= v.len(),
            rest == v@.skip(n + 1),
            forall|j: int| n + 1 <= j < i ==> #[trigger] v@[j] != '/',
        decreases v.len() - i,
    {
        i += 1;
    }
    let mut out: Vec<char> = Vec::new();
    push_str(&mut out, prefix);
    if i < v.len() {
        proof {
            assert forall|j: int| 0 <= j < i - n - 1 implies #[trigger] rest[j] != '/' by {
                assert(rest[j] == v@[n + 1 + j]);
            }
            crate::acl::edit::lemma_first_index(rest, '/', i - n - 1);
        }
        push_str(&mut out, "/<token>/");
        push_range(&mut out, &v, i + 1, v.len());
        assert(rest.skip(i - n - 1 + 1) =~= v@.subrange(i + 1, v@.len() as int));
        assert(out@ =~= redact_uri_spec(path@, prefix@));
    } else {
        proof {
            assert forall|j: int| 0 <= j < rest.len() implies #[trigger] rest[j] != '/' by {
                assert(rest[j] == v@[n + 1 + j]);
            }
            crate::acl::edit::lemma_first_index_none(rest, '/');
        }
        push_str(&mut out, "/<token>");
        assert(out@ =~= redact_uri_spec(path@, prefix@));
    }
    string_of(&out)
}

/// Where a URL attribute of a shared page points once it goes through the link whose
/// URLs begin with `link_base`: a root-relative URL moves under the link, keeping what
/// follows the site's mount (or, for another site's URL, the whole path). Other URLs,
/// protocol-relative ones and the server's own `/__` routes are left alone.
pub open spec fn token_target(url: Seq<char>, mount_prefix: Seq<char>, link_base: Seq<char>) -> Option<Seq<char>> {
    if !starts_with(url, "/"@) || starts_with(url, "//"@) || starts_with(url, "/__"@) {
        None
    } else {
        let tail = if starts_with(url, mount_prefix) {
            url.skip(mount_prefix.len() as int)
        } else {
            trim_start_char(url, '/')
        };
        Some(link_base + "/"@ + tail)
    }
}

/// The replacement for each URL attribute of `h`, in order.
pub open spec fn token_replacements(h: Seq<char>, mount_prefix: Seq<char>, link_base: Seq<char>) -> Seq<Option<Seq<char>>> {
    Seq::new(attribute_values(h).len(), |i: int| token_target(attribute_values(h)[i], mount_prefix, link_base))
}

/// `text` starts with `p` (both as character vectors).
fn has_prefix(text: &Vec<char>, p: &Vec<char>) -> (r: bool)
    ensures
        r == starts_with(text@, p@),
{
    let n = p.len();
    let r = n <= text.len() && crate::text::range_eq(text, 0, n, p, 0, n);
    proof {
        if n <= text@.len() {
            assert(p@.subrange(0, n as int) =~= p@);
        }
    }
    r
}

/// A shared page's HTML with every in-vault URL pointed at the link itself
/// (`{link_prefix}/{token}/...`), so that nothing on the page leads to a URL the token
/// does not cover. A URL that names something outside the page's referenced set simply
/// reaches the refusal page.
pub fn tokenize_html(html: &str, mount: &str, link_prefix: &str, token: &str) -> (r: String)
    ensures
        r@ == rewrite_spec(
            html@,
            token_replacements(html@, mount_prefix_spec(mount@), link_prefix@ + "/"@ + token@),
        ),
{
    proof {
        reveal_strlit("/");
        reveal_strlit("//");
        reveal_strlit("/__");
    }
    let mut base: Vec<char> = Vec::new();
    push_str(&mut base, link_prefix);
    push_str(&mut base, "/");
    push_str(&mut base, token);
    let ghost lb = link_prefix@ + "/"@ + token@;
    assert(base@ =~= lb);
    let mut mp: Vec<char> = chars_of(mount);
    if !crate::text::str_eq(mount, "/") {
        mp.push('/');
    }
    assert(mp@ =~= mount_prefix_spec(mount@));
    let mut slash: Vec<char> = Vec::new();
    push_str(&mut slash, "/");
    let mut dslash: Vec<char> = Vec::new();
    push_str(&mut dslash, "//");
    let mut internal: Vec<char> = Vec::new();
    push_str(&mut internal, "/__");
    let urls = crate::content::attrs::visit_attribute_urls(html);
    let ghost all = attribute_values(html@);
    let ghost goal = token_replacements(html@, mp@, lb);
    let mut reps: Vec<Option<String>> = Vec::new();
    let mut i: usize = 0;
    while i < urls.len()
        invariant
            i <= urls.len(),
            crate::auth::crypto::string_views(urls@) == all,
            all == attribute_values(html@),
            goal == token_replacements(html@, mp@, lb),
            base@ == lb,
            slash@ == "/"@,
            dslash@ == "//"@,
            internal@ == "/__"@,
            reps.len() == i,
            forall|j: int| 0 <= j < i ==> #[trigger] crate::content::attrs::opt_views(reps@)[j] == goal[j],
        decreases urls.len() - i,
    {
        proof {
            reveal_strlit("/");
        }
        let ghost before = reps@;
        let u = chars_of(urls[i].as_str());
        assert(u@ == all[i as int]);
        if !has_prefix(&u, &slash) || has_prefix(&u, &dslash) || has_prefix(&u, &internal) {
            reps.push(None);
        } else {
            let tail: Vec<char> = if has_prefix(&u, &mp) {
                let mut t: Vec<char> = Vec::new();
                push_range(&mut t, &u, mp.len(), u.len());
                assert(t@ =~= u@.skip(mp@.len() as int));
                t
            } else {
                crate::acl::index::trim_start_char_vec(&u, '/')
            };
            let mut out: Vec<char> = Vec::new();
            push_all(&mut out, &base);
            out.push('/');
            push_all(&mut out, &tail);
            assert(out@ =~= lb + "/"@ + tail@);
            reps.push(Some(string_of(&out)));
        }
        assert(crate::content::attrs::opt_views(reps@)[i as int] == goal[i as int]);
        assert forall|j: int| 0 <= j < i implies #[trigger] crate::content::attrs::opt_views(reps@)[j] == goal[j] by {
            assert(reps@[j] == before[j]);
            assert(crate::content::attrs::opt_views(before)[j] == goal[j]);
        }
        i += 1;
    }
    assert(crate::content::attrs::opt_views(reps@) =~= goal);
    crate::content::attrs::rewrite_attribute_urls(html, &reps)
}

/// The site-relative path an asset request under a link names, before the disk is
/// consulted: percent-decoded, leading slashes dropped, and refused when it is empty or
/// has an empty, `.` or `..` segment.
pub open spec fn asset_request_spec(requested: Seq<char>) -> Option<Seq<char>> {
    let trimmed = trim_start_char(percent_decoded(requested), '/');
    if trimmed.len() == 0 {
        None
    } else if exists|k: int| 0 <= k < split_char(trimmed, '/').len() && bad_segment(#[trigger] split_char(trimmed, '/')[k]) {
        None
    } else {
        Some(trimmed)
    }
}

pub open spec fn bad_segment(seg: Seq<char>) -> bool {
    seg.len() == 0 || seg == "."@ || seg == ".."@
}

/// See [`asset_request_spec`].
pub fn asset_request_path(requested: &str) -> (r: Option<String>)
    ensures
        match r {
            Some(p) => asset_request_spec(requested@) == Some(p@),
            None => asset_request_spec(requested@) is None,
        },
{
    proof {
        reveal_strlit(".");
        reveal_strlit("..");
    }
    let decoded = crate::content::page::percent_decode(requested);
    let d = chars_of(decoded.as_str());
    let trimmed = crate::acl::index::trim_start_char_vec(&d, '/');
    if trimmed.len() == 0 {
        return None;
    }
    let segs = crate::text::split_vec(&trimmed, '/');
    let ghost pieces = split_char(trimmed@, '/');
    let mut i: usize = 0;
    while i < segs.len()
        invariant
            i <= segs.len(),
            views(segs@) == pieces,
            pieces == split_char(trimmed@, '/'),
            trimmed@ == trim_start_char(percent_decoded(requested@), '/'),
            trimmed@.len() > 0,
            forall|k: int| 0 <= k < i ==> !bad_segment(#[trigger] pieces[k]),
        decreases segs.len() - i,
    {
        proof {
            reveal_strlit(".");
            reveal_strlit("..");
        }
        let seg = &segs[i];
        assert(seg@ == pieces[i as int]);
        let is_dot = seg.len() == 1 && seg[0] == '.';
        let is_dotdot = seg.len() == 2 && seg[0] == '.' && seg[1] == '.';
        if seg.len() == 0 || is_dot || is_dotdot {
            proof {
                if is_dot {
                    assert(seg@ =~= "."@);
                }
                if is_dotdot {
                    assert(seg@ =~= ".."@);
                }
                assert(bad_segment(pieces[i as int]));
            }
            return None;
        }
        proof {
            if seg@ == "."@ {
                assert(seg@.len() == 1 && seg@[0] == '.');
            }
            if seg@ == ".."@ {
                assert(seg@.len() == 2 && seg@[0] == '.' && seg@[1] == '.');
            }
        }
        i += 1;
    }
    Some(string_of(&trimmed))
}

/// What a request for `requested` under a link gives access to. `resolve` answers
/// for the disk: the key of the file a site-relative path opens (the path in the
/// casing the filesystem uses), if there is one. The request is honoured only for
/// a file the page itself references, which is the whole of the authorization here.
pub fn asset_key<F: Fn(&String) -> Option<String>>(requested: &str, resolve: F, assets: &Vec<String>) -> (r: Option<String>)
    requires
        forall|p: &String| resolve.requires((p,)),
    ensures
        match asset_request_spec(requested@) {
            None => r is None,
            Some(path) => match r {
                None => exists|a: &String, out: Option<String>| a@ == path && resolve.ensures((a,), out)
                    && match out {
                        Some(k) => !crate::text::string_seq(assets@).contains(k@),
                        None => true,
                    },
                Some(k) => crate::text::string_seq(assets@).contains(k@)
                    && exists|a: &String, out: Option<String>| a@ == path && resolve.ensures((a,), out)
                    && (out matches Some(o) && o@ == k@),
            },
        },
{
    let path = match asset_request_path(requested) {
        None => return None,
        Some(p) => p,
    };
    let out = resolve(&path);
    assert(resolve.ensures((&path,), out));
    match out {
        None => None,
        Some(key) => {
            if string_listed(assets, key.as_str()) {
                Some(key)
            } else {
                None
            }
        },
    }
}

/// Whether `s` is one of the strings in `v`.
fn string_listed(v: &Vec<String>, s: &str) -> (r: bool)
    ensures
        r == crate::text::string_seq(v@).contains(s@),
{
    let mut i: usize = 0;
    while i < v.len()
        invariant
            i <= v.len(),
            forall|j: int| 0 <= j < i ==> (#[trigger] v@[j])@ != s@,
        decreases v.len() - i,
    {
        if crate::text::str_eq(v[i].as_str(), s) {
            assert(crate::text::string_seq(v@)[i as int] == s@);
            return true;
        }
        i += 1;
    }
    proof {
        if crate::text::string_seq(v@).contains(s@) {
            let j = choose|j: int| 0 <= j < v@.len() && crate::text::string_seq(v@)[j] == s@;
            assert(v@[j]@ == s@);
        }
    }
    false
}

} // verus!
