//! The pure parts of exporting a static bundle: where a site is mounted in it, how its
//! URLs move with it, and how pages find the shared assets from wherever they sit.
use vstd::prelude::*;

use crate::content::page::{join_url, join_url_spec};
use crate::paths::{components, is_prefix, path_components};
use crate::text::{
    chars_of, push_all, push_str, replace_all, replace_vec, starts_with, str_eq, string_of,
    trim, trim_bounds, trim_end_char, trim_start_char, vec_eq, views,
};
use crate::acl::index::{trim_end_char_vec, trim_start_char_vec};

verus! {

/// The name of the syntax-highlighting stylesheet in an exported bundle.
pub const SYNTAX_CSS_FILE: &'static str = "syntax-highlight.css";

/// A mount with one leading slash; blank and `/` both mean the root.
pub open spec fn export_mount_spec(mount: Seq<char>) -> Seq<char> {
    let t = trim(mount);
    if t.len() == 0 || t == seq!['/'] {
        seq!['/']
    } else {
        seq!['/'] + trim_start_char(t, '/')
    }
}

/// The mount a site is exported under.
pub fn normalize_mount(mount: &str) -> (r: String)
    ensures
        r@ == export_mount_spec(mount@),
{
    let v = chars_of(mount);
    let (a, b) = trim_bounds(&v, 0, v.len());
    assert(v@.subrange(0, v@.len() as int) =~= v@);
    let mut t: Vec<char> = Vec::new();
    crate::text::push_range(&mut t, &v, a, b);
    let mut out: Vec<char> = Vec::new();
    out.push('/');
    if t.len() == 0 || (t.len() == 1 && t[0] == '/') {
        proof {
            if t@.len() == 1 && t@[0] == '/' {
                assert(t@ =~= seq!['/']);
            }
        }
        assert(out@ =~= seq!['/']);
        return string_of(&out);
    }
    proof {
        if t@ == seq!['/'] {
            assert(t@.len() == 1 && t@[0] == '/');
        }
    }
    let rest = trim_start_char_vec(&t, '/');
    push_all(&mut out, &rest);
    string_of(&out)
}

/// A site URL moved from one mount to another; URLs outside the old mount are kept.
pub open spec fn remap_spec(url: Seq<char>, from_mount: Seq<char>, to_mount: Seq<char>) -> Seq<char> {
    let from = trim_end_char(from_mount, '/');
    if from_mount == to_mount || from.len() == 0 {
        url
    } else if url == from {
        join_url_spec(to_mount, Seq::empty())
    } else if starts_with(url, from) {
        join_url_spec(to_mount, trim_start_char(url.skip(from.len() as int), '/'))
    } else {
        url
    }
}

/// Move a site URL from one mount to another.
pub fn remap_mount_url(url: &str, from_mount: &str, to_mount: &str) -> (r: String)
    ensures
        r@ == remap_spec(url@, from_mount@, to_mount@),
{
    if str_eq(from_mount, to_mount) {
        return url.to_owned();
    }
    let fm = chars_of(from_mount);
    let from = trim_end_char_vec(&fm, '/');
    if from.len() == 0 {
        return url.to_owned();
    }
    let u = chars_of(url);
    if vec_eq(&u, &from) {
        proof {
            reveal_strlit("");
        }
        return join_url(to_mount, "");
    }
    let n = from.len();
    if n <= u.len() && crate::text::range_eq(&u, 0, n, &from, 0, n) {
        proof {
            assert(from@.subrange(0, n as int) =~= from@);
        }
        let mut rest: Vec<char> = Vec::new();
        crate::text::push_range(&mut rest, &u, n, u.len());
        assert(rest@ =~= u@.skip(n as int));
        let suffix = trim_start_char_vec(&rest, '/');
        let s = string_of(&suffix);
        return join_url(to_mount, s.as_str());
    }
    proof {
        if n <= u@.len() {
            assert(from@.subrange(0, n as int) =~= from@);
        }
    }
    url.to_owned()
}

/// How many directories a page sits below the bundle's root: the components of its
/// parent directory relative to the root (or of the parent itself when it is not under
/// the root).
pub open spec fn page_depth(html_path: Seq<char>, output_root: Seq<char>) -> nat {
    let hp = components(html_path);
    let root = components(output_root);
    let parent = if hp.len() == 0 || (hp.len() == 1 && hp[0] == seq!['/']) {
        root
    } else {
        hp.drop_last()
    };
    if is_prefix(root, parent) {
        (parent.len() - root.len()) as nat
    } else {
        parent.len()
    }
}

/// `../` once per level, then `assets/`.
pub open spec fn asset_prefix_spec(depth: nat) -> Seq<char>
    decreases depth,
{
    if depth == 0 {
        "assets/"@
    } else {
        "../"@ + asset_prefix_spec((depth - 1) as nat)
    }
}

fn comps_prefix(p: &Vec<Vec<char>>, s: &Vec<Vec<char>>) -> (r: bool)
    ensures
        r == is_prefix(views(p@), views(s@)),
{
    if p.len() > s.len() {
        return false;
    }
    let mut i: usize = 0;
    while i < p.len()
        invariant
            i <= p.len() <= s.len(),
            forall|j: int| 0 <= j < i ==> #[trigger] p@[j]@ == s@[j]@,
        decreases p.len() - i,
    {
        if !vec_eq(&p[i], &s[i]) {
            assert(views(s@).take(p@.len() as int)[i as int] != views(p@)[i as int]);
            return false;
        }
        i += 1;
    }
    assert(views(s@).take(p@.len() as int) =~= views(p@));
    true
}

/// The relative path from a page in the bundle to the shared `assets/` directory.
pub fn relative_asset_prefix(html_path: &str, output_root: &str) -> (r: String)
    ensures
        r@ == asset_prefix_spec(page_depth(html_path@, output_root@)),
{
    let hp = path_components(html_path);
    let root = path_components(output_root);
    let mut parent: Vec<Vec<char>> = Vec::new();
    let is_top = hp.len() == 0 || (hp.len() == 1 && hp[0].len() == 1 && hp[0][0] == '/');
    proof {
        if views(hp@).len() == 1 && views(hp@)[0] == seq!['/'] {
            assert(hp@[0]@ == seq!['/']);
            assert(hp@[0]@.len() == 1);
        }
        if hp@.len() == 1 && hp@[0]@.len() == 1 && hp@[0]@[0] == '/' {
            assert(views(hp@)[0] =~= seq!['/']);
        }
    }
    let src = if is_top { &root } else { &hp };
    let take: usize = if is_top { root.len() } else { hp.len() - 1 };
    let mut i: usize = 0;
    while i < take
        invariant
            i <= take <= src.len(),
            views(parent@) == views(src@).take(i as int),
        decreases take - i,
    {
        let mut c: Vec<char> = Vec::new();
        push_all(&mut c, &src[i]);
        assert(c@ =~= src@[i as int]@);
        let ghost before = views(parent@);
        parent.push(c);
        assert(views(parent@) =~= before.push(src@[i as int]@));
        assert(views(src@).take(i + 1) =~= views(src@).take(i as int).push(src@[i as int]@));
        assert(views(parent@) =~= views(src@).take(i + 1));
        i += 1;
    }
    proof {
        if is_top {
            assert(views(parent@) =~= views(root@));
        } else {
            assert(views(parent@) =~= views(hp@).drop_last());
        }
    }
    let depth: usize = if comps_prefix(&root, &parent) {
        parent.len() - root.len()
    } else {
        parent.len()
    };
    let mut out: Vec<char> = Vec::new();
    let mut k: usize = 0;
    while k < depth
        invariant
            k <= depth,
            out@ + asset_prefix_spec((depth - k) as nat) == asset_prefix_spec(depth as nat),
        decreases depth - k,
    {
        push_str(&mut out, "../");
        proof {
            assert(asset_prefix_spec((depth - k) as nat) == "../"@ + asset_prefix_spec((depth - k - 1) as nat));
        }
        k += 1;
        assert(out@ + asset_prefix_spec((depth - k) as nat) =~= asset_prefix_spec(depth as nat));
    }
    push_str(&mut out, "assets/");
    string_of(&out)
}

/// Exported HTML with the server's asset URLs pointed at the bundle's own copies.
pub open spec fn rewrite_assets_spec(html: Seq<char>, prefix: Seq<char>) -> Seq<char> {
    replace_all(
        replace_all(html, "/__assets/"@, prefix),
        "/__mdshelf/syntax.css"@,
        prefix + SYNTAX_CSS_FILE@,
    )
}

/// Point a page's asset URLs at the bundle's `assets/` directory, relative to where
/// the page sits.
pub fn rewrite_asset_urls(html: &str, html_path: &str, output_root: &str) -> (r: String)
    ensures
        r@ == rewrite_assets_spec(html@, asset_prefix_spec(page_depth(html_path@, output_root@))),
{
    let prefix = relative_asset_prefix(html_path, output_root);
    let h = chars_of(html);
    let p1 = chars_of("/__assets/");
    let pv = chars_of(prefix.as_str());
    proof {
        reveal_strlit("/__assets/");
        reveal_strlit("/__mdshelf/syntax.css");
    }
    let first = replace_vec(&h, &p1, &pv);
    let p2 = chars_of("/__mdshelf/syntax.css");
    let mut css: Vec<char> = Vec::new();
    push_all(&mut css, &pv);
    push_str(&mut css, SYNTAX_CSS_FILE);
    let out = replace_vec(&first, &p2, &css);
    string_of(&out)
}

/// Where the HTML for a URL is written in a bundle: `index.html` in the directory the
/// URL names below `output_root`.
pub open spec fn output_path_spec(output_root: Seq<char>, url: Seq<char>) -> Seq<char> {
    let t = trim_start_char(url, '/');
    if t.len() == 0 {
        crate::config::join_path_spec(output_root, "index.html"@)
    } else {
        crate::config::join_path_spec(crate::config::join_path_spec(output_root, t), "index.html"@)
    }
}

fn join_exec(base: &Vec<char>, rel: &Vec<char>) -> (r: Vec<char>)
    requires
        rel@.len() == 0 || rel@[0] != '/',
    ensures
        r@ == crate::config::join_path_spec(base@, rel@),
{
    let mut out: Vec<char> = Vec::new();
    push_all(&mut out, base);
    if base.len() > 0 && base[base.len() - 1] != '/' {
        out.push('/');
    }
    push_all(&mut out, rel);
    out
}

proof fn lemma_trim_start_head(s: Seq<char>, c: char)
    ensures
        trim_start_char(s, c).len() > 0 ==> trim_start_char(s, c)[0] != c,
    decreases s.len(),
{
    if s.len() > 0 && s[0] == c {
        lemma_trim_start_head(s.drop_first(), c);
    }
}

/// Where the HTML for `url` is written in a bundle rooted at `output_root`.
pub fn url_to_output_path(output_root: &str, url: &str) -> (r: String)
    ensures
        r@ == output_path_spec(output_root@, url@),
{
    proof {
        reveal_strlit("index.html");
        lemma_trim_start_head(url@, '/');
    }
    let root = chars_of(output_root);
    let u = chars_of(url);
    let t = trim_start_char_vec(&u, '/');
    let index = chars_of("index.html");
    if t.len() == 0 {
        string_of(&join_exec(&root, &index))
    } else {
        let dir = join_exec(&root, &t);
        string_of(&join_exec(&dir, &index))
    }
}

/// A URL as the bundle carries it: moved to the root when a single site is exported
/// flat, unchanged otherwise.
pub open spec fn export_url_spec(site_mount: Seq<char>, export_mount: Seq<char>, url: Seq<char>) -> Seq<char> {
    if export_mount != "/"@ || site_mount == "/"@ {
        url
    } else {
        remap_spec(url, site_mount, export_mount)
    }
}

/// A URL as the bundle carries it.
pub fn export_url(site_mount: &str, export_mount: &str, url: &str) -> (r: String)
    ensures
        r@ == export_url_spec(site_mount@, export_mount@, url@),
{
    if !str_eq(export_mount, "/") || str_eq(site_mount, "/") {
        return url.to_owned();
    }
    remap_mount_url(url, site_mount, export_mount)
}

/// The title of a generated folder index: the folder's own name, humanised.
pub open spec fn folder_index_title_spec(folder_key: Seq<char>) -> Seq<char> {
    crate::content::page::humanize_spec(folder_key.skip(crate::text::last_index_of(folder_key, '/') + 1))
}

/// The title of a generated folder index.
pub fn folder_index_title(folder_key: &str) -> (r: String)
    ensures
        r@ == folder_index_title_spec(folder_key@),
{
    let v = chars_of(folder_key);
    proof {
        crate::text::lemma_last_index_bounds(v@, '/');
    }
    let start: usize = match crate::text::last_index(&v, '/') {
        Some(k) => k + 1,
        None => 0,
    };
    let mut last: Vec<char> = Vec::new();
    crate::text::push_range(&mut last, &v, start, v.len());
    assert(last@ =~= v@.skip(start as int));
    let s = string_of(&last);
    crate::content::page::humanize(s.as_str())
}

/// The description of a generated folder index.
pub fn folder_index_description(folder_key: &str) -> (r: String)
    ensures
        r@ == "Auto-generated listing of pages under `"@ + folder_key@ + "`."@,
{
    let mut out: Vec<char> = Vec::new();
    push_str(&mut out, "Auto-generated listing of pages under `");
    push_str(&mut out, folder_key);
    push_str(&mut out, "`.");
    string_of(&out)
}

/// Where a site's static file lands in a bundle: below the site's mount, unless a single
/// site is exported flat.
pub open spec fn static_target_spec(output: Seq<char>, site_mount: Seq<char>, flat: bool, rel: Seq<char>) -> Seq<char> {
    let m = trim_start_char(site_mount, '/');
    if flat || m.len() == 0 {
        crate::config::join_path_spec(output, rel)
    } else {
        crate::config::join_path_spec(crate::config::join_path_spec(output, m), rel)
    }
}

/// Where a site's static file at `rel` lands in a bundle.
pub fn static_file_target(output: &str, site_mount: &str, flat: bool, rel: &str) -> (r: String)
    requires
        rel@.len() == 0 || rel@[0] != '/',
    ensures
        r@ == static_target_spec(output@, site_mount@, flat, rel@),
{
    proof {
        lemma_trim_start_head(site_mount@, '/');
    }
    let o = chars_of(output);
    let r = chars_of(rel);
    let mv = chars_of(site_mount);
    let m = trim_start_char_vec(&mv, '/');
    if flat || m.len() == 0 {
        string_of(&join_exec(&o, &r))
    } else {
        let dir = join_exec(&o, &m);
        string_of(&join_exec(&dir, &r))
    }
}

/// Whether a `--site` filter names a site: by mount, or by title ignoring ASCII case.
pub open spec fn site_matches_spec(mount: Seq<char>, title: Seq<char>, filter: Seq<char>) -> bool {
    let t = trim(filter);
    t.len() > 0 && (mount == export_mount_spec(t) || crate::content::page::eq_ignore_case(title, t))
}

/// Whether a `--site` filter names the site at `mount` titled `title`.
pub fn site_matches_filter(mount: &str, title: &str, filter: &str) -> (r: bool)
    ensures
        r == site_matches_spec(mount@, title@, filter@),
{
    let v = chars_of(filter);
    let (a, b) = trim_bounds(&v, 0, v.len());
    assert(v@.subrange(0, v@.len() as int) =~= v@);
    if a == b {
        return false;
    }
    let t = string_of_range_vec(&v, a, b);
    let m = normalize_mount(t.as_str());
    let tv = chars_of(title);
    proof {
        assert(t@ == trim(filter@));
    }
    str_eq(mount, m.as_str()) || crate::content::page::eq_ignore_case_exec(&tv, t.as_str())
}

fn string_of_range_vec(v: &Vec<char>, a: usize, b: usize) -> (r: String)
    requires
        a <= b <= v.len(),
    ensures
        r@ == v@.subrange(a as int, b as int),
{
    let mut out: Vec<char> = Vec::new();
    crate::text::push_range(&mut out, v, a, b);
    string_of(&out)
}

/// The first site a filter names.
pub open spec fn first_match(sites: Seq<crate::content::Site>, filter: Seq<char>, from: int) -> Option<int>
    decreases sites.len() - from,
{
    if from < 0 || from >= sites.len() {
        None
    } else if site_matches_spec(sites[from].mount@, sites[from].title@, filter) {
        Some(from)
    } else {
        first_match(sites, filter, from + 1)
    }
}

/// The refusal for a filter that names no site.
pub open spec fn no_match_message(filter: Seq<char>) -> Seq<char> {
    "no site matches "@ + crate::acl::frontmatter::debug_quoted_of(filter)
}

/// The sites the first `n` filters select, each once (by mount), in the order first
/// named; or the refusal for the first filter that names none.
pub open spec fn select_spec(sites: Seq<crate::content::Site>, filters: Seq<Seq<char>>, n: int) -> Result<Seq<int>, Seq<char>>
    decreases n,
{
    if n <= 0 {
        Ok(Seq::empty())
    } else {
        match select_spec(sites, filters, n - 1) {
            Err(e) => Err(e),
            Ok(acc) => match first_match(sites, filters[n - 1], 0) {
                None => Err(no_match_message(filters[n - 1])),
                Some(i) => if exists|j: int| 0 <= j < acc.len() && sites[#[trigger] acc[j]].mount@ == sites[i].mount@ {
                    Ok(acc)
                } else {
                    Ok(acc.push(i))
                },
            },
        }
    }
}

proof fn lemma_select_err_sticks(sites: Seq<crate::content::Site>, filters: Seq<Seq<char>>, k: int, n: int)
    requires
        0 <= k <= n,
        select_spec(sites, filters, k) is Err,
    ensures
        select_spec(sites, filters, n) == select_spec(sites, filters, k),
    decreases n - k,
{
    if n > k {
        lemma_select_err_sticks(sites, filters, k, n - 1);
    }
}

pub open spec fn indices(v: Seq<usize>) -> Seq<int> {
    v.map_values(|i: usize| i as int)
}

/// The sites to export, as positions in `sites`: all of them when no filter is given,
/// else each site a filter names (by mount, or by title ignoring ASCII case), once.
pub fn select_sites(sites: &Vec<crate::content::Site>, filters: &Vec<String>) -> (r: Result<Vec<usize>, String>)
    ensures
        filters@.len() == 0 ==> (r matches Ok(v) && indices(v@) == Seq::new(sites@.len(), |i: int| i)),
        filters@.len() > 0 ==> match (r, select_spec(sites@, crate::text::string_seq(filters@), filters@.len() as int)) {
            (Ok(v), Ok(w)) => indices(v@) == w,
            (Err(m), Err(e)) => m@ == e,
            _ => false,
        },
{
    let mut out: Vec<usize> = Vec::new();
    if filters.len() == 0 {
        let mut i: usize = 0;
        while i < sites.len()
            invariant
                i <= sites@.len(),
                indices(out@) == Seq::new(i as nat, |k: int| k),
            decreases sites.len() - i,
        {
            let ghost before = indices(out@);
            out.push(i);
            assert(indices(out@) =~= before.push(i as int));
            assert(indices(out@) =~= Seq::new((i + 1) as nat, |k: int| k));
            i += 1;
        }
        return Ok(out);
    }
    let ghost fs = crate::text::string_seq(filters@);
    assert(indices(out@) =~= Seq::<int>::empty());
    let mut f: usize = 0;
    while f < filters.len()
        invariant
            f <= filters@.len(),
            fs == crate::text::string_seq(filters@),
            forall|j: int| 0 <= j < out@.len() ==> (#[trigger] out@[j]) < sites@.len(),
            select_spec(sites@, fs, f as int) == Ok::<Seq<int>, Seq<char>>(indices(out@)),
        decreases filters.len() - f,
    {
        let filter = filters[f].as_str();
        let mut i: usize = 0;
        while i < sites.len() && !site_matches_filter(sites[i].mount.as_str(), sites[i].title.as_str(), filter)
            invariant
                i <= sites@.len(),
                filter@ == fs[f as int],
                first_match(sites@, fs[f as int], 0) == first_match(sites@, fs[f as int], i as int),
            decreases sites.len() - i,
        {
            i += 1;
        }
        if i == sites.len() {
            let mut m: Vec<char> = Vec::new();
            push_str(&mut m, "no site matches ");
            let q = crate::acl::frontmatter::debug_quoted(filter);
            push_str(&mut m, q.as_str());
            proof {
                assert(select_spec(sites@, fs, f + 1) == Err::<Seq<int>, Seq<char>>(no_match_message(fs[f as int])));
                lemma_select_err_sticks(sites@, fs, f + 1, filters@.len() as int);
            }
            return Err(string_of(&m));
        }
        let mut seen = false;
        let mut j: usize = 0;
        while j < out.len() && !seen
            invariant
                j <= out@.len(),
                i < sites@.len(),
                forall|k: int| 0 <= k < out@.len() ==> (#[trigger] out@[k]) < sites@.len(),
                seen ==> exists|k: int| 0 <= k < out@.len() && sites@[#[trigger] indices(out@)[k]].mount@ == sites@[i as int].mount@,
                !seen ==> forall|k: int| 0 <= k < j ==> sites@[#[trigger] indices(out@)[k]].mount@ != sites@[i as int].mount@,
            decreases out.len() - j,
        {
            if str_eq(sites[out[j]].mount.as_str(), sites[i].mount.as_str()) {
                seen = true;
                assert(sites@[indices(out@)[j as int]].mount@ == sites@[i as int].mount@);
            }
            j += 1;
        }
        if !seen {
            let ghost before = indices(out@);
            out.push(i);
            assert(indices(out@) =~= before.push(i as int));
        }
        f += 1;
    }
    Ok(out)
}

/// Why an export could not settle on whose view to write.
#[derive(Debug, Clone, PartialEq, Eq)]
pub enum ExportViewerError {
    /// `--as` does not name a valid address.
    InvalidEmail(String),
    /// Sites with access rules are being exported without saying whose view; the text
    /// lists their titles.
    NeedsViewer(String),
}

impl ExportViewerError {
    /// The sentence shown to the operator.
    pub fn message(&self) -> (r: String)
        ensures
            r@ == match self {
                ExportViewerError::InvalidEmail(raw) => "--as `"@ + raw@ + "` is not a valid email address"@,
                ExportViewerError::NeedsViewer(titles) => "this vault declares access rules ("@ + titles@
                    + "), and a static export has no authentication —\n  every exported page would be world-readable.\n  Re-run with --as <email> to export exactly what that person can see."@,
            },
    {
        let mut out: Vec<char> = Vec::new();
        match self {
            ExportViewerError::InvalidEmail(raw) => {
                push_str(&mut out, "--as `");
                push_str(&mut out, raw.as_str());
                push_str(&mut out, "` is not a valid email address");
            },
            ExportViewerError::NeedsViewer(titles) => {
                push_str(&mut out, "this vault declares access rules (");
                push_str(&mut out, titles.as_str());
                push_str(
                    &mut out,
                    "), and a static export has no authentication —\n  every exported page would be world-readable.\n  Re-run with --as <email> to export exactly what that person can see.",
                );
            },
        }
        string_of(&out)
    }
}

/// The titles of the selected sites that declare access rules, in order.
pub open spec fn ruled_titles(sites: Seq<crate::content::Site>, selected: Seq<int>) -> Seq<Seq<char>>
    decreases selected.len(),
{
    if selected.len() == 0 {
        Seq::empty()
    } else {
        let rest = ruled_titles(sites, selected.drop_last());
        let s = sites[selected.last()];
        if s.acl.spec_is_empty() {
            rest
        } else {
            rest.push(s.title@)
        }
    }
}

/// Whose view an export writes: the address `--as` names, normalised; else nobody's
/// when no selected site declares rules; else a refusal, since a static bundle carries
/// no authentication.
pub fn resolve_export_viewer(sites: &Vec<crate::content::Site>, selected: &Vec<usize>, requested: Option<&str>) -> (r: Result<Option<String>, ExportViewerError>)
    requires
        forall|j: int| 0 <= j < selected@.len() ==> (#[trigger] selected@[j]) < sites@.len(),
    ensures
        match requested {
            Some(raw) => {
                let email = crate::auth::email::normalized_email(raw@);
                if crate::auth::email::valid_email(email) {
                    r matches Ok(Some(e)) && e@ == email
                } else {
                    r matches Err(ExportViewerError::InvalidEmail(x)) && x@ == raw@
                }
            },
            None => {
                let ruled = ruled_titles(sites@, indices(selected@));
                if ruled.len() == 0 {
                    r matches Ok(None)
                } else {
                    r matches Err(ExportViewerError::NeedsViewer(t)) && t@ == crate::text::join(ruled, ", "@)
                }
            },
        },
{
    match requested {
        Some(raw) => {
            let email = crate::auth::email::normalize_email(raw);
            if !crate::auth::email::is_valid_email(email.as_str()) {
                return Err(ExportViewerError::InvalidEmail(raw.to_owned()));
            }
            return Ok(Some(email));
        },
        None => {},
    }
    let mut ruled: Vec<Vec<char>> = Vec::new();
    let mut k: usize = 0;
    assert(indices(selected@).take(0) =~= Seq::<int>::empty());
    while k < selected.len()
        invariant
            k <= selected@.len(),
            forall|j: int| 0 <= j < selected@.len() ==> (#[trigger] selected@[j]) < sites@.len(),
            views(ruled@) == ruled_titles(sites@, indices(selected@).take(k as int)),
        decreases selected.len() - k,
    {
        let ghost pre = indices(selected@).take(k + 1);
        assert(pre.drop_last() =~= indices(selected@).take(k as int));
        assert(pre.last() == selected@[k as int] as int);
        let site = &sites[selected[k]];
        if !site.acl.is_empty() {
            ruled.push(chars_of(site.title.as_str()));
            assert(views(ruled@) =~= ruled_titles(sites@, pre));
        }
        k += 1;
    }
    assert(indices(selected@).take(selected@.len() as int) =~= indices(selected@));
    if ruled.len() == 0 {
        return Ok(None);
    }
    let sep = chars_of(", ");
    let joined = crate::text::join_vec(&ruled, &sep);
    Err(ExportViewerError::NeedsViewer(string_of(&joined)))
}

/// Whether a generated listing stands for the folder `prefix`: no page of its own, and
/// published pages below it.
pub open spec fn listing_for(pages: Seq<crate::content::page::Page>, prefix: Seq<char>) -> bool {
    let p = crate::content::site_index::trim_slashes(prefix);
    !(p.len() == 0 || crate::content::page_at(pages, p) is Some
        || !crate::content::site_index::has_published_below(pages, p))
}

/// The folders above a page, at depths `1..d`, that need a generated listing.
pub open spec fn prefix_keys(pages: Seq<crate::content::page::Page>, segs: Seq<Seq<char>>, d: int) -> Seq<Seq<char>>
    decreases d,
{
    if d <= 1 {
        Seq::empty()
    } else {
        let rest = prefix_keys(pages, segs, d - 1);
        let prefix = crate::text::join(segs.take(d - 1), "/"@);
        if crate::content::page_at(pages, prefix) is None && listing_for(pages, prefix) {
            rest.push(prefix)
        } else {
            rest
        }
    }
}

/// The folders needing a generated listing, over the first `m` pages.
pub open spec fn listing_keys(pages: Seq<crate::content::page::Page>, m: int) -> Seq<Seq<char>>
    decreases m,
{
    if m <= 0 || m > pages.len() {
        Seq::empty()
    } else {
        let rest = listing_keys(pages, m - 1);
        let p = pages[m - 1];
        if p.draft {
            rest
        } else {
            let segs = crate::content::page::nonempty_words(crate::text::split_char(p.url_path@, '/'));
            rest + prefix_keys(pages, segs, segs.len() as int)
        }
    }
}

/// The folders of a site, in order and each once, whose only way in is a generated
/// listing: a folder above some published page, with no page of its own.
pub fn folder_index_keys(pages: &crate::content::PageMap, site_root: &str) -> (r: Vec<String>)
    ensures
        crate::text::string_seq(r@) == crate::text::sort_dedup(listing_keys(pages@, pages@.len() as int)),
{
    let values = pages.values();
    let mut keys: Vec<String> = Vec::new();
    let mut i: usize = 0;
    while i < values.len()
        invariant
            i <= values@.len(),
            values@ == pages@,
            crate::text::string_seq(keys@) == crate::text::sort_dedup(listing_keys(pages@, i as int)),
        decreases values.len() - i,
    {
        if !values[i].draft {
            let u = chars_of(values[i].url_path.as_str());
            let segs = crate::content::tree::segments_nonempty_pub(&u);
            let ghost sv = views(segs@);
            let ghost base = listing_keys(pages@, i as int);
            let mut prefix: Vec<char> = Vec::new();
            let mut d: usize = 1;
            while d < segs.len()
                invariant
                    1 <= d,
                    d <= segs@.len() || (segs@.len() == 0 && d == 1),
                    sv == views(segs@),
                    values@ == pages@,
                    d > 1 ==> prefix@ == crate::text::join(sv.take(d - 1), "/"@),
                    d == 1 ==> prefix@.len() == 0,
                    crate::text::string_seq(keys@) == crate::text::sort_dedup(base + prefix_keys(pages@, sv, d as int)),
                decreases segs.len() - d,
            {
                if d > 1 {
                    prefix.push('/');
                }
                push_all(&mut prefix, &segs[d - 1]);
                proof {
                    let t = sv.take(d as int);
                    assert(t.drop_last() =~= sv.take(d - 1));
                    assert(t.last() == segs@[d - 1]@);
                    reveal_strlit("/");
                    if d == 1 {
                        assert(prefix@ =~= t[0]);
                    } else {
                        assert(prefix@ =~= crate::text::join(t.drop_last(), "/"@) + "/"@ + t.last());
                    }
                }
                let prefix_s = string_of(&prefix);
                let ghost before = crate::text::string_seq(keys@);
                if pages.get(prefix_s.as_str()).is_none()
                    && crate::content::site_index::build_site_index_under_prefix(pages, prefix_s.as_str(), site_root).is_some() {
                    crate::text::insert_sorted(&mut keys, prefix_s);
                    proof {
                        let nk = prefix_keys(pages@, sv, d + 1);
                        assert(nk == prefix_keys(pages@, sv, d as int).push(prefix@));
                        assert((base + nk).drop_last() =~= base + prefix_keys(pages@, sv, d as int));
                        assert((base + nk).last() == prefix@);
                    }
                } else {
                    assert(prefix_keys(pages@, sv, d + 1) == prefix_keys(pages@, sv, d as int));
                }
                d += 1;
            }
            proof {
                assert(sv.len() == segs@.len());
                if segs@.len() == 0 {
                    assert(d == 1);
                    assert(prefix_keys(pages@, sv, 0) == prefix_keys(pages@, sv, 1));
                } else {
                    assert(d == segs@.len());
                }
                assert(values@[i as int].url_path@ == u@);
                assert(listing_keys(pages@, i + 1) == base + prefix_keys(pages@, sv, sv.len() as int));
                assert(crate::text::string_seq(keys@) == crate::text::sort_dedup(listing_keys(pages@, i + 1)));
            }
        } else {
            assert(listing_keys(pages@, i + 1) == listing_keys(pages@, i as int));
        }
        i += 1;
    }
    keys
}

pub open spec fn entry_view(e: crate::render::templates::SiteListEntry) -> (Seq<char>, Seq<char>, Seq<char>, usize, Seq<char>) {
    (e.title@, e.mount@, e.url@, e.page_count, e.color@)
}

pub open spec fn entries_view(s: Seq<crate::render::templates::SiteListEntry>) -> Seq<(Seq<char>, Seq<char>, Seq<char>, usize, Seq<char>)> {
    s.map_values(|e: crate::render::templates::SiteListEntry| entry_view(e))
}

/// The home page's entries for the selected sites: each with the number of pages the
/// viewer receives, at the bundle's root when a single site is exported flat. A site
/// the viewer receives nothing of is left out, so the bundle does not disclose it.
pub open spec fn list_entries_spec(
    sites: Seq<crate::content::Site>,
    selected: Seq<int>,
    flat_single: bool,
    viewer: Option<Seq<char>>,
) -> Seq<(Seq<char>, Seq<char>, Seq<char>, usize, Seq<char>)>
    decreases selected.len(),
{
    if selected.len() == 0 {
        Seq::empty()
    } else {
        let rest = list_entries_spec(sites, selected.drop_last(), flat_single, viewer);
        let s = sites[selected.last()];
        let count = crate::content::visible_pages(s.acl, s.pages@, viewer).len();
        let mount = if flat_single { "/"@ } else { s.mount@ };
        if viewer is Some && count == 0 {
            rest
        } else {
            rest.push((s.title@, mount, mount, count as usize, s.color@))
        }
    }
}

/// The home page's entries for the selected sites.
pub fn site_list_entries_for_export(
    sites: &Vec<crate::content::Site>,
    selected: &Vec<usize>,
    flat_single: bool,
    viewer: Option<&str>,
) -> (r: Vec<crate::render::templates::SiteListEntry>)
    requires
        forall|j: int| 0 <= j < selected@.len() ==> (#[trigger] selected@[j]) < sites@.len(),
    ensures
        entries_view(r@) == list_entries_spec(
            sites@,
            indices(selected@),
            flat_single,
            match viewer { Some(e) => Some(e@), None => None },
        ),
{
    proof {
        reveal_strlit("/");
    }
    let ghost vw = match viewer { Some(e) => Some(e@), None => None };
    let mut out: Vec<crate::render::templates::SiteListEntry> = Vec::new();
    let mut k: usize = 0;
    assert(indices(selected@).take(0) =~= Seq::<int>::empty());
    while k < selected.len()
        invariant
            k <= selected@.len(),
            forall|j: int| 0 <= j < selected@.len() ==> (#[trigger] selected@[j]) < sites@.len(),
            vw == match viewer { Some(e) => Some(e@), None => None },
            entries_view(out@) == list_entries_spec(sites@, indices(selected@).take(k as int), flat_single, vw),
        decreases selected.len() - k,
    {
        let ghost pre = indices(selected@).take(k + 1);
        assert(pre.drop_last() =~= indices(selected@).take(k as int));
        assert(pre.last() == selected@[k as int] as int);
        let site = &sites[selected[k]];
        let view = site.view(viewer);
        let count = view.pages.len();
        let mount: String = if flat_single { String::from_str("/") } else { site.mount.clone() };
        if !(viewer.is_some() && count == 0) {
            let entry = crate::render::templates::SiteListEntry {
                title: site.title.clone(),
                mount: mount.clone(),
                url: mount,
                page_count: count,
                color: site.color.clone(),
            };
            let ghost before = entries_view(out@);
            out.push(entry);
            assert(entries_view(out@) =~= before.push(entry_view(entry)));
        }
        k += 1;
    }
    assert(indices(selected@).take(selected@.len() as int) =~= indices(selected@));
    out
}

/// An optional URL as the bundle carries it.
pub open spec fn export_opt_url(site_mount: Seq<char>, export_mount: Seq<char>, url: Option<Seq<char>>) -> Option<Seq<char>> {
    match url {
        Some(u) => Some(export_url_spec(site_mount, export_mount, u)),
        None => None,
    }
}

fn export_opt(site_mount: &str, export_mount: &str, url: &Option<String>) -> (r: Option<String>)
    ensures
        crate::content::tree::opt_seq(r) == export_opt_url(site_mount@, export_mount@, crate::content::tree::opt_seq(*url)),
{
    match url {
        Some(u) => Some(export_url(site_mount, export_mount, u.as_str())),
        None => None,
    }
}

/// A sidebar row with its URL moved as the bundle carries it.
pub open spec fn remap_nav_row(r: crate::content::tree::NavRowView, site_mount: Seq<char>, export_mount: Seq<char>) -> crate::content::tree::NavRowView {
    (r.0, r.1, r.2, r.3, r.4, export_opt_url(site_mount, export_mount, r.5), r.6)
}

/// The flattened sidebar with every URL moved as the bundle carries it (which changes
/// nothing unless a single site is exported flat); everything else is kept.
pub fn remap_nav_flat(
    nav_flat: &Vec<crate::content::tree::SidebarNavRow>,
    site_mount: &str,
    export_mount: &str,
) -> (r: Vec<crate::content::tree::SidebarNavRow>)
    ensures
        crate::content::tree::nav_rows_view(r@) == Seq::new(
            nav_flat@.len(),
            |i: int| remap_nav_row(crate::content::tree::nav_row_view(nav_flat@[i]), site_mount@, export_mount@),
        ),
{
    let ghost goal = Seq::new(
        nav_flat@.len(),
        |i: int| remap_nav_row(crate::content::tree::nav_row_view(nav_flat@[i]), site_mount@, export_mount@),
    );
    let mut out: Vec<crate::content::tree::SidebarNavRow> = Vec::new();
    let mut i: usize = 0;
    while i < nav_flat.len()
        invariant
            i <= nav_flat.len(),
            out.len() == i,
            goal == Seq::new(
                nav_flat@.len(),
                |i: int| remap_nav_row(crate::content::tree::nav_row_view(nav_flat@[i]), site_mount@, export_mount@),
            ),
            forall|j: int| 0 <= j < i ==> #[trigger] crate::content::tree::nav_row_view(out@[j]) == goal[j],
        decreases nav_flat.len() - i,
    {
        let row = &nav_flat[i];
        let moved = crate::content::tree::SidebarNavRow {
            depth: row.depth,
            title: row.title.clone(),
            filename: row.filename.clone(),
            modified_at_ms: row.modified_at_ms,
            stable_key: row.stable_key.clone(),
            url: export_opt(site_mount, export_mount, &row.url),
            is_index: row.is_index,
        };
        out.push(moved);
        i += 1;
    }
    assert(crate::content::tree::nav_rows_view(out@) =~= goal);
    out
}

/// A generated-index row with its URL moved as the bundle carries it.
pub open spec fn remap_index_row(r: crate::content::site_index::RowView, site_mount: Seq<char>, export_mount: Seq<char>) -> crate::content::site_index::RowView {
    (r.0, r.1, r.2, r.3, export_opt_url(site_mount, export_mount, r.4), r.5)
}

/// A generated index with every row's URL moved as the bundle carries it; the
/// surrounding text is kept.
pub fn remap_site_index(
    index: &crate::content::site_index::SiteIndexContext,
    site_mount: &str,
    export_mount: &str,
) -> (r: crate::content::site_index::SiteIndexContext)
    ensures
        crate::content::site_index::rows_view(r.rows@) == Seq::new(
            index.rows@.len(),
            |i: int| remap_index_row(crate::content::site_index::row_view(index.rows@[i]), site_mount@, export_mount@),
        ),
        r.content_root_display@ == index.content_root_display@,
        r.lead@ == index.lead@,
        r.hint@ == index.hint@,
{
    let ghost goal = Seq::new(
        index.rows@.len(),
        |i: int| remap_index_row(crate::content::site_index::row_view(index.rows@[i]), site_mount@, export_mount@),
    );
    let mut rows: Vec<crate::content::site_index::SiteIndexRow> = Vec::new();
    let mut i: usize = 0;
    while i < index.rows.len()
        invariant
            i <= index.rows.len(),
            rows.len() == i,
            goal == Seq::new(
                index.rows@.len(),
                |i: int| remap_index_row(crate::content::site_index::row_view(index.rows@[i]), site_mount@, export_mount@),
            ),
            forall|j: int| 0 <= j < i ==> #[trigger] crate::content::site_index::row_view(rows@[j]) == goal[j],
        decreases index.rows.len() - i,
    {
        let row = &index.rows[i];
        let description: Option<String> = match &row.description {
            Some(d) => Some(d.clone()),
            None => None,
        };
        let moved = crate::content::site_index::SiteIndexRow {
            depth: row.depth,
            is_folder_heading: row.is_folder_heading,
            title: row.title.clone(),
            description,
            url: export_opt(site_mount, export_mount, &row.url),
            path_label: row.path_label.clone(),
        };
        rows.push(moved);
        i += 1;
    }
    assert(crate::content::site_index::rows_view(rows@) =~= goal);
    crate::content::site_index::SiteIndexContext {
        rows,
        content_root_display: index.content_root_display.clone(),
        lead: index.lead.clone(),
        hint: index.hint.clone(),
    }
}

} // verus!
