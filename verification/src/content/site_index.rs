//! The generated index of a site, or of a folder that has no `index.md` of its own.
use vstd::prelude::*;

use crate::config::join_path_spec;
use crate::content::page::{humanize, humanize_spec, nonempty_words, Page};
use crate::content::{page_at, PageMap};
use crate::text::{
    chars_of, join, push_all, push_range, push_str, split_char, split_vec, starts_with, str_eq,
    string_of, string_seq, trim_end_char, trim_start_char, views,
};

verus! {

/// One row of a generated index: a folder heading or a page.
#[derive(Debug, Clone)]
pub struct SiteIndexRow {
    pub depth: u32,
    pub is_folder_heading: bool,
    pub title: String,
    pub description: Option<String>,
    pub url: Option<String>,
    pub path_label: String,
}

/// Rows for a generated index (the site root, or a folder without `index.md`).
#[derive(Debug, Clone)]
pub struct SiteIndexContext {
    pub rows: Vec<SiteIndexRow>,
    pub content_root_display: String,
    pub lead: String,
    pub hint: String,
}

/// A row as (depth, folder heading?, title, description, URL, path label).
pub type RowView = (u32, bool, Seq<char>, Option<Seq<char>>, Option<Seq<char>>, Seq<char>);

pub open spec fn opt_text(o: Option<String>) -> Option<Seq<char>> {
    match o {
        Some(s) => Some(s@),
        None => None,
    }
}

pub open spec fn row_view(r: SiteIndexRow) -> RowView {
    (r.depth, r.is_folder_heading, r.title@, opt_text(r.description), opt_text(r.url), r.path_label@)
}

pub open spec fn rows_view(s: Seq<SiteIndexRow>) -> Seq<RowView> {
    s.map_values(|r: SiteIndexRow| row_view(r))
}

/// Whether a page is listed under `prefix`: published, and below the prefix (anything
/// but the root index when the prefix is empty).
pub open spec fn listed(p: Page, prefix: Seq<char>) -> bool {
    !p.draft && if prefix.len() == 0 {
        p.url_path@.len() > 0
    } else {
        starts_with(p.url_path@, prefix + seq!['/'])
    }
}

/// A listed page's path below the prefix.
pub open spec fn relative_of(p: Page, prefix: Seq<char>) -> Seq<char> {
    if prefix.len() == 0 {
        p.url_path@
    } else {
        p.url_path@.skip(prefix.len() as int + 1)
    }
}

/// The path of the folder `d` levels down a page's segments, from the site root.
pub open spec fn folder_key(prefix: Seq<char>, segs: Seq<Seq<char>>, d: int) -> Seq<char> {
    let rel = join(segs.take(d + 1), seq!['/']);
    if prefix.len() == 0 {
        rel
    } else {
        prefix + seq!['/'] + rel
    }
}

/// A folder's heading row: its index page's title, description and URL when it has
/// one, else its humanised name.
pub open spec fn folder_row(all: Seq<Page>, key: Seq<char>, slug: Seq<char>, d: int) -> RowView {
    match page_at(all, key) {
        Some(ip) => (d as u32, true, ip.title@, opt_text(ip.description), Some(ip.url@), key),
        None => (d as u32, true, humanize_spec(slug), None, None, key),
    }
}

/// The heading rows for a page's first `n` folder levels, each folder headed once:
/// the rows, and the folders headed so far.
pub open spec fn folder_rows(
    all: Seq<Page>,
    prefix: Seq<char>,
    segs: Seq<Seq<char>>,
    n: nat,
    emitted: Set<Seq<char>>,
) -> (Seq<RowView>, Set<Seq<char>>)
    decreases n,
{
    if n == 0 {
        (Seq::empty(), emitted)
    } else {
        let (rows, em) = folder_rows(all, prefix, segs, (n - 1) as nat, emitted);
        let key = folder_key(prefix, segs, n - 1);
        if em.contains(key) {
            (rows, em)
        } else {
            (rows.push(folder_row(all, key, segs[n - 1], n - 1)), em.insert(key))
        }
    }
}

pub open spec fn page_row(p: Page, depth: int) -> RowView {
    (depth as u32, false, p.title@, opt_text(p.description), Some(p.url@), p.url_path@)
}

/// The rows one page contributes: headings for folders not yet headed, then the page
/// itself, unless it is a folder's index page (its folder's heading stands for it).
pub open spec fn page_rows(all: Seq<Page>, p: Page, prefix: Seq<char>, emitted: Set<Seq<char>>) -> (
    Seq<RowView>,
    Set<Seq<char>>,
) {
    if !listed(p, prefix) || relative_of(p, prefix).len() == 0 {
        (Seq::empty(), emitted)
    } else {
        let segs = nonempty_words(split_char(relative_of(p, prefix), '/'));
        let nf: nat = if segs.len() > 0 { (segs.len() - 1) as nat } else { 0 };
        let (rows, em) = folder_rows(all, prefix, segs, nf, emitted);
        if p.is_index && segs.len() > 1 {
            (rows, em)
        } else {
            (rows.push(page_row(p, nf as int)), em)
        }
    }
}

/// The rows of the first `m` pages, in URL-path order.
pub open spec fn index_rows(all: Seq<Page>, m: nat, prefix: Seq<char>, emitted: Set<Seq<char>>) -> (
    Seq<RowView>,
    Set<Seq<char>>,
)
    decreases m,
{
    if m == 0 {
        (Seq::empty(), emitted)
    } else {
        let (rows, em) = index_rows(all, (m - 1) as nat, prefix, emitted);
        let (more, em2) = page_rows(all, all[m - 1], prefix, em);
        (rows + more, em2)
    }
}

fn contains_string(v: &Vec<String>, s: &Vec<char>) -> (r: bool)
    ensures
        r == string_seq(v@).to_set().contains(s@),
{
    let mut i: usize = 0;
    while i < v.len()
        invariant
            i <= v.len(),
            forall|j: int| 0 <= j < i ==> v@[j]@ != s@,
        decreases v.len() - i,
    {
        let c = chars_of(v[i].as_str());
        if crate::text::vec_eq(&c, s) {
            assert(string_seq(v@)[i as int] == s@);
            return true;
        }
        i += 1;
    }
    proof {
        if string_seq(v@).to_set().contains(s@) {
            let j = choose|j: int| 0 <= j < string_seq(v@).len() && string_seq(v@)[j] == s@;
            assert(v@[j]@ == s@);
        }
    }
    false
}

fn clone_opt(o: &Option<String>) -> (r: Option<String>)
    ensures
        opt_text(r) == opt_text(*o),
{
    match o {
        Some(s) => Some(s.clone()),
        None => None,
    }
}

/// The non-empty `/`-separated segments of `v`.
fn segments_of(v: &Vec<char>) -> (r: Vec<Vec<char>>)
    ensures
        views(r@) == nonempty_words(split_char(v@, '/')),
{
    let parts = split_vec(v, '/');
    let ghost all = views(parts@);
    let mut out: Vec<Vec<char>> = Vec::new();
    let mut i: usize = 0;
    assert(all.take(0) =~= Seq::<Seq<char>>::empty());
    while i < parts.len()
        invariant
            i <= parts.len(),
            all == views(parts@),
            views(out@) == nonempty_words(all.take(i as int)),
        decreases parts.len() - i,
    {
        let ghost pre = all.take(i + 1);
        assert(pre.drop_last() =~= all.take(i as int));
        assert(pre.last() == parts@[i as int]@);
        if parts[i].len() > 0 {
            let mut w: Vec<char> = Vec::new();
            push_all(&mut w, &parts[i]);
            out.push(w);
            assert(views(out@) =~= nonempty_words(pre));
        }
        i += 1;
    }
    assert(all.take(parts@.len() as int) =~= all);
    out
}

/// The heading rows for a page's folder levels, appended to `rows`.
fn push_folder_rows(
    pages: &PageMap,
    prefix: &Vec<char>,
    segs: &Vec<Vec<char>>,
    n: usize,
    emitted: &mut Vec<String>,
    rows: &mut Vec<SiteIndexRow>,
)
    requires
        n <= segs.len(),
    ensures
        ({
            let (more, em) = folder_rows(pages@, prefix@, views(segs@), n as nat, string_seq(old(emitted)@).to_set());
            &&& rows_view(final(rows)@) == rows_view(old(rows)@) + more
            &&& string_seq(final(emitted)@).to_set() == em
        }),
{
    let ghost rows0 = rows_view(rows@);
    let ghost em0 = string_seq(emitted@).to_set();
    let ghost sv = views(segs@);
    let mut rel: Vec<char> = Vec::new();
    let mut d: usize = 0;
    while d < n
        invariant
            d <= n <= segs.len(),
            sv == views(segs@),
            d > 0 ==> rel@ == join(sv.take(d as int), seq!['/']),
            d == 0 ==> rel@.len() == 0,
            ({
                let (more, em) = folder_rows(pages@, prefix@, sv, d as nat, em0);
                &&& rows_view(rows@) == rows0 + more
                &&& string_seq(emitted@).to_set() == em
            }),
        decreases n - d,
    {
        let ghost before_rows = rows_view(rows@);
        if d > 0 {
            rel.push('/');
        }
        push_all(&mut rel, &segs[d]);
        proof {
            let t = sv.take(d + 1);
            assert(t.drop_last() =~= sv.take(d as int));
            assert(t.last() == segs@[d as int]@);
            if d == 0 {
                assert(t.len() == 1);
                assert(rel@ =~= t[0]);
            } else {
                assert(rel@ =~= join(t.drop_last(), seq!['/']) + seq!['/'] + t.last());
            }
        }
        let mut key: Vec<char> = Vec::new();
        if prefix.len() > 0 {
            push_all(&mut key, prefix);
            key.push('/');
        }
        push_all(&mut key, &rel);
        assert(key@ =~= folder_key(prefix@, sv, d as int));
        if !contains_string(emitted, &key) {
            let key_s = string_of(&key);
            let row = match pages.get(key_s.as_str()) {
                Some(ip) => SiteIndexRow {
                    depth: d as u32,
                    is_folder_heading: true,
                    title: ip.title.clone(),
                    description: clone_opt(&ip.description),
                    url: Some(ip.url.clone()),
                    path_label: string_of(&key),
                },
                None => {
                    let slug = string_of(&segs[d]);
                    SiteIndexRow {
                        depth: d as u32,
                        is_folder_heading: true,
                        title: humanize(slug.as_str()),
                        description: None,
                        url: None,
                        path_label: string_of(&key),
                    }
                },
            };
            assert(row_view(row) == folder_row(pages@, key@, sv[d as int], d as int));
            rows.push(row);
            assert(rows_view(rows@) =~= before_rows.push(row_view(row)));
            let ghost em_before = string_seq(emitted@);
            emitted.push(key_s);
            assert(string_seq(emitted@) =~= em_before.push(key@));
            assert(string_seq(emitted@).to_set() =~= em_before.to_set().insert(key@)) by {
                assert forall|x: Seq<char>| string_seq(emitted@).to_set().contains(x) <==> em_before.to_set().insert(key@).contains(x) by {
                    if string_seq(emitted@).to_set().contains(x) {
                        let j = choose|j: int| 0 <= j < string_seq(emitted@).len() && string_seq(emitted@)[j] == x;
                        if j < em_before.len() {
                            assert(em_before[j] == x);
                        }
                    }
                    if em_before.to_set().contains(x) {
                        let j = choose|j: int| 0 <= j < em_before.len() && em_before[j] == x;
                        assert(string_seq(emitted@)[j] == x);
                    }
                    if x == key@ {
                        assert(string_seq(emitted@)[em_before.len() as int] == x);
                    }
                }
            }
        }
        d += 1;
    }
}

/// The rows one page contributes, appended to `rows`.
fn push_page_rows(
    pages: &PageMap,
    page: &Page,
    prefix: &Vec<char>,
    emitted: &mut Vec<String>,
    rows: &mut Vec<SiteIndexRow>,
)
    ensures
        ({
            let (more, em) = page_rows(pages@, *page, prefix@, string_seq(old(emitted)@).to_set());
            &&& rows_view(final(rows)@) == rows_view(old(rows)@) + more
            &&& string_seq(final(emitted)@).to_set() == em
        }),
{
    proof {
        reveal_strlit("/");
    }
    if page.draft {
        assert(rows_view(rows@) =~= rows_view(rows@) + Seq::<RowView>::empty());
        return;
    }
    let u = chars_of(page.url_path.as_str());
    let rel: Vec<char> = if prefix.len() == 0 {
        if u.len() == 0 {
            assert(rows_view(rows@) =~= rows_view(rows@) + Seq::<RowView>::empty());
            return;
        }
        u
    } else {
        let mut needle: Vec<char> = Vec::new();
        push_all(&mut needle, prefix);
        needle.push('/');
        let starts = needle.len() <= u.len() && crate::text::range_eq(&u, 0, needle.len(), &needle, 0, needle.len());
        proof {
            assert(needle@ =~= prefix@ + seq!['/']);
            assert(needle@.subrange(0, needle@.len() as int) =~= needle@);
            if needle@.len() <= u@.len() {
                assert(u@.take(needle@.len() as int) =~= u@.subrange(0, needle@.len() as int));
            }
        }
        if !starts {
            assert(rows_view(rows@) =~= rows_view(rows@) + Seq::<RowView>::empty());
            return;
        }
        let mut r: Vec<char> = Vec::new();
        push_range(&mut r, &u, needle.len(), u.len());
        assert(r@ =~= u@.skip(prefix@.len() as int + 1));
        r
    };
    if rel.len() == 0 {
        assert(rows_view(rows@) =~= rows_view(rows@) + Seq::<RowView>::empty());
        return;
    }
    let segs = segments_of(&rel);
    let nf: usize = if segs.len() > 0 { segs.len() - 1 } else { 0 };
    let ghost rows0 = rows_view(rows@);
    push_folder_rows(pages, prefix, &segs, nf, emitted, rows);
    if page.is_index && segs.len() > 1 {
        return;
    }
    let ghost mid = rows_view(rows@);
    let row = SiteIndexRow {
        depth: nf as u32,
        is_folder_heading: false,
        title: page.title.clone(),
        description: clone_opt(&page.description),
        url: Some(page.url.clone()),
        path_label: page.url_path.clone(),
    };
    rows.push(row);
    assert(rows_view(rows@) =~= mid.push(row_view(row)));
}

/// The rows of an index over `path_prefix` (empty for the whole site): pages in URL-path
/// order, each preceded by a heading for every folder above it not yet headed. The
/// folders headed are added to `emitted_folder_prefixes`.
pub fn build_site_index_rows(pages: &PageMap, path_prefix: &str, emitted_folder_prefixes: &mut Vec<String>) -> (r: Vec<SiteIndexRow>)
    ensures
        ({
            let (rows, em) = index_rows(pages@, pages@.len(), path_prefix@, string_seq(old(emitted_folder_prefixes)@).to_set());
            &&& rows_view(r@) == rows
            &&& string_seq(final(emitted_folder_prefixes)@).to_set() == em
        }),
{
    let prefix = chars_of(path_prefix);
    let values = pages.values();
    let ghost em0 = string_seq(emitted_folder_prefixes@).to_set();
    let mut rows: Vec<SiteIndexRow> = Vec::new();
    let mut i: usize = 0;
    while i < values.len()
        invariant
            i <= values.len(),
            values@ == pages@,
            prefix@ == path_prefix@,
            ({
                let (rs, em) = index_rows(pages@, i as nat, path_prefix@, em0);
                &&& rows_view(rows@) == rs
                &&& string_seq(emitted_folder_prefixes@).to_set() == em
            }),
        decreases values.len() - i,
    {
        push_page_rows(pages, &values[i], &prefix, emitted_folder_prefixes, &mut rows);
        i += 1;
    }
    rows
}

/// The sentence that introduces the whole site's generated index.
pub const SITE_INDEX_LEAD: &'static str = "Every page in this site is listed below, grouped by folder. Page titles and descriptions come from front matter or the first heading in each file when available.";

/// How a generated index tells the reader to replace it with a page of their own.
pub open spec fn replace_hint(dir: Seq<char>) -> Seq<char> {
    "To replace this page, add `index.md` in `"@ + dir + "`. URLs omit the `.md` suffix."@
}

fn replace_hint_exec(dir: &str) -> (r: String)
    ensures
        r@ == replace_hint(dir@),
{
    let mut out: Vec<char> = Vec::new();
    push_str(&mut out, "To replace this page, add `index.md` in `");
    push_str(&mut out, dir);
    push_str(&mut out, "`. URLs omit the `.md` suffix.");
    string_of(&out)
}

/// The generated index of a whole site, whose files live at `site_content_root`.
pub fn build_site_index_context(pages: &PageMap, site_content_root: &str) -> (r: SiteIndexContext)
    ensures
        rows_view(r.rows@) == index_rows(pages@, pages@.len(), Seq::empty(), Set::empty()).0,
        r.content_root_display@ == site_content_root@,
        r.lead@ == SITE_INDEX_LEAD@,
        r.hint@ == replace_hint(site_content_root@),
{
    let mut emitted: Vec<String> = Vec::new();
    assert(string_seq(emitted@).to_set() =~= Set::<Seq<char>>::empty());
    proof {
        reveal_strlit("");
    }
    assert(""@ =~= Seq::<char>::empty());
    let rows = build_site_index_rows(pages, "", &mut emitted);
    SiteIndexContext {
        rows,
        content_root_display: site_content_root.to_owned(),
        lead: String::from_str(SITE_INDEX_LEAD),
        hint: replace_hint_exec(site_content_root),
    }
}

/// `prefix` without leading or trailing slashes.
pub open spec fn trim_slashes(p: Seq<char>) -> Seq<char> {
    trim_start_char(trim_end_char(p, '/'), '/')
}

/// The directory holding the folder `prefix` names, under `root`.
pub open spec fn folder_dir(root: Seq<char>, segs: Seq<Seq<char>>) -> Seq<char>
    decreases segs.len(),
{
    if segs.len() == 0 {
        root
    } else {
        join_path_spec(folder_dir(root, segs.drop_last()), segs.last())
    }
}

/// Whether some published page lies below `prefix`.
pub open spec fn has_published_below(s: Seq<Page>, prefix: Seq<char>) -> bool {
    exists|i: int| 0 <= i < s.len() && !(#[trigger] s[i]).draft && starts_with(s[i].url_path@, prefix + seq!['/'])
}

/// The sentence that introduces a folder's generated index.
pub open spec fn folder_lead(prefix: Seq<char>) -> Seq<char> {
    "Every published page under `"@ + prefix + "` in this site is listed below."@
}

fn join_dir(base: &Vec<char>, seg: &Vec<char>) -> (r: Vec<char>)
    requires
        seg@.len() > 0,
        seg@[0] != '/',
    ensures
        r@ == join_path_spec(base@, seg@),
{
    let mut out: Vec<char> = Vec::new();
    push_all(&mut out, base);
    if base.len() > 0 && base[base.len() - 1] != '/' {
        out.push('/');
    }
    push_all(&mut out, seg);
    out
}

/// The generated index of the folder `url_prefix` names, when there is no page at that
/// path but published pages lie below it.
pub fn build_site_index_under_prefix(pages: &PageMap, url_prefix: &str, site_content_root: &str) -> (r: Option<SiteIndexContext>)
    ensures
        ({
            let prefix = trim_slashes(url_prefix@);
            if prefix.len() == 0 || page_at(pages@, prefix) is Some || !has_published_below(pages@, prefix) {
                r is None
            } else {
                r matches Some(ctx) && rows_view(ctx.rows@) == index_rows(pages@, pages@.len(), prefix, Set::empty()).0
                    && ctx.content_root_display@ == site_content_root@
                    && ctx.lead@ == folder_lead(prefix)
                    && ctx.hint@ == replace_hint(folder_dir(site_content_root@, nonempty_words(split_char(prefix, '/'))))
            }
        }),
{
    let raw = chars_of(url_prefix);
    let t = crate::acl::index::trim_end_char_vec(&raw, '/');
    let p = crate::acl::index::trim_start_char_vec(&t, '/');
    if p.len() == 0 {
        return None;
    }
    let prefix = string_of(&p);
    if pages.contains_key(prefix.as_str()) {
        return None;
    }
    let values = pages.values();
    let mut needle: Vec<char> = Vec::new();
    push_all(&mut needle, &p);
    needle.push('/');
    let mut found = false;
    let mut i: usize = 0;
    while i < values.len() && !found
        invariant
            i <= values.len(),
            values@ == pages@,
            needle@ == p@ + seq!['/'],
            found ==> has_published_below(pages@, p@),
            !found ==> forall|j: int| 0 <= j < i ==> !(!(#[trigger] values@[j]).draft && starts_with(values@[j].url_path@, needle@)),
        decreases values.len() - i,
    {
        let u = chars_of(values[i].url_path.as_str());
        let starts = needle.len() <= u.len() && crate::text::range_eq(&u, 0, needle.len(), &needle, 0, needle.len());
        proof {
            assert(needle@.subrange(0, needle@.len() as int) =~= needle@);
            if needle@.len() <= u@.len() {
                assert(u@.take(needle@.len() as int) =~= u@.subrange(0, needle@.len() as int));
            }
        }
        if !values[i].draft && starts {
            found = true;
            assert(!values@[i as int].draft && starts_with(values@[i as int].url_path@, p@ + seq!['/']));
        }
        i += 1;
    }
    if !found {
        return None;
    }
    let mut emitted: Vec<String> = Vec::new();
    assert(string_seq(emitted@).to_set() =~= Set::<Seq<char>>::empty());
    let rows = build_site_index_rows(pages, prefix.as_str(), &mut emitted);
    let segs = segments_of(&p);
    let mut dir = chars_of(site_content_root);
    let mut k: usize = 0;
    assert(views(segs@).take(0) =~= Seq::<Seq<char>>::empty());
    while k < segs.len()
        invariant
            k <= segs.len(),
            views(segs@) == nonempty_words(split_char(p@, '/')),
            dir@ == folder_dir(site_content_root@, views(segs@).take(k as int)),
        decreases segs.len() - k,
    {
        proof {
            crate::content::page::lemma_nonempty_words_nonempty(split_char(p@, '/'), k as int);
            crate::content::page::lemma_nonempty_words_no_slash(p@, k as int);
        }
        let ghost t = views(segs@).take(k + 1);
        assert(t.drop_last() =~= views(segs@).take(k as int));
        dir = join_dir(&dir, &segs[k]);
        k += 1;
    }
    assert(views(segs@).take(segs@.len() as int) =~= views(segs@));
    let dir_s = string_of(&dir);
    let mut lead: Vec<char> = Vec::new();
    push_str(&mut lead, "Every published page under `");
    push_all(&mut lead, &p);
    push_str(&mut lead, "` in this site is listed below.");
    Some(SiteIndexContext {
        rows,
        content_root_display: site_content_root.to_owned(),
        lead: string_of(&lead),
        hint: replace_hint_exec(dir_s.as_str()),
    })
}

} // verus!
