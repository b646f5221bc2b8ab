//! Navigation derived from a site's pages: breadcrumb trails and neighbouring pages.
use vstd::prelude::*;

use crate::content::page::{humanize, humanize_spec, join_url, join_url_spec, nonempty_words, Page};
use crate::content::{page_at, PageMap};
use crate::render::templates::Crumb;
use crate::text::{chars_of, push_all, push_range, split_char, split_vec, string_of, trim, views};

verus! {

/// A crumb as (title, URL).
pub open spec fn crumb_view(c: Crumb) -> (Seq<char>, Seq<char>) {
    (c.title@, c.url@)
}

pub open spec fn crumbs_view(s: Seq<Crumb>) -> Seq<(Seq<char>, Seq<char>)> {
    s.map_values(|c: Crumb| crumb_view(c))
}

/// The path through the first `n` segments, joined with `/` as the trail is built: a
/// separator goes in only once something precedes it.
pub open spec fn accumulated(segs: Seq<Seq<char>>, n: int) -> Seq<char>
    decreases n,
{
    if n <= 0 {
        Seq::empty()
    } else {
        let a = accumulated(segs, n - 1);
        (if a.len() > 0 { a + seq!['/'] } else { a }) + segs[n - 1]
    }
}

/// The crumbs for the first `n` segments: the last segment's crumb carries `terminal`,
/// every other one the title of the page at that path, else the segment humanised.
pub open spec fn crumb_trail(
    pages: Seq<Page>,
    mount: Seq<char>,
    segs: Seq<Seq<char>>,
    n: int,
    terminal: Seq<char>,
) -> Seq<(Seq<char>, Seq<char>)>
    decreases n,
{
    if n <= 0 {
        Seq::empty()
    } else {
        let path = accumulated(segs, n);
        let title = if n == segs.len() {
            terminal
        } else {
            match page_at(pages, path) {
                Some(p) => p.title@,
                None => humanize_spec(segs[n - 1]),
            }
        };
        crumb_trail(pages, mount, segs, n - 1, terminal).push((title, join_url_spec(mount, path)))
    }
}

/// The crumbs along `segs` after the site's own.
fn push_trail(
    pages: &PageMap,
    mount: &str,
    segs: &Vec<Vec<char>>,
    terminal: &str,
    out: &mut Vec<Crumb>,
)
    ensures
        crumbs_view(final(out)@) == crumbs_view(old(out)@) + crumb_trail(
            pages@,
            mount@,
            views(segs@),
            segs@.len() as int,
            terminal@,
        ),
{
    let ghost out0 = crumbs_view(out@);
    let ghost sv = views(segs@);
    let mut acc: Vec<char> = Vec::new();
    let mut i: usize = 0;
    while i < segs.len()
        invariant
            i <= segs.len(),
            sv == views(segs@),
            acc@ == accumulated(sv, i as int),
            crumbs_view(out@) == out0 + crumb_trail(pages@, mount@, sv, i as int, terminal@),
        decreases segs.len() - i,
    {
        if acc.len() > 0 {
            acc.push('/');
        }
        push_all(&mut acc, &segs[i]);
        assert(acc@ =~= accumulated(sv, i + 1));
        let path = string_of(&acc);
        let title: String = if i + 1 == segs.len() {
            terminal.to_owned()
        } else {
            match pages.get(path.as_str()) {
                Some(p) => p.title.clone(),
                None => {
                    let seg = string_of(&segs[i]);
                    humanize(seg.as_str())
                },
            }
        };
        let ghost before = crumbs_view(out@);
        let crumb = Crumb { title, url: join_url(mount, path.as_str()) };
        out.push(crumb);
        assert(crumbs_view(out@) =~= before.push(crumb_view(crumb)));
        i += 1;
    }
}

/// The site's own crumb: its title, linking to its root.
pub open spec fn root_crumb(site_title: Seq<char>, mount: Seq<char>) -> (Seq<char>, Seq<char>) {
    (site_title, join_url_spec(mount, Seq::empty()))
}

fn root_crumb_exec(site_title: &str, mount: &str) -> (r: Crumb)
    ensures
        crumb_view(r) == root_crumb(site_title@, mount@),
{
    proof {
        reveal_strlit("");
    }
    assert(""@ =~= Seq::<char>::empty());
    Crumb { title: site_title.to_owned(), url: join_url(mount, "") }
}

/// Breadcrumbs from the site root to `current`: one crumb per segment of its URL path,
/// the last carrying its title.
pub fn breadcrumbs(site_title: &str, mount: &str, pages: &PageMap, current: &Page) -> (r: Vec<Crumb>)
    ensures
        crumbs_view(r@) == seq![root_crumb(site_title@, mount@)] + if current.url_path@.len() == 0 {
            Seq::empty()
        } else {
            let segs = split_char(current.url_path@, '/');
            crumb_trail(pages@, mount@, segs, segs.len() as int, current.title@)
        },
{
    let mut out: Vec<Crumb> = Vec::new();
    let first = root_crumb_exec(site_title, mount);
    out.push(first);
    assert(crumbs_view(out@) =~= seq![root_crumb(site_title@, mount@)]);
    let u = chars_of(current.url_path.as_str());
    if u.len() == 0 {
        assert(crumbs_view(out@) =~= seq![root_crumb(site_title@, mount@)] + Seq::empty());
        return out;
    }
    let segs = split_vec(&u, '/');
    push_trail(pages, mount, &segs, current.title.as_str(), &mut out);
    out
}

/// Breadcrumbs along `url_path` for a generated folder index, the last crumb carrying
/// `terminal_title`.
pub fn breadcrumbs_for_index_path(
    site_title: &str,
    mount: &str,
    pages: &PageMap,
    url_path: &str,
    terminal_title: &str,
) -> (r: Vec<Crumb>)
    ensures
        crumbs_view(r@) == seq![root_crumb(site_title@, mount@)] + if trim(url_path@).len() == 0 {
            Seq::empty()
        } else {
            let segs = nonempty_words(split_char(url_path@, '/'));
            crumb_trail(pages@, mount@, segs, segs.len() as int, terminal_title@)
        },
{
    let mut out: Vec<Crumb> = Vec::new();
    let first = root_crumb_exec(site_title, mount);
    out.push(first);
    assert(crumbs_view(out@) =~= seq![root_crumb(site_title@, mount@)]);
    let u = chars_of(url_path);
    let (a, b) = crate::text::trim_bounds(&u, 0, u.len());
    assert(u@.subrange(0, u@.len() as int) =~= u@);
    if a == b {
        assert(crumbs_view(out@) =~= seq![root_crumb(site_title@, mount@)] + Seq::empty());
        return out;
    }
    let segs = segments_nonempty(&u);
    push_trail(pages, mount, &segs, terminal_title, &mut out);
    out
}

/// The non-empty `/`-separated segments of `v`.
fn segments_nonempty(v: &Vec<char>) -> (r: Vec<Vec<char>>)
    ensures
        views(r@) == nonempty_words(split_char(v@, '/')),
{
    let parts = split_vec(v, '/');
    let ghost all = views(parts@);
    let mut out: Vec<Vec<char>> = Vec::new();
    let mut i: usize = 0;
    assert(all.take(0) =~= Seq::<Seq<char>>::empty());
    while i < parts.len()
        invariant
            i <= parts.len(),
            all == views(parts@),
            views(out@) == nonempty_words(all.take(i as int)),
        decreases parts.len() - i,
    {
        let ghost pre = all.take(i + 1);
        assert(pre.drop_last() =~= all.take(i as int));
        assert(pre.last() == parts@[i as int]@);
        if parts[i].len() > 0 {
            let mut w: Vec<char> = Vec::new();
            push_all(&mut w, &parts[i]);
            out.push(w);
            assert(views(out@) =~= nonempty_words(pre));
        }
        i += 1;
    }
    assert(all.take(parts@.len() as int) =~= all);
    out
}

/// The non-empty `/`-separated segments of `v`.
pub fn segments_nonempty_pub(v: &Vec<char>) -> (r: Vec<Vec<char>>)
    ensures
        views(r@) == nonempty_words(split_char(v@, '/')),
{
    segments_nonempty(v)
}

/// What precedes the last `/` of a path, or nothing when it has none.
pub open spec fn parent_path_spec(path: Seq<char>) -> Seq<char> {
    let k = crate::text::last_index_of(path, '/');
    if k < 0 {
        Seq::empty()
    } else {
        path.take(k)
    }
}

/// The folder part of a URL path.
pub fn parent_path(path: &str) -> (r: String)
    ensures
        r@ == parent_path_spec(path@),
{
    let v = chars_of(path);
    match crate::text::last_index(&v, '/') {
        Some(k) => {
            proof {
                crate::text::lemma_last_index_bounds(v@, '/');
            }
            let mut out: Vec<char> = Vec::new();
            push_range(&mut out, &v, 0, k);
            assert(out@ =~= v@.take(k as int));
            string_of(&out)
        },
        None => String::new(),
    }
}

/// The label a folder's index row shows: the folder's own name, or `index.md` for the
/// site's root.
pub open spec fn index_row_filename_spec(url_path: Seq<char>) -> Seq<char> {
    if url_path.len() == 0 {
        "index.md"@
    } else {
        let k = crate::text::last_index_of(url_path, '/');
        url_path.skip(k + 1)
    }
}

/// Label for a folder's `index.md` row in filename mode.
pub fn index_row_filename(url_path: &str) -> (r: String)
    ensures
        r@ == index_row_filename_spec(url_path@),
{
    let v = chars_of(url_path);
    if v.len() == 0 {
        return String::from_str("index.md");
    }
    proof {
        crate::text::lemma_last_index_bounds(v@, '/');
    }
    let start: usize = match crate::text::last_index(&v, '/') {
        Some(k) => k + 1,
        None => 0,
    };
    let mut out: Vec<char> = Vec::new();
    push_range(&mut out, &v, start, v.len());
    assert(out@ =~= v@.skip(start as int));
    string_of(&out)
}

/// Where a page without a `sidebar_order` sorts.
pub const DEFAULT_ORDER: i64 = 1_000_000;

/// A page's place in its section: its `sidebar_order`, else the default.
pub open spec fn order_of(p: Page) -> int {
    match p.sidebar_order {
        Some(o) => o as int,
        None => DEFAULT_ORDER as int,
    }
}

/// Whether `a` sorts after `b`: by order, then by title ignoring case.
pub open spec fn sorts_after(a: Page, b: Page) -> bool {
    order_of(a) > order_of(b) || (order_of(a) == order_of(b) && crate::text::lex_lt(
        crate::text::lowercase_of(b.title@),
        crate::text::lowercase_of(a.title@),
    ))
}

/// Where a stable sort puts `x` after the already sorted `t`: before the first page
/// that sorts after it.
pub open spec fn insert_pos(t: Seq<Page>, x: Page) -> int
    decreases t.len(),
{
    if t.len() == 0 {
        0
    } else if sorts_after(t[0], x) {
        0
    } else {
        1 + insert_pos(t.drop_first(), x)
    }
}

/// `s` sorted by order then case-blind title, pages that compare equal keeping their
/// relative order.
pub open spec fn stable_sort(s: Seq<Page>) -> Seq<Page>
    decreases s.len(),
{
    if s.len() == 0 {
        Seq::empty()
    } else {
        let t = stable_sort(s.drop_last());
        t.insert(insert_pos(t, s.last()), s.last())
    }
}

/// The published pages whose parent folder is `parent`, in URL-path order.
pub open spec fn siblings(s: Seq<Page>, parent: Seq<char>) -> Seq<Page>
    decreases s.len(),
{
    if s.len() == 0 {
        Seq::empty()
    } else if !s.last().draft && parent_path_spec(s.last().url_path@) == parent {
        siblings(s.drop_last(), parent).push(s.last())
    } else {
        siblings(s.drop_last(), parent)
    }
}

/// The first position of a page with this URL path, or -1.
pub open spec fn position_of(s: Seq<Page>, url_path: Seq<char>) -> int
    decreases s.len(),
{
    if s.len() == 0 {
        -1
    } else if s[0].url_path@ == url_path {
        0
    } else if position_of(s.drop_first(), url_path) < 0 {
        -1
    } else {
        1 + position_of(s.drop_first(), url_path)
    }
}

/// The pages before and after `current` among its published siblings, sorted.
pub open spec fn prev_next_spec(pages: Seq<Page>, current: Page) -> (Option<Page>, Option<Page>) {
    let sib = stable_sort(siblings(pages, parent_path_spec(current.url_path@)));
    let k = position_of(sib, current.url_path@);
    if k < 0 {
        (None, None)
    } else {
        (
            if k > 0 { Some(sib[k - 1]) } else { None },
            if k + 1 < sib.len() { Some(sib[k + 1]) } else { None },
        )
    }
}

pub open spec fn pages_at(s: Seq<Page>, idx: Seq<usize>) -> Seq<Page> {
    idx.map_values(|i: usize| s[i as int])
}

fn sorts_after_exec(a: &Page, la: &String, b: &Page, lb: &String) -> (r: bool)
    requires
        la@ == crate::text::lowercase_of(a.title@),
        lb@ == crate::text::lowercase_of(b.title@),
    ensures
        r == sorts_after(*a, *b),
{
    let oa: i64 = match a.sidebar_order {
        Some(o) => o,
        None => DEFAULT_ORDER,
    };
    let ob: i64 = match b.sidebar_order {
        Some(o) => o,
        None => DEFAULT_ORDER,
    };
    oa > ob || (oa == ob && crate::text::str_lt(lb.as_str(), la.as_str()))
}

proof fn lemma_insert_pos(t: Seq<Page>, x: Page, p: int)
    requires
        0 <= p <= t.len(),
        forall|j: int| 0 <= j < p ==> !sorts_after(#[trigger] t[j], x),
        p == t.len() || sorts_after(t[p], x),
    ensures
        insert_pos(t, x) == p,
    decreases p,
{
    if p > 0 {
        assert forall|j: int| 0 <= j < p - 1 implies !sorts_after(#[trigger] t.drop_first()[j], x) by {
            assert(t.drop_first()[j] == t[j + 1]);
        }
        lemma_insert_pos(t.drop_first(), x, p - 1);
    }
}

proof fn lemma_position_of(s: Seq<Page>, u: Seq<char>, k: int)
    requires
        0 <= k <= s.len(),
        forall|j: int| 0 <= j < k ==> (#[trigger] s[j]).url_path@ != u,
        k == s.len() || s[k].url_path@ == u,
    ensures
        position_of(s, u) == if k == s.len() { -1 } else { k },
    decreases k,
{
    if k > 0 {
        assert forall|j: int| 0 <= j < k - 1 implies (#[trigger] s.drop_first()[j]).url_path@ != u by {
            assert(s.drop_first()[j] == s[j + 1]);
        }
        lemma_position_of(s.drop_first(), u, k - 1);
    } else if s.len() == 0 {
    }
}

/// The previous and next pages within `current`'s section: its published siblings
/// ordered by `sidebar_order`, then by title ignoring case.
pub fn prev_next<'a>(pages: &'a PageMap, current: &Page) -> (r: (Option<&'a Page>, Option<&'a Page>))
    ensures
        ({
            let (p, n) = prev_next_spec(pages@, *current);
            &&& match r.0 {
                Some(x) => p == Some(*x),
                None => p is None,
            }
            &&& match r.1 {
                Some(x) => n == Some(*x),
                None => n is None,
            }
        }),
{
    let values = pages.values();
    let parent = parent_path(current.url_path.as_str());
    let mut lows: Vec<String> = Vec::new();
    let mut i: usize = 0;
    while i < values.len()
        invariant
            i <= values.len(),
            lows@.len() == i,
            forall|j: int| 0 <= j < i ==> (#[trigger] lows@[j])@ == crate::text::lowercase_of(values@[j].title@),
        decreases values.len() - i,
    {
        lows.push(crate::text::to_lowercase(values[i].title.as_str()));
        i += 1;
    }
    let mut sorted: Vec<usize> = Vec::new();
    let ghost pv = values@;
    let mut i: usize = 0;
    while i < values.len()
        invariant
            i <= values.len(),
            pv == values@,
            lows@.len() == values@.len(),
            forall|j: int| 0 <= j < values@.len() ==> (#[trigger] lows@[j])@ == crate::text::lowercase_of(values@[j].title@),
            parent@ == parent_path_spec(current.url_path@),
            forall|j: int| 0 <= j < sorted@.len() ==> (#[trigger] sorted@[j]) < values@.len(),
            pages_at(pv, sorted@) == stable_sort(siblings(pv.take(i as int), parent@)),
        decreases values.len() - i,
    {
        let ghost pre = pv.take(i + 1);
        assert(pre.drop_last() =~= pv.take(i as int));
        assert(pre.last() == pv[i as int]);
        let pp = parent_path(values[i].url_path.as_str());
        if !values[i].draft && crate::text::str_eq(pp.as_str(), parent.as_str()) {
            let ghost t = pages_at(pv, sorted@);
            let mut p: usize = 0;
            while p < sorted.len() && !sorts_after_exec(&values[sorted[p]], &lows[sorted[p]], &values[i], &lows[i])
                invariant
                    p <= sorted@.len(),
                    i < values@.len(),
                    t == pages_at(pv, sorted@),
                    pv == values@,
                    lows@.len() == values@.len(),
                    forall|j: int| 0 <= j < values@.len() ==> (#[trigger] lows@[j])@ == crate::text::lowercase_of(values@[j].title@),
                    forall|j: int| 0 <= j < sorted@.len() ==> (#[trigger] sorted@[j]) < values@.len(),
                    forall|j: int| 0 <= j < p ==> !sorts_after(#[trigger] t[j], pv[i as int]),
                decreases sorted.len() - p,
            {
                p += 1;
            }
            proof {
                lemma_insert_pos(t, pv[i as int], p as int);
            }
            sorted.insert(p, i);
            assert(pages_at(pv, sorted@) =~= t.insert(p as int, pv[i as int]));
            proof {
                let sp = siblings(pre, parent@);
                assert(sp == siblings(pv.take(i as int), parent@).push(pv[i as int]));
                assert(sp.drop_last() =~= siblings(pv.take(i as int), parent@));
                assert(sp.last() == pv[i as int]);
            }
        } else {
            assert(siblings(pre, parent@) == siblings(pv.take(i as int), parent@));
        }
        i += 1;
    }
    assert(pv.take(values@.len() as int) =~= pv);
    let ghost sib = pages_at(pv, sorted@);
    let mut k: usize = 0;
    while k < sorted.len() && !crate::text::str_eq(values[sorted[k]].url_path.as_str(), current.url_path.as_str())
        invariant
            k <= sorted@.len(),
            sib == pages_at(pv, sorted@),
            pv == values@,
            forall|j: int| 0 <= j < sorted@.len() ==> (#[trigger] sorted@[j]) < values@.len(),
            forall|j: int| 0 <= j < k ==> (#[trigger] sib[j]).url_path@ != current.url_path@,
        decreases sorted.len() - k,
    {
        k += 1;
    }
    proof {
        lemma_position_of(sib, current.url_path@, k as int);
    }
    if k == sorted.len() {
        return (None, None);
    }
    let prev: Option<&'a Page> = if k > 0 { Some(&values[sorted[k - 1]]) } else { None };
    let next: Option<&'a Page> = if k + 1 < sorted.len() { Some(&values[sorted[k + 1]]) } else { None };
    (prev, next)
}

/// The slug of a folder's pinned `index.md` child.
pub const INDEX_SLUG: &'static str = "__index__";

/// A node of the sidebar tree: a section (folder) or a page. A folder with an
/// `index.md` shows that page as a pinned `__index__` child, so the folder itself stays
/// a plain collapsible section.
#[derive(Debug)]
pub struct NavNode {
    pub slug: String,
    pub title: String,
    pub url: Option<String>,
    pub url_path: Option<String>,
    pub order: i64,
    pub depth: u32,
    pub children: Vec<NavNode>,
}

/// A node as a value: its fields and its children's views.
pub ghost struct NavView {
    pub slug: Seq<char>,
    pub title: Seq<char>,
    pub url: Option<Seq<char>>,
    pub url_path: Option<Seq<char>>,
    pub order: i64,
    pub depth: u32,
    pub children: Seq<NavView>,
}

pub open spec fn opt_seq(o: Option<String>) -> Option<Seq<char>> {
    match o {
        Some(s) => Some(s@),
        None => None,
    }
}

/// The value a node holds.
pub open spec fn nav_view(n: NavNode) -> NavView
    decreases n,
{
    NavView {
        slug: n.slug@,
        title: n.title@,
        url: opt_seq(n.url),
        url_path: opt_seq(n.url_path),
        order: n.order,
        depth: n.depth,
        children: Seq::new(
            n.children@.len(),
            |i: int|
                if 0 <= i < n.children@.len() {
                    nav_view(n.children@[i])
                } else {
                    section_view(Seq::empty(), Seq::empty(), Seq::empty(), 0)
                },
        ),
    }
}

/// The depth below `d`, wrapping as unchecked `u32` arithmetic does.
pub open spec fn next_depth(d: u32) -> u32 {
    if d == u32::MAX {
        0
    } else {
        (d + 1) as u32
    }
}

fn next_depth_exec(d: u32) -> (r: u32)
    ensures
        r == next_depth(d),
{
    if d == u32::MAX {
        0
    } else {
        d + 1
    }
}

/// A section with nothing in it yet.
pub open spec fn section_view(slug: Seq<char>, title: Seq<char>, url_path: Seq<char>, depth: u32) -> NavView {
    NavView {
        slug,
        title,
        url: None,
        url_path: Some(url_path),
        order: DEFAULT_ORDER,
        depth,
        children: Seq::empty(),
    }
}

/// The first child with this slug, or -1.
pub open spec fn child_position(children: Seq<NavView>, slug: Seq<char>) -> int
    decreases children.len(),
{
    if children.len() == 0 {
        -1
    } else if child_position(children.drop_last(), slug) >= 0 {
        child_position(children.drop_last(), slug)
    } else if children.last().slug == slug {
        children.len() - 1
    } else {
        -1
    }
}

/// The URL path of a child section named `head`.
pub open spec fn child_url_path(parent: Option<Seq<char>>, head: Seq<char>) -> Seq<char> {
    match parent {
        Some(p) => if p.len() > 0 {
            p + seq!['/'] + head
        } else {
            head
        },
        None => head,
    }
}

/// A node made to stand for `page`.
pub open spec fn as_leaf(v: NavView, page: Page) -> NavView {
    NavView {
        title: page.title@,
        url: Some(page.url@),
        url_path: Some(page.url_path@),
        order: order_of(page) as i64,
        ..v
    }
}

/// `page` filed under `node` along `segs`: sections made as needed, the last segment
/// naming the page's own node, a folder's index page pinned as its `__index__` child,
/// and the site's own index page left out.
pub open spec fn insert_spec(node: NavView, segs: Seq<Seq<char>>, page: Page) -> NavView
    decreases segs.len(),
{
    if segs.len() == 0 {
        if node.url_path is None || node.url_path == Some(Seq::<char>::empty()) {
            node
        } else if child_position(node.children, INDEX_SLUG@) >= 0 {
            node
        } else {
            let leaf = as_leaf(
                section_view(INDEX_SLUG@, Seq::empty(), Seq::empty(), next_depth(node.depth)),
                page,
            );
            NavView { children: node.children.push(leaf), ..node }
        }
    } else {
        let head = segs[0];
        let rest = segs.drop_first();
        let pos = child_position(node.children, head);
        let children = if pos >= 0 {
            node.children
        } else {
            node.children.push(
                section_view(head, humanize_spec(head), child_url_path(node.url_path, head), next_depth(node.depth)),
            )
        };
        let idx = if pos >= 0 { pos } else { node.children.len() as int };
        let child = if rest.len() == 0 && !page.is_index {
            as_leaf(children[idx], page)
        } else {
            insert_spec(children[idx], rest, page)
        };
        NavView { children: children.update(idx, child), ..node }
    }
}

proof fn lemma_child_position(children: Seq<NavView>, slug: Seq<char>, k: int)
    requires
        0 <= k <= children.len(),
        forall|j: int| 0 <= j < k ==> (#[trigger] children[j]).slug != slug,
        k < children.len() ==> children[k].slug == slug,
    ensures
        child_position(children, slug) == if k < children.len() { k } else { -1 },
    decreases children.len(),
{
    if children.len() > 0 {
        let front = children.drop_last();
        if k < children.len() - 1 {
            lemma_child_position(front, slug, k);
        } else {
            assert forall|j: int| 0 <= j < front.len() implies (#[trigger] front[j]).slug != slug by {
                assert(front[j] == children[j]);
            }
            lemma_child_position(front, slug, front.len() as int);
        }
    }
}

proof fn lemma_nav_child(n: NavNode, i: int)
    requires
        0 <= i < n.children@.len(),
    ensures
        nav_view(n).children.len() == n.children@.len(),
        nav_view(n).children[i] == nav_view(n.children@[i]),
{
}

/// The position of the first child named `slug`.
fn find_child(node: &NavNode, slug: &Vec<char>) -> (r: Option<usize>)
    ensures
        match r {
            Some(i) => i < node.children@.len() && child_position(nav_view(*node).children, slug@) == i,
            None => child_position(nav_view(*node).children, slug@) == -1,
        },
{
    let ghost kids = nav_view(*node).children;
    let mut i: usize = 0;
    while i < node.children.len()
        invariant
            i <= node.children@.len(),
            kids == nav_view(*node).children,
            kids.len() == node.children@.len(),
            forall|j: int| 0 <= j < i ==> (#[trigger] kids[j]).slug != slug@,
        decreases node.children.len() - i,
    {
        proof {
            lemma_nav_child(*node, i as int);
        }
        let c = chars_of(node.children[i].slug.as_str());
        if crate::text::vec_eq(&c, slug) {
            proof {
                lemma_child_position(kids, slug@, i as int);
            }
            return Some(i);
        }
        i += 1;
    }
    proof {
        lemma_child_position(kids, slug@, i as int);
    }
    None
}

fn page_order(page: &Page) -> (r: i64)
    ensures
        r as int == order_of(*page),
{
    match page.sidebar_order {
        Some(o) => o,
        None => DEFAULT_ORDER,
    }
}

/// File `page` under `node` along `segs[from..]`.
fn insert(node: &mut NavNode, segs: &Vec<Vec<char>>, from: usize, page: &Page)
    requires
        from <= segs.len(),
    ensures
        nav_view(*final(node)) == insert_spec(nav_view(*old(node)), views(segs@).skip(from as int), *page),
    decreases segs.len() - from,
{
    let ghost before = nav_view(*node);
    let ghost sv = views(segs@).skip(from as int);
    proof {
        reveal_strlit("__index__");
    }
    let index_slug = chars_of(INDEX_SLUG);
    if from == segs.len() {
        assert(sv.len() == 0);
        let no_path = match &node.url_path {
            None => true,
            Some(p) => chars_of(p.as_str()).len() == 0,
        };
        if no_path {
            proof {
                if node.url_path is Some {
                    assert(node.url_path->0@ =~= Seq::<char>::empty());
                }
            }
            return;
        }
        if find_child(node, &index_slug).is_some() {
            return;
        }
        let leaf = NavNode {
            slug: String::from_str(INDEX_SLUG),
            title: page.title.clone(),
            url: Some(page.url.clone()),
            url_path: Some(page.url_path.clone()),
            order: page_order(page),
            depth: next_depth_exec(node.depth),
            children: Vec::new(),
        };
        let ghost lv = nav_view(leaf);
        assert(lv == as_leaf(section_view(INDEX_SLUG@, Seq::empty(), Seq::empty(), next_depth(before.depth)), *page)) by {
            assert(lv.children =~= Seq::<NavView>::empty());
        }
        let ghost old_kids = node.children@;
        node.children.push(leaf);
        proof {
            let after = nav_view(*node);
            assert(after.children =~= before.children.push(lv)) by {
                assert forall|j: int| 0 <= j < after.children.len() implies after.children[j] == before.children.push(lv)[j] by {
                    lemma_nav_child(*node, j);
                    if j < old_kids.len() {
                        assert(node.children@[j] == old_kids[j]);
                    }
                }
            }
        }
        return;
    }
    assert(sv[0] == segs@[from as int]@);
    assert(sv.drop_first() =~= views(segs@).skip(from + 1));
    let head = &segs[from];
    let ghost kids0 = before.children;
    let idx: usize = match find_child(node, head) {
        Some(i) => i,
        None => {
            let head_s = string_of(head);
            let url_path: String = match &node.url_path {
                Some(p) => {
                    let pv = chars_of(p.as_str());
                    if pv.len() > 0 {
                        let mut out = pv;
                        out.push('/');
                        push_all(&mut out, head);
                        string_of(&out)
                    } else {
                        string_of(head)
                    }
                },
                None => string_of(head),
            };
            assert(url_path@ == child_url_path(before.url_path, head@));
            let section = NavNode {
                slug: string_of(head),
                title: humanize(head_s.as_str()),
                url: None,
                url_path: Some(url_path),
                order: DEFAULT_ORDER,
                depth: next_depth_exec(node.depth),
                children: Vec::new(),
            };
            let ghost secv = nav_view(section);
            assert(secv == section_view(head@, humanize_spec(head@), child_url_path(before.url_path, head@), next_depth(before.depth))) by {
                assert(secv.children =~= Seq::<NavView>::empty());
            }
            let ghost old_kids = node.children@;
            node.children.push(section);
            proof {
                let after = nav_view(*node);
                assert(after.children =~= kids0.push(secv)) by {
                    assert forall|j: int| 0 <= j < after.children.len() implies after.children[j] == kids0.push(secv)[j] by {
                        lemma_nav_child(*node, j);
                        if j < old_kids.len() {
                            assert(node.children@[j] == old_kids[j]);
                        }
                    }
                }
            }
            node.children.len() - 1
        },
    };
    let ghost kids1 = nav_view(*node).children;
    assert(kids1 == (if child_position(kids0, head@) >= 0 { kids0 } else {
        kids0.push(section_view(head@, humanize_spec(head@), child_url_path(before.url_path, head@), next_depth(before.depth)))
    }));
    proof {
        lemma_nav_child(*node, idx as int);
    }
    let ghost mid_kids = node.children@;
    let mut child = node.children.remove(idx);
    assert(nav_view(child) == kids1[idx as int]);
    if from + 1 == segs.len() && !page.is_index {
        let ghost cv = nav_view(child);
        child.title = page.title.clone();
        child.url = Some(page.url.clone());
        child.url_path = Some(page.url_path.clone());
        child.order = page_order(page);
        assert(nav_view(child) == as_leaf(cv, *page));
    } else {
        insert(&mut child, segs, from + 1, page);
    }
    let ghost newc = nav_view(child);
    node.children.insert(idx, child);
    proof {
        let after = nav_view(*node);
        assert(node.children@ =~= mid_kids.update(idx as int, child));
        assert(after.children =~= kids1.update(idx as int, newc)) by {
            assert forall|j: int| 0 <= j < after.children.len() implies after.children[j] == kids1.update(idx as int, newc)[j] by {
                lemma_nav_child(*node, j);
                if j != idx {
                    assert(node.children@[j] == mid_kids[j]);
                }
            }
        }
    }
}

pub open spec fn is_folder(v: NavView) -> bool {
    v.children.len() > 0
}

pub open spec fn is_index_node(v: NavView) -> bool {
    v.slug == INDEX_SLUG@
}

/// Whether `a` sorts after `b` among siblings: folders first, then a folder's pinned
/// index page, then by order, then by title ignoring case.
pub open spec fn nav_after(a: NavView, b: NavView) -> bool {
    (is_folder(b) && !is_folder(a)) || (is_folder(a) == is_folder(b) && ((is_index_node(b) && !is_index_node(a))
        || (is_index_node(a) == is_index_node(b) && (a.order > b.order || (a.order == b.order
        && crate::text::lex_lt(crate::text::lowercase_of(b.title), crate::text::lowercase_of(a.title)))))))
}

/// Where a stable sort puts `x` after the already sorted `t`.
pub open spec fn nav_insert_pos(t: Seq<NavView>, x: NavView) -> int
    decreases t.len(),
{
    if t.len() == 0 {
        0
    } else if nav_after(t[0], x) {
        0
    } else {
        1 + nav_insert_pos(t.drop_first(), x)
    }
}

/// `s` sorted stably by `nav_after`.
pub open spec fn nav_stable_sort(s: Seq<NavView>) -> Seq<NavView>
    decreases s.len(),
{
    if s.len() == 0 {
        Seq::empty()
    } else {
        let t = nav_stable_sort(s.drop_last());
        t.insert(nav_insert_pos(t, s.last()), s.last())
    }
}

/// A tree with every node's children sorted.
pub open spec fn sorted_view(v: NavView) -> NavView
    decreases v, 1int,
{
    NavView { children: nav_stable_sort(sorted_kids(v)), ..v }
}

/// A node's children, each with its own children sorted.
pub open spec fn sorted_kids(v: NavView) -> Seq<NavView>
    decreases v, 0int,
{
    Seq::new(
        v.children.len(),
        |i: int|
            if 0 <= i < v.children.len() {
                sorted_view(v.children[i])
            } else {
                v
            },
    )
}

proof fn lemma_nav_insert_pos(t: Seq<NavView>, x: NavView, p: int)
    requires
        0 <= p <= t.len(),
        forall|j: int| 0 <= j < p ==> !nav_after(#[trigger] t[j], x),
        p == t.len() || nav_after(t[p], x),
    ensures
        nav_insert_pos(t, x) == p,
    decreases p,
{
    if p > 0 {
        assert forall|j: int| 0 <= j < p - 1 implies !nav_after(#[trigger] t.drop_first()[j], x) by {
            assert(t.drop_first()[j] == t[j + 1]);
        }
        lemma_nav_insert_pos(t.drop_first(), x, p - 1);
    }
}

proof fn lemma_nav_insert_pos_props(t: Seq<NavView>, x: NavView)
    ensures
        0 <= nav_insert_pos(t, x) <= t.len(),
        forall|j: int| 0 <= j < nav_insert_pos(t, x) ==> !nav_after(#[trigger] t[j], x),
        nav_insert_pos(t, x) < t.len() ==> nav_after(t[nav_insert_pos(t, x)], x),
    decreases t.len(),
{
    if t.len() > 0 && !nav_after(t[0], x) {
        lemma_nav_insert_pos_props(t.drop_first(), x);
        assert forall|j: int| 0 <= j < nav_insert_pos(t, x) implies !nav_after(#[trigger] t[j], x) by {
            if j > 0 {
                assert(t[j] == t.drop_first()[j - 1]);
            }
        }
    }
}

proof fn lemma_nav_after_asymmetric(a: NavView, b: NavView)
    requires
        nav_after(a, b),
    ensures
        !nav_after(b, a),
{
    let la = crate::text::lowercase_of(a.title);
    let lb = crate::text::lowercase_of(b.title);
    if crate::text::lex_lt(lb, la) {
        crate::text::lemma_lex_asymmetric(lb, la);
    }
}

proof fn lemma_nav_after_transitive(a: NavView, b: NavView, c: NavView)
    requires
        nav_after(a, b),
        nav_after(b, c),
    ensures
        nav_after(a, c),
{
    let la = crate::text::lowercase_of(a.title);
    let lb = crate::text::lowercase_of(b.title);
    let lc = crate::text::lowercase_of(c.title);
    if crate::text::lex_lt(lc, lb) && crate::text::lex_lt(lb, la) {
        crate::text::lemma_lex_transitive(lc, lb, la);
    }
}

/// No entry of `s` sorts after a later one.
pub open spec fn nav_sorted(s: Seq<NavView>) -> bool {
    forall|i: int, j: int| 0 <= i < j < s.len() ==> !nav_after(#[trigger] s[i], #[trigger] s[j])
}

proof fn lemma_nav_stable_sort_sorted(s: Seq<NavView>)
    ensures
        nav_sorted(nav_stable_sort(s)),
        nav_stable_sort(s).len() == s.len(),
    decreases s.len(),
{
    if s.len() > 0 {
        lemma_nav_stable_sort_sorted(s.drop_last());
        let t = nav_stable_sort(s.drop_last());
        let x = s.last();
        lemma_nav_insert_pos_props(t, x);
        let p = nav_insert_pos(t, x);
        let r = t.insert(p, x);
        assert(r == nav_stable_sort(s));
        assert forall|i: int, j: int| 0 <= i < j < r.len() implies !nav_after(#[trigger] r[i], #[trigger] r[j]) by {
            if j < p {
                assert(r[i] == t[i] && r[j] == t[j]);
            } else if j == p {
                assert(r[i] == t[i] && r[j] == x);
            } else if i < p {
                assert(r[i] == t[i] && r[j] == t[j - 1]);
            } else if i == p {
                assert(r[i] == x && r[j] == t[j - 1]);
                assert(nav_after(t[p], x));
                if nav_after(x, t[j - 1]) {
                    if j - 1 == p {
                        lemma_nav_after_asymmetric(t[p], x);
                    } else {
                        lemma_nav_after_transitive(t[p], x, t[j - 1]);
                        assert(!nav_after(t[p], t[j - 1]));
                    }
                }
            } else {
                assert(r[i] == t[i - 1] && r[j] == t[j - 1]);
            }
        }
    }
}

/// Siblings in the order the sidebar promises: folders before pages; among folders or
/// among pages, a folder's pinned index page first; then by ascending sidebar order;
/// and entries of equal order by title, ignoring case.
pub open spec fn in_sidebar_order(r: Seq<NavView>) -> bool {
    forall|i: int, j: int| 0 <= i < j < r.len() ==> {
        let a = #[trigger] r[i];
        let b = #[trigger] r[j];
        &&& (b.children.len() > 0 ==> a.children.len() > 0)
        &&& ((a.children.len() > 0) == (b.children.len() > 0) && b.slug == INDEX_SLUG@ ==> a.slug == INDEX_SLUG@)
        &&& ((a.children.len() > 0) == (b.children.len() > 0) && (a.slug == INDEX_SLUG@) == (b.slug == INDEX_SLUG@)
            ==> a.order <= b.order)
        &&& ((a.children.len() > 0) == (b.children.len() > 0) && (a.slug == INDEX_SLUG@) == (b.slug == INDEX_SLUG@)
            && a.order == b.order ==> !crate::text::lex_lt(
            crate::text::lowercase_of(b.title),
            crate::text::lowercase_of(a.title),
        ))
    }
}

proof fn lemma_nav_stable_sort_permutes(s: Seq<NavView>)
    ensures
        nav_stable_sort(s).to_multiset() == s.to_multiset(),
    decreases s.len(),
{
    if s.len() > 0 {
        lemma_nav_stable_sort_permutes(s.drop_last());
        let t = nav_stable_sort(s.drop_last());
        lemma_nav_stable_sort_sorted(s.drop_last());
        lemma_nav_insert_pos_props(t, s.last());
        vstd::seq_lib::to_multiset_insert(t, nav_insert_pos(t, s.last()), s.last());
        vstd::seq_lib::to_multiset_build(s.drop_last(), s.last());
        assert(s.drop_last().push(s.last()) =~= s);
    } else {
        assert(nav_stable_sort(s) =~= s);
    }
}

/// Sorting siblings puts them in sidebar order and keeps exactly the same entries.
pub proof fn lemma_siblings_in_sidebar_order(s: Seq<NavView>)
    ensures
        nav_stable_sort(s).len() == s.len(),
        nav_stable_sort(s).to_multiset() == s.to_multiset(),
        in_sidebar_order(nav_stable_sort(s)),
{
    lemma_nav_stable_sort_sorted(s);
    lemma_nav_stable_sort_permutes(s);
}

proof fn lemma_nav_stable_sort_members(s: Seq<NavView>, k: int)
    requires
        0 <= k < nav_stable_sort(s).len(),
    ensures
        exists|m: int| 0 <= m < s.len() && s[m] == nav_stable_sort(s)[k],
    decreases s.len(),
{
    lemma_nav_stable_sort_sorted(s);
    if s.len() > 0 {
        let t = nav_stable_sort(s.drop_last());
        lemma_nav_stable_sort_sorted(s.drop_last());
        lemma_nav_insert_pos_props(t, s.last());
        let p = nav_insert_pos(t, s.last());
        let r = t.insert(p, s.last());
        if k < p {
            assert(r[k] == t[k]);
            lemma_nav_stable_sort_members(s.drop_last(), k);
            let m = choose|m: int| 0 <= m < s.drop_last().len() && s.drop_last()[m] == t[k];
            assert(s[m] == s.drop_last()[m]);
        } else if k == p {
            assert(r[k] == s[s.len() - 1]);
        } else {
            assert(r[k] == t[k - 1]);
            lemma_nav_stable_sort_members(s.drop_last(), k - 1);
            let m = choose|m: int| 0 <= m < s.drop_last().len() && s.drop_last()[m] == t[k - 1];
            assert(s[m] == s.drop_last()[m]);
        }
    }
}

/// Every level of a tree lists its children in sidebar order.
pub open spec fn tree_in_sidebar_order(v: NavView) -> bool
    decreases v,
{
    &&& in_sidebar_order(v.children)
    &&& forall|i: int| 0 <= i < v.children.len() ==> tree_in_sidebar_order(#[trigger] v.children[i])
}

/// Sorting a tree puts every level in sidebar order.
pub proof fn lemma_sorted_tree_in_sidebar_order(v: NavView)
    ensures
        tree_in_sidebar_order(sorted_view(v)),
    decreases v,
{
    let kids = sorted_kids(v);
    let r = nav_stable_sort(kids);
    lemma_siblings_in_sidebar_order(kids);
    assert forall|i: int| 0 <= i < r.len() implies tree_in_sidebar_order(#[trigger] r[i]) by {
        lemma_nav_stable_sort_members(kids, i);
        let m = choose|m: int| 0 <= m < kids.len() && kids[m] == r[i];
        assert(kids[m] == sorted_view(v.children[m]));
        lemma_sorted_tree_in_sidebar_order(v.children[m]);
    }
    assert(sorted_view(v).children == r);
}

/// The sidebar tree of a site lists the entries of every level in sidebar order: two
/// pages of one folder with equal order, such as two without `sidebar_order`, by their
/// titles ignoring case.
pub proof fn lemma_sidebar_tree_in_order(site_title: Seq<char>, pages: Seq<Page>)
    ensures
        tree_in_sidebar_order(nav_tree_spec(site_title, pages)),
{
    lemma_sorted_tree_in_sidebar_order(insert_pages(section_view(Seq::empty(), site_title, Seq::empty(), 0), pages));
}

pub open spec fn kids_views(v: Seq<NavNode>) -> Seq<NavView> {
    Seq::new(v.len(), |i: int| nav_view(v[i]))
}

fn nav_after_exec(a: &NavNode, la: &String, b: &NavNode, lb: &String) -> (r: bool)
    requires
        la@ == crate::text::lowercase_of(a.title@),
        lb@ == crate::text::lowercase_of(b.title@),
    ensures
        r == nav_after(nav_view(*a), nav_view(*b)),
{
    proof {
        reveal_strlit("__index__");
    }
    let fa = a.children.len() > 0;
    let fb = b.children.len() > 0;
    let ia = crate::text::str_eq(a.slug.as_str(), INDEX_SLUG);
    let ib = crate::text::str_eq(b.slug.as_str(), INDEX_SLUG);
    (fb && !fa) || (fa == fb && ((ib && !ia) || (ia == ib && (a.order > b.order || (a.order == b.order
        && crate::text::str_lt(lb.as_str(), la.as_str()))))))
}

/// Sort every node's children: folders first, then a folder's pinned index page, then
/// by order, then by title ignoring case; siblings that compare equal keep their order.
pub fn sort_recursive(node: &mut NavNode)
    ensures
        nav_view(*final(node)) == sorted_view(nav_view(*old(node))),
    decreases *old(node),
{
    let ghost before = nav_view(*node);
    let mut kids: Vec<NavNode> = Vec::new();
    std::mem::swap(&mut kids, &mut node.children);
    let ghost kids0 = kids@;
    assert(kids_views(kids0) =~= before.children) by {
        assert forall|j: int| 0 <= j < kids0.len() implies kids_views(kids0)[j] == before.children[j] by {
        }
    }
    let ghost inner = Seq::new(before.children.len(), |i: int| if 0 <= i < before.children.len() { sorted_view(before.children[i]) } else { before });
    let mut i: usize = 0;
    while i < kids.len()
        invariant
            i <= kids@.len(),
            kids@.len() == kids0.len(),
            inner.len() == kids0.len(),
            before.children == kids_views(kids0),
            forall|j: int| 0 <= j < i ==> nav_view(#[trigger] kids@[j]) == inner[j],
            forall|j: int| i <= j < kids@.len() ==> #[trigger] kids@[j] == kids0[j],
            forall|j: int| 0 <= j < inner.len() ==> #[trigger] inner[j] == sorted_view(before.children[j]),
            kids0 == old(node).children@,
        decreases kids.len() - i,
    {
        let ghost pre = kids@;
        let mut c = kids.remove(i);
        assert(c == kids0[i as int]);
        proof {
            assert(decreases_to!(*old(node) => old(node).children));
            assert(decreases_to!(old(node).children => old(node).children@));
            assert(decreases_to!(old(node).children@ => old(node).children@[i as int]));
        }
        sort_recursive(&mut c);
        assert(nav_view(c) == inner[i as int]) by {
            assert(before.children[i as int] == nav_view(kids0[i as int]));
        }
        kids.insert(i, c);
        assert forall|j: int| 0 <= j < i + 1 implies nav_view(#[trigger] kids@[j]) == inner[j] by {
            if j < i {
                assert(kids@[j] == pre[j]);
            }
        }
        assert forall|j: int| i + 1 <= j < kids@.len() implies #[trigger] kids@[j] == kids0[j] by {
            assert(kids@[j] == pre[j]);
        }
        i += 1;
    }
    assert(kids_views(kids@) =~= inner);
    let mut lows: Vec<String> = Vec::new();
    let mut k: usize = 0;
    while k < kids.len()
        invariant
            k <= kids@.len(),
            lows@.len() == k,
            forall|j: int| 0 <= j < k ==> (#[trigger] lows@[j])@ == crate::text::lowercase_of(kids@[j].title@),
        decreases kids.len() - k,
    {
        lows.push(crate::text::to_lowercase(kids[k].title.as_str()));
        k += 1;
    }
    let n = kids.len();
    let mut order: Vec<usize> = Vec::new();
    let mut i: usize = 0;
    let ghost iv = kids_views(kids@);
    while i < n
        invariant
            i <= n,
            n == kids@.len(),
            iv == kids_views(kids@),
            lows@.len() == n,
            forall|j: int| 0 <= j < n ==> (#[trigger] lows@[j])@ == crate::text::lowercase_of(kids@[j].title@),
            order@.len() == i,
            forall|j: int| 0 <= j < order@.len() ==> (#[trigger] order@[j]) < i,
            forall|a: int, b: int| 0 <= a < b < order@.len() ==> order@[a] != order@[b],
            order@.map_values(|j: usize| iv[j as int]) == nav_stable_sort(iv.take(i as int)),
        decreases n - i,
    {
        let ghost t = order@.map_values(|j: usize| iv[j as int]);
        let mut p: usize = 0;
        while p < order.len() && !nav_after_exec(&kids[order[p]], &lows[order[p]], &kids[i], &lows[i])
            invariant
                p <= order@.len(),
                i < n,
                n == kids@.len(),
                iv == kids_views(kids@),
                lows@.len() == n,
                forall|j: int| 0 <= j < n ==> (#[trigger] lows@[j])@ == crate::text::lowercase_of(kids@[j].title@),
                forall|j: int| 0 <= j < order@.len() ==> (#[trigger] order@[j]) < i,
                t == order@.map_values(|j: usize| iv[j as int]),
                forall|j: int| 0 <= j < p ==> !nav_after(#[trigger] t[j], iv[i as int]),
            decreases order.len() - p,
        {
            p += 1;
        }
        proof {
            lemma_nav_insert_pos(t, iv[i as int], p as int);
            let pre = iv.take(i + 1);
            assert(pre.drop_last() =~= iv.take(i as int));
            assert(pre.last() == iv[i as int]);
        }
        let ghost ob = order@;
        order.insert(p, i);
        assert(order@ =~= ob.insert(p as int, i));
        assert(order@.map_values(|j: usize| iv[j as int]) =~= t.insert(p as int, iv[i as int]));
        assert forall|a: int, b: int| 0 <= a < b < order@.len() implies order@[a] != order@[b] by {
            if a < p && b < p {
            } else if a < p && b == p {
            } else if a < p && b > p {
                assert(order@[b] == ob[b - 1]);
            } else if a == p {
                assert(order@[b] == ob[b - 1]);
            } else {
                assert(order@[a] == ob[a - 1]);
                assert(order@[b] == ob[b - 1]);
            }
        }
        assert forall|j: int| 0 <= j < order@.len() implies (#[trigger] order@[j]) < i + 1 by {
            if j < p {
            } else if j > p {
                assert(order@[j] == ob[j - 1]);
            }
        }
        i += 1;
    }
    assert(iv.take(n as int) =~= iv);
    // Move the children into their sorted places.
    let mut slots: Vec<Option<NavNode>> = Vec::new();
    let ghost kids_all = kids@;
    let mut rest = kids;
    let mut rev: Vec<NavNode> = Vec::new();
    while rest.len() > 0
        invariant
            rest@.len() + rev@.len() == n,
            rest@ == kids_all.take(rest@.len() as int),
            kids_all.len() == n,
            forall|j: int| 0 <= j < rev@.len() ==> #[trigger] rev@[j] == kids_all[n - 1 - j],
        decreases rest.len(),
    {
        let x = rest.pop().unwrap();
        let ghost rb = rev@;
        rev.push(x);
        assert(rest@ =~= kids_all.take(rest@.len() as int));
        assert forall|j: int| 0 <= j < rev@.len() implies #[trigger] rev@[j] == kids_all[n - 1 - j] by {
            if j < rb.len() {
                assert(rev@[j] == rb[j]);
            }
        }
    }
    while rev.len() > 0
        invariant
            slots@.len() + rev@.len() == n,
            kids_all.len() == n,
            forall|j: int| 0 <= j < rev@.len() ==> #[trigger] rev@[j] == kids_all[n - 1 - j],
            forall|j: int| 0 <= j < slots@.len() ==> #[trigger] slots@[j] == Some(kids_all[j]),
        decreases rev.len(),
    {
        let x = rev.pop().unwrap();
        let ghost sb = slots@;
        slots.push(Some(x));
        assert forall|j: int| 0 <= j < slots@.len() implies #[trigger] slots@[j] == Some(kids_all[j]) by {
            if j < sb.len() {
                assert(slots@[j] == sb[j]);
            }
        }
    }
    let mut sorted: Vec<NavNode> = Vec::new();
    let mut q: usize = 0;
    while q < order.len()
        invariant
            q <= order@.len(),
            slots@.len() == n,
            order@.len() == n,
            forall|j: int| 0 <= j < n ==> (#[trigger] order@[j]) < n,
            forall|a: int, b: int| 0 <= a < b < n ==> order@[a] != order@[b],
            sorted@.len() == q,
            forall|j: int| 0 <= j < q ==> #[trigger] sorted@[j] == kids_all[order@[j] as int],
            forall|j: int| q <= j < n ==> #[trigger] slots@[order@[j] as int] == Some(kids_all[order@[j] as int]),
        decreases order.len() - q,
    {
        let at = order[q];
        let ghost sb = slots@;
        let mut taken: Option<NavNode> = None;
        slots.set_and_swap(at, &mut taken);
        match taken {
            Some(x) => {
                sorted.push(x);
            },
            None => {
                assert(false);
            },
        }
        assert forall|j: int| q + 1 <= j < n implies #[trigger] slots@[order@[j] as int] == Some(kids_all[order@[j] as int]) by {
            assert(order@[j] != order@[q as int]);
            assert(slots@[order@[j] as int] == sb[order@[j] as int]);
        }
        q += 1;
    }
    assert(kids_views(sorted@) =~= order@.map_values(|j: usize| iv[j as int])) by {
        assert forall|j: int| 0 <= j < n implies kids_views(sorted@)[j] == order@.map_values(|x: usize| iv[x as int])[j] by {
            assert(sorted@[j] == kids_all[order@[j] as int]);
        }
    }
    node.children = sorted;
    proof {
        let after = nav_view(*node);
        assert(after.children =~= kids_views(node.children@)) by {
            assert forall|j: int| 0 <= j < after.children.len() implies after.children[j] == kids_views(node.children@)[j] by {
                lemma_nav_child(*node, j);
            }
        }
        assert(inner =~= sorted_kids(before));
        assert(iv == inner);
        assert(after.children == nav_stable_sort(inner));
        let sv = sorted_view(before);
        assert(sv.children == nav_stable_sort(inner));
        assert(after.slug == sv.slug);
        assert(after.title == sv.title);
        assert(after.url == sv.url);
        assert(after.url_path == sv.url_path);
        assert(after.order == sv.order);
        assert(after.depth == sv.depth);
        assert(after == sorted_view(before));
    }
}

/// The segments a page is filed along: none for the site's root index.
pub open spec fn page_segments(p: Page) -> Seq<Seq<char>> {
    if p.url_path@.len() == 0 {
        Seq::empty()
    } else {
        split_char(p.url_path@, '/')
    }
}

/// The published pages filed in turn under `root`.
pub open spec fn insert_pages(root: NavView, pages: Seq<Page>) -> NavView
    decreases pages.len(),
{
    if pages.len() == 0 {
        root
    } else {
        let r = insert_pages(root, pages.drop_last());
        let p = pages.last();
        if p.draft {
            r
        } else {
            insert_spec(r, page_segments(p), p)
        }
    }
}

/// The sidebar tree of a site: its published pages filed by URL path under a root
/// section named for the site, every node's children sorted.
pub open spec fn nav_tree_spec(site_title: Seq<char>, pages: Seq<Page>) -> NavView {
    sorted_view(insert_pages(section_view(Seq::empty(), site_title, Seq::empty(), 0), pages))
}

impl NavNode {
    /// A section with no children and no URL of its own.
    pub fn section(slug: String, title: String, url_path: String, depth: u32) -> (r: NavNode)
        ensures
            nav_view(r) == section_view(slug@, title@, url_path@, depth),
    {
        let r = NavNode { slug, title, url: None, url_path: Some(url_path), order: DEFAULT_ORDER, depth, children: Vec::new() };
        assert(nav_view(r).children =~= Seq::<NavView>::empty());
        r
    }

    /// The sidebar tree of a site's pages.
    pub fn build(site_title: &str, mount: &str, pages: &PageMap) -> (r: NavNode)
        ensures
            nav_view(r) == nav_tree_spec(site_title@, pages@),
    {
        let mut root = NavNode::section(String::new(), site_title.to_owned(), String::new(), 0);
        let ghost root0 = nav_view(root);
        assert(root0 == section_view(Seq::empty(), site_title@, Seq::empty(), 0));
        let values = pages.values();
        let mut i: usize = 0;
        assert(values@.take(0) =~= Seq::<Page>::empty());
        while i < values.len()
            invariant
                i <= values.len(),
                values@ == pages@,
                nav_view(root) == insert_pages(root0, values@.take(i as int)),
            decreases values.len() - i,
        {
            let ghost pre = values@.take(i + 1);
            assert(pre.drop_last() =~= values@.take(i as int));
            assert(pre.last() == values@[i as int]);
            let page = &values[i];
            if !page.draft {
                let u = chars_of(page.url_path.as_str());
                let segs: Vec<Vec<char>> = if u.len() == 0 {
                    Vec::new()
                } else {
                    split_vec(&u, '/')
                };
                assert(views(segs@).skip(0) =~= page_segments(*page));
                insert(&mut root, &segs, 0, page);
            }
            i += 1;
        }
        assert(values@.take(values@.len() as int) =~= values@);
        sort_recursive(&mut root);
        root
    }
}

/// One row of the sidebar after depth-first flattening.
#[derive(Debug, Clone)]
pub struct SidebarNavRow {
    pub depth: u32,
    pub title: String,
    pub filename: String,
    pub modified_at_ms: i64,
    /// Stable key for folder collapse state and client-side identity.
    pub stable_key: String,
    pub url: Option<String>,
    pub is_index: bool,
}

/// A row as (depth, title, filename, modified, stable key, URL, index row?).
pub type NavRowView = (u32, Seq<char>, Seq<char>, i64, Seq<char>, Option<Seq<char>>, bool);

pub open spec fn nav_row_view(r: SidebarNavRow) -> NavRowView {
    (r.depth, r.title@, r.filename@, r.modified_at_ms, r.stable_key@, opt_seq(r.url), r.is_index)
}

pub open spec fn nav_rows_view(s: Seq<SidebarNavRow>) -> Seq<NavRowView> {
    s.map_values(|r: SidebarNavRow| nav_row_view(r))
}

pub open spec fn max_i64(a: i64, b: i64) -> i64 {
    if a >= b {
        a
    } else {
        b
    }
}

/// The latest modification time in a subtree: of the page a node stands for, if any,
/// and of everything below it; 0 when none.
pub open spec fn max_modified(v: NavView, pages: Seq<Page>) -> i64
    decreases v, 1int,
{
    let own = match v.url_path {
        Some(p) => match page_at(pages, p) {
            Some(page) => max_i64(0, page.modified_at_ms),
            None => 0,
        },
        None => 0,
    };
    max_i64(own, max_modified_kids(v, v.children.len() as int, pages))
}

/// The latest modification time among the first `n` children's subtrees, or the
/// least `i64` when there are none.
pub open spec fn max_modified_kids(v: NavView, n: int, pages: Seq<Page>) -> i64
    decreases v, 0int, n,
{
    if n <= 0 || n > v.children.len() {
        i64::MIN
    } else {
        max_i64(max_modified_kids(v, n - 1, pages), max_modified(v.children[n - 1], pages))
    }
}

/// The key that identifies a row across reloads: its URL path, else its slug.
pub open spec fn stable_key_spec(v: NavView) -> Seq<char> {
    match v.url_path {
        Some(p) => if p.len() > 0 {
            p
        } else {
            v.slug
        },
        None => v.slug,
    }
}

/// A row's file name and modification time: those of the page it links to (a folder's
/// index row named after the folder), else its slug (its title when it has none) and
/// the latest time below it.
pub open spec fn row_meta(v: NavView, pages: Seq<Page>) -> (Seq<char>, i64) {
    let linked = match (v.url, v.url_path) {
        (Some(_), Some(p)) => page_at(pages, p),
        _ => None,
    };
    match linked {
        Some(page) => (
            if v.slug == INDEX_SLUG@ {
                index_row_filename_spec(v.url_path->0)
            } else {
                page.filename@
            },
            page.modified_at_ms,
        ),
        None => (if v.slug.len() == 0 { v.title } else { v.slug }, max_modified(v, pages)),
    }
}

pub open spec fn node_row(v: NavView, depth: u32, pages: Seq<Page>) -> NavRowView {
    let (filename, modified) = row_meta(v, pages);
    (depth, v.title, filename, modified, stable_key_spec(v), v.url, v.slug == INDEX_SLUG@)
}

/// A node's row followed by its subtree's, depth first.
pub open spec fn flat_node(v: NavView, depth: u32, pages: Seq<Page>) -> Seq<NavRowView>
    decreases v, 1int,
{
    seq![node_row(v, depth, pages)] + flat_kids(v, v.children.len() as int, next_depth(depth), pages)
}

/// The rows of the first `n` children's subtrees, in order.
pub open spec fn flat_kids(v: NavView, n: int, depth: u32, pages: Seq<Page>) -> Seq<NavRowView>
    decreases v, 0int, n,
{
    if n <= 0 || n > v.children.len() {
        Seq::empty()
    } else {
        flat_kids(v, n - 1, depth, pages) + flat_node(v.children[n - 1], depth, pages)
    }
}

fn max_modified_at_ms(node: &NavNode, pages: &PageMap) -> (r: i64)
    ensures
        r == max_modified(nav_view(*node), pages@),
    decreases *node,
{
    let ghost v = nav_view(*node);
    let own: i64 = match &node.url_path {
        Some(p) => match pages.get(p.as_str()) {
            Some(page) => if page.modified_at_ms > 0 { page.modified_at_ms } else { 0 },
            None => 0,
        },
        None => 0,
    };
    let mut best: i64 = i64::MIN;
    let mut i: usize = 0;
    while i < node.children.len()
        invariant
            i <= node.children@.len(),
            v == nav_view(*node),
            best == max_modified_kids(v, i as int, pages@),
        decreases node.children.len() - i,
    {
        proof {
            lemma_nav_child(*node, i as int);
            assert(decreases_to!(*node => node.children));
            assert(decreases_to!(node.children => node.children@));
            assert(decreases_to!(node.children@ => node.children@[i as int]));
        }
        let m = max_modified_at_ms(&node.children[i], pages);
        best = if best >= m { best } else { m };
        i += 1;
    }
    if own >= best { own } else { best }
}

fn index_slug_exec(node: &NavNode) -> (r: bool)
    ensures
        r == (node.slug@ == INDEX_SLUG@),
{
    crate::text::str_eq(node.slug.as_str(), INDEX_SLUG)
}

fn sidebar_row_metadata(node: &NavNode, pages: &PageMap) -> (r: (String, i64))
    ensures
        (r.0@, r.1) == row_meta(nav_view(*node), pages@),
{
    if node.url.is_some() {
        match &node.url_path {
            Some(p) => match pages.get(p.as_str()) {
                Some(page) => {
                    let filename = if index_slug_exec(node) {
                        index_row_filename(p.as_str())
                    } else {
                        page.filename.clone()
                    };
                    return (filename, page.modified_at_ms);
                },
                None => {},
            },
            None => {},
        }
    }
    let filename = if chars_of(node.slug.as_str()).len() == 0 {
        node.title.clone()
    } else {
        node.slug.clone()
    };
    (filename, max_modified_at_ms(node, pages))
}

fn sidebar_stable_key(node: &NavNode) -> (r: String)
    ensures
        r@ == stable_key_spec(nav_view(*node)),
{
    match &node.url_path {
        Some(p) => if chars_of(p.as_str()).len() > 0 {
            p.clone()
        } else {
            node.slug.clone()
        },
        None => node.slug.clone(),
    }
}

fn clone_opt_string(o: &Option<String>) -> (r: Option<String>)
    ensures
        opt_seq(r) == opt_seq(*o),
{
    match o {
        Some(s) => Some(s.clone()),
        None => None,
    }
}

fn flatten_nav_depth_first(node: &NavNode, depth: u32, pages: &PageMap, rows: &mut Vec<SidebarNavRow>)
    ensures
        nav_rows_view(final(rows)@) == nav_rows_view(old(rows)@) + flat_node(nav_view(*node), depth, pages@),
    decreases *node,
{
    let ghost v = nav_view(*node);
    let ghost rows0 = nav_rows_view(rows@);
    let (filename, modified_at_ms) = sidebar_row_metadata(node, pages);
    let row = SidebarNavRow {
        depth,
        title: node.title.clone(),
        filename,
        modified_at_ms,
        stable_key: sidebar_stable_key(node),
        url: clone_opt_string(&node.url),
        is_index: index_slug_exec(node),
    };
    assert(nav_row_view(row) == node_row(v, depth, pages@));
    rows.push(row);
    assert(nav_rows_view(rows@) =~= rows0 + seq![node_row(v, depth, pages@)]);
    let child_depth = next_depth_exec(depth);
    let ghost head = nav_rows_view(rows@);
    let mut i: usize = 0;
    while i < node.children.len()
        invariant
            i <= node.children@.len(),
            v == nav_view(*node),
            child_depth == next_depth(depth),
            nav_rows_view(rows@) == head + flat_kids(v, i as int, child_depth, pages@),
        decreases node.children.len() - i,
    {
        proof {
            lemma_nav_child(*node, i as int);
            assert(decreases_to!(*node => node.children));
            assert(decreases_to!(node.children => node.children@));
            assert(decreases_to!(node.children@ => node.children@[i as int]));
        }
        flatten_nav_depth_first(&node.children[i], child_depth, pages, rows);
        assert(head + flat_kids(v, i + 1, child_depth, pages@) =~= head + flat_kids(v, i as int, child_depth, pages@)
            + flat_node(v.children[i as int], child_depth, pages@));
        i += 1;
    }
    assert(nav_rows_view(rows@) =~= rows0 + flat_node(v, depth, pages@));
}

/// The sidebar as a list: every node below the root, depth first, the root's children
/// at depth 0.
pub fn flatten_nav_sidebar_rows(nav_root: &NavNode, pages: &PageMap) -> (r: Vec<SidebarNavRow>)
    ensures
        nav_rows_view(r@) == flat_kids(nav_view(*nav_root), nav_root.children@.len() as int, 0, pages@),
{
    let ghost v = nav_view(*nav_root);
    let mut rows: Vec<SidebarNavRow> = Vec::new();
    let mut i: usize = 0;
    assert(nav_rows_view(rows@) =~= Seq::<NavRowView>::empty());
    while i < nav_root.children.len()
        invariant
            i <= nav_root.children@.len(),
            v == nav_view(*nav_root),
            nav_rows_view(rows@) == flat_kids(v, i as int, 0, pages@),
        decreases nav_root.children.len() - i,
    {
        proof {
            lemma_nav_child(*nav_root, i as int);
        }
        flatten_nav_depth_first(&nav_root.children[i], 0, pages, &mut rows);
        i += 1;
    }
    rows
}

} // verus!
