//! Pages and the paths that name them.
use vstd::prelude::*;

use crate::content::page::{is_index_rel, Page};
use crate::text::{lemma_lex_asymmetric, lemma_lex_irreflexive, lemma_lex_total, lemma_lex_transitive, lex_lt, str_eq, str_lt};

pub mod attrs;
pub mod page;
pub mod site_index;
pub mod source;
pub mod tree;

verus! {

/// Pages whose URL paths strictly increase, so that each path names at most one page.
pub open spec fn keyed_in_order(s: Seq<Page>) -> bool {
    forall|i: int, j: int| 0 <= i < j < s.len() ==> lex_lt(#[trigger] s[i].url_path@, #[trigger] s[j].url_path@)
}

/// The page filed under `url_path`.
pub open spec fn page_at(s: Seq<Page>, url_path: Seq<char>) -> Option<Page> {
    if exists|i: int| 0 <= i < s.len() && (#[trigger] s[i]).url_path@ == url_path {
        Some(s[choose|i: int| 0 <= i < s.len() && (#[trigger] s[i]).url_path@ == url_path])
    } else {
        None
    }
}

/// In pages keyed in order, the page at a position is the one filed under its path.
pub proof fn lemma_page_at(s: Seq<Page>, i: int)
    requires
        keyed_in_order(s),
        0 <= i < s.len(),
    ensures
        page_at(s, s[i].url_path@) == Some(s[i]),
{
    let k = s[i].url_path@;
    assert(0 <= i < s.len() && s[i].url_path@ == k);
    let j = choose|j: int| 0 <= j < s.len() && (#[trigger] s[j]).url_path@ == k;
    lemma_lex_irreflexive(k);
    if j < i {
        assert(lex_lt(s[j].url_path@, s[i].url_path@));
    } else if j > i {
        assert(lex_lt(s[i].url_path@, s[j].url_path@));
    }
}

/// The pages of a site, by URL path: each path names at most one page, and the pages
/// are held in path order.
#[derive(Debug)]
pub struct PageMap {
    pages: Vec<Page>,
}

impl PageMap {
    #[verifier::type_invariant]
    spec fn keyed(self) -> bool {
        keyed_in_order(self.pages@)
    }

    /// The pages, in URL-path order.
    pub closed spec fn view(self) -> Seq<Page> {
        self.pages@
    }

    /// No pages.
    pub fn new() -> (r: PageMap)
        ensures
            r@.len() == 0,
    {
        PageMap { pages: Vec::new() }
    }

    pub fn len(&self) -> (r: usize)
        ensures
            r == self@.len(),
    {
        self.pages.len()
    }

    /// The pages, in URL-path order.
    pub fn values(&self) -> (r: &Vec<Page>)
        ensures
            r@ == self@,
            keyed_in_order(r@),
    {
        proof {
            use_type_invariant(self);
        }
        &self.pages
    }

    /// Where `url_path` is or would be filed: the number of pages before it.
    fn position(&self, url_path: &str) -> (r: usize)
        ensures
            r <= self@.len(),
            forall|j: int| 0 <= j < r ==> lex_lt(#[trigger] self@[j].url_path@, url_path@),
            r < self@.len() ==> !lex_lt(self@[r as int].url_path@, url_path@),
    {
        let mut p: usize = 0;
        while p < self.pages.len() && str_lt(self.pages[p].url_path.as_str(), url_path)
            invariant
                p <= self.pages@.len(),
                forall|j: int| 0 <= j < p ==> lex_lt(#[trigger] self.pages@[j].url_path@, url_path@),
            decreases self.pages.len() - p,
        {
            p += 1;
        }
        p
    }

    /// Pages already in URL-path order, each path once.
    pub fn from_sorted(pages: Vec<Page>) -> (r: PageMap)
        requires
            keyed_in_order(pages@),
        ensures
            r@ == pages@,
    {
        PageMap { pages }
    }

    /// The page filed under `url_path`.
    pub fn get(&self, url_path: &str) -> (r: Option<&Page>)
        ensures
            match r {
                Some(p) => page_at(self@, url_path@) == Some(*p),
                None => page_at(self@, url_path@) is None,
            },
    {
        proof {
            use_type_invariant(self);
        }
        let p = self.position(url_path);
        if p < self.pages.len() && str_eq(self.pages[p].url_path.as_str(), url_path) {
            proof {
                lemma_page_at(self.pages@, p as int);
            }
            return Some(&self.pages[p]);
        }
        proof {
            if exists|i: int| 0 <= i < self@.len() && (#[trigger] self@[i]).url_path@ == url_path@ {
                let i = choose|i: int| 0 <= i < self@.len() && (#[trigger] self@[i]).url_path@ == url_path@;
                if i < p {
                    lemma_lex_irreflexive(url_path@);
                } else if i > p {
                    lemma_lex_total(self@[p as int].url_path@, url_path@);
                    lemma_lex_asymmetric(self@[p as int].url_path@, url_path@);
                }
            }
        }
        None
    }

    /// Whether a page is filed under `url_path`.
    pub fn contains_key(&self, url_path: &str) -> (r: bool)
        ensures
            r == page_at(self@, url_path@) is Some,
    {
        self.get(url_path).is_some()
    }

    /// File `page` under its URL path, handing back the page it replaces.
    pub fn insert(&mut self, page: Page) -> (r: Option<Page>)
        ensures
            r == page_at(old(self)@, page.url_path@),
            page_at(final(self)@, page.url_path@) == Some(page),
            forall|q: Page| #[trigger] final(self)@.contains(q) <==> (q == page || (old(self)@.contains(q)
                && q.url_path@ != page.url_path@)),
            final(self)@.len() == old(self)@.len() + (if r is Some { 0int } else { 1int }),
    {
        proof {
            use_type_invariant(&*self);
        }
        let ghost s = self.pages@;
        let ghost k = page.url_path@;
        let p = self.position(page.url_path.as_str());
        let mut v: Vec<Page> = Vec::new();
        std::mem::swap(&mut v, &mut self.pages);
        assert(v@ == s);
        if p < v.len() && str_eq(v[p].url_path.as_str(), page.url_path.as_str()) {
            proof {
                lemma_page_at(s, p as int);
            }
            let old_page = v.remove(p);
            v.insert(p, page);
            assert(v@ =~= s.update(p as int, page));
            proof {
                assert forall|i: int, j: int| 0 <= i < j < v@.len() implies lex_lt(#[trigger] v@[i].url_path@, #[trigger] v@[j].url_path@) by {
                    assert(s[i].url_path@ == v@[i].url_path@ || i == p);
                    assert(s[j].url_path@ == v@[j].url_path@ || j == p);
                }
                lemma_page_at(v@, p as int);
                assert forall|q: Page| #[trigger] v@.contains(q) <==> (q == page || (s.contains(q) && q.url_path@ != k)) by {
                    if v@.contains(q) && q != page {
                        let i = choose|i: int| 0 <= i < v@.len() && v@[i] == q;
                        assert(i != p);
                        assert(s[i] == q);
                        if q.url_path@ == k {
                            if i < p {
                                lemma_lex_irreflexive(k);
                            } else {
                                lemma_lex_irreflexive(k);
                            }
                        }
                    }
                    if s.contains(q) && q.url_path@ != k {
                        let i = choose|i: int| 0 <= i < s.len() && s[i] == q;
                        assert(i != p);
                        assert(v@[i] == q);
                    }
                    if q == page {
                        assert(v@[p as int] == q);
                    }
                }
            }
            self.pages = v;
            Some(old_page)
        } else {
            proof {
                if exists|i: int| 0 <= i < s.len() && (#[trigger] s[i]).url_path@ == k {
                    let i = choose|i: int| 0 <= i < s.len() && (#[trigger] s[i]).url_path@ == k;
                    if i < p {
                        lemma_lex_irreflexive(k);
                    } else if i > p {
                        lemma_lex_total(s[p as int].url_path@, k);
                        lemma_lex_asymmetric(s[p as int].url_path@, k);
                    }
                }
                if p < s.len() {
                    lemma_lex_total(k, s[p as int].url_path@);
                }
            }
            v.insert(p, page);
            assert(v@ =~= s.insert(p as int, page));
            proof {
                assert forall|i: int, j: int| 0 <= i < j < v@.len() implies lex_lt(#[trigger] v@[i].url_path@, #[trigger] v@[j].url_path@) by {
                    if i < p && j == p {
                    } else if i < p && j > p {
                        assert(v@[j] == s[j - 1]);
                    } else if i == p && j > p {
                        assert(v@[j] == s[j - 1]);
                        if j - 1 > p {
                            lemma_lex_transitive(k, s[p as int].url_path@, s[j - 1].url_path@);
                        }
                    } else if i > p {
                        assert(v@[i] == s[i - 1]);
                        assert(v@[j] == s[j - 1]);
                    }
                }
                lemma_page_at(v@, p as int);
                assert forall|q: Page| #[trigger] v@.contains(q) <==> (q == page || (s.contains(q) && q.url_path@ != k)) by {
                    if v@.contains(q) && q != page {
                        let i = choose|i: int| 0 <= i < v@.len() && v@[i] == q;
                        assert(i != p);
                        if i < p {
                            assert(s[i] == q);
                            if q.url_path@ == k {
                                lemma_lex_irreflexive(k);
                            }
                        } else {
                            assert(s[i - 1] == q);
                        }
                    }
                    if s.contains(q) && q.url_path@ != k {
                        let i = choose|i: int| 0 <= i < s.len() && s[i] == q;
                        if i < p {
                            assert(v@[i] == q);
                        } else {
                            assert(v@[i + 1] == q);
                        }
                    }
                    if q == page {
                        assert(v@[p as int] == q);
                    }
                }
            }
            self.pages = v;
            None
        }
    }
}

/// What reading one Markdown file of a site produced.
#[derive(Debug)]
pub enum Loaded {
    /// The page, and the access rules its frontmatter declares.
    Page(Page, crate::acl::AclBlock),
    /// The file could not be read or parsed; the text says why.
    Failed(String),
}

/// What a file contributes to the access rules: the block it declares, or, when it
/// could not be read, a rule that denies everyone.
pub ghost enum Declared {
    Block(crate::acl::AclBlock),
    Unreadable(Seq<char>),
}

pub open spec fn declared_of(l: Loaded) -> Declared {
    match l {
        Loaded::Page(_, b) => Declared::Block(b),
        Loaded::Failed(e) => Declared::Unreadable(e@),
    }
}

/// Whether a declaration records anything: an unreadable file always does.
pub open spec fn records(d: Declared) -> bool {
    match d {
        Declared::Block(b) => !b.spec_empty(),
        Declared::Unreadable(_) => true,
    }
}

/// The files taken into a site: those with no hidden component, in scan order.
pub open spec fn visible_files(files: Seq<(String, Loaded)>) -> Seq<(Seq<char>, Declared)>
    decreases files.len(),
{
    if files.len() == 0 {
        Seq::empty()
    } else {
        let rest = visible_files(files.drop_last());
        let (rel, l) = files.last();
        if crate::content::source::has_hidden_component(rel@) {
            rest
        } else {
            rest.push((rel@, declared_of(l)))
        }
    }
}

/// The pages of the readable visible files, filed in scan order: a later file with the
/// same URL path replaces an earlier one.
pub open spec fn pages_filed(files: Seq<(String, Loaded)>) -> Seq<Page>
    decreases files.len(),
{
    if files.len() == 0 {
        Seq::empty()
    } else {
        let rest = pages_filed(files.drop_last());
        let (rel, l) = files.last();
        if crate::content::source::has_hidden_component(rel@) {
            rest
        } else {
            match l {
                Loaded::Page(p, _) => filed(rest, p),
                Loaded::Failed(_) => rest,
            }
        }
    }
}

/// Whether `t` is `s` with `p` filed under its URL path: keyed in order, holding `p`
/// and every page of `s` filed under another path.
pub open spec fn filed_as(t: Seq<Page>, s: Seq<Page>, p: Page) -> bool {
    keyed_in_order(t) && page_at(t, p.url_path@) == Some(p) && forall|q: Page|
        #[trigger] t.contains(q) <==> (q == p || (s.contains(q) && q.url_path@ != p.url_path@))
}

/// `s` with `p` filed under its URL path.
pub open spec fn filed(s: Seq<Page>, p: Page) -> Seq<Page> {
    choose|t: Seq<Page>| filed_as(t, s, p)
}

/// The last recorded declaration of an index file in folder `k`, with the file's path.
pub open spec fn folder_decl(files: Seq<(Seq<char>, Declared)>, k: Seq<char>) -> Option<(Seq<char>, Declared)>
    decreases files.len(),
{
    if files.len() == 0 {
        None
    } else {
        let (rel, d) = files.last();
        if records(d) && is_index_rel(rel) && crate::acl::index::parent_folder_spec(rel) == k {
            Some((crate::acl::index::normalize_folder_spec(rel), d))
        } else {
            folder_decl(files.drop_last(), k)
        }
    }
}

/// The last recorded declaration of the non-index file at `k`.
pub open spec fn file_decl(files: Seq<(Seq<char>, Declared)>, k: Seq<char>) -> Option<(Seq<char>, Declared)>
    decreases files.len(),
{
    if files.len() == 0 {
        None
    } else {
        let (rel, d) = files.last();
        if records(d) && !is_index_rel(rel) && crate::acl::index::normalize_folder_spec(rel) == k {
            Some((crate::acl::index::normalize_folder_spec(rel), d))
        } else {
            file_decl(files.drop_last(), k)
        }
    }
}

/// Whether a recorded rule is what a declaration files: the declared block itself, or
/// for an unreadable file a block that denies everyone and says why.
pub open spec fn rule_matches(src: crate::acl::index::RuleSource, decl: Option<(Seq<char>, Declared)>) -> bool {
    match decl {
        Some((file, Declared::Block(b))) => src.file@ == file && src.block == b,
        Some((file, Declared::Unreadable(e))) => src.file@ == file && unreadable_block(src.block, e),
        None => false,
    }
}

/// The rule an unreadable file records: no addresses, and one error saying why.
pub open spec fn unreadable_block(b: crate::acl::AclBlock, e: Seq<char>) -> bool {
    &&& b.allow@.len() == 0
    &&& b.deny@.len() == 0
    &&& b.errors@.len() == 1
    &&& b.errors@[0].key@ == "frontmatter"@
    &&& b.errors@[0].message@ == "this file could not be read: "@ + e
    &&& b.errors@[0].line is None
}

/// The rules an index holds for every folder and file, as the declarations say.
pub open spec fn acl_from(acl: crate::acl::AclIndex, files: Seq<(Seq<char>, Declared)>) -> bool {
    &&& forall|k: Seq<char>| #![trigger acl.folder_rule(k)] match acl.folder_rule(k) {
        Some(src) => rule_matches(src, folder_decl(files, k)),
        None => folder_decl(files, k) is None,
    }
    &&& forall|k: Seq<char>| #![trigger acl.file_rule(k)] match acl.file_rule(k) {
        Some(src) => rule_matches(src, file_decl(files, k)),
        None => file_decl(files, k) is None,
    }
}

/// A site: its pages by URL path, its sidebar, and the access rules its files declare.
pub struct Site {
    pub mount: String,
    pub title: String,
    pub color: String,
    pub root: String,
    pub theme: Option<String>,
    /// The pages, by URL path.
    pub pages: PageMap,
    /// The sidebar tree.
    pub nav_root: crate::content::tree::NavNode,
    /// The sidebar, flattened depth first.
    pub nav_flat: Vec<crate::content::tree::SidebarNavRow>,
    /// The access rules the site's files declare.
    pub acl: crate::acl::AclIndex,
}

fn unreadable_rule(e: &String) -> (r: crate::acl::AclBlock)
    ensures
        unreadable_block(r, e@),
{
    let mut message: Vec<char> = Vec::new();
    crate::text::push_str(&mut message, "this file could not be read: ");
    crate::text::push_str(&mut message, e.as_str());
    proof {
        reveal_strlit("this file could not be read: ");
        reveal_strlit("frontmatter");
    }
    let error = crate::acl::AclError {
        key: String::from_str("frontmatter"),
        message: crate::text::string_of(&message),
        line: None,
    };
    let mut errors: Vec<crate::acl::AclError> = Vec::new();
    errors.push(error);
    crate::acl::AclBlock { allow: Vec::new(), deny: Vec::new(), errors }
}

impl Site {
    /// The pages, in URL-path order.
    pub open spec fn pages_view(self) -> Seq<Page> {
        self.pages@
    }

    pub open spec fn acl_view(self) -> crate::acl::AclIndex {
        self.acl
    }

    pub open spec fn nav_view(self) -> crate::content::tree::NavView {
        crate::content::tree::nav_view(self.nav_root)
    }

    pub open spec fn nav_rows(self) -> Seq<crate::content::tree::NavRowView> {
        crate::content::tree::nav_rows_view(self.nav_flat@)
    }

    /// A site from its configuration and what reading each of its Markdown files
    /// produced, in scan order. Files under a hidden directory are skipped; a file that
    /// could not be read is recorded as a rule that denies everyone, so a broken index
    /// file cannot open its folder; when two files give the same URL path, the later
    /// page is kept and both files' rules stay in force.
    pub fn build(cfg: &crate::config::SiteConfig, files: Vec<(String, Loaded)>) -> (r: Site)
        requires
            cfg.mount is Some,
            cfg.title is Some,
            cfg.color is Some,
        ensures
            r.mount@ == cfg.mount->0@,
            r.title@ == cfg.title->0@,
            r.color@ == cfg.color->0@,
            r.root@ == cfg.path@,
            crate::content::site_index::opt_text(r.theme) == crate::content::site_index::opt_text(cfg.theme),
            forall|q: Page| #[trigger] r.pages_view().contains(q) <==> pages_filed(files@).contains(q),
            keyed_in_order(r.pages_view()),
            acl_from(r.acl_view(), visible_files(files@)),
            r.nav_view() == crate::content::tree::nav_tree_spec(cfg.title->0@, r.pages_view()),
            r.nav_rows() == crate::content::tree::flat_kids(
                r.nav_view(),
                r.nav_view().children.len() as int,
                0,
                r.pages_view(),
            ),
    {
        let ghost all = files@;
        let mut rev: Vec<(String, Loaded)> = Vec::new();
        let mut rest = files;
        let n = rest.len();
        while rest.len() > 0
            invariant
                rest@.len() + rev@.len() == n,
                all.len() == n,
                rest@ == all.take(rest@.len() as int),
                forall|j: int| 0 <= j < rev@.len() ==> #[trigger] rev@[j] == all[n - 1 - j],
            decreases rest.len(),
        {
            let x = rest.pop().unwrap();
            let ghost rb = rev@;
            rev.push(x);
            assert(rest@ =~= all.take(rest@.len() as int));
            assert forall|j: int| 0 <= j < rev@.len() implies #[trigger] rev@[j] == all[n - 1 - j] by {
                if j < rb.len() {
                    assert(rev@[j] == rb[j]);
                }
            }
        }
        let mut pages = PageMap::new();
        let mut acl = crate::acl::AclIndex::new();
        let mut i: usize = 0;
        assert(all.take(0) =~= Seq::<(String, Loaded)>::empty());
        assert(pages@ =~= pages_filed(all.take(0)));
        while i < n
            invariant
                i <= n,
                all.len() == n,
                rev@.len() + i == n,
                forall|j: int| 0 <= j < rev@.len() ==> #[trigger] rev@[j] == all[n - 1 - j],
                forall|q: Page| #[trigger] pages@.contains(q) <==> pages_filed(all.take(i as int)).contains(q),
                acl_from(acl, visible_files(all.take(i as int))),
            decreases n - i,
        {
            let ghost rb = rev@;
            let (rel, loaded) = rev.pop().unwrap();
            assert(rb[rev@.len() as int] == (rel, loaded));
            assert((rel, loaded) == all[i as int]);
            let ghost pre = all.take(i + 1);
            assert(pre.drop_last() =~= all.take(i as int));
            assert(pre.last() == all[i as int]);
            let ghost vis_before = visible_files(all.take(i as int));
            let ghost pages_before = pages_filed(all.take(i as int));
            if crate::content::source::relative_path_has_hidden_component(rel.as_str()) {
                assert(visible_files(pre) == vis_before);
                assert(pages_filed(pre) == pages_before);
            } else {
                let ghost d = declared_of(loaded);
                let ghost vis = vis_before.push((rel@, d));
                assert(visible_files(pre) == vis);
                assert(vis.drop_last() =~= vis_before);
                let block = match loaded {
                    Loaded::Page(page, block) => {
                        let ghost pv = pages@;
                        let ghost pg = page;
                        pages.insert(page);
                        let w = pages.values();
                        proof {
                            assert(filed_as(pages@, pages_before, pg)) by {
                                assert forall|q: Page| #[trigger] pages@.contains(q) <==> (q == pg || (pages_before.contains(q)
                                    && q.url_path@ != pg.url_path@)) by {
                                    assert(pv.contains(q) <==> pages_before.contains(q));
                                }
                            }
                            let t = filed(pages_before, pg);
                            assert(filed_as(t, pages_before, pg));
                            assert(pages_filed(pre) == t);
                            assert forall|q: Page| #[trigger] pages@.contains(q) <==> pages_filed(pre).contains(q) by {
                                assert(pages@.contains(q) <==> (q == pg || (pages_before.contains(q) && q.url_path@ != pg.url_path@)));
                                assert(t.contains(q) <==> (q == pg || (pages_before.contains(q) && q.url_path@ != pg.url_path@)));
                            }
                        }
                        block
                    },
                    Loaded::Failed(e) => {
                        assert(pages_filed(pre) == pages_before);
                        unreadable_rule(&e)
                    },
                };
                assert((d matches Declared::Block(b) && block == b) || (d matches Declared::Unreadable(e) && unreadable_block(block, e)));
                assert(records(d) == !block.spec_empty());
                let ghost old_acl = acl;
                acl.insert(rel.as_str(), block);
                proof {
                    let pf = crate::acl::index::parent_folder_spec(rel@);
                    let nf = crate::acl::index::normalize_folder_spec(rel@);
                    assert forall|k: Seq<char>| #![trigger acl.folder_rule(k)] match acl.folder_rule(k) {
                        Some(src) => rule_matches(src, folder_decl(vis, k)),
                        None => folder_decl(vis, k) is None,
                    } by {
                        assert(old_acl.folder_rule(k) == old_acl.folder_rule(k));
                        if block.spec_empty() {
                            assert(acl.folder_rule(k) == old_acl.folder_rule(k));
                            assert(folder_decl(vis, k) == folder_decl(vis_before, k));
                        } else if is_index_rel(rel@) {
                            if k != pf {
                                assert(folder_decl(vis, k) == folder_decl(vis_before, k));
                            }
                        } else {
                            assert(acl.folder_rule(k) == old_acl.folder_rule(k));
                            assert(folder_decl(vis, k) == folder_decl(vis_before, k));
                        }
                    }
                    assert forall|k: Seq<char>| #![trigger acl.file_rule(k)] match acl.file_rule(k) {
                        Some(src) => rule_matches(src, file_decl(vis, k)),
                        None => file_decl(vis, k) is None,
                    } by {
                        assert(old_acl.file_rule(k) == old_acl.file_rule(k));
                        if block.spec_empty() {
                            assert(acl.file_rule(k) == old_acl.file_rule(k));
                            assert(file_decl(vis, k) == file_decl(vis_before, k));
                        } else if !is_index_rel(rel@) {
                            if k != nf {
                                assert(file_decl(vis, k) == file_decl(vis_before, k));
                            }
                        } else {
                            assert(acl.file_rule(k) == old_acl.file_rule(k));
                            assert(file_decl(vis, k) == file_decl(vis_before, k));
                        }
                    }
                }
            }
            i += 1;
        }
        assert(all.take(n as int) =~= all);
        let _sorted = pages.values();
        let title = cfg.title();
        let nav_root = crate::content::tree::NavNode::build(title, cfg.mount(), &pages);
        let nav_flat = crate::content::tree::flatten_nav_sidebar_rows(&nav_root, &pages);
        Site {
            mount: cfg.mount().to_owned(),
            title: title.to_owned(),
            color: cfg.color().to_owned(),
            root: cfg.path.clone(),
            theme: match &cfg.theme {
                Some(t) => Some(t.clone()),
                None => None,
            },
            pages,
            nav_root,
            nav_flat,
            acl,
        }
    }
}

impl Site {
    /// This site's access rules.
    pub fn acl(&self) -> (r: &crate::acl::AclIndex)
        ensures
            *r == self.acl,
    {
        &self.acl
    }

    /// The pages, in URL-path order.
    pub fn pages(&self) -> (r: &Vec<Page>)
        ensures
            r@ == self.pages@,
            keyed_in_order(r@),
    {
        self.pages.values()
    }

    /// The page at `url_path`.
    pub fn page(&self, url_path: &str) -> (r: Option<&Page>)
        ensures
            match r {
                Some(p) => page_at(self.pages@, url_path@) == Some(*p),
                None => page_at(self.pages@, url_path@) is None,
            },
    {
        self.pages.get(url_path)
    }

    /// The pages by URL path.
    pub fn pages_map(&self) -> (r: &PageMap)
        ensures
            *r == self.pages,
    {
        &self.pages
    }

    /// The sidebar, flattened.
    pub fn nav_flat(&self) -> (r: &Vec<crate::content::tree::SidebarNavRow>)
        ensures
            *r == self.nav_flat,
    {
        &self.nav_flat
    }

    /// Whether `viewer` may read the file at `rel_path`: anyone when no viewer is
    /// given (authorization is off), else as the site's rules decide.
    pub fn allows_path(&self, rel_path: &str, viewer: Option<&str>) -> (r: bool)
        ensures
            match viewer {
                None => r,
                Some(email) => r == (crate::acl::resolver::verdict(self.acl.chain_of(rel_path@), email@)
                    == crate::acl::resolver::Decision::Allow),
            },
    {
        match viewer {
            None => true,
            Some(email) => self.acl.allows(rel_path, email),
        }
    }
}

/// One viewer's projection of a site: the pages they may read, and the sidebar built
/// from those pages alone.
pub struct SiteView {
    pub pages: PageMap,
    pub nav_flat: Vec<crate::content::tree::SidebarNavRow>,
}

/// Whether `viewer` may read `p`: anyone when authorization is off.
pub open spec fn visible_to(acl: crate::acl::AclIndex, p: Page, viewer: Option<Seq<char>>) -> bool {
    match viewer {
        None => true,
        Some(e) => crate::acl::resolver::verdict(acl.chain_of(p.rel_path@), e) == crate::acl::resolver::Decision::Allow,
    }
}

/// The pages `viewer` may read, in order.
pub open spec fn visible_pages(acl: crate::acl::AclIndex, s: Seq<Page>, viewer: Option<Seq<char>>) -> Seq<Page>
    decreases s.len(),
{
    if s.len() == 0 {
        Seq::empty()
    } else if visible_to(acl, s.last(), viewer) {
        visible_pages(acl, s.drop_last(), viewer).push(s.last())
    } else {
        visible_pages(acl, s.drop_last(), viewer)
    }
}

impl Site {
    /// The projection of this site for `viewer`; `None` means authorization is not in
    /// force, and gives the whole site. Every surface derived from the projection is
    /// gated by the same filter.
    pub fn view(&self, viewer: Option<&str>) -> (r: SiteView)
        ensures
            ({
                let expected = visible_pages(self.acl, self.pages@, match viewer { Some(e) => Some(e@), None => None });
                &&& r.pages@.len() == expected.len()
                &&& forall|i: int| 0 <= i < expected.len() ==> crate::content::page::same_page(#[trigger] r.pages@[i], expected[i])
            }),
            crate::content::tree::nav_rows_view(r.nav_flat@) == crate::content::tree::flat_kids(
                crate::content::tree::nav_tree_spec(self.title@, r.pages@),
                crate::content::tree::nav_tree_spec(self.title@, r.pages@).children.len() as int,
                0,
                r.pages@,
            ),
    {
        let ghost vw = match viewer { Some(e) => Some(e@), None => None };
        let values = self.pages.values();
        let mut kept: Vec<Page> = Vec::new();
        let mut i: usize = 0;
        assert(values@.take(0) =~= Seq::<Page>::empty());
        while i < values.len()
            invariant
                i <= values@.len(),
                values@ == self.pages@,
                keyed_in_order(values@),
                vw == match viewer { Some(e) => Some(e@), None => None },
                kept@.len() == visible_pages(self.acl, values@.take(i as int), vw).len(),
                forall|j: int| 0 <= j < kept@.len() ==> crate::content::page::same_page(#[trigger] kept@[j],
                    visible_pages(self.acl, values@.take(i as int), vw)[j]),
                keyed_in_order(kept@),
                kept@.len() > 0 ==> exists|m: int| 0 <= m < i && values@[m].url_path@ == kept@.last().url_path@,
            decreases values.len() - i,
        {
            let ghost pre = values@.take(i + 1);
            assert(pre.drop_last() =~= values@.take(i as int));
            assert(pre.last() == values@[i as int]);
            let page = &values[i];
            if self.allows_path(page.rel_path.as_str(), viewer) {
                let ghost kb = kept@;
                let d = page.duplicate();
                kept.push(d);
                proof {
                    assert(visible_to(self.acl, values@[i as int], vw));
                    assert forall|a: int, b: int| 0 <= a < b < kept@.len() implies crate::text::lex_lt(
                        #[trigger] kept@[a].url_path@, #[trigger] kept@[b].url_path@) by {
                        if b == kept@.len() - 1 {
                            let m = choose|m: int| 0 <= m < i && values@[m].url_path@ == kb.last().url_path@;
                            assert(crate::text::lex_lt(values@[m].url_path@, values@[i as int].url_path@));
                            if a < kb.len() - 1 {
                                assert(crate::text::lex_lt(kb[a].url_path@, kb[kb.len() - 1].url_path@));
                                crate::text::lemma_lex_transitive(kb[a].url_path@, kb.last().url_path@, values@[i as int].url_path@);
                            }
                        } else {
                            assert(kept@[a] == kb[a]);
                            assert(kept@[b] == kb[b]);
                        }
                    }
                    assert forall|j: int| 0 <= j < kept@.len() implies crate::content::page::same_page(#[trigger] kept@[j],
                        visible_pages(self.acl, pre, vw)[j]) by {
                        if j < kb.len() {
                            assert(kept@[j] == kb[j]);
                        }
                    }
                }
            } else {
                assert(visible_pages(self.acl, pre, vw) == visible_pages(self.acl, values@.take(i as int), vw));
            }
            i += 1;
        }
        assert(values@.take(values@.len() as int) =~= values@);
        let pages = PageMap::from_sorted(kept);
        let nav_root = crate::content::tree::NavNode::build(self.title.as_str(), self.mount.as_str(), &pages);
        let nav_flat = crate::content::tree::flatten_nav_sidebar_rows(&nav_root, &pages);
        SiteView { pages, nav_flat }
    }
}

} // verus!
