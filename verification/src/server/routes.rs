//! Who is asking, as the page routes see it.
use vstd::prelude::*;

use crate::content::page::{eq_ignore_case, trim_slashes, Page};
use crate::content::{page_at, SiteView};
use crate::text::{chars_of, push_range, push_str, string_of};

verus! {

/// Who is making a request.
#[derive(Debug, Clone)]
pub enum Viewer {
    /// Authorization is not in force on this server.
    Unrestricted,
    /// No usable session; the visitor sees the interstitial for every path.
    Anonymous,
    /// A live session belonging to this verified address.
    Signed(String),
}

impl Viewer {
    /// The address to resolve access rules against, or `None` when nothing is enforced
    /// or nobody is signed in.
    pub fn email(&self) -> (r: Option<&str>)
        ensures
            match self {
                Viewer::Signed(e) => r matches Some(s) && s@ == e@,
                _ => r is None,
            },
    {
        match self {
            Viewer::Unrestricted => None,
            Viewer::Anonymous => None,
            Viewer::Signed(email) => Some(email.as_str()),
        }
    }
}

/// The page-map keys a request path under a site may name: the page itself, else the
/// folder's index; a `.md` suffix (in any case) names exactly the page without it.
pub open spec fn request_keys(rel: Seq<char>) -> Seq<Seq<char>> {
    let t = trim_slashes(rel);
    if t.len() == 0 {
        seq![Seq::<char>::empty()]
    } else if t.len() >= 3 && t[t.len() - 3] == '.' && eq_ignore_case(t.skip(t.len() - 2), "md"@) {
        seq![t.take(t.len() - 3)]
    } else {
        seq![t, t + "/index"@]
    }
}

/// The page a request path names in a viewer's view of a site.
pub open spec fn requested_page(pages: Seq<Page>, rel: Seq<char>) -> Option<Page> {
    let keys = request_keys(rel);
    match page_at(pages, keys[0]) {
        Some(p) => Some(p),
        None => if keys.len() > 1 {
            page_at(pages, keys[1])
        } else {
            None
        },
    }
}

/// How a page request is answered, before folder listings and raw files are tried.
#[derive(Debug, Clone, PartialEq, Eq)]
pub enum PageAnswer {
    /// Render the page filed under this URL path.
    Serve(String),
    /// The refusal page: for a signed-in viewer, what every page they may not read,
    /// and every page that does not exist, gets.
    Deny,
    /// Not found.
    NotFound,
    /// No page here: a folder listing or a raw file may still answer.
    Continue,
}

pub ghost enum AnswerView {
    Serve(Seq<char>),
    Deny,
    NotFound,
    Continue,
}

pub open spec fn answer_view(a: PageAnswer) -> AnswerView {
    match a {
        PageAnswer::Serve(u) => AnswerView::Serve(u@),
        PageAnswer::Deny => AnswerView::Deny,
        PageAnswer::NotFound => AnswerView::NotFound,
        PageAnswer::Continue => AnswerView::Continue,
    }
}

/// What is not there, or not to be shown: a signed-in viewer gets the refusal, so a
/// restricted path and a missing one look the same; anyone else gets not found.
pub open spec fn absent_answer(signed: bool) -> AnswerView {
    if signed {
        AnswerView::Deny
    } else {
        AnswerView::NotFound
    }
}

/// A page request answered from the viewer's view: a published page is served, a
/// draft is treated as absent, and no page at all lets the request go on.
pub open spec fn page_answer_spec(pages: Seq<Page>, rel: Seq<char>, signed: bool) -> AnswerView {
    match requested_page(pages, rel) {
        Some(p) => if p.draft {
            absent_answer(signed)
        } else {
            AnswerView::Serve(p.url_path@)
        },
        None => AnswerView::Continue,
    }
}

fn request_keys_exec(rel: &str) -> (r: Vec<String>)
    ensures
        crate::auth::crypto::string_views(r@) == request_keys(rel@),
{
    proof {
        reveal_strlit("md");
        reveal_strlit("/index");
    }
    let v = chars_of(rel);
    let t = crate::acl::index::trim_start_char_vec(&crate::acl::index::trim_end_char_vec(&v, '/'), '/');
    assert(t@ == trim_slashes(rel@));
    let n = t.len();
    let mut out: Vec<String> = Vec::new();
    if n == 0 {
        out.push(String::new());
        assert(crate::auth::crypto::string_views(out@) =~= seq![Seq::<char>::empty()]);
        return out;
    }
    if n >= 3 && t[n - 3] == '.' {
        let mut ext: Vec<char> = Vec::new();
        push_range(&mut ext, &t, n - 2, n);
        assert(ext@ =~= t@.skip(n - 2));
        if crate::content::page::eq_ignore_case_exec(&ext, "md") {
            let mut base: Vec<char> = Vec::new();
            push_range(&mut base, &t, 0, n - 3);
            assert(base@ =~= t@.take(n - 3));
            out.push(string_of(&base));
            assert(crate::auth::crypto::string_views(out@) =~= request_keys(rel@));
            return out;
        }
    }
    let mut idx: Vec<char> = t.clone();
    push_str(&mut idx, "/index");
    assert(idx@ =~= t@ + "/index"@);
    out.push(string_of(&t));
    out.push(string_of(&idx));
    assert(crate::auth::crypto::string_views(out@) =~= request_keys(rel@));
    out
}

/// See [`page_answer_spec`]; `signed` says whether a signed-in viewer is asking, and
/// `view` is what that viewer may see of the site.
pub fn page_answer(view: &SiteView, rel: &str, signed: bool) -> (r: PageAnswer)
    ensures
        answer_view(r) == page_answer_spec(view.pages@, rel@, signed),
{
    let keys = request_keys_exec(rel);
    assert(crate::auth::crypto::string_views(keys@).len() == keys@.len());
    assert(request_keys(rel@).len() >= 1);
    assert(crate::auth::crypto::string_views(keys@)[0] == keys@[0]@);
    assert(keys@[0]@ == request_keys(rel@)[0]);
    let found: Option<&Page> = match view.pages.get(keys[0].as_str()) {
        Some(p) => Some(p),
        None => if keys.len() > 1 {
            assert(crate::auth::crypto::string_views(keys@)[1] == keys@[1]@);
            assert(keys@[1]@ == request_keys(rel@)[1]);
            view.pages.get(keys[1].as_str())
        } else {
            None
        },
    };
    match found {
        Some(p) => if p.draft {
            if signed {
                PageAnswer::Deny
            } else {
                PageAnswer::NotFound
            }
        } else {
            PageAnswer::Serve(p.url_path.clone())
        },
        None => PageAnswer::Continue,
    }
}

/// A path under no configured site is answered as an absent page.
pub fn unmatched_answer(signed: bool) -> (r: PageAnswer)
    ensures
        answer_view(r) == absent_answer(signed),
{
    if signed {
        PageAnswer::Deny
    } else {
        PageAnswer::NotFound
    }
}

proof fn lemma_page_at_member(s: Seq<Page>, key: Seq<char>)
    ensures
        page_at(s, key) matches Some(p) ==> exists|i: int| 0 <= i < s.len() && s[i] == p,
{
}

/// Drafts are never served, and for a signed-in viewer a draft, a path under no site and
/// a page outside their view all get the same refusal.
pub proof fn lemma_drafts_are_never_served(pages: Seq<Page>, rel: Seq<char>, signed: bool)
    ensures
        requested_page(pages, rel) matches Some(p) && p.draft ==> page_answer_spec(pages, rel, signed)
            == absent_answer(signed),
        page_answer_spec(pages, rel, signed) matches AnswerView::Serve(u) ==> requested_page(pages, rel) matches Some(p)
            && !p.draft && p.url_path@ == u,
        signed ==> absent_answer(signed) == AnswerView::Deny,
{
}

/// Only pages of the view are ever served: with the view holding just what the viewer
/// may read, nothing else can be rendered for them.
pub proof fn lemma_served_page_is_in_view(pages: Seq<Page>, rel: Seq<char>)
    ensures
        requested_page(pages, rel) matches Some(p) ==> exists|i: int| 0 <= i < pages.len() && pages[i] == p,
{
    let keys = request_keys(rel);
    lemma_page_at_member(pages, keys[0]);
    if keys.len() > 1 {
        lemma_page_at_member(pages, keys[1]);
    }
}

/// Whether a request path names a folder that gets a generated listing: no page of
/// its own, and a published page somewhere below it.
pub open spec fn folder_listed(pages: Seq<Page>, rel: Seq<char>) -> bool {
    let prefix = trim_slashes(rel);
    prefix.len() > 0 && page_at(pages, prefix) is None && crate::content::site_index::has_published_below(pages, prefix)
}

/// Whether the viewer may read the file at `rel_path`: anyone when sign-in is off.
pub open spec fn file_allowed(site: crate::content::Site, rel_path: Seq<char>, viewer: Option<Seq<char>>) -> bool {
    match viewer {
        None => true,
        Some(e) => crate::acl::resolver::verdict(site.acl.chain_of(rel_path), e) == crate::acl::resolver::Decision::Allow,
    }
}

/// How a request inside a site is answered.
#[derive(Debug, Clone, PartialEq, Eq)]
pub enum SiteAnswer {
    /// The generated listing of the whole site (there is no root page).
    RootListing,
    /// Render the page filed under this URL path.
    Page(String),
    /// The generated listing of the folder.
    FolderListing,
    /// Send the raw file at this site-relative path.
    File(String),
    /// The refusal page.
    Deny,
    /// Not found.
    NotFound,
}

pub ghost enum SiteAnswerView {
    RootListing,
    Page(Seq<char>),
    FolderListing,
    File(Seq<char>),
    Deny,
    NotFound,
}

pub open spec fn site_answer_view(a: SiteAnswer) -> SiteAnswerView {
    match a {
        SiteAnswer::RootListing => SiteAnswerView::RootListing,
        SiteAnswer::Page(u) => SiteAnswerView::Page(u@),
        SiteAnswer::FolderListing => SiteAnswerView::FolderListing,
        SiteAnswer::File(r) => SiteAnswerView::File(r@),
        SiteAnswer::Deny => SiteAnswerView::Deny,
        SiteAnswer::NotFound => SiteAnswerView::NotFound,
    }
}

pub open spec fn absent_site_answer(signed: bool) -> SiteAnswerView {
    if signed {
        SiteAnswerView::Deny
    } else {
        SiteAnswerView::NotFound
    }
}

/// A request for `rel` (the decoded path after the site's mount) answered from the
/// viewer's view of the site (`pages`), in the order the server tries things:
/// - the site root without a root page is the generated listing, except that a
///   signed-in viewer who may read nothing at all is refused;
/// - then a page, a draft counting as absent;
/// - then a folder's generated listing;
/// - then a raw file (`static_rel`, the path in the casing the disk uses, when such
///   a file exists), sent only when the viewer may read it;
/// - anything else is absent: refused for a signed-in viewer, so that restricted and
///   missing look the same, and not found otherwise.
pub open spec fn site_answer_spec(
    site: crate::content::Site,
    pages: Seq<Page>,
    rel: Seq<char>,
    viewer: Option<Seq<char>>,
    static_rel: Option<Seq<char>>,
) -> SiteAnswerView {
    let signed = viewer is Some;
    if crate::text::trim(rel).len() == 0 && page_at(pages, Seq::empty()) is None {
        if pages.len() == 0 && signed {
            SiteAnswerView::Deny
        } else {
            SiteAnswerView::RootListing
        }
    } else {
        match page_answer_spec(pages, rel, signed) {
            AnswerView::Serve(u) => SiteAnswerView::Page(u),
            AnswerView::Deny => SiteAnswerView::Deny,
            AnswerView::NotFound => SiteAnswerView::NotFound,
            AnswerView::Continue => if folder_listed(pages, rel) {
                SiteAnswerView::FolderListing
            } else {
                match static_rel {
                    Some(r) => if file_allowed(site, r, viewer) {
                        SiteAnswerView::File(r)
                    } else {
                        absent_site_answer(signed)
                    },
                    None => absent_site_answer(signed),
                }
            },
        }
    }
}

/// See [`site_answer_spec`]; `view` is `site`'s view for `viewer`, and `static_rel`
/// is what the disk holds at `rel`, if a file.
pub fn site_answer(
    site: &crate::content::Site,
    view: &SiteView,
    rel: &str,
    viewer: Option<&str>,
    static_rel: Option<String>,
) -> (r: SiteAnswer)
    ensures
        site_answer_view(r) == site_answer_spec(
            *site,
            view.pages@,
            rel@,
            match viewer {
                Some(e) => Some(e@),
                None => None,
            },
            match static_rel {
                Some(s) => Some(s@),
                None => None,
            },
        ),
{
    let signed = viewer.is_some();
    let v = chars_of(rel);
    let (a, b) = crate::text::trim_bounds(&v, 0, v.len());
    assert(v@.subrange(0, v@.len() as int) =~= v@);
    proof {
        reveal_strlit("");
    }
    assert(""@ =~= Seq::<char>::empty());
    if a == b && view.pages.get("").is_none() {
        if view.pages.len() == 0 && signed {
            return SiteAnswer::Deny;
        }
        return SiteAnswer::RootListing;
    }
    match page_answer(view, rel, signed) {
        PageAnswer::Serve(u) => SiteAnswer::Page(u),
        PageAnswer::Deny => SiteAnswer::Deny,
        PageAnswer::NotFound => SiteAnswer::NotFound,
        PageAnswer::Continue => {
            let listing = crate::content::site_index::build_site_index_under_prefix(&view.pages, rel, site.root.as_str());
            if listing.is_some() {
                return SiteAnswer::FolderListing;
            }
            match static_rel {
                Some(r) => if site.allows_path(r.as_str(), viewer) {
                    SiteAnswer::File(r)
                } else if signed {
                    SiteAnswer::Deny
                } else {
                    SiteAnswer::NotFound
                },
                None => if signed {
                    SiteAnswer::Deny
                } else {
                    SiteAnswer::NotFound
                },
            }
        },
    }
}

/// Restricted and missing look the same: for a signed-in viewer, every request that
/// does not reach a page they may read, a folder listing, the site listing or a file
/// they may read is refused with the one deny answer, and nothing is ever "not found".
/// A page is served only from the viewer's view and never a draft; a file only when
/// the rules let the viewer read it.
pub proof fn lemma_signed_viewer_sees_one_refusal(
    site: crate::content::Site,
    pages: Seq<Page>,
    rel: Seq<char>,
    email: Seq<char>,
    static_rel: Option<Seq<char>>,
)
    ensures
        ({
            let a = site_answer_spec(site, pages, rel, Some(email), static_rel);
            &&& a != SiteAnswerView::NotFound
            &&& a matches SiteAnswerView::Page(u) ==> (requested_page(pages, rel) matches Some(p) && !p.draft
                && p.url_path@ == u && exists|i: int| 0 <= i < pages.len() && pages[i] == p)
            &&& a matches SiteAnswerView::File(r) ==> crate::acl::resolver::verdict(site.acl.chain_of(r), email)
                == crate::acl::resolver::Decision::Allow
            &&& a matches SiteAnswerView::FolderListing ==> folder_listed(pages, rel)
            &&& a matches SiteAnswerView::RootListing ==> pages.len() > 0
        }),
{
    lemma_served_page_is_in_view(pages, rel);
}

} // verus!
