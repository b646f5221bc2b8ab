//! What the `link` commands decide before they touch the database.
use vstd::prelude::*;

use crate::acl::index::trim_end_char_vec;
use crate::config::Config;
use crate::content::page::{lookup_keys_spec, Page};
use crate::content::{page_at, Site};
use crate::server::tls::{is_loopback_host, loopback_host, starts_with_exec};
use crate::text::{chars_of, decimal, push_decimal, push_str, starts_with, string_of, trim_end_char, trim_start_char};

verus! {

/// Why no base URL could be settled on.
#[derive(Debug, Clone, PartialEq, Eq)]
pub enum BaseUrlError {
    /// `--base-url` names something other than an `http://` or `https://` origin.
    NotHttp(String),
    /// The configuration binds this host, which no browser can reach.
    Unreachable(String),
}

impl BaseUrlError {
    /// The sentence shown to the operator.
    pub fn message(&self) -> (r: String)
        ensures
            r@ == match self {
                BaseUrlError::NotHttp(raw) => "--base-url must start with http:// or https://; got `"@
                    + raw@ + "`"@,
                BaseUrlError::Unreachable(host) =>
                    "mdshelf cannot tell what URL browsers use to reach this server: the config binds "@
                    + host@
                    + ", which is not an address anyone can visit.\n  Pass --base-url https://your.domain"@,
            },
    {
        let mut out: Vec<char> = Vec::new();
        match self {
            BaseUrlError::NotHttp(raw) => {
                push_str(&mut out, "--base-url must start with http:// or https://; got `");
                push_str(&mut out, raw.as_str());
                push_str(&mut out, "`");
            },
            BaseUrlError::Unreachable(host) => {
                push_str(
                    &mut out,
                    "mdshelf cannot tell what URL browsers use to reach this server: the config binds ",
                );
                push_str(&mut out, host.as_str());
                push_str(
                    &mut out,
                    ", which is not an address anyone can visit.\n  Pass --base-url https://your.domain",
                );
            },
        }
        string_of(&out)
    }
}

/// The origin printed links are built from: an explicit one, without trailing slashes,
/// when it is an `http(s)://` URL; else the configured loopback address.
pub open spec fn base_url_spec(host: Seq<char>, port: u16, explicit: Option<Seq<char>>) -> Result<
    Seq<char>,
    (bool, Seq<char>),
> {
    match explicit {
        Some(raw) => {
            let t = trim_end_char(raw, '/');
            if starts_with(t, "http://"@) || starts_with(t, "https://"@) {
                Ok(t)
            } else {
                Err((true, raw))
            }
        },
        None => if loopback_host(host) {
            Ok("http://"@ + host + seq![':'] + decimal(port as nat))
        } else {
            Err((false, host))
        },
    }
}

/// The origin the printed URL is built from.
pub fn resolve_base_url(config: &Config, explicit: Option<&str>) -> (r: Result<String, BaseUrlError>)
    ensures
        match (r, base_url_spec(config.host@, config.port, match explicit {
            Some(raw) => Some(raw@),
            None => None,
        })) {
            (Ok(u), Ok(s)) => u@ == s,
            (Err(BaseUrlError::NotHttp(raw)), Err((true, s))) => raw@ == s,
            (Err(BaseUrlError::Unreachable(host)), Err((false, s))) => host@ == s,
            _ => false,
        },
{
    proof {
        reveal_strlit("http://");
        reveal_strlit("https://");
    }
    match explicit {
        Some(raw) => {
            let v = chars_of(raw);
            let t = trim_end_char_vec(&v, '/');
            if !starts_with_exec(&t, "http://") && !starts_with_exec(&t, "https://") {
                return Err(BaseUrlError::NotHttp(raw.to_owned()));
            }
            Ok(string_of(&t))
        },
        None => {
            if is_loopback_host(config.host.as_str()) {
                let mut out: Vec<char> = Vec::new();
                push_str(&mut out, "http://");
                push_str(&mut out, config.host.as_str());
                out.push(':');
                push_decimal(&mut out, config.port as u64);
                assert(out@ =~= "http://"@ + config.host@ + seq![':'] + decimal(config.port as nat));
                Ok(string_of(&out))
            } else {
                Err(BaseUrlError::Unreachable(config.host.clone()))
            }
        },
    }
}

/// The page a share names: its site (a position among the configured sites), its file
/// and its URL.
#[derive(Debug, Clone, PartialEq, Eq)]
pub struct ShareTarget {
    pub site: usize,
    pub rel_path: String,
    pub url: String,
}

/// Why a share names no page.
#[derive(Debug, Clone, PartialEq, Eq)]
pub enum TargetError {
    /// Nothing was given.
    Empty,
    /// A page differs from what was given only in case: (as given, that page's URL).
    DidYouMean(String, String),
    /// No configured site serves the path.
    NoSite(String),
    /// A site serves the path, but no page is there.
    NoPage(String),
}

impl TargetError {
    /// The sentence shown to the operator.
    pub fn message(&self) -> (r: String)
        ensures
            r@ == match self {
                TargetError::Empty => "share needs a page path"@,
                TargetError::DidYouMean(raw, s) => "no page at `"@ + raw@ + "`. Did you mean `"@ + s@ + "`?"@,
                TargetError::NoSite(raw) => "no configured site serves `"@ + raw@ + "`"@,
                TargetError::NoPage(raw) => "no page at `"@ + raw@ + "` in any configured site"@,
            },
    {
        let mut out: Vec<char> = Vec::new();
        match self {
            TargetError::Empty => push_str(&mut out, "share needs a page path"),
            TargetError::DidYouMean(raw, sug) => {
                push_str(&mut out, "no page at `");
                push_str(&mut out, raw.as_str());
                push_str(&mut out, "`. Did you mean `");
                push_str(&mut out, sug.as_str());
                push_str(&mut out, "`?");
            },
            TargetError::NoSite(raw) => {
                push_str(&mut out, "no configured site serves `");
                push_str(&mut out, raw.as_str());
                push_str(&mut out, "`");
            },
            TargetError::NoPage(raw) => {
                push_str(&mut out, "no page at `");
                push_str(&mut out, raw.as_str());
                push_str(&mut out, "` in any configured site");
            },
        }
        string_of(&out)
    }
}

/// The first lookup key naming a page of `pages`.
pub open spec fn first_keyed(pages: Seq<Page>, keys: Seq<Seq<char>>, from: int) -> Option<Page>
    decreases keys.len() - from,
{
    if from < 0 || from >= keys.len() {
        None
    } else {
        match page_at(pages, keys[from]) {
            Some(p) => Some(p),
            None => first_keyed(pages, keys, from + 1),
        }
    }
}

/// The published page a candidate path names in a site: the first of its lookup keys
/// that names a page, unless that page is a draft.
pub open spec fn target_page(pages: Seq<Page>, candidate: Seq<char>) -> Option<Page> {
    match first_keyed(pages, lookup_keys_spec(candidate), 0) {
        Some(p) => if p.draft { None } else { Some(p) },
        None => None,
    }
}

/// What follows a site's mount in `path`, when the mount prefixes it at a segment
/// boundary.
pub open spec fn under_mount(path: Seq<char>, mount: Seq<char>) -> Option<Seq<char>> {
    if starts_with(path, mount) {
        let tail = path.skip(mount.len() as int);
        if tail.len() == 0 || tail[0] == '/' {
            Some(tail)
        } else {
            None
        }
    } else {
        None
    }
}

/// The first site, from `from` on, whose mount prefixes `path` and under which the rest
/// names a published page: (site, page).
pub open spec fn mounted_target(sites: Seq<Site>, path: Seq<char>, from: int) -> Option<(int, Page)>
    decreases sites.len() - from,
{
    if from < 0 || from >= sites.len() {
        None
    } else {
        match under_mount(path, sites[from].mount@) {
            Some(tail) => match target_page(sites[from].pages@, trim_start_char(tail, '/')) {
                Some(p) => Some((from, p)),
                None => mounted_target(sites, path, from + 1),
            },
            None => mounted_target(sites, path, from + 1),
        }
    }
}

/// The first site, from `from` on, in which `relative` names a published page.
pub open spec fn relative_target(sites: Seq<Site>, relative: Seq<char>, from: int) -> Option<(int, Page)>
    decreases sites.len() - from,
{
    if from < 0 || from >= sites.len() {
        None
    } else {
        match target_page(sites[from].pages@, relative) {
            Some(p) => Some((from, p)),
            None => relative_target(sites, relative, from + 1),
        }
    }
}

/// Every site-relative spelling a path could stand for: as given without leading
/// slashes, then what follows each site mount that prefixes it.
pub open spec fn spellings_spec(sites: Seq<Site>, raw: Seq<char>, n: int) -> Seq<Seq<char>>
    decreases n,
{
    if n <= 0 {
        seq![trim_start_char(raw, '/')]
    } else {
        let rest = spellings_spec(sites, raw, n - 1);
        match under_mount(raw, sites[n - 1].mount@) {
            Some(tail) => rest.push(trim_start_char(tail, '/')),
            None => rest,
        }
    }
}

/// The URL of the first page, site by site, whose URL path or file differs from
/// `candidate` only in ASCII case.
pub open spec fn case_match(sites: Seq<Site>, wanted: Seq<char>, si: int, pi: int) -> Option<Seq<char>>
    decreases sites.len() - si, (if 0 <= si < sites.len() { sites[si].pages@.len() } else { 0 }) - pi,
{
    if si < 0 || si >= sites.len() {
        None
    } else if pi < 0 || pi >= sites[si].pages@.len() {
        case_match(sites, wanted, si + 1, 0)
    } else {
        let p = sites[si].pages@[pi];
        if crate::content::page::eq_ignore_case(p.url_path@, wanted) || crate::content::page::eq_ignore_case(
            p.rel_path@,
            wanted,
        ) {
            Some(p.url@)
        } else {
            case_match(sites, wanted, si, pi + 1)
        }
    }
}

pub open spec fn closest_spec(sites: Seq<Site>, candidate: Seq<char>) -> Option<Seq<char>> {
    let wanted = crate::content::page::trim_slashes(candidate);
    if wanted.len() == 0 {
        None
    } else {
        case_match(sites, wanted, 0, 0)
    }
}

/// The first spelling, from `from` on, that differs from a page only in case.
pub open spec fn suggestion(sites: Seq<Site>, spellings: Seq<Seq<char>>, from: int) -> Option<Seq<char>>
    decreases spellings.len() - from,
{
    if from < 0 || from >= spellings.len() {
        None
    } else {
        match closest_spec(sites, spellings[from]) {
            Some(s) => Some(s),
            None => suggestion(sites, spellings, from + 1),
        }
    }
}

/// Whether some site's mount is `path` or prefixes it at a segment boundary.
pub open spec fn mount_owns_spec(sites: Seq<Site>, path: Seq<char>) -> bool {
    exists|i: int| 0 <= i < sites.len() && (path == (#[trigger] sites[i]).mount@ || starts_with(path, sites[i].mount@ + seq!['/']))
}

/// What a share's page argument resolves to.
pub ghost enum TargetOutcome {
    Found(int, Page),
    Empty,
    Suggest(Seq<char>),
    NoSite,
    NoPage,
}

pub open spec fn resolve_target_spec(sites: Seq<Site>, raw: Seq<char>) -> TargetOutcome {
    let t = crate::text::trim(raw);
    if t.len() == 0 {
        TargetOutcome::Empty
    } else {
        match mounted_target(sites, t, 0) {
            Some((i, p)) => TargetOutcome::Found(i, p),
            None => match relative_target(sites, trim_start_char(t, '/'), 0) {
                Some((i, p)) => TargetOutcome::Found(i, p),
                None => match suggestion(sites, spellings_spec(sites, t, sites.len() as int), 0) {
                    Some(s) => TargetOutcome::Suggest(s),
                    None => if !mount_owns_spec(sites, t) {
                        TargetOutcome::NoSite
                    } else {
                        TargetOutcome::NoPage
                    },
                },
            },
        }
    }
}

fn first_keyed_exec<'a>(site: &'a Site, keys: &Vec<String>) -> (r: Option<&'a Page>)
    ensures
        match r {
            Some(p) => first_keyed(site.pages@, crate::auth::crypto::string_views(keys@), 0) == Some(*p),
            None => first_keyed(site.pages@, crate::auth::crypto::string_views(keys@), 0) is None,
        },
{
    let ghost ks = crate::auth::crypto::string_views(keys@);
    let mut i: usize = 0;
    while i < keys.len()
        invariant
            i <= keys@.len(),
            ks == crate::auth::crypto::string_views(keys@),
            first_keyed(site.pages@, ks, 0) == first_keyed(site.pages@, ks, i as int),
        decreases keys.len() - i,
    {
        match site.page(keys[i].as_str()) {
            Some(p) => return Some(p),
            None => {},
        }
        i += 1;
    }
    None
}

/// The published page `candidate` names in `site`.
pub fn target_in_site<'a>(site: &'a Site, candidate: &str) -> (r: Option<&'a Page>)
    ensures
        match r {
            Some(p) => target_page(site.pages@, candidate@) == Some(*p),
            None => target_page(site.pages@, candidate@) is None,
        },
{
    let keys = crate::content::page::page_lookup_keys(candidate);
    match first_keyed_exec(site, &keys) {
        Some(p) => if p.draft {
            None
        } else {
            Some(p)
        },
        None => None,
    }
}

fn under_mount_exec(path: &Vec<char>, mount: &str) -> (r: Option<Vec<char>>)
    ensures
        match r {
            Some(t) => under_mount(path@, mount@) == Some(t@),
            None => under_mount(path@, mount@) is None,
        },
{
    let m = chars_of(mount);
    if !(m.len() <= path.len() && crate::text::range_eq(path, 0, m.len(), &m, 0, m.len())) {
        proof {
            assert(m@.subrange(0, m@.len() as int) =~= m@);
            if m@.len() <= path@.len() {
                assert(path@.take(m@.len() as int) =~= path@.subrange(0, m@.len() as int));
            }
        }
        return None;
    }
    assert(m@.subrange(0, m@.len() as int) =~= m@);
    assert(path@.take(m@.len() as int) =~= path@.subrange(0, m@.len() as int));
    let mut tail: Vec<char> = Vec::new();
    crate::text::push_range(&mut tail, path, m.len(), path.len());
    assert(tail@ =~= path@.skip(m@.len() as int));
    if tail.len() == 0 || tail[0] == '/' {
        Some(tail)
    } else {
        None
    }
}

/// Every site-relative spelling `raw` could stand for.
pub fn spellings(sites: &Vec<Site>, raw: &str) -> (r: Vec<String>)
    ensures
        crate::auth::crypto::string_views(r@) == spellings_spec(sites@, raw@, sites@.len() as int),
{
    let v = chars_of(raw);
    let mut out: Vec<String> = Vec::new();
    let first = crate::acl::index::trim_start_char_vec(&v, '/');
    out.push(string_of(&first));
    assert(crate::auth::crypto::string_views(out@) =~= spellings_spec(sites@, raw@, 0));
    let mut i: usize = 0;
    while i < sites.len()
        invariant
            i <= sites@.len(),
            v@ == raw@,
            crate::auth::crypto::string_views(out@) == spellings_spec(sites@, raw@, i as int),
        decreases sites.len() - i,
    {
        match under_mount_exec(&v, sites[i].mount.as_str()) {
            Some(tail) => {
                let t = crate::acl::index::trim_start_char_vec(&tail, '/');
                let ghost before = crate::auth::crypto::string_views(out@);
                let ts = string_of(&t);
                out.push(ts);
                assert(crate::auth::crypto::string_views(out@) =~= before.push(t@));
            },
            None => {},
        }
        i += 1;
    }
    out
}

/// Whether some configured site serves `path`.
pub fn mount_owns(sites: &Vec<Site>, path: &str) -> (r: bool)
    ensures
        r == mount_owns_spec(sites@, path@),
{
    let v = chars_of(path);
    let mut i: usize = 0;
    while i < sites.len()
        invariant
            i <= sites@.len(),
            v@ == path@,
            forall|j: int| 0 <= j < i ==> !(path@ == (#[trigger] sites@[j]).mount@ || starts_with(path@, sites@[j].mount@ + seq!['/'])),
        decreases sites.len() - i,
    {
        let m0 = chars_of(sites[i].mount.as_str());
        let same = crate::text::vec_eq(&v, &m0);
        let mut m = chars_of(sites[i].mount.as_str());
        m.push('/');
        assert(m@ =~= sites@[i as int].mount@ + seq!['/']);
        let prefixed = m.len() <= v.len() && crate::text::range_eq(&v, 0, m.len(), &m, 0, m.len());
        proof {
            assert(m@.subrange(0, m@.len() as int) =~= m@);
            if m@.len() <= v@.len() {
                assert(v@.take(m@.len() as int) =~= v@.subrange(0, m@.len() as int));
            }
        }
        if same || prefixed {
            assert(path@ == sites@[i as int].mount@ || starts_with(path@, sites@[i as int].mount@ + seq!['/']));
            return true;
        }
        i += 1;
    }
    false
}

/// The URL of a page whose URL path or file differs from `candidate` only in case.
pub fn closest_match(sites: &Vec<Site>, candidate: &str) -> (r: Option<String>)
    ensures
        match r {
            Some(u) => closest_spec(sites@, candidate@) == Some(u@),
            None => closest_spec(sites@, candidate@) is None,
        },
{
    let v = chars_of(candidate);
    let e = crate::acl::index::trim_end_char_vec(&v, '/');
    let w = crate::acl::index::trim_start_char_vec(&e, '/');
    if w.len() == 0 {
        return None;
    }
    let wanted = string_of(&w);
    let mut si: usize = 0;
    while si < sites.len()
        invariant
            si <= sites@.len(),
            wanted@ == crate::content::page::trim_slashes(candidate@),
            wanted@.len() > 0,
            case_match(sites@, wanted@, 0, 0) == case_match(sites@, wanted@, si as int, 0),
        decreases sites.len() - si,
    {
        let pages = sites[si].pages();
        let mut pi: usize = 0;
        while pi < pages.len()
            invariant
                si < sites@.len(),
                pi <= pages@.len(),
                pages@ == sites@[si as int].pages@,
                wanted@ == crate::content::page::trim_slashes(candidate@),
                wanted@.len() > 0,
                case_match(sites@, wanted@, 0, 0) == case_match(sites@, wanted@, si as int, pi as int),
            decreases pages.len() - pi,
        {
            let u = chars_of(pages[pi].url_path.as_str());
            let rel = chars_of(pages[pi].rel_path.as_str());
            if crate::content::page::eq_ignore_case_exec(&u, wanted.as_str())
                || crate::content::page::eq_ignore_case_exec(&rel, wanted.as_str()) {
                return Some(pages[pi].url.clone());
            }
            pi += 1;
        }
        si += 1;
    }
    None
}

fn share_target(i: usize, p: &Page) -> (r: ShareTarget)
    ensures
        r.site == i,
        r.rel_path@ == p.rel_path@,
        r.url@ == p.url@,
{
    ShareTarget { site: i, rel_path: p.rel_path.clone(), url: p.url.clone() }
}

/// Find the page a share names, however the operator spelled it: a URL with a site's
/// mount, else a path within some site; a draft is never shareable. When nothing
/// matches, a page differing only in case is suggested.
pub fn resolve_target(sites: &Vec<Site>, raw: &str) -> (r: Result<ShareTarget, TargetError>)
    ensures
        match (r, resolve_target_spec(sites@, raw@)) {
            (Ok(t), TargetOutcome::Found(i, p)) => t.site == i && t.rel_path@ == p.rel_path@ && t.url@ == p.url@,
            (Err(TargetError::Empty), TargetOutcome::Empty) => true,
            (Err(TargetError::DidYouMean(x, s)), TargetOutcome::Suggest(s2)) => x@ == raw@ && s@ == s2,
            (Err(TargetError::NoSite(x)), TargetOutcome::NoSite) => x@ == raw@,
            (Err(TargetError::NoPage(x)), TargetOutcome::NoPage) => x@ == raw@,
            _ => false,
        },
{
    let v = chars_of(raw);
    let (a, b) = crate::text::trim_bounds(&v, 0, v.len());
    assert(v@.subrange(0, v@.len() as int) =~= v@);
    if a == b {
        return Err(TargetError::Empty);
    }
    let mut tv: Vec<char> = Vec::new();
    crate::text::push_range(&mut tv, &v, a, b);
    let t = string_of(&tv);
    let mut i: usize = 0;
    while i < sites.len()
        invariant
            i <= sites@.len(),
            tv@ == crate::text::trim(raw@),
            tv@.len() > 0,
            mounted_target(sites@, tv@, 0) == mounted_target(sites@, tv@, i as int),
        decreases sites.len() - i,
    {
        match under_mount_exec(&tv, sites[i].mount.as_str()) {
            Some(tail) => {
                let rest = crate::acl::index::trim_start_char_vec(&tail, '/');
                let rs = string_of(&rest);
                match target_in_site(&sites[i], rs.as_str()) {
                    Some(p) => return Ok(share_target(i, p)),
                    None => {},
                }
            },
            None => {},
        }
        i += 1;
    }
    let relv = crate::acl::index::trim_start_char_vec(&tv, '/');
    let relative = string_of(&relv);
    let mut i: usize = 0;
    while i < sites.len()
        invariant
            i <= sites@.len(),
            tv@ == crate::text::trim(raw@),
            tv@.len() > 0,
            mounted_target(sites@, tv@, 0) is None,
            relative@ == trim_start_char(crate::text::trim(raw@), '/'),
            relative_target(sites@, relative@, 0) == relative_target(sites@, relative@, i as int),
        decreases sites.len() - i,
    {
        match target_in_site(&sites[i], relative.as_str()) {
            Some(p) => return Ok(share_target(i, p)),
            None => {},
        }
        i += 1;
    }
    let cands = spellings(sites, t.as_str());
    let ghost cs = crate::auth::crypto::string_views(cands@);
    let mut k: usize = 0;
    while k < cands.len()
        invariant
            k <= cands@.len(),
            cs == crate::auth::crypto::string_views(cands@),
            cs == spellings_spec(sites@, crate::text::trim(raw@), sites@.len() as int),
            tv@ == crate::text::trim(raw@),
            tv@.len() > 0,
            mounted_target(sites@, tv@, 0) is None,
            relative_target(sites@, trim_start_char(tv@, '/'), 0) is None,
            suggestion(sites@, cs, 0) == suggestion(sites@, cs, k as int),
        decreases cands.len() - k,
    {
        match closest_match(sites, cands[k].as_str()) {
            Some(s) => return Err(TargetError::DidYouMean(raw.to_owned(), s)),
            None => {},
        }
        k += 1;
    }
    if !mount_owns(sites, t.as_str()) {
        return Err(TargetError::NoSite(raw.to_owned()));
    }
    Err(TargetError::NoPage(raw.to_owned()))
}

/// The key a link stores for its site: the site's root path, which survives renaming
/// its mount.
pub fn site_key(site: &Site) -> (r: String)
    ensures
        r@ == site.root@,
{
    site.root.clone()
}

/// The first configured site whose key is `key`.
pub open spec fn site_for_spec(sites: Seq<Site>, key: Seq<char>, from: int) -> Option<int>
    decreases sites.len() - from,
{
    if from < 0 || from >= sites.len() {
        None
    } else if sites[from].root@ == key {
        Some(from)
    } else {
        site_for_spec(sites, key, from + 1)
    }
}

/// The site a stored link belongs to, if it is still configured.
pub fn site_for_record(sites: &Vec<Site>, record: &crate::auth::store::LinkRecord) -> (r: Option<usize>)
    ensures
        match r {
            Some(i) => i < sites@.len() && site_for_spec(sites@, record.site@, 0) == Some(i as int),
            None => site_for_spec(sites@, record.site@, 0) is None,
        },
{
    let mut i: usize = 0;
    while i < sites.len()
        invariant
            i <= sites@.len(),
            site_for_spec(sites@, record.site@, 0) == site_for_spec(sites@, record.site@, i as int),
        decreases sites.len() - i,
    {
        if crate::text::str_eq(sites[i].root.as_str(), record.site.as_str()) {
            return Some(i);
        }
        i += 1;
    }
    None
}

/// The first page of `pages` stored at `path`.
pub open spec fn page_by_file(pages: Seq<Page>, path: Seq<char>, from: int) -> Option<Page>
    decreases pages.len() - from,
{
    if from < 0 || from >= pages.len() {
        None
    } else if pages[from].rel_path@ == path {
        Some(pages[from])
    } else {
        page_by_file(pages, path, from + 1)
    }
}

/// The URL of a stored link's page, when its site and page are still there.
pub fn page_url(sites: &Vec<Site>, record: &crate::auth::store::LinkRecord) -> (r: Option<String>)
    ensures
        match site_for_spec(sites@, record.site@, 0) {
            Some(i) => match page_by_file(sites@[i].pages@, record.path@, 0) {
                Some(p) => r matches Some(u) && u@ == p.url@,
                None => r is None,
            },
            None => r is None,
        },
{
    let i = match site_for_record(sites, record) {
        Some(i) => i,
        None => return None,
    };
    let pages = sites[i].pages();
    let mut k: usize = 0;
    while k < pages.len()
        invariant
            k <= pages@.len(),
            i < sites@.len(),
            pages@ == sites@[i as int].pages@,
            site_for_spec(sites@, record.site@, 0) == Some(i as int),
            page_by_file(pages@, record.path@, 0) == page_by_file(pages@, record.path@, k as int),
        decreases pages.len() - k,
    {
        if crate::text::str_eq(pages[k].rel_path.as_str(), record.path.as_str()) {
            return Some(pages[k].url.clone());
        }
        k += 1;
    }
    None
}

/// The refusal to share links on a server without sign-in.
pub const NEEDS_AUTH: &'static str = "share links require Google sign-in: without it every page is already public, so a link would imply protection that is not there.\n  Add an [auth] section to your config and run the server with `--auth google`.";

/// Share links need sign-in configured: without it every page is already public.
pub fn require_auth_configured(config: &Config) -> (r: Result<(), String>)
    ensures
        match r {
            Ok(()) => config.auth is Some,
            Err(m) => config.auth is None && m@ == NEEDS_AUTH@,
        },
{
    if config.auth.is_none() {
        return Err(String::from_str(NEEDS_AUTH));
    }
    Ok(())
}

/// An origin for printed links is always a usable one: an explicit origin is taken
/// only when it is an `http://` or `https://` URL, and without a trailing slash, so the
/// link prefix joins it cleanly; without one, only a loopback bind address is used,
/// as `http://host:port`; anything else is refused.
pub proof fn lemma_base_url_is_usable(host: Seq<char>, port: u16, explicit: Option<Seq<char>>)
    ensures
        base_url_spec(host, port, explicit) matches Ok(u) ==> match explicit {
            Some(raw) => (starts_with(u, "http://"@) || starts_with(u, "https://"@)) && u.last() != '/'
                && u == trim_end_char(raw, '/'),
            None => loopback_host(host) && u == "http://"@ + host + seq![':'] + decimal(port as nat),
        },
        explicit is None && !loopback_host(host) ==> base_url_spec(host, port, explicit) is Err,
{
    reveal_strlit("http://");
    reveal_strlit("https://");
    if let Some(raw) = explicit {
        crate::config::lemma_trim_end_char_shape(raw, '/');
        let t = trim_end_char(raw, '/');
        if starts_with(t, "http://"@) {
            assert(t.len() >= 7);
        }
        if starts_with(t, "https://"@) {
            assert(t.len() >= 8);
        }
    }
}

} // verus!
