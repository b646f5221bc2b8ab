//! The command line as values: what was asked for, and how loudly to log it. Parsing
//! the arguments happens at the edge.
use vstd::prelude::*;

use crate::acl::index::{trim_end_char_vec, trim_start_char_vec};
use crate::content::page::trim_slashes;
use crate::content::{page_at, Site};
use crate::text::{chars_of, ends_with, push_range, push_str, starts_with, string_of, trim_start_char};

verus! {

pub const DEFAULT_SERVICE_NAME: &'static str = "mdshelf";

/// The parsed command line.
#[derive(Debug)]
pub struct Cli {
    /// How many times `-v` was given.
    pub verbose: u8,
    /// `-q`: suppress non-error output.
    pub quiet: bool,
    pub command: Command,
}

/// The subcommands.
#[derive(Debug)]
pub enum Command {
    Serve(ServeArgs),
    Init(InitArgs),
    Check(CheckArgs),
    Export(ExportArgs),
    Acl(AclCommand),
    Audit(AuditArgs),
    Auth(AuthCommand),
    Install(ServiceArgs),
    Uninstall(ServiceNameArgs),
    Start(ServiceNameArgs),
    Stop(ServiceNameArgs),
    Restart(ServiceNameArgs),
    Status(ServiceNameArgs),
}

/// `mdshelf serve`.
#[derive(Debug, Clone)]
pub struct ServeArgs {
    pub config: Option<String>,
    pub host: Option<String>,
    pub port: Option<u16>,
    pub no_live_reload: bool,
    /// The identity provider to require sign-in with; absent means no sign-in at all.
    pub auth: Option<String>,
    pub public_url: Option<String>,
    pub domain: Option<String>,
    pub tls_cert: Option<String>,
    pub tls_key: Option<String>,
    pub behind_proxy: bool,
    pub acme_contact: Option<String>,
    pub acme_cache: Option<String>,
    pub acme_staging: bool,
}

impl ServeArgs {
    /// Nothing given: no overrides, no sign-in, no TLS.
    pub fn none() -> (r: ServeArgs)
        ensures
            r.config is None && r.host is None && r.port is None && !r.no_live_reload,
            r.auth is None && r.public_url is None && r.domain is None,
            r.tls_cert is None && r.tls_key is None && !r.behind_proxy,
            r.acme_contact is None && r.acme_cache is None && !r.acme_staging,
    {
        ServeArgs {
            config: None,
            host: None,
            port: None,
            no_live_reload: false,
            auth: None,
            public_url: None,
            domain: None,
            tls_cert: None,
            tls_key: None,
            behind_proxy: false,
            acme_contact: None,
            acme_cache: None,
            acme_staging: false,
        }
    }
}

/// `mdshelf init`.
#[derive(Debug, Clone)]
pub struct InitArgs {
    pub directory: String,
    pub with_theme: bool,
    pub force: bool,
}

/// `mdshelf check`.
#[derive(Debug, Clone)]
pub struct CheckArgs {
    pub config: Option<String>,
}

/// `mdshelf export`.
#[derive(Debug, Clone)]
pub struct ExportArgs {
    pub config: Option<String>,
    pub output: String,
    pub force: bool,
    pub site: Vec<String>,
    /// Export exactly what this address may see.
    pub as_viewer: Option<String>,
}

/// `mdshelf acl ...`.
#[derive(Debug, Clone)]
pub enum AclCommand {
    Explain(AclExplainArgs),
    Doctor(AclDoctorArgs),
    Grant(AclGrantArgs),
}

/// `mdshelf acl doctor`.
#[derive(Debug, Clone)]
pub struct AclDoctorArgs {
    pub config: Option<String>,
}

/// `mdshelf acl grant`.
#[derive(Debug, Clone)]
pub struct AclGrantArgs {
    pub config: Option<String>,
    pub email: String,
    pub path: String,
    pub yes: bool,
}

/// `mdshelf auth ...`.
#[derive(Debug, Clone)]
pub enum AuthCommand {
    Setup(AuthSetupArgs),
}

/// `mdshelf auth setup`.
#[derive(Debug, Clone)]
pub struct AuthSetupArgs {
    pub config: Option<String>,
    pub public_url: Option<String>,
    pub self_signed: Option<String>,
}

/// `mdshelf audit`.
#[derive(Debug, Clone)]
pub struct AuditArgs {
    pub config: Option<String>,
    pub path: Option<String>,
    pub email: Option<String>,
    pub forget: bool,
}

/// `mdshelf acl explain`.
#[derive(Debug, Clone)]
pub struct AclExplainArgs {
    pub config: Option<String>,
    pub path: String,
    pub email: String,
}

/// `mdshelf install`.
#[derive(Debug, Clone)]
pub struct ServiceArgs {
    pub config: Option<String>,
    pub name: String,
    pub user: bool,
}

/// `mdshelf uninstall|start|stop|restart|status`.
#[derive(Debug, Clone)]
pub struct ServiceNameArgs {
    pub name: String,
    pub user: bool,
}

/// How much to log.
#[derive(Debug, Clone, Copy, PartialEq, Eq, Structural)]
pub enum Verbosity {
    Quiet,
    Default,
    Verbose,
    Trace,
}

impl Cli {
    /// `-q` wins; otherwise each `-v` raises the level, up to tracing.
    pub fn verbosity(&self) -> (r: Verbosity)
        ensures
            r == if self.quiet {
                Verbosity::Quiet
            } else if self.verbose == 0 {
                Verbosity::Default
            } else if self.verbose == 1 {
                Verbosity::Verbose
            } else {
                Verbosity::Trace
            },
    {
        if self.quiet {
            Verbosity::Quiet
        } else if self.verbose == 0 {
            Verbosity::Default
        } else if self.verbose == 1 {
            Verbosity::Verbose
        } else {
            Verbosity::Trace
        }
    }
}

impl Verbosity {
    pub open spec fn filter(self) -> Seq<char> {
        match self {
            Verbosity::Quiet => "mdshelf=error"@,
            Verbosity::Default => "mdshelf=info,tower_http=warn"@,
            Verbosity::Verbose => "mdshelf=debug,tower_http=info"@,
            Verbosity::Trace => "mdshelf=trace,tower_http=debug"@,
        }
    }

    /// The log filter for this level.
    pub fn as_filter(self) -> (r: &'static str)
        ensures
            r@ == self.filter(),
    {
        match self {
            Verbosity::Quiet => "mdshelf=error",
            Verbosity::Default => "mdshelf=info,tower_http=warn",
            Verbosity::Verbose => "mdshelf=debug,tower_http=info",
            Verbosity::Trace => "mdshelf=trace,tower_http=debug",
        }
    }
}

/// `x / d` as Rust's integer division computes it: rounded toward zero.
pub open spec fn div_toward_zero(x: int, d: int) -> int {
    if x >= 0 {
        x / d
    } else {
        -((-x) / d)
    }
}

/// A millisecond timestamp as `YYYY-MM-DD HH:MM:SSZ` (UTC), the way the audit listing
/// prints it. The milliseconds are dropped toward zero first.
pub fn format_timestamp(ms: i64) -> (r: String)
    ensures
        r@ == crate::links::time::format_instant_spec(div_toward_zero(ms as int, 1000) * 1000),
{
    let seconds: i64 = ms.checked_div(1000).unwrap();
    assert(seconds as int == div_toward_zero(ms as int, 1000));
    assert(-9_223_372_036_854_775 <= seconds <= 9_223_372_036_854_775);
    crate::links::time::format_instant(seconds * 1000)
}

/// The site-relative path of the page a URL path names: surrounding slashes and one
/// `.md` suffix dropped, then the page itself or the folder index under it.
pub open spec fn page_by_url_spec(site: Site, url_path: Seq<char>) -> Option<Seq<char>> {
    let key = trim_slashes(url_path);
    let stripped = if ends_with(key, ".md"@) {
        key.take(key.len() - 3)
    } else {
        key
    };
    match page_at(site.pages@, stripped) {
        Some(p) => Some(p.rel_path@),
        None => match page_at(site.pages@, stripped + "/index"@) {
            Some(p) => Some(p.rel_path@),
            None => None,
        },
    }
}

/// See [`page_by_url_spec`].
pub fn find_page_by_url_path(site: &Site, url_path: &str) -> (r: Option<String>)
    ensures
        match r {
            Some(p) => page_by_url_spec(*site, url_path@) == Some(p@),
            None => page_by_url_spec(*site, url_path@) is None,
        },
{
    proof {
        reveal_strlit(".md");
        reveal_strlit("/index");
    }
    let v = chars_of(url_path);
    let key = trim_start_char_vec(&trim_end_char_vec(&v, '/'), '/');
    assert(key@ == trim_slashes(url_path@));
    let n = key.len();
    let md = n >= 3 && key[n - 3] == '.' && key[n - 2] == 'm' && key[n - 1] == 'd';
    proof {
        if n >= 3 {
            assert(key@.skip(n - 3) =~= seq!['.', 'm', 'd'] ==> md);
            assert(md ==> key@.skip(n - 3) =~= ".md"@);
        }
    }
    assert(md == ends_with(key@, ".md"@));
    let mut stripped: Vec<char> = Vec::new();
    if md {
        push_range(&mut stripped, &key, 0, n - 3);
        assert(stripped@ =~= key@.take(key@.len() - 3));
    } else {
        push_range(&mut stripped, &key, 0, n);
        assert(stripped@ =~= key@);
    }
    let first = string_of(&stripped);
    match site.page(first.as_str()) {
        Some(p) => Some(p.rel_path.clone()),
        None => {
            let mut idx: Vec<char> = stripped.clone();
            push_str(&mut idx, "/index");
            assert(idx@ =~= stripped@ + "/index"@);
            let second = string_of(&idx);
            match site.page(second.as_str()) {
                Some(p) => Some(p.rel_path.clone()),
                None => None,
            }
        },
    }
}

/// The page a mount-prefixed URL names in `site`: the URL must start with the mount
/// and continue with nothing or a `/`.
pub open spec fn mounted_hit(site: Site, raw: Seq<char>) -> Option<Seq<char>> {
    if starts_with(raw, site.mount@) {
        let tail = raw.skip(site.mount@.len() as int);
        if tail.len() == 0 || tail[0] == '/' {
            page_by_url_spec(site, trim_start_char(tail, '/'))
        } else {
            None
        }
    } else {
        None
    }
}

/// The first site, from `from` on, in which `raw` is a mounted URL of a page.
pub open spec fn first_mounted(sites: Seq<Site>, raw: Seq<char>, from: int) -> Option<(int, Seq<char>)>
    decreases sites.len() - from,
{
    if from < 0 || from >= sites.len() {
        None
    } else {
        match mounted_hit(sites[from], raw) {
            Some(p) => Some((from, p)),
            None => first_mounted(sites, raw, from + 1),
        }
    }
}

/// The first site, from `from` on, that holds `rel`: on disk (`disk[i]` is the
/// site-relative path in the casing the filesystem uses, when the file exists), or
/// else as a page's URL path.
pub open spec fn first_relative(sites: Seq<Site>, rel: Seq<char>, disk: Seq<Option<Seq<char>>>, from: int) -> Option<(int, Seq<char>)>
    decreases sites.len() - from,
{
    if from < 0 || from >= sites.len() {
        None
    } else {
        match disk[from] {
            Some(d) => Some((from, d)),
            None => match page_by_url_spec(sites[from], rel) {
                Some(p) => Some((from, p)),
                None => first_relative(sites, rel, disk, from + 1),
            },
        }
    }
}

/// The path a user-supplied target is taken to be relative to a site root.
pub open spec fn target_relative_spec(raw: Seq<char>) -> Seq<char> {
    trim_start_char(raw, '/')
}

/// See [`target_relative_spec`]: what to look up on disk in each site.
pub fn target_relative(raw: &str) -> (r: String)
    ensures
        r@ == target_relative_spec(raw@),
{
    string_of(&trim_start_char_vec(&chars_of(raw), '/'))
}

/// Which site and site-relative path a user-supplied path or URL names: a mounted
/// URL first, then a path relative to some site root, and otherwise the path in the
/// first site, so that a file not yet created still gets an answer. `None` when no
/// site is configured.
pub open spec fn locate_spec(sites: Seq<Site>, raw: Seq<char>, disk: Seq<Option<Seq<char>>>) -> Option<(int, Seq<char>)> {
    match first_mounted(sites, raw, 0) {
        Some(h) => Some(h),
        None => match first_relative(sites, target_relative_spec(raw), disk, 0) {
            Some(h) => Some(h),
            None => if sites.len() == 0 {
                None
            } else {
                Some((0, target_relative_spec(raw)))
            },
        },
    }
}

pub open spec fn opt_string_views(v: Seq<Option<String>>) -> Seq<Option<Seq<char>>> {
    Seq::new(v.len(), |i: int| match v[i] {
        Some(s) => Some(s@),
        None => None,
    })
}

/// See [`locate_spec`]. `disk[i]` answers for site `i`: the on-disk spelling of
/// [`target_relative`] under its root, when such a file exists.
pub fn locate_target(sites: &Vec<Site>, raw: &str, disk: &Vec<Option<String>>) -> (r: Result<(usize, String), String>)
    requires
        disk.len() == sites.len(),
    ensures
        match r {
            Ok((i, p)) => locate_spec(sites@, raw@, opt_string_views(disk@)) == Some((i as int, p@)),
            Err(_) => locate_spec(sites@, raw@, opt_string_views(disk@)) is None,
        },
{
    let ghost dv = opt_string_views(disk@);
    let v = chars_of(raw);
    let mut i: usize = 0;
    while i < sites.len()
        invariant
            i <= sites.len(),
            v@ == raw@,
            first_mounted(sites@, raw@, 0) == first_mounted(sites@, raw@, i as int),
        decreases sites.len() - i,
    {
        let site = &sites[i];
        let m = chars_of(site.mount.as_str());
        let n = m.len();
        if n <= v.len() && crate::text::range_eq(&v, 0, n, &m, 0, n) {
            assert(m@.subrange(0, n as int) =~= m@);
            assert(starts_with(raw@, site.mount@));
            if n == v.len() || v[n] == '/' {
                let mut tail: Vec<char> = Vec::new();
                push_range(&mut tail, &v, n, v.len());
                assert(tail@ =~= raw@.skip(n as int));
                let trimmed = string_of(&trim_start_char_vec(&tail, '/'));
                match find_page_by_url_path(site, trimmed.as_str()) {
                    Some(p) => {
                        return Ok((i, p));
                    },
                    None => {
                        assert(mounted_hit(sites@[i as int], raw@) is None);
                    },
                }
            } else {
                assert(raw@.skip(n as int)[0] == v@[n as int]);
                assert(mounted_hit(sites@[i as int], raw@) is None);
            }
        } else {
            proof {
                if starts_with(raw@, site.mount@) {
                    assert(m@.subrange(0, n as int) =~= m@);
                    assert(v@.subrange(0, n as int) =~= m@);
                }
            }
            assert(mounted_hit(sites@[i as int], raw@) is None);
        }
        assert(first_mounted(sites@, raw@, i as int) == first_mounted(sites@, raw@, i + 1));
        i += 1;
    }
    let rel = target_relative(raw);
    let mut j: usize = 0;
    while j < sites.len()
        invariant
            j <= sites.len() == disk.len(),
            dv == opt_string_views(disk@),
            rel@ == target_relative_spec(raw@),
            first_mounted(sites@, raw@, 0) is None,
            first_relative(sites@, rel@, dv, 0) == first_relative(sites@, rel@, dv, j as int),
        decreases sites.len() - j,
    {
        match &disk[j] {
            Some(d) => {
                assert(dv[j as int] == Some(d@));
                return Ok((j, d.clone()));
            },
            None => {
                assert(dv[j as int] is None);
                match find_page_by_url_path(&sites[j], rel.as_str()) {
                    Some(p) => {
                        return Ok((j, p));
                    },
                    None => {},
                }
            },
        }
        j += 1;
    }
    if sites.len() == 0 {
        Err(String::from_str("no sites are configured"))
    } else {
        Ok((0, rel))
    }
}

/// What the disk holds at a grant's path under one site's root.
#[derive(Debug, Clone, Copy, PartialEq, Eq, Structural)]
pub enum TargetKind {
    /// A file.
    File,
    /// A folder, and whether it holds `index.md`, `README.md` and `readme.md`.
    Folder(bool, bool, bool),
    /// Nothing, or something that is neither.
    Absent,
}

/// Where a grant is written.
#[derive(Debug, Clone, PartialEq, Eq)]
pub enum GrantTarget {
    /// This file of this site, which exists.
    Existing(usize, String),
    /// A folder without an index: its `index.md`, to be created (once the user
    /// agrees) with this title.
    CreateIndex(usize, String, String),
    /// Nothing matches in any site.
    NotFound,
}

pub ghost enum GrantView {
    Existing(int, Seq<char>),
    CreateIndex(int, Seq<char>, Seq<char>),
    NotFound,
}

pub open spec fn grant_view(g: GrantTarget) -> GrantView {
    match g {
        GrantTarget::Existing(i, p) => GrantView::Existing(i as int, p@),
        GrantTarget::CreateIndex(i, p, t) => GrantView::CreateIndex(i as int, p@, t@),
        GrantTarget::NotFound => GrantView::NotFound,
    }
}

/// The grant's path relative to a site root: without leading or trailing slashes.
pub open spec fn grant_relative_spec(raw: Seq<char>) -> Seq<char> {
    crate::text::trim_end_char(trim_start_char(raw, '/'), '/')
}

/// `name` inside the folder `rel` (the root when `rel` is empty).
pub open spec fn join_rel(rel: Seq<char>, name: Seq<char>) -> Seq<char> {
    if rel.len() == 0 {
        name
    } else {
        rel + "/"@ + name
    }
}

/// The title of a folder's new index: the folder's own name, humanised.
pub open spec fn index_title_spec(root: Seq<char>, rel: Seq<char>) -> Seq<char> {
    match crate::config::file_name_spec(rel) {
        Some(n) => crate::content::page::humanize_spec(n),
        None => match crate::config::file_name_spec(root) {
            Some(n) => crate::content::page::humanize_spec(n),
            None => "Index"@,
        },
    }
}

/// What one site offers for a grant at `rel`: a file is governed by itself; a folder by
/// its index file (`index.md`, `README.md`, `readme.md`, in that order), or by a new
/// `index.md`; otherwise a page whose URL path is `rel`, or the folder index there.
pub open spec fn site_grant(i: int, site: Site, rel: Seq<char>, kind: TargetKind) -> GrantView {
    match kind {
        TargetKind::File => GrantView::Existing(i, rel),
        TargetKind::Folder(a, b, c) => if a {
            GrantView::Existing(i, join_rel(rel, "index.md"@))
        } else if b {
            GrantView::Existing(i, join_rel(rel, "README.md"@))
        } else if c {
            GrantView::Existing(i, join_rel(rel, "readme.md"@))
        } else {
            GrantView::CreateIndex(i, join_rel(rel, "index.md"@), index_title_spec(site.root@, rel))
        },
        TargetKind::Absent => match page_at(site.pages@, rel) {
            Some(p) => GrantView::Existing(i, p.rel_path@),
            None => match page_at(site.pages@, rel + "/index"@) {
                Some(p) => GrantView::Existing(i, p.rel_path@),
                None => GrantView::NotFound,
            },
        },
    }
}

/// The first site, from `from` on, that offers a target.
pub open spec fn grant_spec(sites: Seq<Site>, rel: Seq<char>, kinds: Seq<TargetKind>, from: int) -> GrantView
    decreases sites.len() - from,
{
    if from < 0 || from >= sites.len() {
        GrantView::NotFound
    } else {
        match site_grant(from, sites[from], rel, kinds[from]) {
            GrantView::NotFound => grant_spec(sites, rel, kinds, from + 1),
            g => g,
        }
    }
}

proof fn lemma_grant_found_in_range(sites: Seq<Site>, rel: Seq<char>, kinds: Seq<TargetKind>, from: int)
    ensures
        ({
            let g = grant_spec(sites, rel, kinds, from);
            &&& g matches GrantView::Existing(i, p) ==> from <= i < sites.len()
                && site_grant(i, sites[i], rel, kinds[i]) == g
            &&& g matches GrantView::CreateIndex(i, p, t) ==> from <= i < sites.len()
                && site_grant(i, sites[i], rel, kinds[i]) == g
        }),
    decreases sites.len() - from,
{
    if 0 <= from < sites.len() {
        lemma_grant_found_in_range(sites, rel, kinds, from + 1);
    }
}

/// A folder is governed by its index file, `index.md` first: when the first site's
/// folder holds `index.md`, the grant goes to that existing file; whichever site a grant
/// lands in, a folder holding `index.md` gives that file; otherwise `README.md`, then
/// `readme.md`; a file governs itself; and a new `index.md` is
/// proposed only for a folder that holds none of `index.md`, `README.md`, `readme.md`.
pub proof fn lemma_folder_grant_uses_its_index(sites: Seq<Site>, rel: Seq<char>, kinds: Seq<TargetKind>)
    requires
        kinds.len() == sites.len(),
    ensures
        ({
            let g = grant_spec(sites, rel, kinds, 0);
            &&& (sites.len() > 0 && kinds[0] matches TargetKind::Folder(true, _, _)) ==> g
                == GrantView::Existing(0, if rel.len() == 0 { "index.md"@ } else { rel + "/index.md"@ })
            &&& (sites.len() > 0 && kinds[0] == TargetKind::Folder(false, true, false)) ==> g
                == GrantView::Existing(0, if rel.len() == 0 { "README.md"@ } else { rel + "/README.md"@ })
            &&& (sites.len() > 0 && kinds[0] == TargetKind::Folder(false, true, true)) ==> g
                == GrantView::Existing(0, if rel.len() == 0 { "README.md"@ } else { rel + "/README.md"@ })
            &&& (sites.len() > 0 && kinds[0] == TargetKind::Folder(false, false, true)) ==> g
                == GrantView::Existing(0, if rel.len() == 0 { "readme.md"@ } else { rel + "/readme.md"@ })
            &&& (sites.len() > 0 && kinds[0] == TargetKind::File) ==> g == GrantView::Existing(0, rel)
            &&& g matches GrantView::Existing(i, p) ==> (kinds[i] matches TargetKind::Folder(true, _, _)
                ==> p == if rel.len() == 0 { "index.md"@ } else { rel + "/index.md"@ })
            &&& g matches GrantView::CreateIndex(i, p, _) ==> 0 <= i < sites.len()
                && kinds[i] == TargetKind::Folder(false, false, false)
                && p == if rel.len() == 0 { "index.md"@ } else { rel + "/index.md"@ }
        }),
{
    reveal_strlit("index.md");
    reveal_strlit("/index.md");
    reveal_strlit("README.md");
    reveal_strlit("/README.md");
    reveal_strlit("readme.md");
    reveal_strlit("/readme.md");
    reveal_strlit("/");
    assert(rel + "/"@ + "index.md"@ =~= rel + "/index.md"@);
    assert(rel + "/"@ + "README.md"@ =~= rel + "/README.md"@);
    assert(rel + "/"@ + "readme.md"@ =~= rel + "/readme.md"@);
    lemma_grant_found_in_range(sites, rel, kinds, 0);
}

/// See [`grant_relative_spec`]: the path to ask the disk about in each site.
pub fn grant_relative(raw: &str) -> (r: String)
    ensures
        r@ == grant_relative_spec(raw@),
{
    string_of(&trim_end_char_vec(&trim_start_char_vec(&chars_of(raw), '/'), '/'))
}

fn join_rel_exec(rel: &str, name: &str) -> (r: String)
    ensures
        r@ == join_rel(rel@, name@),
{
    proof {
        reveal_strlit("/");
    }
    let mut out: Vec<char> = chars_of(rel);
    if out.len() == 0 {
        return name.to_owned();
    }
    push_str(&mut out, "/");
    push_str(&mut out, name);
    assert(out@ =~= rel@ + "/"@ + name@);
    string_of(&out)
}

fn index_title(root: &str, rel: &str) -> (r: String)
    ensures
        r@ == index_title_spec(root@, rel@),
{
    match crate::config::file_name_of(rel) {
        Some(n) => crate::content::page::humanize(string_of(&n).as_str()),
        None => match crate::config::file_name_of(root) {
            Some(n) => crate::content::page::humanize(string_of(&n).as_str()),
            None => String::from_str("Index"),
        },
    }
}

fn site_grant_exec(i: usize, site: &Site, rel: &str, kind: TargetKind) -> (r: GrantTarget)
    ensures
        grant_view(r) == site_grant(i as int, *site, rel@, kind),
{
    match kind {
        TargetKind::File => GrantTarget::Existing(i, rel.to_owned()),
        TargetKind::Folder(a, b, c) => if a {
            GrantTarget::Existing(i, join_rel_exec(rel, "index.md"))
        } else if b {
            GrantTarget::Existing(i, join_rel_exec(rel, "README.md"))
        } else if c {
            GrantTarget::Existing(i, join_rel_exec(rel, "readme.md"))
        } else {
            GrantTarget::CreateIndex(i, join_rel_exec(rel, "index.md"), index_title(site.root.as_str(), rel))
        },
        TargetKind::Absent => match site.page(rel) {
            Some(p) => GrantTarget::Existing(i, p.rel_path.clone()),
            None => {
                let mut k: Vec<char> = chars_of(rel);
                push_str(&mut k, "/index");
                proof {
                    reveal_strlit("/index");
                }
                assert(k@ =~= rel@ + "/index"@);
                let key = string_of(&k);
                match site.page(key.as_str()) {
                    Some(p) => GrantTarget::Existing(i, p.rel_path.clone()),
                    None => GrantTarget::NotFound,
                }
            },
        },
    }
}

/// Which file a grant for `raw` is written into. `kinds[i]` is what the disk holds at
/// [`grant_relative`]`(raw)` under site `i`'s root. A folder without an index file
/// gives `CreateIndex`: the caller asks before creating it.
pub fn grant_target(sites: &Vec<Site>, raw: &str, kinds: &Vec<TargetKind>) -> (r: GrantTarget)
    requires
        kinds.len() == sites.len(),
    ensures
        grant_view(r) == grant_spec(sites@, grant_relative_spec(raw@), kinds@, 0),
{
    let rel = grant_relative(raw);
    let mut i: usize = 0;
    while i < sites.len()
        invariant
            i <= sites.len() == kinds.len(),
            rel@ == grant_relative_spec(raw@),
            grant_spec(sites@, rel@, kinds@, 0) == grant_spec(sites@, rel@, kinds@, i as int),
        decreases sites.len() - i,
    {
        let g = site_grant_exec(i, &sites[i], rel.as_str(), kinds[i]);
        match g {
            GrantTarget::NotFound => {},
            _ => {
                return g;
            },
        }
        i += 1;
    }
    GrantTarget::NotFound
}

} // verus!
