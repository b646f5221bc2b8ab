//! The layered theme: per-site overrides above a global override above the built-in
//! default, for templates and for assets alike.
use vstd::prelude::*;

use crate::config::{join_path_spec, Config};
use crate::render::templates::TemplateEntry;
use crate::text::{
    chars_of, ends_with, lemma_lex_irreflexive, lemma_lex_total, lex_lt, push_all, push_str,
    split_char, split_vec, starts_with, str_eq, str_lt, string_of, trim_start_char, views,
};

verus! {

/// `s` with `(k, v)` filed under key `k`, keys kept in order: the entry for `k`
/// replaced where there is one, else added before the first greater key.
pub open spec fn keyed_insert<V>(s: Seq<(Seq<char>, V)>, k: Seq<char>, v: V) -> Seq<(Seq<char>, V)>
    decreases s.len(),
{
    if s.len() == 0 {
        seq![(k, v)]
    } else if s[0].0 == k {
        s.update(0, (k, v))
    } else if lex_lt(k, s[0].0) {
        seq![(k, v)] + s
    } else {
        seq![s[0]] + keyed_insert(s.drop_first(), k, v)
    }
}

/// Where a scan stops, `keyed_insert` files the entry.
pub proof fn lemma_keyed_insert_at<V>(s: Seq<(Seq<char>, V)>, k: Seq<char>, v: V, p: int)
    requires
        0 <= p <= s.len(),
        forall|j: int| 0 <= j < p ==> lex_lt(#[trigger] s[j].0, k),
        p == s.len() || !lex_lt(s[p].0, k),
    ensures
        keyed_insert(s, k, v) == if p < s.len() && s[p].0 == k {
            s.update(p, (k, v))
        } else {
            s.insert(p, (k, v))
        },
    decreases p,
{
    if p == 0 {
        if s.len() > 0 && s[0].0 != k {
            lemma_lex_total(s[0].0, k);
            assert(seq![(k, v)] + s =~= s.insert(0, (k, v)));
        } else if s.len() == 0 {
            assert(seq![(k, v)] =~= s.insert(0, (k, v)));
        }
    } else {
        lemma_lex_irreflexive(k);
        assert(s[0].0 != k);
        assert(!lex_lt(k, s[0].0)) by {
            crate::text::lemma_lex_asymmetric(s[0].0, k);
        }
        assert forall|j: int| 0 <= j < p - 1 implies lex_lt(#[trigger] s.drop_first()[j].0, k) by {
            assert(s.drop_first()[j] == s[j + 1]);
        }
        lemma_keyed_insert_at(s.drop_first(), k, v, p - 1);
        if p < s.len() && s[p].0 == k {
            assert(seq![s[0]] + s.drop_first().update(p - 1, (k, v)) =~= s.update(p, (k, v)));
        } else {
            assert(seq![s[0]] + s.drop_first().insert(p - 1, (k, v)) =~= s.insert(p, (k, v)));
        }
    }
}

/// All of `entries` filed in turn, later entries replacing earlier ones with the same key.
pub open spec fn keyed_fold<V>(acc: Seq<(Seq<char>, V)>, entries: Seq<(Seq<char>, V)>) -> Seq<(Seq<char>, V)>
    decreases entries.len(),
{
    if entries.len() == 0 {
        acc
    } else {
        let a = keyed_fold(acc, entries.drop_last());
        keyed_insert(a, entries.last().0, entries.last().1)
    }
}

/// Keys strictly increasing.
pub open spec fn keys_increase<V>(s: Seq<(Seq<char>, V)>) -> bool {
    forall|i: int, j: int| 0 <= i < j < s.len() ==> lex_lt(#[trigger] s[i].0, #[trigger] s[j].0)
}

pub proof fn lemma_keyed_insert_sorted<V>(s: Seq<(Seq<char>, V)>, k: Seq<char>, v: V)
    requires
        keys_increase(s),
    ensures
        keys_increase(keyed_insert(s, k, v)),
    decreases s.len(),
{
    if s.len() > 0 && s[0].0 != k && !lex_lt(k, s[0].0) {
        lemma_lex_total(k, s[0].0);
        let rest = s.drop_first();
        assert(keys_increase(rest)) by {
            assert forall|i: int, j: int| 0 <= i < j < rest.len() implies lex_lt(#[trigger] rest[i].0, #[trigger] rest[j].0) by {
                assert(rest[i] == s[i + 1]);
                assert(rest[j] == s[j + 1]);
            }
        }
        lemma_keyed_insert_sorted(rest, k, v);
        let t = keyed_insert(rest, k, v);
        lemma_keyed_insert_members(rest, k, v);
        let r = seq![s[0]] + t;
        assert forall|i: int, j: int| 0 <= i < j < r.len() implies lex_lt(#[trigger] r[i].0, #[trigger] r[j].0) by {
            if i == 0 {
                assert(r[j] == t[j - 1]);
                let key = t[j - 1].0;
                if key == k {
                } else {
                    let m = choose|m: int| 0 <= m < rest.len() && rest[m].0 == key;
                    assert(rest[m] == s[m + 1]);
                }
            } else {
                assert(r[i] == t[i - 1]);
                assert(r[j] == t[j - 1]);
            }
        }
    } else if s.len() > 0 && lex_lt(k, s[0].0) && s[0].0 != k {
        let r = seq![(k, v)] + s;
        assert forall|i: int, j: int| 0 <= i < j < r.len() implies lex_lt(#[trigger] r[i].0, #[trigger] r[j].0) by {
            if i == 0 {
                if j > 1 {
                    crate::text::lemma_lex_transitive(k, s[0].0, s[j - 1].0);
                }
            } else {
                assert(r[i] == s[i - 1]);
                assert(r[j] == s[j - 1]);
            }
        }
    } else if s.len() > 0 {
        let r = s.update(0, (k, v));
        assert forall|i: int, j: int| 0 <= i < j < r.len() implies lex_lt(#[trigger] r[i].0, #[trigger] r[j].0) by {
            assert(r[j] == s[j]);
            if i > 0 {
                assert(r[i] == s[i]);
            }
        }
    }
}

/// Every key after filing is `k` or a key that was there.
pub proof fn lemma_keyed_insert_members<V>(s: Seq<(Seq<char>, V)>, k: Seq<char>, v: V)
    ensures
        forall|i: int| 0 <= i < keyed_insert(s, k, v).len() ==> (#[trigger] keyed_insert(s, k, v)[i]).0 == k
            || exists|m: int| 0 <= m < s.len() && s[m].0 == keyed_insert(s, k, v)[i].0,
    decreases s.len(),
{
    let r = keyed_insert(s, k, v);
    if s.len() > 0 && s[0].0 != k && !lex_lt(k, s[0].0) {
        let rest = s.drop_first();
        lemma_keyed_insert_members(rest, k, v);
        assert forall|i: int| 0 <= i < r.len() implies (#[trigger] r[i]).0 == k || exists|m: int| 0 <= m < s.len() && s[m].0 == r[i].0 by {
            if i == 0 {
                assert(s[0].0 == r[0].0);
            } else {
                let t = keyed_insert(rest, k, v);
                assert(r[i] == t[i - 1]);
                if t[i - 1].0 != k {
                    let m = choose|m: int| 0 <= m < rest.len() && rest[m].0 == t[i - 1].0;
                    assert(s[m + 1] == rest[m]);
                }
            }
        }
    } else if s.len() > 0 && s[0].0 != k {
        assert forall|i: int| 0 <= i < r.len() implies (#[trigger] r[i]).0 == k || exists|m: int| 0 <= m < s.len() && s[m].0 == r[i].0 by {
            if i > 0 {
                assert(r[i] == s[i - 1]);
            }
        }
    } else if s.len() > 0 {
        assert forall|i: int| 0 <= i < r.len() implies (#[trigger] r[i]).0 == k || exists|m: int| 0 <= m < s.len() && s[m].0 == r[i].0 by {
            if i > 0 {
                assert(r[i] == s[i]);
            }
        }
    }
}

/// The layered theme resolved from configuration: per-site override directories by
/// mount, in mount order, above an optional global override directory.
#[derive(Debug, Clone)]
pub struct ThemeStack {
    /// Optional global override directory.
    pub global_override: Option<String>,
    /// Per-site override directories, as (mount, directory) in mount order.
    pub per_site_overrides: Vec<(String, String)>,
}

/// An asset found in one of the theme's layers.
#[derive(Debug, Clone)]
pub struct ResolvedAsset {
    pub bytes: Vec<u8>,
    /// Where on disk it was found; `None` for the built-in theme.
    pub on_disk: Option<String>,
}

/// Why a theme could not be assembled.
#[derive(Debug, Clone, PartialEq, Eq)]
pub enum ThemeError {
    /// The global override directory does not exist.
    GlobalMissing(String),
    /// A site's override directory does not exist: (directory, mount).
    SiteMissing(String, String),
}

impl ThemeError {
    /// The sentence shown to the operator.
    pub fn message(&self) -> (r: String)
        ensures
            r@ == match self {
                ThemeError::GlobalMissing(d) => "global theme directory "@ + d@ + " does not exist"@,
                ThemeError::SiteMissing(d, m) => "per-site theme directory "@ + d@ + " for "@ + m@
                    + " does not exist"@,
            },
    {
        let mut out: Vec<char> = Vec::new();
        match self {
            ThemeError::GlobalMissing(d) => {
                push_str(&mut out, "global theme directory ");
                push_str(&mut out, d.as_str());
                push_str(&mut out, " does not exist");
            },
            ThemeError::SiteMissing(d, m) => {
                push_str(&mut out, "per-site theme directory ");
                push_str(&mut out, d.as_str());
                push_str(&mut out, " for ");
                push_str(&mut out, m.as_str());
                push_str(&mut out, " does not exist");
            },
        }
        string_of(&out)
    }
}

pub open spec fn pair_view(p: (String, String)) -> (Seq<char>, Seq<char>) {
    (p.0@, p.1@)
}

pub open spec fn pairs_view(s: Seq<(String, String)>) -> Seq<(Seq<char>, Seq<char>)> {
    s.map_values(|p: (String, String)| pair_view(p))
}

/// The (mount, directory) entries of the sites that name a theme directory, in order.
pub open spec fn site_theme_entries(sites: Seq<crate::config::SiteConfig>) -> Seq<(Seq<char>, Seq<char>)>
    decreases sites.len(),
{
    if sites.len() == 0 {
        Seq::empty()
    } else {
        let rest = site_theme_entries(sites.drop_last());
        match sites.last().theme {
            Some(d) => rest.push((sites.last().mount->0@, d@)),
            None => rest,
        }
    }
}

/// The first site, in order, whose theme directory is missing.
pub open spec fn first_missing(sites: Seq<crate::config::SiteConfig>, is_dir: Seq<bool>) -> Option<int> {
    if exists|i: int| 0 <= i < sites.len() && sites[i].theme is Some && !is_dir[i] {
        Some(choose|i: int| 0 <= i < sites.len() && sites[i].theme is Some && !is_dir[i]
            && forall|j: int| 0 <= j < i ==> !(sites[j].theme is Some && !is_dir[j]))
    } else {
        None
    }
}

fn insert_pair(v: &mut Vec<(String, String)>, k: String, d: String)
    requires
        keys_increase(pairs_view(old(v)@)),
    ensures
        pairs_view(final(v)@) == keyed_insert(pairs_view(old(v)@), k@, d@),
        keys_increase(pairs_view(final(v)@)),
{
    let ghost s = pairs_view(v@);
    let mut p: usize = 0;
    while p < v.len() && str_lt(v[p].0.as_str(), k.as_str())
        invariant
            p <= v@.len(),
            s == pairs_view(v@),
            forall|j: int| 0 <= j < p ==> lex_lt(#[trigger] s[j].0, k@),
        decreases v.len() - p,
    {
        p += 1;
    }
    proof {
        lemma_keyed_insert_at(s, k@, d@, p as int);
        lemma_keyed_insert_sorted(s, k@, d@);
    }
    if p < v.len() && str_eq(v[p].0.as_str(), k.as_str()) {
        let ghost kv = k@;
        let ghost dv = d@;
        v.remove(p);
        v.insert(p, (k, d));
        assert(pairs_view(v@) =~= s.update(p as int, (kv, dv)));
    } else {
        let ghost kv = k@;
        let ghost dv = d@;
        v.insert(p, (k, d));
        assert(pairs_view(v@) =~= s.insert(p as int, (kv, dv)));
    }
}

/// The directories of (key, directory) entries.
pub open spec fn dirs_of(s: Seq<(Seq<char>, Seq<char>)>) -> Seq<Seq<char>> {
    s.map_values(|p: (Seq<char>, Seq<char>)| p.1)
}

impl ThemeStack {
    /// The theme stack a configuration describes, given whether the global override
    /// directory exists and, per site, whether its theme directory does. A named
    /// directory that does not exist is refused, the global one first.
    pub fn from_config(config: &Config, global_is_dir: bool, site_theme_is_dir: &Vec<bool>) -> (r: Result<ThemeStack, ThemeError>)
        requires
            site_theme_is_dir.len() == config.sites.len(),
            forall|i: int| 0 <= i < config.sites.len() ==> (#[trigger] config.sites@[i]).mount is Some,
        ensures
            match r {
                Ok(t) => {
                    &&& !(config.theme.directory is Some && !global_is_dir)
                    &&& first_missing(config.sites@, site_theme_is_dir@) is None
                    &&& crate::content::site_index::opt_text(t.global_override)
                        == crate::content::site_index::opt_text(config.theme.directory)
                    &&& pairs_view(t.per_site_overrides@) == keyed_fold(Seq::empty(), site_theme_entries(config.sites@))
                },
                Err(ThemeError::GlobalMissing(d)) => (config.theme.directory matches Some(x) && x@ == d@)
                    && !global_is_dir,
                Err(ThemeError::SiteMissing(d, m)) => !(config.theme.directory is Some && !global_is_dir)
                    && (first_missing(config.sites@, site_theme_is_dir@) matches Some(i)
                    && (config.sites@[i].theme matches Some(x) && x@ == d@)
                    && (config.sites@[i].mount matches Some(y) && y@ == m@)),
            },
    {
        match &config.theme.directory {
            Some(dir) => if !global_is_dir {
                return Err(ThemeError::GlobalMissing(dir.clone()));
            },
            None => {},
        }
        let mut per_site: Vec<(String, String)> = Vec::new();
        let mut i: usize = 0;
        let ghost sites = config.sites@;
        assert(sites.take(0) =~= Seq::<crate::config::SiteConfig>::empty());
        while i < config.sites.len()
            invariant
                i <= config.sites.len(),
                sites == config.sites@,
                site_theme_is_dir.len() == config.sites.len(),
                forall|k: int| 0 <= k < config.sites.len() ==> (#[trigger] config.sites@[k]).mount is Some,
                forall|j: int| 0 <= j < i ==> !(sites[j].theme is Some && !site_theme_is_dir@[j]),
                !(config.theme.directory is Some && !global_is_dir),
                keys_increase(pairs_view(per_site@)),
                pairs_view(per_site@) == keyed_fold(Seq::empty(), site_theme_entries(sites.take(i as int))),
            decreases config.sites.len() - i,
        {
            let ghost pre = sites.take(i + 1);
            assert(pre.drop_last() =~= sites.take(i as int));
            assert(pre.last() == sites[i as int]);
            let site = &config.sites[i];
            match &site.theme {
                Some(dir) => {
                    if !site_theme_is_dir[i] {
                        proof {
                            let w = choose|w: int| 0 <= w < sites.len() && sites[w].theme is Some && !site_theme_is_dir@[w]
                                && forall|j: int| 0 <= j < w ==> !(sites[j].theme is Some && !site_theme_is_dir@[j]);
                            assert(0 <= i < sites.len() && sites[i as int].theme is Some && !site_theme_is_dir@[i as int]);
                            if w < i {
                                assert(!(sites[w].theme is Some && !site_theme_is_dir@[w]));
                            } else if w > i {
                                assert(!(sites[i as int].theme is Some && !site_theme_is_dir@[i as int]));
                            }
                        }
                        return Err(ThemeError::SiteMissing(dir.clone(), site.mount().to_owned()));
                    }
                    let ghost before = pairs_view(per_site@);
                    let ghost entries = site_theme_entries(pre);
                    assert(entries.drop_last() =~= site_theme_entries(sites.take(i as int)));
                    insert_pair(&mut per_site, site.mount().to_owned(), dir.clone());
                },
                None => {},
            }
            i += 1;
        }
        assert(sites.take(sites.len() as int) =~= sites);
        proof {
            if exists|w: int| 0 <= w < sites.len() && sites[w].theme is Some && !site_theme_is_dir@[w] {
                let w = choose|w: int| 0 <= w < sites.len() && sites[w].theme is Some && !site_theme_is_dir@[w];
                assert(!(sites[w].theme is Some && !site_theme_is_dir@[w]));
            }
        }
        Ok(ThemeStack { global_override: config.theme.directory.clone(), per_site_overrides: per_site })
    }

    /// The directories a live-reload watcher should observe: the global override, then
    /// each per-site override in mount order.
    pub fn watch_dirs(&self) -> (r: Vec<String>)
        ensures
            crate::text::string_seq(r@) == (match self.global_override {
                Some(d) => seq![d@],
                None => Seq::empty(),
            }) + dirs_of(pairs_view(self.per_site_overrides@)),
    {
        let mut dirs: Vec<String> = Vec::new();
        match &self.global_override {
            Some(d) => dirs.push(d.clone()),
            None => {},
        }
        let ghost head = crate::text::string_seq(dirs@);
        let mut i: usize = 0;
        while i < self.per_site_overrides.len()
            invariant
                i <= self.per_site_overrides.len(),
                crate::text::string_seq(dirs@) == head + dirs_of(pairs_view(self.per_site_overrides@).take(i as int)),
            decreases self.per_site_overrides.len() - i,
        {
            let ghost before = crate::text::string_seq(dirs@);
            let d = self.per_site_overrides[i].1.clone();
            assert(d@ == self.per_site_overrides@[i as int].1@);
            dirs.push(d);
            assert(crate::text::string_seq(dirs@) =~= before.push(self.per_site_overrides@[i as int].1@));
            assert(pairs_view(self.per_site_overrides@).take(i + 1) =~= pairs_view(self.per_site_overrides@).take(
                i as int,
            ).push(pair_view(self.per_site_overrides@[i as int])));
            assert(dirs_of(pairs_view(self.per_site_overrides@).take(i + 1)) =~= dirs_of(
                pairs_view(self.per_site_overrides@).take(i as int),
            ).push(self.per_site_overrides@[i as int].1@));
            assert(crate::text::string_seq(dirs@) =~= head + dirs_of(pairs_view(self.per_site_overrides@).take(i + 1)));
            i += 1;
        }
        assert(pairs_view(self.per_site_overrides@).take(self.per_site_overrides@.len() as int) =~= pairs_view(
            self.per_site_overrides@,
        ));
        proof {
            if self.global_override is Some {
                assert(head =~= seq![self.global_override->0@]);
            } else {
                assert(head =~= Seq::<Seq<char>>::empty());
            }
        }
        dirs
    }
}

/// Whether a theme file is a template: under `layouts/` or `partials/`, and an HTML,
/// XML or text file.
pub open spec fn template_path_spec(rel: Seq<char>) -> bool {
    (starts_with(rel, "layouts/"@) || starts_with(rel, "partials/"@)) && (ends_with(rel, ".html"@)
        || ends_with(rel, ".xml"@) || ends_with(rel, ".txt"@))
}

fn ends_with_exec(v: &Vec<char>, p: &str) -> (r: bool)
    ensures
        r == ends_with(v@, p@),
{
    let pv = chars_of(p);
    if pv.len() > v.len() {
        return false;
    }
    let r = crate::text::range_eq(v, v.len() - pv.len(), v.len(), &pv, 0, pv.len());
    proof {
        assert(pv@.subrange(0, pv@.len() as int) =~= pv@);
        assert(v@.skip(v@.len() - pv@.len()) =~= v@.subrange(v@.len() - pv@.len(), v@.len() as int));
    }
    r
}

/// Whether a theme file is a template.
pub fn is_template_path(rel: &str) -> (r: bool)
    ensures
        r == template_path_spec(rel@),
{
    let v = chars_of(rel);
    (crate::server::tls::starts_with_exec(&v, "layouts/") || crate::server::tls::starts_with_exec(&v, "partials/"))
        && (ends_with_exec(&v, ".html") || ends_with_exec(&v, ".xml") || ends_with_exec(&v, ".txt"))
}

/// A template as (logical name, (source, file it was read from)).
pub type TemplateView = (Seq<char>, (Seq<char>, Option<Seq<char>>));

pub open spec fn template_view(e: TemplateEntry) -> TemplateView {
    (e.logical_name@, (e.source@, crate::content::site_index::opt_text(e.on_disk)))
}

pub open spec fn templates_view(s: Seq<TemplateEntry>) -> Seq<TemplateView> {
    s.map_values(|e: TemplateEntry| template_view(e))
}

/// The theme files `files` (named by their path within their layer) filed in turn over
/// `acc`: templates only, each under `prefix` followed by its path.
pub open spec fn template_fold(acc: Seq<TemplateView>, files: Seq<TemplateView>, prefix: Seq<char>) -> Seq<TemplateView>
    decreases files.len(),
{
    if files.len() == 0 {
        acc
    } else {
        let a = template_fold(acc, files.drop_last(), prefix);
        let f = files.last();
        if template_path_spec(f.0) {
            keyed_insert(a, prefix + f.0, f.1)
        } else {
            a
        }
    }
}

/// The logical-name prefix of a site's own templates: `__site`, its mount without the
/// leading slash, and `/`.
pub open spec fn site_template_prefix(mount: Seq<char>) -> Seq<char> {
    "__site"@ + trim_start_char(mount, '/') + "/"@
}

/// The per-site layers' files filed in turn over `acc`, for the first `n` sites.
pub open spec fn site_layers_fold(
    acc: Seq<TemplateView>,
    overrides: Seq<(Seq<char>, Seq<char>)>,
    per_site: Seq<Seq<TemplateView>>,
    n: int,
) -> Seq<TemplateView>
    decreases n,
{
    if n <= 0 {
        acc
    } else {
        let a = site_layers_fold(acc, overrides, per_site, n - 1);
        template_fold(a, per_site[n - 1], site_template_prefix(overrides[n - 1].0))
    }
}

/// The value filed under `k`, if any.
pub open spec fn keyed_get<V>(s: Seq<(Seq<char>, V)>, k: Seq<char>) -> Option<V>
    decreases s.len(),
{
    if s.len() == 0 {
        None
    } else if s[0].0 == k {
        Some(s[0].1)
    } else {
        keyed_get(s.drop_first(), k)
    }
}

proof fn lemma_keyed_get_insert<V>(s: Seq<(Seq<char>, V)>, k: Seq<char>, v: V, q: Seq<char>)
    ensures
        keyed_get(keyed_insert(s, k, v), q) == if q == k { Some(v) } else { keyed_get(s, q) },
    decreases s.len(),
{
    let r = keyed_insert(s, k, v);
    if s.len() == 0 {
        assert(r =~= seq![(k, v)]);
        assert(r.drop_first() =~= Seq::<(Seq<char>, V)>::empty());
        assert(keyed_get(r, q) == if q == k { Some(v) } else { keyed_get(s, q) });
    } else if s[0].0 == k {
        assert(r == s.update(0, (k, v)));
        assert(r.drop_first() =~= s.drop_first());
        assert(r[0] == (k, v));
        assert(keyed_get(r, q) == if q == k { Some(v) } else { keyed_get(s, q) });
    } else if lex_lt(k, s[0].0) {
        assert(r == seq![(k, v)] + s);
        assert(r.drop_first() =~= s);
        assert(r[0] == (k, v));
        assert(keyed_get(r, q) == if q == k { Some(v) } else { keyed_get(s, q) });
    } else {
        lemma_keyed_get_insert(s.drop_first(), k, v, q);
        assert(r == seq![s[0]] + keyed_insert(s.drop_first(), k, v));
        assert(r.drop_first() =~= keyed_insert(s.drop_first(), k, v));
        assert(r[0] == s[0]);
        assert(keyed_get(r, q) == if q == k { Some(v) } else { keyed_get(s, q) });
    }
}

/// What the last of `files` named `name` holds, if one is.
pub open spec fn last_named(files: Seq<TemplateView>, name: Seq<char>) -> Option<(Seq<char>, Option<Seq<char>>)>
    decreases files.len(),
{
    if files.len() == 0 {
        None
    } else if files.last().0 == name {
        Some(files.last().1)
    } else {
        last_named(files.drop_last(), name)
    }
}

proof fn lemma_prefix_cancels(prefix: Seq<char>, a: Seq<char>, b: Seq<char>)
    ensures
        (prefix + a == prefix + b) == (a == b),
{
    if prefix + a == prefix + b {
        assert((prefix + a).skip(prefix.len() as int) =~= a);
        assert((prefix + b).skip(prefix.len() as int) =~= b);
    }
}

/// A layer's template replaces the one of the same name below it: what is filed under
/// `prefix` and a template's name is the last file of that name in the layer, or, when
/// the layer has none, what was filed before.
pub proof fn lemma_later_layer_wins(acc: Seq<TemplateView>, files: Seq<TemplateView>, prefix: Seq<char>, name: Seq<char>)
    ensures
        keyed_get(template_fold(acc, files, prefix), prefix + name) == if template_path_spec(name)
            && last_named(files, name) is Some {
            last_named(files, name)
        } else {
            keyed_get(acc, prefix + name)
        },
    decreases files.len(),
{
    if files.len() > 0 {
        let f = files.last();
        lemma_later_layer_wins(acc, files.drop_last(), prefix, name);
        let a = template_fold(acc, files.drop_last(), prefix);
        if template_path_spec(f.0) {
            lemma_keyed_get_insert(a, prefix + f.0, f.1, prefix + name);
            lemma_prefix_cancels(prefix, name, f.0);
        }
    }
}

/// The site layers file nothing outside `__site…/` names: a base template's name,
/// which does not start with `__site`, keeps what the global stack gave it.
pub proof fn lemma_site_layers_keep_base_names(
    acc: Seq<TemplateView>,
    overrides: Seq<(Seq<char>, Seq<char>)>,
    per_site: Seq<Seq<TemplateView>>,
    n: int,
    name: Seq<char>,
)
    requires
        !(name.len() >= 6 && name.take(6) == "__site"@),
    ensures
        keyed_get(site_layers_fold(acc, overrides, per_site, n), name) == keyed_get(acc, name),
    decreases n,
{
    if n > 0 {
        lemma_site_layers_keep_base_names(acc, overrides, per_site, n - 1, name);
        let a = site_layers_fold(acc, overrides, per_site, n - 1);
        let m = overrides[n - 1].0;
        reveal_strlit("__site");
        assert(site_template_prefix(m).take(6) =~= "__site"@);
        lemma_fold_keeps_foreign(a, per_site[n - 1], site_template_prefix(overrides[n - 1].0), name);
    }
}

proof fn lemma_fold_keeps_foreign(acc: Seq<TemplateView>, files: Seq<TemplateView>, prefix: Seq<char>, name: Seq<char>)
    requires
        prefix.len() >= 6 && prefix.take(6) == "__site"@,
        !(name.len() >= 6 && name.take(6) == "__site"@),
    ensures
        keyed_get(template_fold(acc, files, prefix), name) == keyed_get(acc, name),
    decreases files.len(),
{
    if files.len() > 0 {
        let f = files.last();
        lemma_fold_keeps_foreign(acc, files.drop_last(), prefix, name);
        if template_path_spec(f.0) {
            let a = template_fold(acc, files.drop_last(), prefix);
            lemma_keyed_get_insert(a, prefix + f.0, f.1, name);
            assert((prefix + f.0).take(6) =~= prefix.take(6));
        }
    }
}

/// Templates stack in priority order: a base template's name (one not under
/// `__site…/`) gives the global override's template of that name, else the built-in
/// theme's, whatever the site layers hold; a name that is not a template path gives
/// nothing.
pub proof fn lemma_template_layers_in_priority(
    embedded: Seq<TemplateView>,
    global: Seq<TemplateView>,
    overrides: Seq<(Seq<char>, Seq<char>)>,
    per_site: Seq<Seq<TemplateView>>,
    n: int,
    name: Seq<char>,
)
    requires
        !(name.len() >= 6 && name.take(6) == "__site"@),
    ensures
        keyed_get(
            site_layers_fold(
                template_fold(template_fold(Seq::empty(), embedded, Seq::empty()), global, Seq::empty()),
                overrides,
                per_site,
                n,
            ),
            name,
        ) == if !template_path_spec(name) {
            None
        } else if last_named(global, name) is Some {
            last_named(global, name)
        } else {
            last_named(embedded, name)
        },
{
    let e: Seq<char> = Seq::empty();
    assert(e + name =~= name);
    let base = template_fold(Seq::empty(), embedded, e);
    lemma_site_layers_keep_base_names(template_fold(base, global, e), overrides, per_site, n, name);
    lemma_later_layer_wins(base, global, e, name);
    lemma_later_layer_wins(Seq::empty(), embedded, e, name);
}

fn insert_template(v: &mut Vec<TemplateEntry>, e: TemplateEntry)
    requires
        keys_increase(templates_view(old(v)@)),
    ensures
        templates_view(final(v)@) == keyed_insert(templates_view(old(v)@), e.logical_name@, template_view(e).1),
        keys_increase(templates_view(final(v)@)),
{
    let ghost s = templates_view(v@);
    let ghost k = e.logical_name@;
    let ghost ev = template_view(e);
    let mut p: usize = 0;
    while p < v.len() && str_lt(v[p].logical_name.as_str(), e.logical_name.as_str())
        invariant
            p <= v@.len(),
            s == templates_view(v@),
            k == e.logical_name@,
            forall|j: int| 0 <= j < p ==> lex_lt(#[trigger] s[j].0, k),
        decreases v.len() - p,
    {
        assert(s[p as int] == template_view(v@[p as int]));
        p += 1;
    }
    if p < v.len() {
        assert(s[p as int] == template_view(v@[p as int]));
    }
    proof {
        lemma_keyed_insert_at(s, k, ev.1, p as int);
        lemma_keyed_insert_sorted(s, k, ev.1);
    }
    if p < v.len() && str_eq(v[p].logical_name.as_str(), e.logical_name.as_str()) {
        v.remove(p);
        v.insert(p, e);
        assert(templates_view(v@) =~= s.update(p as int, (k, ev.1)));
    } else {
        v.insert(p, e);
        assert(templates_view(v@) =~= s.insert(p as int, (k, ev.1)));
    }
}

/// File the templates among `files` into `merged`, each named `prefix` + its path.
fn merge_layer(merged: &mut Vec<TemplateEntry>, files: Vec<TemplateEntry>, prefix: &str)
    requires
        keys_increase(templates_view(old(merged)@)),
    ensures
        templates_view(final(merged)@) == template_fold(templates_view(old(merged)@), templates_view(files@), prefix@),
        keys_increase(templates_view(final(merged)@)),
{
    let ghost acc0 = templates_view(merged@);
    let ghost fv = templates_view(files@);
    let mut rest: Vec<TemplateEntry> = Vec::new();
    let mut files = files;
    while files.len() > 0
        invariant
            rest@.len() + files@.len() == fv.len(),
            templates_view(files@) == fv.take(files@.len() as int),
            forall|j: int| 0 <= j < rest@.len() ==> template_view(#[trigger] rest@[j]) == fv[fv.len() - 1 - j],
        decreases files.len(),
    {
        let ghost before = files@;
        let e = files.pop().unwrap();
        assert(before[files@.len() as int] == e);
        assert(templates_view(before)[files@.len() as int] == template_view(e));
        assert(templates_view(files@) =~= fv.take(files@.len() as int));
        let ghost rest_before = rest@;
        rest.push(e);
        assert forall|j: int| 0 <= j < rest@.len() implies template_view(#[trigger] rest@[j]) == fv[fv.len() - 1 - j] by {
            if j < rest_before.len() {
                assert(rest@[j] == rest_before[j]);
            }
        }
    }
    let n = rest.len();
    let mut i: usize = 0;
    assert(fv.take(0) =~= Seq::<TemplateView>::empty());
    while i < n
        invariant
            rest@.len() + i == n,
            n == fv.len(),
            i <= n,
            forall|j: int| 0 <= j < rest@.len() ==> template_view(#[trigger] rest@[j]) == fv[fv.len() - 1 - j],
            keys_increase(templates_view(merged@)),
            templates_view(merged@) == template_fold(acc0, fv.take(i as int), prefix@),
        decreases n - i,
    {
        let ghost rest_before = rest@;
        let e = rest.pop().unwrap();
        assert(rest_before[rest@.len() as int] == e);
        assert(template_view(e) == fv[i as int]);
        let ghost pre = fv.take(i + 1);
        assert(pre.drop_last() =~= fv.take(i as int));
        assert(pre.last() == fv[i as int]);
        if is_template_path(e.logical_name.as_str()) {
            let mut name: Vec<char> = chars_of(prefix);
            let nv = chars_of(e.logical_name.as_str());
            push_all(&mut name, &nv);
            let named = TemplateEntry { logical_name: string_of(&name), source: e.source, on_disk: e.on_disk };
            insert_template(merged, named);
        }
        i += 1;
    }
    assert(fv.take(n as int) =~= fv);
}

impl ThemeStack {
    /// The templates the renderer loads, by logical name in name order: the built-in
    /// theme's, replaced by the global override's of the same name, and each site's own
    /// under `__site<mount>/`. Each layer is given as the files read from it, named by
    /// their path within the layer (`per_site_files[i]` from the `i`-th per-site
    /// override); files that are not templates are skipped.
    pub fn template_files(
        &self,
        embedded_files: Vec<TemplateEntry>,
        global_files: Vec<TemplateEntry>,
        per_site_files: Vec<Vec<TemplateEntry>>,
    ) -> (r: Vec<TemplateEntry>)
        requires
            per_site_files.len() == self.per_site_overrides.len(),
        ensures
            templates_view(r@) == site_layers_fold(
                template_fold(
                    template_fold(Seq::empty(), templates_view(embedded_files@), Seq::empty()),
                    templates_view(global_files@),
                    Seq::empty(),
                ),
                pairs_view(self.per_site_overrides@),
                per_site_files@.map_values(|v: Vec<TemplateEntry>| templates_view(v@)),
                per_site_files.len() as int,
            ),
            keys_increase(templates_view(r@)),
    {
        proof {
            reveal_strlit("");
        }
        assert(""@ =~= Seq::<char>::empty());
        let mut merged: Vec<TemplateEntry> = Vec::new();
        assert(templates_view(merged@) =~= Seq::<TemplateView>::empty());
        merge_layer(&mut merged, embedded_files, "");
        merge_layer(&mut merged, global_files, "");
        let ghost base = templates_view(merged@);
        let ghost ps = per_site_files@.map_values(|v: Vec<TemplateEntry>| templates_view(v@));
        let n = per_site_files.len();
        let mut rest: Vec<Vec<TemplateEntry>> = Vec::new();
        let mut files = per_site_files;
        while files.len() > 0
            invariant
                rest@.len() + files@.len() == n,
                files@.map_values(|v: Vec<TemplateEntry>| templates_view(v@)) == ps.take(files@.len() as int),
                ps.len() == n,
                forall|j: int| 0 <= j < rest@.len() ==> templates_view((#[trigger] rest@[j])@) == ps[n - 1 - j],
            decreases files.len(),
        {
            let ghost before = files@;
            let e = files.pop().unwrap();
            assert(before[files@.len() as int] == e);
            assert(before.map_values(|v: Vec<TemplateEntry>| templates_view(v@))[files@.len() as int] == templates_view(e@));
            assert(files@.map_values(|v: Vec<TemplateEntry>| templates_view(v@)) =~= ps.take(files@.len() as int));
            let ghost rest_before = rest@;
            rest.push(e);
            assert forall|j: int| 0 <= j < rest@.len() implies templates_view((#[trigger] rest@[j])@) == ps[n - 1 - j] by {
                if j < rest_before.len() {
                    assert(rest@[j] == rest_before[j]);
                }
            }
        }
        let mut i: usize = 0;
        while i < n
            invariant
                i <= n,
                n == rest@.len() + i,
                n == self.per_site_overrides@.len(),
                ps.len() == n,
                forall|j: int| 0 <= j < rest@.len() ==> templates_view((#[trigger] rest@[j])@) == ps[n - 1 - j],
                keys_increase(templates_view(merged@)),
                templates_view(merged@) == site_layers_fold(base, pairs_view(self.per_site_overrides@), ps, i as int),
            decreases n - i,
        {
            let ghost rest_before = rest@;
            let layer = rest.pop().unwrap();
            assert(rest_before[rest@.len() as int] == layer);
            assert(templates_view(layer@) == ps[i as int]);
            let mount = &self.per_site_overrides[i].0;
            let mv = chars_of(mount.as_str());
            let trimmed = crate::acl::index::trim_start_char_vec(&mv, '/');
            let mut prefix: Vec<char> = Vec::new();
            push_str(&mut prefix, "__site");
            push_all(&mut prefix, &trimmed);
            prefix.push('/');
            proof {
                reveal_strlit("__site");
                reveal_strlit("/");
            }
            assert(prefix@ =~= site_template_prefix(pairs_view(self.per_site_overrides@)[i as int].0));
            let prefix_s = string_of(&prefix);
            merge_layer(&mut merged, layer, prefix_s.as_str());
            i += 1;
        }
        merged
    }
}

/// The clean relative path an asset request names: leading slashes dropped, and no
/// empty, `.` or `..` segment left in it.
pub open spec fn sanitize_spec(relative: Seq<char>) -> Option<Seq<char>> {
    let t = trim_start_char(relative, '/');
    if t.len() == 0 || exists|i: int| 0 <= i < split_char(t, '/').len() && (#[trigger] split_char(t, '/')[i].len() == 0
        || split_char(t, '/')[i] == "."@ || split_char(t, '/')[i] == ".."@) {
        None
    } else {
        Some(t)
    }
}

/// The clean relative path an asset request names, or `None` when it names none.
pub fn sanitize_relative(relative: &str) -> (r: Option<String>)
    ensures
        match r {
            Some(s) => sanitize_spec(relative@) == Some(s@),
            None => sanitize_spec(relative@) is None,
        },
{
    proof {
        reveal_strlit(".");
        reveal_strlit("..");
    }
    let v = chars_of(relative);
    let t = crate::acl::index::trim_start_char_vec(&v, '/');
    if t.len() == 0 {
        return None;
    }
    let parts = split_vec(&t, '/');
    let mut i: usize = 0;
    while i < parts.len()
        invariant
            i <= parts.len(),
            v@ == relative@,
            t@ == trim_start_char(v@, '/'),
            t@.len() > 0,
            views(parts@) == split_char(t@, '/'),
            forall|j: int| 0 <= j < i ==> !((#[trigger] split_char(t@, '/')[j]).len() == 0 || split_char(t@, '/')[j] == "."@
                || split_char(t@, '/')[j] == ".."@),
        decreases parts.len() - i,
    {
        proof {
            reveal_strlit(".");
            reveal_strlit("..");
        }
        assert(views(parts@)[i as int] == parts@[i as int]@);
        let seg = &parts[i];
        let bad = seg.len() == 0 || (seg.len() == 1 && seg[0] == '.') || (seg.len() == 2 && seg[0] == '.' && seg[1] == '.');
        if bad {
            proof {
                if seg@.len() == 1 {
                    assert(seg@ =~= "."@);
                } else if seg@.len() == 2 {
                    assert(seg@ =~= ".."@);
                }
                assert(split_char(t@, '/')[i as int] == seg@);
            }
            return None;
        }
        assert(seg@ != "."@ && seg@ != ".."@) by {
            if seg@ == "."@ {
                assert(seg@.len() == 1 && seg@[0] == '.');
            }
            if seg@ == ".."@ {
                assert(seg@.len() == 2 && seg@[0] == '.' && seg@[1] == '.');
            }
        }
        i += 1;
    }
    Some(string_of(&t))
}

proof fn lemma_trim_start_char_head(s: Seq<char>, c: char)
    ensures
        trim_start_char(s, c).len() > 0 ==> trim_start_char(s, c)[0] != c,
    decreases s.len(),
{
    if s.len() > 0 && s[0] == c {
        lemma_trim_start_char_head(s.drop_first(), c);
    }
}

/// The override directory for `mount`, if it has one.
pub open spec fn site_dir(overrides: Seq<(Seq<char>, Seq<char>)>, mount: Seq<char>) -> Option<Seq<char>>
    decreases overrides.len(),
{
    if overrides.len() == 0 {
        None
    } else if overrides[0].0 == mount {
        Some(overrides[0].1)
    } else {
        site_dir(overrides.drop_first(), mount)
    }
}

/// The directories an asset is looked for in, in order: the site's own override, then
/// the global one.
pub open spec fn asset_layers(overrides: Seq<(Seq<char>, Seq<char>)>, global: Option<Seq<char>>, mount: Option<Seq<char>>) -> Seq<Seq<char>> {
    let site = match mount {
        Some(m) => match site_dir(overrides, m) {
            Some(d) => seq![d],
            None => Seq::empty(),
        },
        None => Seq::empty(),
    };
    site + match global {
        Some(g) => seq![g],
        None => Seq::empty(),
    }
}

/// Whether reading `path` may have given `out`.
pub open spec fn read_gave<F: Fn(&String) -> Option<Vec<u8>>>(read: F, path: Seq<char>, out: Option<Vec<u8>>) -> bool {
    exists|p: &String| p@ == path && #[trigger] read.ensures((p,), out)
}

/// What looking an asset up gave: the first layer whose file could be read, after
/// every earlier layer's could not; or, when none could, what the built-in theme gave.
pub open spec fn asset_outcome<F: Fn(&String) -> Option<Vec<u8>>, G: Fn(&String) -> Option<Vec<u8>>>(
    read_file: F,
    read_embedded: G,
    layers: Seq<Seq<char>>,
    safe: Seq<char>,
    r: Option<ResolvedAsset>,
) -> bool {
    (exists|k: int| #![trigger layers[k]] 0 <= k < layers.len() && (r matches Some(a) && a.on_disk matches Some(d)
        && d@ == join_path_spec(layers[k], safe) && read_gave(read_file, d@, Some(a.bytes)))
        && forall|j: int| 0 <= j < k ==> read_gave(read_file, #[trigger] join_path_spec(layers[j], safe), None))
    || ((forall|j: int| 0 <= j < layers.len() ==> read_gave(read_file, #[trigger] join_path_spec(layers[j], safe), None))
        && (match r {
            Some(a) => a.on_disk is None && read_gave(read_embedded, safe, Some(a.bytes)),
            None => read_gave(read_embedded, safe, None),
        }))
}

fn site_dir_exec(overrides: &Vec<(String, String)>, mount: &str) -> (r: Option<String>)
    ensures
        match r {
            Some(d) => site_dir(pairs_view(overrides@), mount@) == Some(d@),
            None => site_dir(pairs_view(overrides@), mount@) is None,
        },
{
    let mut i: usize = 0;
    assert(pairs_view(overrides@).skip(0) =~= pairs_view(overrides@));
    while i < overrides.len()
        invariant
            i <= overrides.len(),
            site_dir(pairs_view(overrides@), mount@) == site_dir(pairs_view(overrides@).skip(i as int), mount@),
        decreases overrides.len() - i,
    {
        assert(pairs_view(overrides@).skip(i as int).drop_first() =~= pairs_view(overrides@).skip(i + 1));
        if str_eq(overrides[i].0.as_str(), mount) {
            return Some(overrides[i].1.clone());
        }
        i += 1;
    }
    None
}

impl ThemeStack {
    /// Resolve a theme asset at `relative` for the site at `mount`: looked for under the
    /// site's own override directory, then the global one, then in the built-in theme.
    /// `read_file` reads a file on disk and `read_embedded` a file of the built-in
    /// theme; each gives `None` when there is nothing to read.
    pub fn resolve_asset<F, G>(&self, mount: Option<&str>, relative: &str, read_file: F, read_embedded: G) -> (r: Option<ResolvedAsset>)
        where
            F: Fn(&String) -> Option<Vec<u8>>,
            G: Fn(&String) -> Option<Vec<u8>>,
        requires
            forall|p: &String| read_file.requires((p,)),
            forall|p: &String| read_embedded.requires((p,)),
        ensures
            match sanitize_spec(relative@) {
                None => r is None,
                Some(safe) => asset_outcome(
                    read_file,
                    read_embedded,
                    asset_layers(
                        pairs_view(self.per_site_overrides@),
                        crate::content::site_index::opt_text(self.global_override),
                        match mount { Some(m) => Some(m@), None => None },
                    ),
                    safe,
                    r,
                ),
            },
    {
        let safe = match sanitize_relative(relative) {
            Some(s) => s,
            None => return None,
        };
        let mut layers: Vec<String> = Vec::new();
        match mount {
            Some(m) => match site_dir_exec(&self.per_site_overrides, m) {
                Some(d) => layers.push(d),
                None => {},
            },
            None => {},
        }
        match &self.global_override {
            Some(g) => layers.push(g.clone()),
            None => {},
        }
        let ghost lv = crate::text::string_seq(layers@);
        assert(lv =~= asset_layers(
            pairs_view(self.per_site_overrides@),
            crate::content::site_index::opt_text(self.global_override),
            match mount { Some(m) => Some(m@), None => None },
        ));
        let sv = chars_of(safe.as_str());
        proof {
            lemma_trim_start_char_head(relative@, '/');
        }
        assert(safe@.len() == 0 || safe@[0] != '/');
        let mut i: usize = 0;
        while i < layers.len()
            invariant
                i <= layers.len(),
                lv == crate::text::string_seq(layers@),
                sv@ == safe@,
                sanitize_spec(relative@) == Some(safe@),
                lv == asset_layers(
                    pairs_view(self.per_site_overrides@),
                    crate::content::site_index::opt_text(self.global_override),
                    match mount { Some(m) => Some(m@), None => None },
                ),
                safe@.len() == 0 || safe@[0] != '/',
                forall|p: &String| read_file.requires((p,)),
                forall|j: int| 0 <= j < i ==> read_gave(read_file, #[trigger] join_path_spec(lv[j], safe@), None),
            decreases layers.len() - i,
        {
            assert(lv[i as int] == layers@[i as int]@);
            let dv = chars_of(layers[i].as_str());
            let mut path: Vec<char> = Vec::new();
            push_all(&mut path, &dv);
            if dv.len() > 0 && dv[dv.len() - 1] != '/' {
                path.push('/');
            }
            push_all(&mut path, &sv);
            assert(path@ =~= join_path_spec(lv[i as int], safe@));
            let path_s = string_of(&path);
            let got = read_file(&path_s);
            match got {
                Some(bytes) => {
                    let ghost b = bytes;
                    assert(read_gave(read_file, path_s@, Some(b)));
                    assert(0 <= i < lv.len() && join_path_spec(lv[i as int], safe@) == path_s@);
                    let res = Some(ResolvedAsset { bytes, on_disk: Some(path_s) });
                    assert(asset_outcome(read_file, read_embedded, lv, safe@, res)) by {
                        assert(lv[i as int] == lv[i as int]);
                    }
                    return res;
                },
                None => {
                    assert(read_gave(read_file, path_s@, None));
                },
            }
            i += 1;
        }
        let got = read_embedded(&safe);
        match got {
            Some(bytes) => {
                let ghost b = bytes;
                assert(read_gave(read_embedded, safe@, Some(b)));
                Some(ResolvedAsset { bytes, on_disk: None })
            },
            None => {
                assert(read_gave(read_embedded, safe@, None));
                None
            },
        }
    }
}

/// Theme layers stack in priority order: a site's own override directory is looked in
/// first, the global override after it, and the built-in theme only when no layer's file
/// could be read. A site without an override, or a request with no site, starts at the
/// global layer.
pub proof fn lemma_theme_layers_in_priority(
    overrides: Seq<(Seq<char>, Seq<char>)>,
    global: Option<Seq<char>>,
    mount: Option<Seq<char>>,
)
    ensures
        ({
            let layers = asset_layers(overrides, global, mount);
            let site = match mount {
                Some(m) => site_dir(overrides, m),
                None => None,
            };
            &&& layers.len() == (if site is Some { 1int } else { 0int }) + (if global is Some { 1int } else { 0int })
            &&& site matches Some(d) ==> layers[0] == d
            &&& global matches Some(g) ==> layers[layers.len() - 1] == g
            &&& site is None ==> (global matches Some(g) ==> layers == seq![g])
        }),
{
}

/// An asset request never climbs out of the theme: a request with a `..` (or `.`,
/// or empty) segment is refused, and what is accepted is a relative path, not
/// starting with `/`, whose every segment names something.
#[verifier::spinoff_prover]
pub proof fn lemma_asset_paths_stay_inside(relative: Seq<char>)
    ensures
        (exists|i: int| 0 <= i < split_char(trim_start_char(relative, '/'), '/').len()
            && #[trigger] split_char(trim_start_char(relative, '/'), '/')[i] == ".."@) ==> sanitize_spec(relative) is None,
        sanitize_spec(relative) matches Some(t) ==> {
            &&& t.len() > 0
            &&& t[0] != '/'
            &&& forall|i: int| 0 <= i < split_char(t, '/').len() ==> {
                let seg = #[trigger] split_char(t, '/')[i];
                seg.len() > 0 && seg != "."@ && seg != ".."@
            }
        },
{
    lemma_trim_start_char_head(relative, '/');
}

} // verus!
