//! The signed-in viewer's share endpoint: who may share which page, and with what expiry.
//! The issuer recorded on a link is always the session's address, never one taken from
//! the request, so nobody can mint a link in somebody else's name.
use vstd::prelude::*;

use crate::acl::resolver::{verdict, Decision};
use crate::content::Site;
use crate::links::commands::{
    mounted_target, relative_target, resolve_target, resolve_target_spec, site_key, TargetOutcome,
};
use crate::links::{expiry_computable, expiry_spec, expiry_text, opt_text, resolve_expiry, LinkSettings};

verus! {

/// What the share endpoint answers a request to share a page, before any link exists.
#[derive(Debug, Clone, PartialEq, Eq)]
pub enum ShareAnswer {
    /// Sign-in is not configured on this server: the endpoint does not exist (404).
    Unavailable,
    /// No signed-in viewer: `sign in first` (401).
    SignIn,
    /// `not found` (404): links are switched off, or the page does not exist, or the
    /// viewer may not read it. The three are one answer, so a page one may not read
    /// cannot be told from one that does not exist.
    NotFound,
    /// The requested expiry is refused (400), with the reason in words.
    BadRequest(String),
    /// Mint a link to `path` in the site keyed `site`, expiring at `expires_at`, issued
    /// by the signed-in viewer.
    Mint { site: String, path: String, expires_at: i64, issuer: String },
}

/// A share answer as values.
pub ghost enum ShareView {
    Unavailable,
    SignIn,
    NotFound,
    BadRequest(Seq<char>),
    Mint(Seq<char>, Seq<char>, int, Seq<char>),
}

pub open spec fn share_view(a: ShareAnswer) -> ShareView {
    match a {
        ShareAnswer::Unavailable => ShareView::Unavailable,
        ShareAnswer::SignIn => ShareView::SignIn,
        ShareAnswer::NotFound => ShareView::NotFound,
        ShareAnswer::BadRequest(m) => ShareView::BadRequest(m@),
        ShareAnswer::Mint { site, path, expires_at, issuer } => ShareView::Mint(site@, path@, expires_at as int, issuer@),
    }
}

/// The answer to a share request for the page at `url`, from `issuer` (the session's
/// address, `None` without one), at `now`: refused without sign-in; `NotFound` when
/// links are off, when `url` names no page, or when the issuer's own rules do not let
/// them read it; else the expiry asked for (`for_duration` or `until`, or the default),
/// refused with its reason when it breaks a rule.
pub open spec fn share_spec(
    auth_on: bool,
    issuer: Option<Seq<char>>,
    links: LinkSettings,
    sites: Seq<Site>,
    url: Seq<char>,
    for_duration: Option<Seq<char>>,
    until: Option<Seq<char>>,
    now: int,
) -> ShareView {
    if !auth_on {
        ShareView::Unavailable
    } else {
        match issuer {
            None => ShareView::SignIn,
            Some(who) => if !links.enabled {
                ShareView::NotFound
            } else {
                match resolve_target_spec(sites, url) {
                    TargetOutcome::Found(i, p) => if verdict(sites[i].acl.chain_of(p.rel_path@), who)
                        == Decision::Allow {
                        match expiry_spec(links, for_duration, until, now) {
                            Ok(at) => ShareView::Mint(sites[i].root@, p.rel_path@, at, who),
                            Err(e) => ShareView::BadRequest(expiry_text(e)),
                        }
                    } else {
                        ShareView::NotFound
                    },
                    _ => ShareView::NotFound,
                }
            },
        }
    }
}

proof fn lemma_mounted_in_range(sites: Seq<Site>, path: Seq<char>, from: int)
    ensures
        mounted_target(sites, path, from) matches Some((i, _)) ==> 0 <= i < sites.len(),
    decreases sites.len() - from,
{
    if 0 <= from < sites.len() {
        lemma_mounted_in_range(sites, path, from + 1);
    }
}

proof fn lemma_relative_in_range(sites: Seq<Site>, relative: Seq<char>, from: int)
    ensures
        relative_target(sites, relative, from) matches Some((i, _)) ==> 0 <= i < sites.len(),
    decreases sites.len() - from,
{
    if 0 <= from < sites.len() {
        lemma_relative_in_range(sites, relative, from + 1);
    }
}

/// See [`share_spec`]. `auth_on` says whether sign-in is configured; the expiry's
/// arithmetic must fit in 64 bits.
pub fn share_request(
    auth_on: bool,
    issuer: Option<&str>,
    links: &LinkSettings,
    sites: &Vec<Site>,
    url: &str,
    for_duration: Option<&str>,
    until: Option<&str>,
    now: i64,
) -> (r: ShareAnswer)
    requires
        expiry_computable(*links, opt_text(for_duration), opt_text(until), now as int),
    ensures
        share_view(r) == share_spec(
            auth_on,
            opt_text(issuer),
            *links,
            sites@,
            url@,
            opt_text(for_duration),
            opt_text(until),
            now as int,
        ),
{
    if !auth_on {
        return ShareAnswer::Unavailable;
    }
    let who = match issuer {
        Some(w) => w,
        None => return ShareAnswer::SignIn,
    };
    if !links.enabled {
        return ShareAnswer::NotFound;
    }
    let target = match resolve_target(sites, url) {
        Ok(t) => t,
        Err(_) => return ShareAnswer::NotFound,
    };
    proof {
        let t = crate::text::trim(url@);
        lemma_mounted_in_range(sites@, t, 0);
        lemma_relative_in_range(sites@, crate::text::trim_start_char(t, '/'), 0);
    }
    let site = &sites[target.site];
    if !site.allows_path(target.rel_path.as_str(), Some(who)) {
        return ShareAnswer::NotFound;
    }
    match resolve_expiry(links, for_duration, until, now) {
        Ok(expires_at) => ShareAnswer::Mint {
            site: site_key(site),
            path: target.rel_path,
            expires_at,
            issuer: who.to_owned(),
        },
        Err(e) => ShareAnswer::BadRequest(e.message()),
    }
}

/// A link is minted only in the signed-in viewer's own name, for a page their own rules
/// let them read; a page they may not read gets the very answer a page that does not
/// exist gets.
pub proof fn lemma_share_only_what_the_issuer_reads(
    issuer: Option<Seq<char>>,
    links: LinkSettings,
    sites: Seq<Site>,
    url: Seq<char>,
    for_duration: Option<Seq<char>>,
    until: Option<Seq<char>>,
    now: int,
)
    ensures
        ({
            let a = share_spec(true, issuer, links, sites, url, for_duration, until, now);
            &&& a matches ShareView::Mint(site, path, _, who) ==> {
                &&& issuer == Some(who)
                &&& resolve_target_spec(sites, url) matches TargetOutcome::Found(i, p)
                &&& site == sites[i].root@ && path == p.rel_path@
                &&& verdict(sites[i].acl.chain_of(path), who) == Decision::Allow
            }
            &&& (issuer matches Some(who) && links.enabled && (resolve_target_spec(sites, url) matches TargetOutcome::Found(
                i,
                p,
            ) && verdict(sites[i].acl.chain_of(p.rel_path@), who) != Decision::Allow)) ==> a == ShareView::NotFound
            &&& (issuer is Some && links.enabled && !(resolve_target_spec(sites, url) is Found)) ==> a == ShareView::NotFound
        }),
{
}

} // verus!
