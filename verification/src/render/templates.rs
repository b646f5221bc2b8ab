//! The values handed to page templates.
use vstd::prelude::*;

verus! {

/// The home page: every site and the server's own summary.
#[derive(Debug, Clone)]
pub struct HomeTemplateContext {
    pub all_sites: Vec<SiteListEntry>,
    pub config: ConfigSummary,
    pub live_reload: bool,
}

/// The reading view a share link serves.
#[derive(Debug, Clone)]
pub struct LinkTemplateContext {
    pub page: LinkPageContext,
    pub banner: LinkBannerContext,
    pub site: LinkSiteContext,
    pub reload_script: String,
    pub live_reload: bool,
    pub config: ConfigSummary,
}

/// The shared page: its title and rendered body.
#[derive(Debug, Clone)]
pub struct LinkPageContext {
    pub title: String,
    pub html: String,
}

/// The banner above a shared page: who shared it and how long it has left.
#[derive(Debug, Clone)]
pub struct LinkBannerContext {
    pub issuer: String,
    pub expires_in: String,
}

/// The shared page's site, as far as the reading view shows it.
#[derive(Debug, Clone)]
pub struct LinkSiteContext {
    pub color: String,
}

/// An error page.
#[derive(Debug, Clone)]
pub struct ErrorTemplateContext {
    pub status: u16,
    pub title: String,
    pub message: String,
    pub all_sites: Vec<SiteListEntry>,
    pub config: ConfigSummary,
    pub live_reload: bool,
}

/// The site a page belongs to.
#[derive(Debug, Clone)]
pub struct SiteContext {
    pub title: String,
    pub mount: String,
    pub root_url: String,
    pub color: String,
}

/// One step of a breadcrumb trail.
#[derive(Debug, Clone)]
pub struct Crumb {
    pub title: String,
    pub url: String,
}

/// The previous or next page.
#[derive(Debug, Clone)]
pub struct NeighborContext {
    pub title: String,
    pub url: String,
}

/// A site as the home page lists it.
#[derive(Debug, Clone)]
pub struct SiteListEntry {
    pub title: String,
    pub mount: String,
    pub url: String,
    pub page_count: usize,
    pub color: String,
}

/// The server's version and theme.
#[derive(Debug, Clone)]
pub struct ConfigSummary {
    pub version: String,
    pub theme_name: Option<String>,
}

/// A theme template, by its logical name.
#[derive(Debug, Clone)]
pub struct TemplateEntry {
    pub logical_name: String,
    pub source: String,
    pub on_disk: Option<String>,
}

} // verus!
