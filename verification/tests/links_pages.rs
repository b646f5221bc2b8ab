use mdshelf::links::pages::{denied, reading_view_fallback, reload_script, shares_page, ShareRow};
use mdshelf::render::templates::{
    ConfigSummary, LinkBannerContext, LinkPageContext, LinkSiteContext, LinkTemplateContext,
};

#[test]
fn the_deny_page_is_one_fixed_string() {
    assert_eq!(denied(), denied());
    assert!(!denied().is_empty());
}

#[test]
fn the_deny_page_names_nothing_about_the_request() {
    let page = denied();
    for leak in ["/docs", "/s/", "issued", "http://", "https://"] {
        assert!(
            !page.contains(leak),
            "the deny page must not contain {leak:?}"
        );
    }
    for (index, _) in page.match_indices('@') {
        let tail = &page[index + 1..];
        assert!(
            tail.starts_with("media"),
            "unexpected `@` in the deny page at byte {index}: {}",
            &tail[..tail.len().min(40)]
        );
    }
    assert!(page.contains("noindex"));
}

#[test]
fn the_shares_page_lists_each_link_with_a_revoke_control() {
    let empty = shares_page("ana@corp.com", &[]);
    assert!(empty.contains("You have no live links."));
    assert!(empty.contains("Signed in as ana@corp.com"));
    let rows = vec![ShareRow {
        id: "0aff10".to_string(),
        page: "/docs/<hr>".to_string(),
        expires_in: "3 days".to_string(),
    }];
    let page = shares_page("ana@corp.com", &rows);
    assert!(page.contains("data-revoke=\"0aff10\""));
    assert!(page.contains("/docs/&lt;hr&gt;"));
    assert!(page.contains("<td>in 3 days</td>"));
    assert!(!page.contains("You have no live links."));
}

#[test]
fn the_reading_view_escapes_its_banner_and_keeps_the_body() {
    let ctx = LinkTemplateContext {
        page: LinkPageContext {
            title: "Pay <bands>".to_string(),
            html: "<h1>Pay</h1>".to_string(),
        },
        banner: LinkBannerContext {
            issuer: "ana@corp.com".to_string(),
            expires_in: "20 hours".to_string(),
        },
        site: LinkSiteContext { color: "#10b981".to_string() },
        reload_script: reload_script("/s/tok/__reload"),
        live_reload: false,
        config: ConfigSummary { version: "1".to_string(), theme_name: None },
    };
    let page = reading_view_fallback(&ctx);
    assert!(page.contains("<title>Pay &lt;bands&gt;</title>"));
    assert!(page.contains("<h1>Pay</h1>"));
    assert!(page.contains("Shared by ana@corp.com &middot; expires in 20 hours"));
    assert!(!page.contains("<script>"));
    assert!(ctx.reload_script.contains("\"/s/tok/__reload\""));
}

#[test]
fn the_reload_path_is_embedded_as_an_escaped_json_string() {
    let script = reload_script("/s/a\"b\\c\u{1}\n");
    assert!(script.contains("\"/s/a\\\"b\\\\c\\u0001\\n\""), "got: {script}");
}
