use mdshelf::content::page::in_vault_relative;
use mdshelf::content::attrs::{rewrite_attribute_urls, visit_attribute_urls};
use mdshelf::acl::frontmatter::FmValue;
use mdshelf::content::page::{page_source, Page};
use mdshelf::render::markdown::{Heading, Rendered};
use mdshelf::content::page::{
    compose_source_text, content_disposition_attachment, derive_title_from_path,
    escape_for_script_block, humanize, join_url, normalize_source, page_lookup_keys,
};

/// Rewrite with a mapper, as the server does: ask the mapper about each URL attribute
/// in order, and splice in what it answers.
fn rewrite_with(html: &str, mut map: impl FnMut(&str) -> Option<String>) -> String {
    let replacements: Vec<Option<String>> =
        visit_attribute_urls(html).iter().map(|url| map(url)).collect();
    rewrite_attribute_urls(html, &replacements)
}

#[test]
fn the_scanner_finds_only_real_url_attributes() {
    let html = [
        "<p>write href=&quot;/docs/not-an-attribute&quot; in prose</p>",
        "<img src=\"/docs/img/a.png\" data-src=\"/docs/img/decoy.png\">",
        "<a href='/docs/other'>x</a>",
        "<video poster=\"/docs/img/b.jpg\"></video>",
        "<div class=\"src\">nope</div>",
    ]
    .concat();
    let html = html.as_str();
    let mut found = Vec::new();
    for url in visit_attribute_urls(html) {
        found.push(url.to_string());
    }
    assert_eq!(
        found,
        vec!["/docs/img/a.png", "/docs/other", "/docs/img/b.jpg"],
        "data-src, prose, and a class named `src` are not URL attributes"
    );
}

#[test]
fn rewriting_replaces_only_what_the_mapper_claims() {
    let html = "<img src=\"/docs/a.png\"><a href=\"https://example.com\">x</a>";
    let rewritten = rewrite_with(html, |url| {
        url.strip_prefix("/docs/")
            .map(|tail| format!("/s/tok/{tail}"))
    });
    assert_eq!(
        rewritten,
        "<img src=\"/s/tok/a.png\"><a href=\"https://example.com\">x</a>"
    );
}

fn unescape_from_script_block(text: &str) -> String {
    let mut out = String::with_capacity(text.len());
    let mut chars = text.chars();
    while let Some(ch) = chars.next() {
        if ch == '\\' {
            if let Some(next) = chars.next() {
                out.push(next);
            }
        } else {
            out.push(ch);
        }
    }
    out
}

#[test]
fn escaping_a_script_block_is_invertible() {
    for source in [
        "",
        "plain prose",
        "an example: </script> ends a block",
        "</SCRIPT> and </script and </ alone",
        "<!-- an html comment --> in markdown",
        "<!-- unterminated",
        "a lone \\ backslash",
        "a double \\\\ backslash",
        "the literal three characters <\\/ verbatim",
        "\\<\\/script\\>",
        "<div>markup</div>\n```html\n<!--x--></script>\n```\n",
        "unicode ok: настройка — <!--",
        "<",
        "\\",
    ] {
        let escaped = escape_for_script_block(source);
        assert_eq!(
            unescape_from_script_block(&escaped),
            source,
            "round-trip failed for {source:?} (escaped to {escaped:?})"
        );
    }
}

#[test]
fn escaping_neutralizes_every_sequence_that_escapes_a_script_element() {
    let escaped = escape_for_script_block("</script><!--");
    assert_eq!(escaped, "<\\/script><\\!--");
    assert!(
        !escaped.contains("</"),
        "a closing-tag opener survived: {escaped:?}"
    );
    assert!(
        !escaped.contains("<!--"),
        "a comment opener survived: {escaped:?}"
    );
}

#[test]
fn a_body_that_opens_with_an_h1_is_emitted_untouched() {
    let body = "# Setup\n\nInstall it.\n";
    assert_eq!(compose_source_text(body, "Frontmatter Title", true), body);
}

#[test]
fn a_body_whose_first_heading_is_not_an_h1_gains_a_title() {
    let body = "## Details\n\nText.\n";
    assert_eq!(
        compose_source_text(body, "Setup", false),
        "# Setup\n\n## Details\n\nText.\n"
    );
}

#[test]
fn a_body_with_no_heading_at_all_gains_a_title() {
    assert_eq!(
        compose_source_text("Just a paragraph.\n", "Setup", false),
        "# Setup\n\nJust a paragraph.\n"
    );
}

#[test]
fn an_empty_body_becomes_a_lone_title() {
    assert_eq!(compose_source_text("", "Setup", false), "# Setup\n");
    assert_eq!(compose_source_text("", "Setup", true), "# Setup\n");
}

#[test]
fn normalizing_a_source_fixes_line_endings_and_the_trailing_newline() {
    assert_eq!(normalize_source("a\r\nb\r\n"), "a\nb\n");
    assert_eq!(normalize_source("a\n\n\n"), "a\n");
    assert_eq!(normalize_source("a"), "a\n");
    assert_eq!(normalize_source("a\n"), "a\n");
    assert_eq!(normalize_source(""), "");
    assert_eq!(normalize_source("\n\n"), "");
    assert_eq!(
        normalize_source("    indented\n"),
        "    indented\n",
        "leading whitespace is load-bearing inside an indented code block"
    );
}

#[test]
fn a_content_disposition_names_the_file_on_every_client() {
    assert_eq!(
        content_disposition_attachment("setup.md"),
        "attachment; filename=\"setup.md\"; filename*=UTF-8''setup.md"
    );
    assert_eq!(
        content_disposition_attachment("café notes.md"),
        "attachment; filename=\"caf__ notes.md\"; filename*=UTF-8''caf%C3%A9%20notes.md"
    );
    assert_eq!(
        content_disposition_attachment("настройка.md"),
        "attachment; filename=\"__________________.md\"; \
         filename*=UTF-8''%D0%BD%D0%B0%D1%81%D1%82%D1%80%D0%BE%D0%B9%D0%BA%D0%B0.md"
    );
    assert_eq!(
        content_disposition_attachment("настройка"),
        "attachment; filename=\"page.md\"; \
         filename*=UTF-8''%D0%BD%D0%B0%D1%81%D1%82%D1%80%D0%BE%D0%B9%D0%BA%D0%B0"
    );
    assert_eq!(
        content_disposition_attachment(""),
        "attachment; filename=\"page.md\"; filename*=UTF-8''"
    );
}

#[test]
fn a_content_disposition_cannot_break_out_of_its_own_quotes() {
    let value = content_disposition_attachment("a\"b\\c/d\ne.md");
    let quoted = value
        .split_once("filename=\"")
        .and_then(|(_, tail)| tail.split_once('"'))
        .map(|(name, _)| name)
        .expect("a quoted filename parameter");
    assert_eq!(quoted, "a_b_c_d_e.md");
}

#[test]
fn rewriting_an_empty_or_attribute_free_document_is_a_no_op() {
    for html in [
        "",
        "<p>plain</p>",
        "<img>",
        "<img src=>",
        "<img src=\"unclosed",
    ] {
        let rewritten = rewrite_with(html, |_| Some("X".to_string()));
        assert!(
            rewritten.len() >= html.len().saturating_sub(8),
            "the scanner must not drop content for {html:?}"
        );
    }
}

#[test]
fn lookup_keys_name_the_page_or_the_folder_it_indexes() {
    assert_eq!(page_lookup_keys("/"), vec![String::new()]);
    assert_eq!(page_lookup_keys("/hr/comp.MD"), vec!["hr/comp".to_string()]);
    assert_eq!(page_lookup_keys("hr/comp.markdown"), vec!["hr/comp".to_string()]);
    assert_eq!(
        page_lookup_keys("/hr/comp/"),
        vec!["hr/comp".to_string(), "hr/comp/index".to_string()]
    );
    assert_eq!(
        page_lookup_keys("v1.2"),
        vec!["v1.2".to_string(), "v1.2/index".to_string()]
    );
}

#[test]
fn urls_join_mounts_and_paths() {
    assert_eq!(join_url("/", ""), "/");
    assert_eq!(join_url("/", "guide/intro"), "/guide/intro");
    assert_eq!(join_url("/docs", ""), "/docs");
    assert_eq!(join_url("/docs", "guide"), "/docs/guide");
}

#[test]
fn slugs_become_titles() {
    assert_eq!(humanize("getting-started"), "Getting Started");
    assert_eq!(humanize("01-intro"), "Intro");
    assert_eq!(humanize("release_notes 2024"), "Release Notes 2024");
    assert_eq!(humanize("a--b"), "A B");
    assert_eq!(humanize("2024"), "2024");
    assert_eq!(humanize("---"), "---");
    assert_eq!(humanize(""), "");
    assert_eq!(humanize("élan"), "Élan");
}

#[test]
fn a_page_without_a_title_is_named_after_its_path() {
    assert_eq!(derive_title_from_path("guides/getting-started.md"), "Getting Started");
    assert_eq!(derive_title_from_path("guides/02-setup/index.md"), "Setup");
    assert_eq!(derive_title_from_path("INDEX.md"), "Home");
    assert_eq!(derive_title_from_path("notes.v2.md"), "Notes.v2");
    assert_eq!(derive_title_from_path(""), "Untitled");
}

#[test]
fn in_vault_relative_accepts_only_paths_under_the_mount() {
    assert_eq!(in_vault_relative("/docs/img/a.png", "/docs/").as_deref(), Some("img/a.png"));
    assert_eq!(
        in_vault_relative("/docs/img/a%20b.png?v=2#top", "/docs/").as_deref(),
        Some("img/a b.png")
    );
    for outside in [
        "https://example.com/docs/a.png",
        "//example.com/docs/a.png",
        "/other/a.png",
        "#anchor",
        "",
        "/docs/",
        "/docs/../secret.png",
        "/docs//a.png",
    ] {
        assert!(in_vault_relative(outside, "/docs/").is_none(), "{outside} is not an in-vault asset");
    }
}

#[test]
fn a_loaded_body_carries_no_frontmatter_and_no_access_rules() {
    let text = "---\ntitle: Compensation 2026\nallow:\n  - ana@corp.com\ndeny:\n  \
                - intern@corp.com\n---\n# Compensation 2026\r\n\r\nNumbers.\r\n\r\n\r\n";
    let (raw, data, body) = page_source("/vault/hr/comp.md", text).expect("the page loads");
    let rendered = Rendered {
        html: "<h1 id=\"compensation-2026\">Compensation 2026</h1>\n<p>Numbers.</p>\n".to_string(),
        headings: vec![Heading {
            level: 1,
            id: "compensation-2026".to_string(),
            text: "Compensation 2026".to_string(),
        }],
    };
    let (page, acl) = Page::assemble(
        "/vault/hr/comp.md".to_string(),
        "comp.md",
        "/hr",
        &raw,
        &body,
        data,
        rendered,
        0,
        Vec::new(),
    );

    assert!(page.body.contains("Numbers."), "the body kept its prose: {:?}", page.body);
    for forbidden in ["allow", "deny", "ana@corp.com", "intern@corp.com", "---"] {
        assert!(!page.body.contains(forbidden), "{forbidden:?} reached the body: {:?}", page.body);
    }
    assert!(!page.body.contains('\r'), "CRLF survived normalization: {:?}", page.body);
    assert!(
        page.body.ends_with("Numbers.\n"),
        "expected exactly one trailing newline, got {:?}",
        page.body
    );
    assert_eq!(
        page.source_text(),
        page.body,
        "a body opening with an H1 must not gain another title"
    );
    assert!(
        !escape_for_script_block(&page.source_text()).contains("ana@corp.com"),
        "escaping must not resurrect anything"
    );
    assert_eq!(acl.allow, vec!["ana@corp.com"]);
    assert_eq!(acl.deny, vec!["intern@corp.com"]);
    match &page.frontmatter {
        FmValue::Object(entries) => {
            assert!(entries.iter().all(|(k, _)| k != "allow" && k != "deny"));
            assert!(entries.iter().any(|(k, _)| k == "title"));
        }
        other => panic!("frontmatter is not a map: {other:?}"),
    }
}

#[test]
fn a_byte_order_mark_does_not_hide_the_rules() {
    let plain = "---\nallow:\n  - ana@corp.com\n---\nBody\n";
    let marked = format!("\u{feff}{plain}");
    let (raw_plain, data_plain, body_plain) = page_source("a.md", plain).expect("parses");
    let (raw_marked, data_marked, body_marked) = page_source("a.md", &marked).expect("parses");
    assert_eq!(raw_plain, raw_marked);
    assert_eq!(body_plain, body_marked);
    assert_eq!(body_marked, "Body");
    assert!(data_marked.is_some());
    assert_eq!(format!("{data_plain:?}"), format!("{data_marked:?}"));
}

#[test]
fn a_page_without_frontmatter_has_no_data() {
    let (raw, data, body) = page_source("a.md", "# Just a heading\n").expect("parses");
    assert_eq!(raw, "# Just a heading\n");
    assert!(data.is_none());
    assert_eq!(body, "# Just a heading");
}

#[test]
fn a_frontmatter_parse_failure_names_the_file() {
    let err = page_source("/vault/a.md", "---\nallow: [unclosed\n---\nBody\n")
        .expect_err("broken YAML is refused");
    assert!(err.starts_with("front matter in /vault/a.md: "), "{err}");
    assert!(err.len() > "front matter in /vault/a.md: ".len());
}
