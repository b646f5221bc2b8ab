use mdshelf::render::markdown::{
    has_scheme, heading_text, html_escape, join_relative, mermaid_block, rewrite_asset,
    rewrite_link, split_suffix, strip_index_segment, strip_md_extension, LinkCtx,
};

fn ctx(mount: &str, dir: &str) -> LinkCtx {
    LinkCtx { mount: mount.to_string(), current_dir: dir.to_string() }
}

#[test]
fn links_to_markdown_pages_become_clean_urls() {
    let c = ctx("/docs", "guide");
    assert_eq!(rewrite_link("setup.md", &c).as_deref(), Some("/docs/guide/setup"));
    assert_eq!(rewrite_link("../intro.MD#top", &c).as_deref(), Some("/docs/intro#top"));
    assert_eq!(rewrite_link("/hr/index.md?x=1", &c).as_deref(), Some("/docs/hr?x=1"));
    assert_eq!(rewrite_link("index.md", &ctx("/docs", "")).as_deref(), Some("/docs"));
    assert_eq!(rewrite_link("index.md", &ctx("/", "")).as_deref(), Some("/"));
    assert_eq!(rewrite_link("a/b.md", &ctx("/", "")).as_deref(), Some("/a/b"));
    assert_eq!(rewrite_link("https://example.com/a.md", &c), None);
    assert_eq!(rewrite_link("#section", &c), None);
    assert_eq!(rewrite_link("mailto:a@b.c", &c), None);
    assert_eq!(rewrite_link("picture.png", &c), None);
}

#[test]
fn relative_images_point_under_the_mount() {
    let c = ctx("/docs", "guide/deep");
    assert_eq!(rewrite_asset("img/a.png", &c).as_deref(), Some("/docs/guide/deep/img/a.png"));
    assert_eq!(rewrite_asset("../b.png?v=2", &c).as_deref(), Some("/docs/guide/b.png?v=2"));
    assert_eq!(rewrite_asset("c.png", &ctx("/", "")).as_deref(), Some("/c.png"));
    assert_eq!(rewrite_asset("/abs.png", &c), None);
    assert_eq!(rewrite_asset("//cdn/x.png", &c), None);
}

#[test]
fn path_helpers() {
    assert_eq!(join_relative("a/b", "../c/./d"), "a/c/d");
    assert_eq!(join_relative("", "../../x"), "x");
    assert_eq!(join_relative("./a", "b//c"), "a/b/c");
    assert_eq!(strip_md_extension("a/b.Md"), "a/b");
    assert_eq!(strip_md_extension("a/b.txt"), "a/b.txt");
    assert_eq!(strip_index_segment("INDEX"), "");
    assert_eq!(strip_index_segment("guide/Index"), "guide");
    assert_eq!(strip_index_segment("guide/iNdEx"), "guide/iNdEx");
    assert_eq!(split_suffix("a/b?x#y"), ("a/b".to_string(), "?x#y".to_string()));
    assert!(has_scheme("ftp://x"));
    assert!(has_scheme("//x"));
    assert!(!has_scheme("/x"));
}

#[test]
fn mermaid_blocks_are_escaped() {
    assert_eq!(html_escape("a<b & \"c\">"), "a&lt;b &amp; &quot;c&quot;&gt;");
    assert_eq!(mermaid_block("A-->B"), "<div class=\"mermaid\">A--&gt;B</div>\n");
    assert_eq!(heading_text("  Title \n"), "Title");
}
