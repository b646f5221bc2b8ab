use mdshelf::server::links::{asset_key, asset_request_path, tokenize_html};

#[test]
fn every_in_vault_url_on_a_shared_page_goes_through_the_link() {
    let html = "<p><a href=\"/docs/guide\">g</a> <img src=\"/other/c.png\"> \
                <a href=\"https://e.com/x\">e</a> <link href=\"/__assets/x.css\"> \
                <a href=\"//cdn.example/y\">y</a> <a data-src=\"/docs/z\">z</a></p>";
    let out = tokenize_html(html, "/docs", "/s", "tok");
    assert_eq!(
        out,
        "<p><a href=\"/s/tok/guide\">g</a> <img src=\"/s/tok/other/c.png\"> \
         <a href=\"https://e.com/x\">e</a> <link href=\"/__assets/x.css\"> \
         <a href=\"//cdn.example/y\">y</a> <a data-src=\"/docs/z\">z</a></p>"
    );
}

#[test]
fn a_root_mounted_site_keeps_its_whole_path_under_the_link() {
    let out = tokenize_html("<img src=\"/img/a.png\">", "/", "/s", "t0");
    assert_eq!(out, "<img src=\"/s/t0/img/a.png\">");
}

#[test]
fn an_asset_request_is_decoded_and_checked_segment_by_segment() {
    assert_eq!(asset_request_path("/img/a%20b.png").as_deref(), Some("img/a b.png"));
    assert_eq!(asset_request_path("///img/a.png").as_deref(), Some("img/a.png"));
    for refused in ["", "/", "/a/../b", "a//b", "./a", "a/%2E%2E/b", "a/"] {
        assert_eq!(asset_request_path(refused), None, "{refused} must be refused");
    }
}

#[test]
fn only_an_asset_the_page_references_is_served() {
    let assets = vec!["img/a.png".to_string()];
    let same = |p: &String| Some(p.clone());
    assert_eq!(asset_key("/img/a.png", same, &assets).as_deref(), Some("img/a.png"));
    assert_eq!(asset_key("/img/b.png", same, &assets), None);
    // The disk's own spelling decides, not the one in the request.
    let folded = |p: &String| Some(p.to_lowercase());
    assert_eq!(asset_key("/IMG/A.png", folded, &assets).as_deref(), Some("img/a.png"));
    let missing = |_: &String| None;
    assert_eq!(asset_key("/img/a.png", missing, &assets), None);
    assert_eq!(asset_key("/img/../a.png", same, &assets), None);
}
