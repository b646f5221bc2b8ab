use mdshelf::html::escape;

#[test]
fn every_markup_character_becomes_an_entity() {
    assert_eq!(escape("a&b<c>d\"e'f"), "a&amp;b&lt;c&gt;d&quot;e&#39;f");
    assert_eq!(escape("plain text"), "plain text");
    assert_eq!(escape(""), "");
}
