//! Escaping text on its way into HTML.
use vstd::prelude::*;

use crate::text::{chars_of, push_str, string_of};

verus! {

/// What one character becomes in escaped HTML.
pub open spec fn escape_char(c: char) -> Seq<char> {
    if c == '&' {
        "&amp;"@
    } else if c == '<' {
        "&lt;"@
    } else if c == '>' {
        "&gt;"@
    } else if c == '"' {
        "&quot;"@
    } else if c == '\'' {
        "&#39;"@
    } else {
        seq![c]
    }
}

/// `s` with `&`, `<`, `>`, `"` and `'` replaced by their entities.
pub open spec fn escape_spec(s: Seq<char>) -> Seq<char>
    decreases s.len(),
{
    if s.len() == 0 {
        Seq::empty()
    } else {
        escape_spec(s.drop_last()) + escape_char(s.last())
    }
}

/// Minimal HTML escaping for values interpolated into markup.
pub fn escape(raw: &str) -> (r: String)
    ensures
        r@ == escape_spec(raw@),
{
    let v = chars_of(raw);
    let mut out: Vec<char> = Vec::new();
    let mut i: usize = 0;
    while i < v.len()
        invariant
            i <= v.len(),
            v@ == raw@,
            out@ == escape_spec(v@.take(i as int)),
        decreases v.len() - i,
    {
        let c = v[i];
        if c == '&' {
            push_str(&mut out, "&amp;");
        } else if c == '<' {
            push_str(&mut out, "&lt;");
        } else if c == '>' {
            push_str(&mut out, "&gt;");
        } else if c == '"' {
            push_str(&mut out, "&quot;");
        } else if c == '\'' {
            push_str(&mut out, "&#39;");
        } else {
            out.push(c);
        }
        assert(v@.take(i + 1).drop_last() =~= v@.take(i as int));
        assert(out@ =~= escape_spec(v@.take(i + 1)));
        i += 1;
    }
    assert(v@.take(v@.len() as int) =~= v@);
    string_of(&out)
}

/// Characters that could open a tag or close an attribute.
pub open spec fn markup_char(c: char) -> bool {
    c == '<' || c == '>' || c == '"' || c == '\''
}

/// Escaped text can neither open a tag nor close a quoted attribute: whatever was
/// interpolated, no `<`, `>`, `"` or `'` survives escaping.
pub proof fn lemma_escaped_text_is_inert(s: Seq<char>)
    ensures
        forall|i: int| 0 <= i < escape_spec(s).len() ==> !markup_char(#[trigger] escape_spec(s)[i]),
    decreases s.len(),
{
    reveal_strlit("&amp;");
    reveal_strlit("&lt;");
    reveal_strlit("&gt;");
    reveal_strlit("&quot;");
    reveal_strlit("&#39;");
    if s.len() > 0 {
        lemma_escaped_text_is_inert(s.drop_last());
        let prev = escape_spec(s.drop_last());
        let tail = escape_char(s.last());
        assert forall|i: int| 0 <= i < escape_spec(s).len() implies !markup_char(
            #[trigger] escape_spec(s)[i],
        ) by {
            if i < prev.len() {
                assert(escape_spec(s)[i] == prev[i]);
            } else {
                assert(escape_spec(s)[i] == tail[i - prev.len()]);
            }
        }
    }
}

/// Text without markup characters or `&` passes through escaping unchanged.
pub proof fn lemma_plain_text_is_unchanged(s: Seq<char>)
    requires
        forall|i: int| 0 <= i < s.len() ==> !markup_char(#[trigger] s[i]) && s[i] != '&',
    ensures
        escape_spec(s) == s,
    decreases s.len(),
{
    if s.len() > 0 {
        lemma_plain_text_is_unchanged(s.drop_last());
        assert(s.drop_last().push(s.last()) =~= s);
    }
}

} // verus!
