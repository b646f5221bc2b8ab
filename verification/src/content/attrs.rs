//! Finding and rewriting the URL-valued attributes of rendered HTML.
//!
//! A deliberately small scanner rather than a parser. It is sound for the HTML the
//! renderer emits because quotes inside text are escaped there, so an `href="` in prose
//! never reaches the output as literal characters: every match is a real attribute.
use vstd::prelude::*;

use crate::text::{chars_of, is_ascii_alnum, is_ascii_ws, push_all, push_range, string_of};

verus! {

/// The attributes whose values are URLs: `src` and `href`, and `poster`, because a
/// video poster is an image too.
pub open spec fn url_attribute(name: Seq<char>) -> bool {
    name == "src"@ || name == "href"@ || name == "poster"@
}

/// Where the run of ASCII letters and digits that ends at `end` begins.
pub open spec fn name_start(h: Seq<char>, end: int) -> int
    decreases end,
{
    if end > 0 && end <= h.len() && is_ascii_alnum(h[end - 1]) {
        name_start(h, end - 1)
    } else {
        end
    }
}

/// The attribute name just before the `=` at `eq`, when it is a bare ASCII name
/// preceded by whitespace or `<`. The whitespace rule keeps `data-src=` from reading
/// as `src=`.
pub open spec fn attribute_before(h: Seq<char>, eq: int) -> Option<Seq<char>> {
    let start = name_start(h, eq);
    if start == eq {
        None
    } else if start > 0 && (is_ascii_ws(h[start - 1]) || h[start - 1] == '<') {
        Some(h.subrange(start, eq))
    } else {
        None
    }
}

/// The first position at or after `from` holding `c`, or -1.
pub open spec fn find_from(h: Seq<char>, from: int, c: char) -> int
    decreases h.len() - from,
{
    if from < 0 || from >= h.len() {
        -1
    } else if h[from] == c {
        from
    } else {
        find_from(h, from + 1, c)
    }
}

pub proof fn lemma_find_from(h: Seq<char>, from: int, c: char)
    requires
        0 <= from,
    ensures
        find_from(h, from, c) == -1 || (from <= find_from(h, from, c) < h.len() && h[find_from(
            h,
            from,
            c,
        )] == c),
        forall|j: int| from <= j < h.len() && (find_from(h, from, c) == -1 || j < find_from(h, from, c)) ==> #[trigger] h[j] != c,
    decreases h.len() - from,
{
    if from < h.len() && h[from] != c {
        lemma_find_from(h, from + 1, c);
    }
}

proof fn lemma_name_start(h: Seq<char>, end: int)
    requires
        0 <= end <= h.len(),
    ensures
        0 <= name_start(h, end) <= end,
        forall|j: int| name_start(h, end) <= j < end ==> is_ascii_alnum(#[trigger] h[j]),
        name_start(h, end) > 0 ==> !is_ascii_alnum(h[name_start(h, end) - 1]),
    decreases end,
{
    if end > 0 && is_ascii_alnum(h[end - 1]) {
        lemma_name_start(h, end - 1);
    }
}

/// The value spans `[start, end)` of the URL attributes found from `index` on.
pub open spec fn url_spans(h: Seq<char>, index: int) -> Seq<(int, int)>
    decreases h.len() - index,
{
    if index < 0 || index >= h.len() {
        Seq::empty()
    } else {
        let eq = find_from(h, index, '=');
        proof {
            lemma_find_from(h, index, '=');
        }
        if eq < 0 {
            Seq::empty()
        } else {
            let next = eq + 1;
            match attribute_before(h, eq) {
                None => url_spans(h, next),
                Some(name) => if !url_attribute(name) {
                    url_spans(h, next)
                } else if !(next < h.len() && (h[next] == '"' || h[next] == '\'')) {
                    url_spans(h, next)
                } else {
                    let ve = find_from(h, eq + 2, h[next]);
                    proof {
                        lemma_find_from(h, eq + 2, h[next]);
                    }
                    if ve < 0 {
                        Seq::empty()
                    } else {
                        seq![(eq + 2, ve)] + url_spans(h, ve + 1)
                    }
                },
            }
        }
    }
}

/// Spans lie within the text, in order, without overlapping, each at or after `lo`.
pub open spec fn spans_ordered(spans: Seq<(int, int)>, lo: int, len: int) -> bool {
    &&& forall|i: int| 0 <= i < spans.len() ==> lo <= (#[trigger] spans[i]).0 <= spans[i].1 < len
    &&& forall|i: int| 0 <= i < spans.len() - 1 ==> (#[trigger] spans[i]).1 < spans[i + 1].0
}

pub proof fn lemma_url_spans_ordered(h: Seq<char>, index: int)
    requires
        0 <= index,
    ensures
        spans_ordered(url_spans(h, index), index, h.len() as int),
    decreases h.len() - index,
{
    if index < h.len() {
        let eq = find_from(h, index, '=');
        lemma_find_from(h, index, '=');
        if eq >= 0 {
            let next = eq + 1;
            match attribute_before(h, eq) {
                None => {
                    lemma_url_spans_ordered(h, next);
                },
                Some(name) => {
                    if !url_attribute(name) || !(next < h.len() && (h[next] == '"' || h[next]
                        == '\'')) {
                        lemma_url_spans_ordered(h, next);
                    } else {
                        let ve = find_from(h, eq + 2, h[next]);
                        lemma_find_from(h, eq + 2, h[next]);
                        if ve >= 0 {
                            lemma_url_spans_ordered(h, ve + 1);
                            let rest = url_spans(h, ve + 1);
                            let all = url_spans(h, index);
                            assert(all == seq![(eq + 2, ve)] + rest);
                            assert forall|i: int| 0 <= i < all.len() implies index <= (
                            #[trigger] all[i]).0 <= all[i].1 < h.len() by {
                                if i > 0 {
                                    assert(all[i] == rest[i - 1]);
                                }
                            }
                            assert forall|i: int| 0 <= i < all.len() - 1 implies (
                            #[trigger] all[i]).1 < all[i + 1].0 by {
                                assert(all[i + 1] == rest[i]);
                                if i > 0 {
                                    assert(all[i] == rest[i - 1]);
                                }
                            }
                        }
                    }
                },
            }
        }
    }
}

pub open spec fn spans_view(s: Seq<(usize, usize)>) -> Seq<(int, int)> {
    s.map_values(|p: (usize, usize)| (p.0 as int, p.1 as int))
}

fn find_from_exec(v: &Vec<char>, from: usize, c: char) -> (r: Option<usize>)
    ensures
        match r {
            Some(k) => k as int == find_from(v@, from as int, c),
            None => find_from(v@, from as int, c) == -1,
        },
{
    proof {
        lemma_find_from(v@, from as int, c);
    }
    let mut i: usize = from;
    while i < v.len()
        invariant
            from <= i,
            i <= v.len() || from > v.len(),
            find_from(v@, from as int, c) == find_from(v@, i as int, c),
        decreases v.len() - i,
    {
        if v[i] == c {
            return Some(i);
        }
        i += 1;
    }
    None
}

fn alnum_exec(c: char) -> (r: bool)
    ensures
        r == is_ascii_alnum(c),
{
    ('0' <= c && c <= '9') || ('a' <= c && c <= 'z') || ('A' <= c && c <= 'Z')
}

fn name_start_exec(v: &Vec<char>, end: usize) -> (r: usize)
    requires
        end <= v.len(),
    ensures
        r as int == name_start(v@, end as int),
{
    let mut s: usize = end;
    while s > 0 && alnum_exec(v[s - 1])
        invariant
            s <= end <= v.len(),
            name_start(v@, end as int) == name_start(v@, s as int),
        decreases s,
    {
        s -= 1;
    }
    s
}

fn range_is(v: &Vec<char>, lo: usize, hi: usize, word: &str) -> (r: bool)
    requires
        lo <= hi <= v.len(),
    ensures
        r == (v@.subrange(lo as int, hi as int) == word@),
{
    let w = chars_of(word);
    if hi - lo != w.len() {
        return false;
    }
    let r = crate::text::range_eq(v, lo, hi, &w, 0, w.len());
    assert(w@.subrange(0, w@.len() as int) =~= w@);
    r
}

/// The span of the quoted value of the URL attribute whose `=` is at `eq`, and where
/// scanning resumes; `None` for the end of scanning.
fn spans_from(v: &Vec<char>) -> (r: Vec<(usize, usize)>)
    ensures
        spans_view(r@) == url_spans(v@, 0),
{
    let ghost h = v@;
    let mut out: Vec<(usize, usize)> = Vec::new();
    let mut index: usize = 0;
    while index < v.len()
        invariant
            h == v@,
            spans_view(out@) + url_spans(h, index as int)
                == url_spans(h, 0),
        ensures
            spans_view(out@) == url_spans(h, 0),
        decreases v.len() - index,
    {
        let ghost before = spans_view(out@);
        assert(before + url_spans(h, index as int) == url_spans(h, 0));
        proof {
            lemma_find_from(h, index as int, '=');
        }
        let eq = match find_from_exec(v, index, '=') {
            Some(eq) => eq,
            None => {
                assert(url_spans(h, index as int) =~= Seq::<(int, int)>::empty());
                assert(before + Seq::<(int, int)>::empty() =~= before);
                break;
            },
        };
        let next = eq + 1;
        let start = name_start_exec(v, eq);
        proof {
            lemma_name_start(h, eq as int);
        }
        let is_attr = start < eq && start > 0 && (v[start - 1] == ' ' || v[start - 1] == '\t'
            || v[start - 1] == '\n' || v[start - 1] == '\u{0C}' || v[start - 1] == '\r' || v[start
            - 1] == '<');
        assert(is_attr == (attribute_before(h, eq as int) is Some));
        if !is_attr {
            index = next;
            continue;
        }
        assert(attribute_before(h, eq as int) == Some(h.subrange(start as int, eq as int)));
        proof {
            reveal_strlit("src");
            reveal_strlit("href");
            reveal_strlit("poster");
        }
        let named = range_is(v, start, eq, "src") || range_is(v, start, eq, "href") || range_is(
            v,
            start,
            eq,
            "poster",
        );
        if !named {
            index = next;
            continue;
        }
        if !(next < v.len() && (v[next] == '"' || v[next] == '\'')) {
            index = next;
            continue;
        }
        let quote = v[next];
        proof {
            lemma_find_from(h, eq + 2, quote);
        }
        let value_end = match find_from_exec(v, eq + 2, quote) {
            Some(e) => e,
            None => {
                assert(url_spans(h, index as int) =~= Seq::<(int, int)>::empty());
                assert(before + Seq::<(int, int)>::empty() =~= before);
                break;
            },
        };
        out.push((eq + 2, value_end));
        assert(spans_view(out@) =~= before.push(
            ((eq + 2) as int, value_end as int),
        ));
        assert(url_spans(h, index as int) == seq![((eq + 2) as int, value_end as int)]
            + url_spans(h, value_end + 1));
        assert(before.push(((eq + 2) as int, value_end as int)) + url_spans(h, value_end + 1)
            =~= before + url_spans(h, index as int));
        index = value_end + 1;
    }
    proof {
        if index >= v.len() {
            assert(url_spans(h, index as int) =~= Seq::<(int, int)>::empty());
        }
    }
    assert(spans_view(out@) =~= url_spans(h, 0));
    out
}

/// The values of the URL attributes of `h`, in order.
pub open spec fn attribute_values(h: Seq<char>) -> Seq<Seq<char>> {
    url_spans(h, 0).map_values(|p: (int, int)| h.subrange(p.0, p.1))
}

/// Visit every URL-valued attribute in rendered HTML: their values, in order.
pub fn visit_attribute_urls(html: &str) -> (r: Vec<String>)
    ensures
        crate::auth::crypto::string_views(r@) == attribute_values(html@),
{
    let v = chars_of(html);
    let spans = spans_from(&v);
    proof {
        lemma_url_spans_ordered(v@, 0);
    }
    let mut out: Vec<String> = Vec::new();
    let mut i: usize = 0;
    while i < spans.len()
        invariant
            i <= spans.len(),
            v@ == html@,
            spans_view(spans@) == url_spans(v@, 0),
            spans_ordered(url_spans(v@, 0), 0, v@.len() as int),
            crate::auth::crypto::string_views(out@) == attribute_values(html@).take(i as int),
        decreases spans.len() - i,
    {
        let (a, b) = spans[i];
        assert(spans_view(spans@)[i as int] == (a as int, b as int));
        let value = crate::text::string_of_range(&v, a, b);
        assert(attribute_values(html@)[i as int] == v@.subrange(a as int, b as int));
        let ghost before = out@;
        out.push(value);
        assert(crate::auth::crypto::string_views(out@) =~= crate::auth::crypto::string_views(before).push(v@.subrange(a as int, b as int)));
        assert(crate::auth::crypto::string_views(out@) =~= attribute_values(html@).take(i + 1));
        i += 1;
    }
    assert(attribute_values(html@).take(spans@.len() as int) =~= attribute_values(html@));
    out
}

/// The text up to the end of span `n - 1`, with each replaced span's value swapped
/// for its replacement.
pub open spec fn rewritten_prefix(
    h: Seq<char>,
    spans: Seq<(int, int)>,
    reps: Seq<Option<Seq<char>>>,
    n: int,
) -> Seq<char>
    decreases n,
{
    if n <= 0 {
        Seq::empty()
    } else {
        let cursor = if n - 1 == 0 {
            0
        } else {
            spans[n - 2].1
        };
        rewritten_prefix(h, spans, reps, n - 1) + h.subrange(cursor, spans[n - 1].0) + match reps[n
            - 1] {
            Some(r) => r,
            None => h.subrange(spans[n - 1].0, spans[n - 1].1),
        }
    }
}

/// `h` with the value of the `i`-th URL attribute replaced by `reps[i]` wherever that
/// is `Some`.
pub open spec fn rewrite_spec(h: Seq<char>, reps: Seq<Option<Seq<char>>>) -> Seq<char> {
    let spans = url_spans(h, 0);
    let n = spans.len() as int;
    let cursor = if n == 0 {
        0
    } else {
        spans[n - 1].1
    };
    rewritten_prefix(h, spans, reps, n) + h.skip(cursor)
}

pub open spec fn opt_views(v: Seq<Option<String>>) -> Seq<Option<Seq<char>>> {
    v.map_values(|o: Option<String>| match o {
        Some(s) => Some(s@),
        None => None,
    })
}

/// Rewrite URL-valued attributes: the `i`-th attribute's value is replaced wherever
/// `replacements[i]` is `Some` (one entry for each value `visit_attribute_urls`
/// reports, in the same order), and everything else is kept byte for byte.
pub fn rewrite_attribute_urls(html: &str, replacements: &Vec<Option<String>>) -> (r: String)
    requires
        replacements.len() == url_spans(html@, 0).len(),
    ensures
        r@ == rewrite_spec(html@, opt_views(replacements@)),
{
    let v = chars_of(html);
    let spans = spans_from(&v);
    proof {
        lemma_url_spans_ordered(v@, 0);
    }
    let ghost sp = url_spans(v@, 0);
    let ghost reps = opt_views(replacements@);
    let mut out: Vec<char> = Vec::new();
    let mut cursor: usize = 0;
    let mut i: usize = 0;
    while i < spans.len()
        invariant
            i <= spans.len() == replacements.len(),
            v@ == html@,
            sp == url_spans(v@, 0),
            reps == opt_views(replacements@),
            spans_view(spans@) == sp,
            spans_ordered(sp, 0, v@.len() as int),
            cursor as int == if i == 0 { 0 } else { sp[i - 1].1 },
            cursor <= v.len(),
            i < spans.len() ==> cursor <= spans@[i as int].0,
            out@ == rewritten_prefix(v@, sp, reps, i as int),
        decreases spans.len() - i,
    {
        let (a, b) = spans[i];
        assert(sp[i as int] == (a as int, b as int));
        push_range(&mut out, &v, cursor, a);
        match &replacements[i] {
            Some(rep) => {
                let rv = chars_of(rep.as_str());
                push_all(&mut out, &rv);
            },
            None => {
                push_range(&mut out, &v, a, b);
            },
        }
        assert(out@ =~= rewritten_prefix(v@, sp, reps, i + 1));
        cursor = b;
        i += 1;
        if i < spans.len() {
            assert(sp[i as int - 1].1 < sp[i as int].0);
        }
    }
    push_range(&mut out, &v, cursor, v.len());
    assert(v@.subrange(cursor as int, v@.len() as int) =~= v@.skip(cursor as int));
    string_of(&out)
}

proof fn lemma_prefix_identity(h: Seq<char>, spans: Seq<(int, int)>, reps: Seq<Option<Seq<char>>>, n: int)
    requires
        0 <= n <= spans.len() == reps.len(),
        spans_ordered(spans, 0, h.len() as int),
        forall|i: int| 0 <= i < reps.len() ==> #[trigger] reps[i] is None,
    ensures
        rewritten_prefix(h, spans, reps, n) == h.take(if n == 0 { 0 } else { spans[n - 1].1 }),
    decreases n,
{
    if n > 0 {
        lemma_prefix_identity(h, spans, reps, n - 1);
        let cursor = if n - 1 == 0 { 0 } else { spans[n - 2].1 };
        assert(reps[n - 1] is None);
        assert(h.take(cursor) + h.subrange(cursor, spans[n - 1].0) + h.subrange(spans[n - 1].0, spans[n - 1].1) =~= h.take(spans[n - 1].1));
    }
}

/// Rewriting that replaces nothing gives back the document unchanged.
pub proof fn lemma_rewrite_nothing_is_identity(h: Seq<char>, reps: Seq<Option<Seq<char>>>)
    requires
        reps.len() == url_spans(h, 0).len(),
        forall|i: int| 0 <= i < reps.len() ==> #[trigger] reps[i] is None,
    ensures
        rewrite_spec(h, reps) == h,
{
    let spans = url_spans(h, 0);
    lemma_url_spans_ordered(h, 0);
    lemma_prefix_identity(h, spans, reps, spans.len() as int);
    let n = spans.len() as int;
    let cursor = if n == 0 { 0 } else { spans[n - 1].1 };
    assert(h.take(cursor) + h.skip(cursor) =~= h);
}

} // verus!
