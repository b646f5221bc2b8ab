//! Editing `allow` lists in place.
//!
//! This is the only code that writes to a user's vault, and it is editing a file the
//! user cares about. It therefore works as a careful text edit rather than a YAML
//! round-trip: comments, key order, quoting style, and formatting elsewhere in the file
//! are left exactly as they were.
use vstd::prelude::*;

use crate::text::{
    chars_of, contains_exec, contains_seq, is_ws, is_ws_exec, join, join_vec, push_all,
    push_range, push_str, split_char, split_vec, string_of, trim, trim_bounds, trim_end,
    trim_end_bound, trim_start, trim_start_bound, trim_start_char, vec_eq, views,
};

verus! {

/// Why an edit was refused.
#[derive(Debug)]
pub struct EditError {
    pub message: String,
}

impl EditError {
    /// The explanation, as it is shown to the person running the command.
    pub fn message(&self) -> (r: String)
        ensures
            r@ == self.message@,
    {
        self.message.clone()
    }
}

/// `str::split_inclusive('\n')`: pieces each ending in `\n`, except a final piece
/// without one, and no empty final piece.
pub open spec fn lines_incl(s: Seq<char>) -> Seq<Seq<char>> {
    let pieces = split_char(s, '\n');
    let body = add_nl_all(pieces.drop_last());
    if pieces.last().len() == 0 {
        body
    } else {
        body.push(pieces.last())
    }
}

/// Each piece with a `\n` appended.
pub open spec fn add_nl_all(s: Seq<Seq<char>>) -> Seq<Seq<char>> {
    s.map_values(|p: Seq<char>| p.push('\n'))
}

pub open spec fn trim_all(s: Seq<Seq<char>>) -> Seq<Seq<char>> {
    s.map_values(|p: Seq<char>| trim(p))
}

pub open spec fn nonempty() -> spec_fn(Seq<char>) -> bool {
    |p: Seq<char>| p.len() > 0
}

/// The concatenation of `lines`.
pub open spec fn concat(lines: Seq<Seq<char>>) -> Seq<char>
    decreases lines.len(),
{
    if lines.len() == 0 {
        Seq::empty()
    } else {
        concat(lines.drop_last()) + lines.last()
    }
}

pub open spec fn is_fence(line: Seq<char>) -> bool {
    trim_end(line) == seq!['-', '-', '-']
}

pub open spec fn is_blank(line: Seq<char>) -> bool {
    trim(line).len() == 0
}

/// The first fence at or after `from`.
pub open spec fn fence_from(lines: Seq<Seq<char>>, from: int) -> Option<int>
    decreases lines.len() - from,
{
    if from < 0 || from >= lines.len() {
        None
    } else if is_fence(lines[from]) {
        Some(from)
    } else {
        fence_from(lines, from + 1)
    }
}

/// The opening and closing `---` fences: the first fence, with nothing but blank lines
/// before it, and the next fence after it.
pub open spec fn bounds_spec(lines: Seq<Seq<char>>) -> Option<(int, int)> {
    match fence_from(lines, 0) {
        None => None,
        Some(first) => if exists|j: int| 0 <= j < first && !is_blank(#[trigger] lines[j]) {
            None
        } else {
            match fence_from(lines, first + 1) {
                None => None,
                Some(close) => Some((first, close)),
            }
        },
    }
}

/// A line that declares `key:` at the top level of the frontmatter.
pub open spec fn is_key_line(line: Seq<char>, key: Seq<char>) -> bool {
    &&& !(line.len() > 0 && is_ws(line[0]))
    &&& key.len() <= line.len()
    &&& line.take(key.len() as int) == key
    &&& trim_start(line.skip(key.len() as int)).len() > 0
    &&& trim_start(line.skip(key.len() as int))[0] == ':'
}

/// The first `allow:` line strictly between the fences.
pub open spec fn allow_from(lines: Seq<Seq<char>>, from: int, close: int) -> Option<int>
    decreases close - from,
{
    if from < 0 || from >= close || close > lines.len() {
        None
    } else if is_key_line(lines[from], "allow"@) {
        Some(from)
    } else {
        allow_from(lines, from + 1, close)
    }
}

/// Position of the first `c` in `s`, or -1.
pub open spec fn first_index_of(s: Seq<char>, c: char) -> int
    decreases s.len(),
{
    if s.len() == 0 {
        -1
    } else if s[0] == c {
        0
    } else if first_index_of(s.drop_first(), c) < 0 {
        -1
    } else {
        first_index_of(s.drop_first(), c) + 1
    }
}

/// What follows the first `:` of a line, trimmed; "" when there is none.
pub open spec fn value_of(line: Seq<char>) -> Seq<char> {
    let k = first_index_of(line, ':');
    if k < 0 {
        Seq::empty()
    } else {
        trim(line.skip(k + 1))
    }
}

/// `str::trim_matches('"')`.
pub open spec fn trim_quotes(s: Seq<char>) -> Seq<char> {
    trim_start_char(crate::text::trim_end_char(s, '"'), '"')
}

/// The entries of an inline list's inner text: split at `,`, trimmed, empty ones
/// dropped.
pub open spec fn inline_entries(inner: Seq<char>) -> Seq<Seq<char>> {
    trim_all(split_char(inner, ',')).filter(nonempty())
}

pub open spec fn line_ending(source: Seq<char>) -> Seq<char> {
    if contains_seq(source, seq!['\r', '\n']) {
        seq!['\r', '\n']
    } else {
        seq!['\n']
    }
}

pub open spec fn ensure_nl(out: Seq<char>, le: Seq<char>) -> Seq<char> {
    if out.len() > 0 && out.last() == '\n' {
        out
    } else {
        out + le
    }
}

/// The address a block-list entry line names: the text after its dashes, trimmed, with
/// surrounding quotes removed.
pub open spec fn entry_value(trimmed: Seq<char>) -> Seq<char> {
    trim_quotes(trim(trim_start_char(trim_end(trimmed), '-')))
}

/// Walking the block list after `allow:`: `Err(())` when the address is already listed,
/// otherwise the last entry line and the indentation to reuse.
pub open spec fn scan_block(
    lines: Seq<Seq<char>>,
    email: Seq<char>,
    i: int,
    close: int,
    last: int,
    indent: Seq<char>,
) -> Result<(int, Seq<char>), ()>
    decreases close - i,
{
    if i < 0 || i >= close || close > lines.len() {
        Ok((last, indent))
    } else {
        let line = lines[i];
        let t = trim_start(line);
        if t.len() > 0 && t[0] == '-' {
            if entry_value(t) == email {
                Err(())
            } else {
                scan_block(lines, email, i + 1, close, i, line.take(line.len() - t.len()) + seq!['-', ' '])
            }
        } else if trim(t).len() > 0 {
            Ok((last, indent))
        } else {
            scan_block(lines, email, i + 1, close, last, indent)
        }
    }
}

pub open spec fn no_frontmatter_message(email: Seq<char>) -> Seq<char> {
    "this file has no frontmatter block. Add one first:\n  ---\n  allow:\n    - "@ + email + "\n  ---"@
}

pub open spec fn not_a_list_message(value: Seq<char>) -> Seq<char> {
    "`allow` in this file is not a list (found `"@ + value
        + "`). Fix it by hand:\n  allow:\n    - someone@example.com"@
}

/// Appending to a block list that starts at line `a`.
pub open spec fn block_result(lines: Seq<Seq<char>>, email: Seq<char>, a: int, close: int, le: Seq<char>) -> Result<Option<Seq<char>>, Seq<char>> {
    match scan_block(lines, email, a + 1, close, a, "  - "@) {
        Err(_) => Ok(None),
        Ok((last, indent)) => Ok(
            Some(
                ensure_nl(concat(lines.take(last + 1)), le) + indent + email + le + concat(
                    lines.skip(last + 1),
                ),
            ),
        ),
    }
}

/// The outcome of adding `email` to the `allow` list of `source`: an error message, no
/// change (already listed), or the new text.
pub open spec fn add_spec(source: Seq<char>, email: Seq<char>) -> Result<Option<Seq<char>>, Seq<char>> {
    let le = line_ending(source);
    let lines = lines_incl(source);
    match bounds_spec(lines) {
        None => Err(no_frontmatter_message(email)),
        Some((open, close)) => match allow_from(lines, open + 1, close) {
            None => Ok(
                Some(
                    ensure_nl(concat(lines.take(close)), le) + "allow:"@ + le + "  - "@ + email + le
                        + concat(lines.skip(close)),
                ),
            ),
            Some(a) => {
                let value = value_of(lines[a]);
                if value.len() >= 2 && value[0] == '[' && value.last() == ']' {
                    let existing = inline_entries(value.subrange(1, value.len() - 1));
                    if exists|i: int| 0 <= i < existing.len() && trim_quotes(#[trigger] existing[i]) == email {
                        Ok(None)
                    } else {
                        let rebuilt = "allow: ["@ + join(existing.push(email), ", "@) + "]"@;
                        Ok(Some(concat(lines.take(a)) + rebuilt + le + concat(lines.skip(a + 1))))
                    }
                } else if value.len() > 0 {
                    Err(not_a_list_message(value))
                } else {
                    block_result(lines, email, a, close, le)
                }
            },
        },
    }
}

fn lines_incl_vec(v: &Vec<char>) -> (r: Vec<Vec<char>>)
    ensures
        views(r@) == lines_incl(v@),
{
    let pieces = split_vec(v, '\n');
    proof {
        lemma_split_nonempty(v@, '\n');
    }
    let n = pieces.len();
    let mut out: Vec<Vec<char>> = Vec::new();
    let mut i: usize = 0;
    while i + 1 < n
        invariant
            n == pieces@.len(),
            n > 0,
            i + 1 <= n,
            views(pieces@) == split_char(v@, '\n'),
            views(out@) == add_nl_all(views(pieces@).take(i as int)),
        decreases n - i,
    {
        let p = &pieces[i];
        let mut line: Vec<char> = Vec::new();
        push_range(&mut line, p, 0, p.len());
        line.push('\n');
        assert(p@ == views(pieces@)[i as int]);
        assert(line@ =~= p@.push('\n'));
        let ghost prev = views(out@);
        out.push(line);
        assert(views(out@) =~= prev.push(line@));
        assert(views(pieces@).take(i + 1) =~= views(pieces@).take(i as int).push(views(pieces@)[i as int]));
        assert(add_nl_all(views(pieces@).take(i + 1)) =~= add_nl_all(views(pieces@).take(i as int)).push(line@));
        i += 1;
        assert(views(out@) =~= add_nl_all(views(pieces@).take(i as int)));
    }
    assert(views(pieces@).take(i as int) =~= views(pieces@).drop_last());
    let last = &pieces[n - 1];
    assert(last@ == views(pieces@).last());
    if last.len() > 0 {
        let mut copy: Vec<char> = Vec::new();
        push_range(&mut copy, last, 0, last.len());
        assert(copy@ =~= last@);
        out.push(copy);
    }
    assert(views(out@) =~= lines_incl(v@));
    out
}

proof fn lemma_split_nonempty(s: Seq<char>, c: char)
    ensures
        split_char(s, c).len() > 0,
    decreases s.len(),
{
    let k = crate::text::last_index_of(s, c);
    if k >= 0 {
        crate::text::lemma_last_index_bounds(s, c);
        lemma_split_nonempty(s.take(k), c);
    }
}

/// Append `lines[lo..hi]` to `out`.
fn push_lines(out: &mut Vec<char>, lines: &Vec<Vec<char>>, lo: usize, hi: usize)
    requires
        lo <= hi <= lines@.len(),
    ensures
        final(out)@ == old(out)@ + concat(views(lines@).subrange(lo as int, hi as int)),
{
    let mut i = lo;
    while i < hi
        invariant
            lo <= i <= hi <= lines@.len(),
            out@ == old(out)@ + concat(views(lines@).subrange(lo as int, i as int)),
        decreases hi - i,
    {
        push_all(out, &lines[i]);
        assert(views(lines@).subrange(lo as int, i + 1).drop_last() =~= views(lines@).subrange(lo as int, i as int));
        i += 1;
    }
}

fn is_fence_exec(line: &Vec<char>) -> (r: bool)
    ensures
        r == is_fence(line@),
{
    let t = trim_end_bound(line, 0, line.len());
    assert(line@.subrange(0, line@.len() as int) =~= line@);
    let r = t == 3 && line[0] == '-' && line[1] == '-' && line[2] == '-';
    proof {
        let te = trim_end(line@);
        assert(te == line@.subrange(0, t as int));
        if te == seq!['-', '-', '-'] {
            assert(te.len() == 3);
            assert(te[0] == line@[0] && te[1] == line@[1] && te[2] == line@[2]);
        }
        if r {
            assert(te =~= seq!['-', '-', '-']);
        }
    }
    r
}

fn is_blank_exec(line: &Vec<char>) -> (r: bool)
    ensures
        r == is_blank(line@),
{
    let (a, b) = trim_bounds(line, 0, line.len());
    assert(line@.subrange(0, line@.len() as int) =~= line@);
    a == b
}

fn fence_from_exec(lines: &Vec<Vec<char>>, from: usize) -> (r: Option<usize>)
    ensures
        match r {
            Some(i) => fence_from(views(lines@), from as int) == Some(i as int),
            None => fence_from(views(lines@), from as int) is None,
        },
{
    let mut i = from;
    while i < lines.len()
        invariant
            from <= i,
            fence_from(views(lines@), from as int) == fence_from(views(lines@), i as int),
        decreases lines.len() - i,
    {
        assert(views(lines@)[i as int] == lines@[i as int]@);
        if is_fence_exec(&lines[i]) {
            return Some(i);
        }
        i += 1;
    }
    None
}

/// Indices of the opening and closing `---` fences.
fn frontmatter_bounds(lines: &Vec<Vec<char>>) -> (r: Option<(usize, usize)>)
    ensures
        match r {
            Some((a, b)) => bounds_spec(views(lines@)) == Some((a as int, b as int)),
            None => bounds_spec(views(lines@)) is None,
        },
{
    let first = match fence_from_exec(lines, 0) {
        Some(f) => f,
        None => return None,
    };
    proof {
        lemma_fence_bound(views(lines@), 0);
    }
    let mut j: usize = 0;
    while j < first
        invariant
            j <= first,
            first < lines@.len(),
            fence_from(views(lines@), 0) == Some(first as int),
            forall|k: int| 0 <= k < j ==> is_blank(#[trigger] views(lines@)[k]),
        decreases first - j,
    {
        proof {
            lemma_fence_bound(views(lines@), 0);
        }
        assert(views(lines@)[j as int] == lines@[j as int]@);
        if !is_blank_exec(&lines[j]) {
            return None;
        }
        j += 1;
    }
    proof {
        lemma_fence_bound(views(lines@), 0);
    }
    let n = lines.len();
    assert(first < n);
    match fence_from_exec(lines, first + 1) {
        Some(close) => Some((first, close)),
        None => None,
    }
}

proof fn lemma_fence_bound(lines: Seq<Seq<char>>, from: int)
    ensures
        fence_from(lines, from) matches Some(i) ==> from <= i < lines.len() && is_fence(lines[i]),
    decreases lines.len() - from,
{
    if 0 <= from < lines.len() && !is_fence(lines[from]) {
        lemma_fence_bound(lines, from + 1);
    }
}

/// True when a line declares `key:` at the top level of the frontmatter.
fn is_key(line: &Vec<char>, key: &Vec<char>) -> (r: bool)
    ensures
        r == is_key_line(line@, key@),
{
    if line.len() > 0 && is_ws_exec(line[0]) {
        return false;
    }
    if key.len() > line.len() {
        return false;
    }
    let prefix = crate::text::range_eq(line, 0, key.len(), key, 0, key.len());
    assert(key@.subrange(0, key@.len() as int) =~= key@);
    assert(line@.subrange(0, key@.len() as int) =~= line@.take(key@.len() as int));
    if !prefix {
        return false;
    }
    let s = trim_start_bound(line, key.len(), line.len());
    assert(line@.subrange(key@.len() as int, line@.len() as int) =~= line@.skip(key@.len() as int));
    let ghost ts = trim_start(line@.skip(key@.len() as int));
    assert(ts == line@.subrange(s as int, line@.len() as int));
    if s < line.len() {
        assert(ts[0] == line@[s as int]);
    }
    s < line.len() && line[s] == ':'
}

pub proof fn lemma_first_index(s: Seq<char>, c: char, k: int)
    requires
        0 <= k < s.len(),
        s[k] == c,
        forall|j: int| 0 <= j < k ==> s[j] != c,
    ensures
        first_index_of(s, c) == k,
    decreases k,
{
    if k > 0 {
        lemma_first_index(s.drop_first(), c, k - 1);
    }
}

pub proof fn lemma_first_index_none(s: Seq<char>, c: char)
    requires
        forall|j: int| 0 <= j < s.len() ==> s[j] != c,
    ensures
        first_index_of(s, c) == -1,
    decreases s.len(),
{
    if s.len() > 0 {
        lemma_first_index_none(s.drop_first(), c);
    }
}

/// What follows the first `:`, trimmed.
fn value_after_colon(line: &Vec<char>) -> (r: Vec<char>)
    ensures
        r@ == value_of(line@),
{
    let mut k: usize = 0;
    while k < line.len() && line[k] != ':'
        invariant
            k <= line@.len(),
            forall|j: int| 0 <= j < k ==> line@[j] != ':',
        decreases line.len() - k,
    {
        k += 1;
    }
    if k == line.len() {
        proof {
            lemma_first_index_none(line@, ':');
        }
        return Vec::new();
    }
    proof {
        lemma_first_index(line@, ':', k as int);
    }
    let (a, b) = trim_bounds(line, k + 1, line.len());
    assert(line@.subrange(k + 1, line@.len() as int) =~= line@.skip(k + 1));
    let mut r: Vec<char> = Vec::new();
    push_range(&mut r, line, a, b);
    r
}

pub fn trim_vec(v: &Vec<char>) -> (r: Vec<char>)
    ensures
        r@ == trim(v@),
{
    let (a, b) = trim_bounds(v, 0, v.len());
    assert(v@.subrange(0, v@.len() as int) =~= v@);
    let mut r: Vec<char> = Vec::new();
    push_range(&mut r, v, a, b);
    r
}

pub fn trim_quotes_vec(v: &Vec<char>) -> (r: Vec<char>)
    ensures
        r@ == trim_quotes(v@),
{
    let t = crate::acl::index::trim_end_char_vec(v, '"');
    crate::acl::index::trim_start_char_vec(&t, '"')
}

fn entry_value_vec(t: &Vec<char>) -> (r: Vec<char>)
    ensures
        r@ == entry_value(t@),
{
    let e = trim_end_bound(t, 0, t.len());
    assert(t@.subrange(0, t@.len() as int) =~= t@);
    let mut te: Vec<char> = Vec::new();
    push_range(&mut te, t, 0, e);
    let d = crate::acl::index::trim_start_char_vec(&te, '-');
    let tt = trim_vec(&d);
    trim_quotes_vec(&tt)
}

/// Add `email` to the file's `allow` list, returning the new text.
///
/// Returns `Ok(None)` when the address is already listed, so the caller can report
/// "already granted" rather than writing an identical file.
pub fn add_to_allow_list(source: &str, email: &str) -> (r: Result<Option<String>, EditError>)
    ensures
        match (r, add_spec(source@, email@)) {
            (Ok(Some(text)), Ok(Some(t))) => text@ == t,
            (Ok(None), Ok(None)) => true,
            (Err(e), Err(m)) => e.message@ == m,
            _ => false,
        },
{
    let src = chars_of(source);
    let em = chars_of(email);
    let crlf = chars_of("\r\n");
    proof {
        reveal_strlit("\r\n");
    }
    assert(crlf@ =~= seq!['\r', '\n']);
    let mut le: Vec<char> = Vec::new();
    if contains_exec(&src, &crlf) {
        le.push('\r');
        le.push('\n');
    } else {
        le.push('\n');
    }
    assert(le@ =~= line_ending(source@));
    let lines = lines_incl_vec(&src);
    let ghost ls = views(lines@);
    let (open, close) = match frontmatter_bounds(&lines) {
        Some(b) => b,
        None => {
            // Adding frontmatter to a file that has none would change how the file is
            // read, so it is the author's call, not ours.
            let mut message = String::from_str(
                "this file has no frontmatter block. Add one first:\n  ---\n  allow:\n    - ",
            );
            message.append(email);
            message.append("\n  ---");
            return Err(EditError { message });
        },
    };
    proof {
        lemma_fence_bound(ls, 0);
        lemma_fence_bound(ls, open + 1);
    }
    let allow_word = chars_of("allow");
    let mut a = open + 1;
    while a < close && !is_key(&lines[a], &allow_word)
        invariant
            open + 1 <= a <= close,
            close < lines@.len(),
            ls == views(lines@),
            allow_word@ == "allow"@,
            allow_from(ls, open + 1, close as int) == allow_from(ls, a as int, close as int),
        decreases close - a,
    {
        assert(ls[a as int] == lines@[a as int]@);
        a += 1;
    }
    if a < close {
        assert(ls[a as int] == lines@[a as int]@);
    }
    if a == close {
        // No `allow` yet: insert a fresh block just inside the closing fence.
        let mut out: Vec<char> = Vec::new();
        push_lines(&mut out, &lines, 0, close);
        assert(ls.subrange(0, close as int) =~= ls.take(close as int));
        ensure_trailing_newline(&mut out, &le);
        push_str(&mut out, "allow:");
        push_all(&mut out, &le);
        push_str(&mut out, "  - ");
        push_all(&mut out, &em);
        push_all(&mut out, &le);
        push_lines(&mut out, &lines, close, lines.len());
        assert(ls.subrange(close as int, ls.len() as int) =~= ls.skip(close as int));
        return Ok(Some(string_of(&out)));
    }
    let value = value_after_colon(&lines[a]);
    let vn = value.len();
    if vn >= 2 && value[0] == '[' && value[vn - 1] == ']' {
        return Ok(add_inline(&lines, a, &value, &em, &le, Ghost(source@), Ghost(email@)));
    }
    if vn > 0 {
        // A scalar here is the malformed shape the parser rejects; rewriting it would
        // be guessing at what the author meant.
        let mut message = String::from_str("`allow` in this file is not a list (found `");
        message.append(string_of(&value).as_str());
        message.append("`). Fix it by hand:\n  allow:\n    - someone@example.com");
        return Err(EditError { message });
    }
    // A block list: find its extent and append, matching the existing indentation.
    let mut last = a;
    let mut indent = chars_of("  - ");
    let mut i = a + 1;
    let mut stop = false;
    assert(add_spec(source@, email@) == block_result(ls, em@, a as int, close as int, le@));
    while i < close && !stop
        invariant
            add_spec(source@, email@) == block_result(ls, em@, a as int, close as int, le@),
            a < i <= close,
            a <= last < i,
            close < lines@.len(),
            ls == views(lines@),
            stop ==> scan_block(ls, em@, a + 1, close as int, a as int, "  - "@) == Ok::<(int, Seq<char>), ()>((last as int, indent@)),
            !stop ==> scan_block(ls, em@, a + 1, close as int, a as int, "  - "@) == scan_block(
                ls,
                em@,
                i as int,
                close as int,
                last as int,
                indent@,
            ),
        decreases close - i,
    {
        let line = &lines[i];
        assert(ls[i as int] == line@);
        let s = trim_start_bound(line, 0, line.len());
        assert(line@.subrange(0, line@.len() as int) =~= line@);
        let mut t: Vec<char> = Vec::new();
        push_range(&mut t, line, s, line.len());
        assert(t@ == trim_start(line@));
        if t.len() > 0 && t[0] == '-' {
            let value = entry_value_vec(&t);
            if vec_eq(&value, &em) {
                assert(scan_block(ls, em@, i as int, close as int, last as int, indent@) is Err);
                return Ok(None);
            }
            let mut lead: Vec<char> = Vec::new();
            push_range(&mut lead, line, 0, s);
            lead.push('-');
            lead.push(' ');
            assert(lead@ =~= line@.take(line@.len() - t@.len()) + seq!['-', ' ']);
            indent = lead;
            last = i;
        } else {
            let tt = trim_vec(&t);
            if tt.len() > 0 {
                stop = true;
            }
        }
        i += 1;
    }
    let mut out: Vec<char> = Vec::new();
    push_lines(&mut out, &lines, 0, last + 1);
    assert(ls.subrange(0, last + 1) =~= ls.take(last + 1));
    ensure_trailing_newline(&mut out, &le);
    push_all(&mut out, &indent);
    push_all(&mut out, &em);
    push_all(&mut out, &le);
    push_lines(&mut out, &lines, last + 1, lines.len());
    assert(ls.subrange(last + 1, ls.len() as int) =~= ls.skip(last + 1));
    Ok(Some(string_of(&out)))
}

fn ensure_trailing_newline(out: &mut Vec<char>, le: &Vec<char>)
    ensures
        final(out)@ == ensure_nl(old(out)@, le@),
{
    if !(out.len() > 0 && out[out.len() - 1] == '\n') {
        push_all(out, le);
    }
}

/// An inline list (`allow: [a@x.com]`) is rewritten in place, keeping it inline.
fn add_inline(
    lines: &Vec<Vec<char>>,
    a: usize,
    value: &Vec<char>,
    em: &Vec<char>,
    le: &Vec<char>,
    Ghost(source): Ghost<Seq<char>>,
    Ghost(email): Ghost<Seq<char>>,
) -> (r: Option<String>)
    requires
        a < lines.len(),
        value@.len() >= 2,
        em@ == email,
    ensures
        ({
            let existing = inline_entries(value@.subrange(1, value@.len() - 1));
            let ls = views(lines@);
            if exists|i: int| 0 <= i < existing.len() && trim_quotes(#[trigger] existing[i]) == email {
                r is None
            } else {
                r matches Some(text) && text@ == concat(ls.take(a as int)) + ("allow: ["@ + join(
                    existing.push(email),
                    ", "@,
                ) + "]"@) + le@ + concat(ls.skip(a + 1))
            }
        }),
{
    let mut inner: Vec<char> = Vec::new();
    push_range(&mut inner, value, 1, value.len() - 1);
    let pieces = split_vec(&inner, ',');
    let ghost trimmed = trim_all(views(pieces@));
    let mut existing: Vec<Vec<char>> = Vec::new();
    let mut i: usize = 0;
    while i < pieces.len()
        invariant
            i <= pieces@.len(),
            trimmed == trim_all(views(pieces@)),
            views(existing@) == trimmed.take(i as int).filter(nonempty()),
        decreases pieces.len() - i,
    {
        let t = trim_vec(&pieces[i]);
        assert(t@ == trimmed[i as int]);
        proof {
            trimmed.take(i as int).lemma_filter_push(trimmed[i as int], nonempty());
            assert(trimmed.take(i + 1) =~= trimmed.take(i as int).push(trimmed[i as int]));
        }
        if t.len() > 0 {
            existing.push(t);
        }
        i += 1;
    }
    assert(trimmed.take(i as int) =~= trimmed);
    assert(views(existing@) == inline_entries(value@.subrange(1, value@.len() - 1))) by {
        assert(inner@ =~= value@.subrange(1, value@.len() - 1));
    }
    let mut k: usize = 0;
    while k < existing.len()
        invariant
            k <= existing@.len(),
            em@ == email,
            views(existing@) == inline_entries(value@.subrange(1, value@.len() - 1)),
            forall|j: int| 0 <= j < k ==> trim_quotes(#[trigger] views(existing@)[j]) != email,
        decreases existing.len() - k,
    {
        let q = trim_quotes_vec(&existing[k]);
        assert(views(existing@)[k as int] == existing@[k as int]@);
        if vec_eq(&q, em) {
            assert(trim_quotes(inline_entries(value@.subrange(1, value@.len() - 1))[k as int]) == email);
            return None;
        }
        k += 1;
    }
    let mut entries = existing;
    let mut copy: Vec<char> = Vec::new();
    push_all(&mut copy, em);
    let ghost before = views(entries@);
    entries.push(copy);
    assert(views(entries@) =~= before.push(email));
    let sep = chars_of(", ");
    let joined = join_vec(&entries, &sep);
    let mut out: Vec<char> = Vec::new();
    push_lines(&mut out, lines, 0, a);
    assert(views(lines@).subrange(0, a as int) =~= views(lines@).take(a as int));
    push_str(&mut out, "allow: [");
    push_all(&mut out, &joined);
    push_str(&mut out, "]");
    push_all(&mut out, le);
    push_lines(&mut out, lines, a + 1, lines.len());
    assert(views(lines@).subrange(a + 1, views(lines@).len() as int) =~= views(lines@).skip(a + 1));
    assert(out@ =~= concat(views(lines@).take(a as int)) + ("allow: ["@ + join(before.push(email), ", "@) + "]"@) + le@ + concat(views(lines@).skip(a + 1)));
    Some(string_of(&out))
}

/// A line of a block list: `- entry` after optional indentation.
pub open spec fn is_entry_line(line: Seq<char>) -> bool {
    trim_start(line).len() > 0 && trim_start(line)[0] == '-'
}

/// The scan of a block list stops at an entry naming `email` when every line before it
/// is another entry or blank.
proof fn lemma_scan_finds_listed(lines: Seq<Seq<char>>, email: Seq<char>, from: int, j: int, close: int, last: int, indent: Seq<char>)
    requires
        0 <= from <= j < close <= lines.len(),
        is_entry_line(lines[j]),
        entry_value(trim_start(lines[j])) == email,
        forall|i: int| from <= i < j ==> (is_entry_line(#[trigger] lines[i]) && entry_value(trim_start(lines[i])) != email)
            || trim(trim_start(lines[i])).len() == 0,
    ensures
        scan_block(lines, email, from, close, last, indent) is Err,
    decreases j - from,
{
    if from < j {
        let line = lines[from];
        let t = trim_start(line);
        if t.len() > 0 && t[0] == '-' {
            lemma_scan_finds_listed(lines, email, from + 1, j, close, from, line.take(line.len() - t.len()) + seq!['-', ' ']);
        } else {
            lemma_scan_finds_listed(lines, email, from + 1, j, close, last, indent);
        }
    }
}

/// An address already listed is not added again: when the `allow` list of the
/// frontmatter, inline (`allow: [..]`) or as a block of `- ` lines, holds an entry equal
/// to `email` once whitespace and quotes are trimmed, the result is `Ok(None)`, and the
/// caller writes nothing. Here `j` is the line of that entry in a block list, preceded
/// within the list only by other entries and blank lines; for an inline list it is
/// not used.
pub proof fn lemma_listed_address_is_not_added(source: Seq<char>, email: Seq<char>, j: int)
    requires
        bounds_spec(lines_incl(source)) is Some,
        ({
            let lines = lines_incl(source);
            let (open, close) = bounds_spec(lines)->0;
            allow_from(lines, open + 1, close) matches Some(a) && ({
                let value = value_of(lines[a]);
                if value.len() >= 2 && value[0] == '[' && value.last() == ']' {
                    let existing = inline_entries(value.subrange(1, value.len() - 1));
                    exists|i: int| 0 <= i < existing.len() && trim_quotes(#[trigger] existing[i]) == email
                } else {
                    &&& value.len() == 0
                    &&& 0 <= a < j < close <= lines.len()
                    &&& is_entry_line(lines[j])
                    &&& entry_value(trim_start(lines[j])) == email
                    &&& forall|i: int| a < i < j ==> (is_entry_line(#[trigger] lines[i]) && entry_value(trim_start(lines[i])) != email)
                        || trim(trim_start(lines[i])).len() == 0
                }
            })
        }),
    ensures
        add_spec(source, email) == Ok::<Option<Seq<char>>, Seq<char>>(None),
{
    let lines = lines_incl(source);
    let (open, close) = bounds_spec(lines)->0;
    let a = allow_from(lines, open + 1, close)->0;
    let value = value_of(lines[a]);
    if !(value.len() >= 2 && value[0] == '[' && value.last() == ']') {
        lemma_scan_finds_listed(lines, email, a + 1, j, close, a, "  - "@);
    }
}

/// The value written after the top-level `allow:` of the frontmatter, if there is
/// such a line.
pub open spec fn allow_value(source: Seq<char>) -> Option<Seq<char>> {
    let lines = lines_incl(source);
    match bounds_spec(lines) {
        Some((open, close)) => match allow_from(lines, open + 1, close) {
            Some(a) => Some(value_of(lines[a])),
            None => None,
        },
        None => None,
    }
}

/// Refusals rather than guesses: a file with no frontmatter block, or whose `allow`
/// holds something other than a list, is refused with a message saying which, and no
/// text is produced.
pub proof fn lemma_malformed_allow_is_refused(source: Seq<char>, email: Seq<char>)
    ensures
        bounds_spec(lines_incl(source)) is None ==> add_spec(source, email)
            == Err::<Option<Seq<char>>, Seq<char>>(no_frontmatter_message(email)),
        allow_value(source) matches Some(v) ==> (v.len() > 0 && !(v.len() >= 2 && v[0] == '[' && v.last() == ']')
            ==> add_spec(source, email) == Err::<Option<Seq<char>>, Seq<char>>(not_a_list_message(v))),
{
}

proof fn lemma_concat_split(lines: Seq<Seq<char>>, n: int)
    requires
        0 <= n <= lines.len(),
    ensures
        concat(lines.take(n)) + concat(lines.skip(n)) == concat(lines),
    decreases lines.len() - n,
{
    if n < lines.len() {
        lemma_concat_split(lines.drop_last(), if n <= lines.len() - 1 { n } else { lines.len() - 1 });
        assert(lines.drop_last().take(n) =~= lines.take(n));
        assert(lines.skip(n).drop_last() =~= lines.drop_last().skip(n));
        assert(lines.skip(n).last() == lines.last());
    } else {
        assert(lines.take(n) =~= lines);
        assert(lines.skip(n) =~= Seq::<Seq<char>>::empty());
    }
}

proof fn lemma_concat_add_nl(p: Seq<Seq<char>>)
    requires
        p.len() > 0,
    ensures
        concat(add_nl_all(p)) == concat(add_nl_all(p.drop_last())) + p.last() + seq!['\n'],
{
    assert(add_nl_all(p).drop_last() =~= add_nl_all(p.drop_last()));
    assert(add_nl_all(p).last() == p.last().push('\n'));
    assert(p.last().push('\n') =~= p.last() + seq!['\n']);
}

/// Gluing the pieces of a split back together with `\n` gives the text back.
proof fn lemma_join_split(s: Seq<char>)
    ensures
        split_char(s, '\n').len() > 0,
        concat(add_nl_all(split_char(s, '\n').drop_last())) + split_char(s, '\n').last() == s,
    decreases s.len(),
{
    lemma_split_nonempty(s, '\n');
    let k = crate::text::last_index_of(s, '\n');
    if k < 0 {
        assert(split_char(s, '\n') =~= seq![s]);
        assert(add_nl_all(Seq::<Seq<char>>::empty()) =~= Seq::<Seq<char>>::empty());
    } else {
        crate::text::lemma_last_index_bounds(s, '\n');
        lemma_join_split(s.take(k));
        let p = split_char(s.take(k), '\n');
        assert(split_char(s, '\n') == p.push(s.skip(k + 1)));
        assert(p.push(s.skip(k + 1)).drop_last() =~= p);
        lemma_concat_add_nl(p);
        assert(s.take(k) + seq!['\n'] + s.skip(k + 1) =~= s);
    }
}

/// The lines of a text, concatenated, are the text.
proof fn lemma_lines_concat(s: Seq<char>)
    ensures
        concat(lines_incl(s)) == s,
{
    lemma_join_split(s);
    let pieces = split_char(s, '\n');
    let body = add_nl_all(pieces.drop_last());
    if pieces.last().len() == 0 {
        assert(concat(body) + pieces.last() =~= concat(body));
    } else {
        assert(body.push(pieces.last()).drop_last() =~= body);
    }
}

proof fn lemma_allow_from_bound(lines: Seq<Seq<char>>, from: int, close: int)
    ensures
        allow_from(lines, from, close) matches Some(a) ==> 0 <= from <= a < close <= lines.len(),
    decreases close - from,
{
    if !(from < 0 || from >= close || close > lines.len()) && !is_key_line(lines[from], "allow"@) {
        lemma_allow_from_bound(lines, from + 1, close);
    }
}

proof fn lemma_scan_bound(lines: Seq<Seq<char>>, email: Seq<char>, i: int, close: int, last: int, indent: Seq<char>)
    requires
        0 <= last < close <= lines.len(),
        last < i,
    ensures
        scan_block(lines, email, i, close, last, indent) matches Ok((l, _)) ==> 0 <= l < close,
    decreases close - i,
{
    if !(i < 0 || i >= close || close > lines.len()) {
        let line = lines[i];
        let t = trim_start(line);
        if t.len() > 0 && t[0] == '-' {
            if entry_value(t) != email {
                lemma_scan_bound(lines, email, i + 1, close, i, line.take(line.len() - t.len()) + seq!['-', ' ']);
            }
        } else if trim(t).len() == 0 {
            lemma_scan_bound(lines, email, i + 1, close, last, indent);
        }
    }
}

/// What the inserted text is, when a grant adds a line.
pub open spec fn inserted_text(source: Seq<char>, email: Seq<char>) -> Seq<char> {
    let le = line_ending(source);
    let lines = lines_incl(source);
    let (open, close) = bounds_spec(lines)->0;
    match allow_from(lines, open + 1, close) {
        None => "allow:"@ + le + "  - "@ + email + le,
        Some(a) => match scan_block(lines, email, a + 1, close, a, "  - "@) {
            Ok((last, indent)) => indent + email + le,
            Err(_) => Seq::empty(),
        },
    }
}

/// Adding to a block list (or adding the list) changes nothing but the inserted lines:
/// the new text is the old one cut in two with the added line between (and, should the
/// first half not end a line, a line break to end it). Comments, key order and every
/// other key are untouched.
pub proof fn lemma_grant_only_inserts(source: Seq<char>, email: Seq<char>)
    requires
        add_spec(source, email) matches Ok(Some(_)),
        !(allow_value(source) matches Some(v) && v.len() >= 2 && v[0] == '[' && v.last() == ']'),
    ensures
        exists|p: Seq<char>, q: Seq<char>| #![trigger p + q]
            source == p + q && (add_spec(source, email) == Ok::<Option<Seq<char>>, Seq<char>>(Some(p + inserted_text(source, email) + q))
                || add_spec(source, email) == Ok::<Option<Seq<char>>, Seq<char>>(Some(p + line_ending(source) + inserted_text(source, email) + q))),
{
    let le = line_ending(source);
    let lines = lines_incl(source);
    lemma_lines_concat(source);
    let (open, close) = bounds_spec(lines)->0;
    let n = match allow_from(lines, open + 1, close) {
        None => close,
        Some(a) => match scan_block(lines, email, a + 1, close, a, "  - "@) {
            Ok((last, indent)) => last + 1,
            Err(_) => 0,
        },
    };
    lemma_fence_bound(lines, 0);
    lemma_fence_bound(lines, open + 1);
    assert(0 <= open < close < lines.len());
    lemma_allow_from_bound(lines, open + 1, close);
    if let Some(a) = allow_from(lines, open + 1, close) {
        lemma_scan_bound(lines, email, a + 1, close, a, "  - "@);
    }
    assert(0 <= n <= lines.len());
    lemma_concat_split(lines, n);
    let p = concat(lines.take(n));
    let q = concat(lines.skip(n));
    assert(source == p + q);
    let ins = inserted_text(source, email);
    let out = add_spec(source, email)->Ok_0->0;
    match allow_from(lines, open + 1, close) {
        None => {
            assert(out == ensure_nl(p, le) + "allow:"@ + le + "  - "@ + email + le + q);
            if p.len() > 0 && p.last() == '\n' {
                assert(out =~= p + ins + q);
            } else {
                assert(out =~= p + le + ins + q);
            }
        },
        Some(a) => {
            let value = value_of(lines[a]);
            assert(allow_value(source) == Some(value));
            assert(!(value.len() >= 2 && value[0] == '[' && value.last() == ']'));
            assert(value.len() == 0);
            match scan_block(lines, email, a + 1, close, a, "  - "@) {
                Ok((last, indent)) => {
                    assert(out == ensure_nl(concat(lines.take(last + 1)), le) + indent + email + le + concat(lines.skip(last + 1)));
                    if p.len() > 0 && p.last() == '\n' {
                        assert(out =~= p + ins + q);
                    } else {
                        assert(out =~= p + le + ins + q);
                    }
                },
                Err(_) => {},
            }
        },
    }
}

} // verus!
