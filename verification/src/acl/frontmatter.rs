//! Reading rule blocks out of parsed frontmatter, and keeping them out of what
//! templates see.
//!
//! The frontmatter arrives already parsed, as a [`FmValue`]; the raw file text is used
//! only to point error messages at a line.
use vstd::prelude::*;

use crate::auth::email::{is_valid_email, normalize_email, normalized_email, valid_email};
use crate::text::{
    chars_of, contains_exec, contains_seq, push_range, split_char, split_vec, str_eq, string_of,
    trim_end, trim_end_bound, trim_start, trim_start_bound, views,
};

use super::{AclBlock, AclError};

verus! {

/// A frontmatter value, as a YAML or JSON document holds it.
#[derive(Debug)]
pub enum FmValue {
    Null,
    Bool(bool),
    /// A number, kept as it was written.
    Number(String),
    String(String),
    Array(Vec<FmValue>),
    /// Entries in document order.
    Object(Vec<(String, FmValue)>),
}

/// What `{:?}` prints for a string: the text in double quotes, with escapes.
pub uninterp spec fn debug_quoted_of(s: Seq<char>) -> Seq<char>;

/// `format!("{:?}", s)` (std's `Debug` for `str`). Claimed: the result depends on `s`
/// alone.
#[verifier::external_body]
pub(crate) fn debug_quoted(s: &str) -> (r: String)
    ensures
        r@ == debug_quoted_of(s@),
{
    format!("{:?}", s)
}

/// How an error message names a value that is not what a rule key needs.
pub open spec fn describe_spec(v: FmValue) -> Seq<char> {
    match v {
        FmValue::Null => "an empty value"@,
        FmValue::Bool(_) => "a boolean"@,
        FmValue::Number(_) => "a number"@,
        FmValue::String(text) => "the string "@ + debug_quoted_of(text@),
        FmValue::Array(_) => "a list"@,
        FmValue::Object(_) => "a mapping"@,
    }
}

pub fn describe_json(value: &FmValue) -> (r: String)
    ensures
        r@ == describe_spec(*value),
{
    match value {
        FmValue::Null => String::from_str("an empty value"),
        FmValue::Bool(_) => String::from_str("a boolean"),
        FmValue::Number(_) => String::from_str("a number"),
        FmValue::String(text) => {
            let mut out = String::from_str("the string ");
            let q = debug_quoted(text.as_str());
            out.append(q.as_str());
            out
        },
        FmValue::Array(_) => String::from_str("a list"),
        FmValue::Object(_) => String::from_str("a mapping"),
    }
}

/// `s` without one trailing `\r`.
pub open spec fn strip_cr(s: Seq<char>) -> Seq<char> {
    if s.len() > 0 && s.last() == '\r' {
        s.drop_last()
    } else {
        s
    }
}

pub open spec fn strip_cr_all(s: Seq<Seq<char>>) -> Seq<Seq<char>>
    decreases s.len(),
{
    if s.len() == 0 {
        Seq::empty()
    } else {
        strip_cr_all(s.drop_last()).push(strip_cr(s.last()))
    }
}

/// `str::lines`: split at `\n`, a `\r` just before a `\n` dropped, and no final empty
/// line after a trailing newline.
pub open spec fn lines_spec(raw: Seq<char>) -> Seq<Seq<char>> {
    let pieces = split_char(raw, '\n');
    let body = strip_cr_all(pieces.drop_last());
    if pieces.last().len() == 0 {
        body
    } else {
        body.push(pieces.last())
    }
}

proof fn lemma_split_nonempty(s: Seq<char>, c: char)
    ensures
        split_char(s, c).len() > 0,
    decreases s.len(),
{
    let k = crate::text::last_index_of(s, c);
    if k >= 0 {
        crate::text::lemma_last_index_bounds(s, c);
        lemma_split_nonempty(s.take(k), c);
    }
}

/// The lines of `raw`, as `str::lines` yields them.
pub fn lines_of(raw: &Vec<char>) -> (r: Vec<Vec<char>>)
    ensures
        views(r@) == lines_spec(raw@),
{
    let pieces = split_vec(raw, '\n');
    proof {
        lemma_split_nonempty(raw@, '\n');
    }
    let n = pieces.len();
    let mut out: Vec<Vec<char>> = Vec::new();
    let mut i: usize = 0;
    while i + 1 < n
        invariant
            n == pieces@.len(),
            n > 0,
            i + 1 <= n,
            views(pieces@) == split_char(raw@, '\n'),
            views(out@) == strip_cr_all(views(pieces@).take(i as int)),
        decreases n - i,
    {
        let p = &pieces[i];
        let len = p.len();
        let end = if len > 0 && p[len - 1] == '\r' { len - 1 } else { len };
        let mut line: Vec<char> = Vec::new();
        push_range(&mut line, p, 0, end);
        assert(p@ == views(pieces@)[i as int]);
        assert(line@ =~= strip_cr(p@));
        out.push(line);
        assert(views(pieces@).take(i + 1).drop_last() =~= views(pieces@).take(i as int));
        i += 1;
        assert(views(out@) =~= strip_cr_all(views(pieces@).take(i as int)));
    }
    assert(views(pieces@).take(i as int) =~= views(pieces@).drop_last());
    let last = &pieces[n - 1];
    assert(last@ == views(pieces@).last());
    if last.len() > 0 {
        let mut copy: Vec<char> = Vec::new();
        push_range(&mut copy, last, 0, last.len());
        assert(copy@ =~= last@);
        out.push(copy);
    }
    assert(views(out@) =~= lines_spec(raw@));
    out
}

/// The first line's index from `from` on for which the search below succeeds, as a
/// 1-based line number; `None` once the frontmatter closes or the text ends.
pub open spec fn key_line_from(lines: Seq<Seq<char>>, key: Seq<char>, from: int, in_fm: bool) -> Option<usize>
    decreases lines.len() - from,
{
    if from < 0 || from >= lines.len() {
        None
    } else {
        let line = lines[from];
        if trim_end(line) == seq!['-', '-', '-'] {
            if in_fm {
                None
            } else {
                key_line_from(lines, key, from + 1, true)
            }
        } else if in_fm && key.len() <= line.len() && line.take(key.len() as int) == key
            && trim_start(line.skip(key.len() as int)).len() > 0 && trim_start(
            line.skip(key.len() as int),
        )[0] == ':' {
            Some((from + 1) as usize)
        } else {
            key_line_from(lines, key, from + 1, in_fm)
        }
    }
}

/// The 1-based line of a top-level frontmatter key, for error messages.
pub open spec fn key_line_spec(raw: Seq<char>, key: Seq<char>) -> Option<usize> {
    key_line_from(lines_spec(raw), key, 0, false)
}

/// Locate the 1-based line of a top-level frontmatter key, for error messages.
pub fn find_key_line(raw: &str, key: &str) -> (r: Option<usize>)
    ensures
        r == key_line_spec(raw@, key@),
{
    let rv = chars_of(raw);
    let kv = chars_of(key);
    let lines = lines_of(&rv);
    let ghost ls = views(lines@);
    let mut in_fm = false;
    let mut i: usize = 0;
    while i < lines.len()
        invariant
            i <= lines@.len(),
            ls == views(lines@),
            key_line_spec(raw@, key@) == key_line_from(ls, kv@, i as int, in_fm),
            kv@ == key@,
        decreases lines.len() - i,
    {
        let line = &lines[i];
        assert(line@ == ls[i as int]);
        let t = trim_end_bound(line, 0, line.len());
        assert(line@.subrange(0, line@.len() as int) =~= line@);
        let fence = t == 3 && line[0] == '-' && line[1] == '-' && line[2] == '-';
        proof {
            let te = trim_end(line@);
            assert(te == line@.subrange(0, t as int));
            if te == seq!['-', '-', '-'] {
                assert(te.len() == 3);
                assert(te[0] == line@[0] && te[1] == line@[1] && te[2] == line@[2]);
            }
            if fence {
                assert(te =~= seq!['-', '-', '-']);
            }
        }
        if fence {
            if in_fm {
                return None;
            }
            in_fm = true;
            i += 1;
            continue;
        }
        let mut matched = false;
        if in_fm && kv.len() <= line.len() {
            let prefix = crate::text::range_eq(line, 0, kv.len(), &kv, 0, kv.len());
            assert(kv@.subrange(0, kv@.len() as int) =~= kv@);
            assert(line@.subrange(0, kv@.len() as int) =~= line@.take(kv@.len() as int));
            if prefix {
                let st = trim_start_bound(line, kv.len(), line.len());
                assert(line@.subrange(kv@.len() as int, line@.len() as int) =~= line@.skip(kv@.len() as int));
                let ghost ts = trim_start(line@.skip(kv@.len() as int));
                assert(ts == line@.subrange(st as int, line@.len() as int));
                if st < line.len() && line[st] == ':' {
                    assert(ts[0] == line@[st as int]);
                    return Some(i + 1);
                }
                assert(!(ts.len() > 0 && ts[0] == ':')) by {
                    if ts.len() > 0 {
                        assert(ts[0] == line@[st as int]);
                    }
                }
            }
        }
        assert(key_line_from(ls, kv@, i as int, in_fm) == key_line_from(ls, kv@, i + 1, in_fm));
        i += 1;
    }
    None
}

/// The first line from `start` on that contains `needle`.
pub open spec fn first_hit(lines: Seq<Seq<char>>, needle: Seq<char>, start: int) -> int {
    choose|i: int|
        start <= i < lines.len() && contains_seq(#[trigger] lines[i], needle) && forall|j: int|
            start <= j < i ==> !contains_seq(#[trigger] lines[j], needle)
}

/// The line holding a specific list entry, searching from just after its key.
pub open spec fn entry_line_spec(raw: Seq<char>, needle: Seq<char>, key_line: Option<usize>) -> Option<usize> {
    let lines = lines_spec(raw);
    let start: int = match key_line {
        Some(k) => k as int,
        None => 0,
    };
    if exists|i: int| start <= i < lines.len() && contains_seq(#[trigger] lines[i], needle) {
        Some((first_hit(lines, needle, start) + 1) as usize)
    } else {
        None
    }
}

/// Find the line holding a specific list entry, searching from just after its key.
pub fn find_entry_line(raw: &str, needle: &str, key_line: Option<usize>) -> (r: Option<usize>)
    ensures
        r == entry_line_spec(raw@, needle@, key_line),
{
    let rv = chars_of(raw);
    let nv = chars_of(needle);
    let lines = lines_of(&rv);
    let ghost ls = views(lines@);
    let start = match key_line {
        Some(k) => k,
        None => 0,
    };
    let mut i = start;
    while i < lines.len()
        invariant
            ls == views(lines@),
            ls == lines_spec(raw@),
            nv@ == needle@,
            start == (match key_line {
                Some(k) => k,
                None => 0usize,
            }),
            start <= i || i >= lines@.len(),
            forall|j: int| start <= j < i && j < ls.len() ==> !contains_seq(#[trigger] ls[j], nv@),
        decreases lines.len() - i,
    {
        assert(lines@[i as int]@ == ls[i as int]);
        if contains_exec(&lines[i], &nv) {
            proof {
                let w = first_hit(ls, needle@, start as int);
                assert(start <= i < ls.len() && contains_seq(ls[i as int], needle@) && forall|j: int|
                    start <= j < i ==> !contains_seq(#[trigger] ls[j], needle@));
                if w < i {
                    assert(!contains_seq(ls[w], needle@));
                } else if w > i {
                    assert(!contains_seq(ls[i as int], needle@));
                }
            }
            return Some(i + 1);
        }
        i += 1;
    }
    None
}

/// An error's key, message and line, as the contracts describe it.
pub type ErrView = (Seq<char>, Seq<char>, Option<usize>);

pub open spec fn not_a_list_message(key: Seq<char>, found: Seq<char>) -> Seq<char> {
    "`"@ + key + "` must be a list of email addresses, but found "@ + found
        + ". Write it as a YAML list:\n  "@ + key + ":\n    - someone@example.com"@
}

pub open spec fn not_an_address_message(key: Seq<char>, found: Seq<char>) -> Seq<char> {
    "every entry under `"@ + key + "` must be an email address, but found "@ + found
}

pub open spec fn invalid_address_message(candidate: Seq<char>) -> Seq<char> {
    "`"@ + candidate + "` is not a valid email address"@
}

/// Reading `items` one by one: each must be a string whose normalized form is a valid
/// address; addresses are normalized and kept in first-seen order without repeats.
pub open spec fn scan_items(items: Seq<FmValue>, key: Seq<char>, raw: Seq<char>, line: Option<usize>) -> Result<Seq<Seq<char>>, ErrView>
    decreases items.len(),
{
    if items.len() == 0 {
        Ok(Seq::empty())
    } else {
        match scan_items(items.drop_last(), key, raw, line) {
            Err(e) => Err(e),
            Ok(acc) => match items.last() {
                FmValue::String(candidate) => {
                    let n = normalized_email(candidate@);
                    if !valid_email(n) {
                        Err(
                            (
                                key,
                                invalid_address_message(candidate@),
                                match entry_line_spec(raw, candidate@, line) {
                                    Some(l) => Some(l),
                                    None => line,
                                },
                            ),
                        )
                    } else if acc.contains(n) {
                        Ok(acc)
                    } else {
                        Ok(acc.push(n))
                    }
                },
                other => Err((key, not_an_address_message(key, describe_spec(other)), line)),
            },
        }
    }
}

/// What a rule value parses to: a list of valid addresses, or the error naming why not.
pub open spec fn email_list_spec(key: Seq<char>, value: FmValue, raw: Seq<char>) -> Result<Seq<Seq<char>>, ErrView> {
    let line = key_line_spec(raw, key);
    match value {
        FmValue::Array(items) => scan_items(items@, key, raw, line),
        other => Err((key, not_a_list_message(key, describe_spec(other)), line)),
    }
}

pub open spec fn err_view(e: AclError) -> ErrView {
    (e.key@, e.message@, e.line)
}

/// A rule value must be a list of valid addresses. Nothing else is accepted: a bare
/// string is an error rather than a one-element list, because `allow: a@x.com, b@y.com`
/// is one string, and reading it as one malformed address would leave the author
/// believing two people had been granted access when neither had.
pub fn parse_email_list(key: &str, value: &FmValue, raw: &str) -> (r: Result<Vec<String>, AclError>)
    ensures
        match (r, email_list_spec(key@, *value, raw@)) {
            (Ok(v), Ok(s)) => crate::text::string_seq(v@) == s,
            (Err(e), Err(s)) => err_view(e) == s && e.key@ == key@,
            _ => false,
        },
{
    let line = find_key_line(raw, key);
    let items = match value {
        FmValue::Array(items) => items,
        _ => {
            let found = describe_json(value);
            let mut message = String::from_str("`");
            message.append(key);
            message.append("` must be a list of email addresses, but found ");
            message.append(found.as_str());
            message.append(". Write it as a YAML list:\n  ");
            message.append(key);
            message.append(":\n    - someone@example.com");
            return Err(AclError { key: String::from_str(key), message, line });
        },
    };
    let mut emails: Vec<String> = Vec::new();
    let mut i: usize = 0;
    assert(items@.take(0) =~= Seq::<FmValue>::empty());
    assert(crate::text::string_seq(emails@) =~= Seq::<Seq<char>>::empty());
    while i < items.len()
        invariant
            i <= items@.len(),
            *value == FmValue::Array(*items),
            line == key_line_spec(raw@, key@),
            scan_items(items@.take(i as int), key@, raw@, line) == Ok::<Seq<Seq<char>>, ErrView>(
                crate::text::string_seq(emails@),
            ),
        decreases items.len() - i,
    {
        assert(items@.take(i + 1).drop_last() =~= items@.take(i as int));
        assert(items@.take(i + 1).last() == items@[i as int]);
        let candidate = match &items[i] {
            FmValue::String(candidate) => candidate,
            other => {
                let found = describe_json(other);
                let mut message = String::from_str("every entry under `");
                message.append(key);
                message.append("` must be an email address, but found ");
                message.append(found.as_str());
                proof {
                    lemma_scan_err_sticks(items@, key@, raw@, line, i as int + 1);
                }
                return Err(AclError { key: String::from_str(key), message, line });
            },
        };
        let normalized = normalize_email(candidate.as_str());
        if !is_valid_email(normalized.as_str()) {
            let mut message = String::from_str("`");
            message.append(candidate.as_str());
            message.append("` is not a valid email address");
            // Point at the offending entry rather than the key.
            let at = match find_entry_line(raw, candidate.as_str(), line) {
                Some(l) => Some(l),
                None => line,
            };
            proof {
                lemma_scan_err_sticks(items@, key@, raw@, line, i as int + 1);
            }
            return Err(AclError { key: String::from_str(key), message, line: at });
        }
        let seen = crate::acl::list_names(&emails, normalized.as_str());
        proof {
            assert(seen == crate::text::string_seq(emails@).contains(normalized@)) by {
                if seen {
                    let j = choose|j: int| 0 <= j < emails@.len() && (#[trigger] emails@[j])@ == normalized@;
                    assert(crate::text::string_seq(emails@)[j] == normalized@);
                }
                if crate::text::string_seq(emails@).contains(normalized@) {
                    let j = choose|j: int| 0 <= j < emails@.len() && crate::text::string_seq(emails@)[j] == normalized@;
                    assert(emails@[j]@ == normalized@);
                }
            }
        }
        if !seen {
            emails.push(normalized);
        }
        i += 1;
        assert(crate::text::string_seq(emails@) =~= scan_items(items@.take(i as int), key@, raw@, line)->Ok_0);
    }
    assert(items@.take(items@.len() as int) =~= items@);
    Ok(emails)
}

proof fn lemma_scan_err_sticks(items: Seq<FmValue>, key: Seq<char>, raw: Seq<char>, line: Option<usize>, n: int)
    requires
        0 < n <= items.len(),
        scan_items(items.take(n), key, raw, line) is Err,
    ensures
        scan_items(items, key, raw, line) == scan_items(items.take(n), key, raw, line),
    decreases items.len() - n,
{
    if n < items.len() {
        assert(items.take(n + 1).drop_last() =~= items.take(n));
        lemma_scan_err_sticks(items, key, raw, line, n + 1);
    } else {
        assert(items.take(n) =~= items);
    }
}

/// The value filed under `key` in an object's entries: the first such entry.
pub open spec fn get_spec(entries: Seq<(String, FmValue)>, key: Seq<char>) -> Option<FmValue> {
    if exists|i: int| 0 <= i < entries.len() && (#[trigger] entries[i]).0@ == key {
        let i = choose|i: int|
            0 <= i < entries.len() && (#[trigger] entries[i]).0@ == key && forall|j: int|
                0 <= j < i ==> (#[trigger] entries[j]).0@ != key;
        Some(entries[i].1)
    } else {
        None
    }
}

pub fn get_entry<'a>(entries: &'a Vec<(String, FmValue)>, key: &str) -> (r: Option<&'a FmValue>)
    ensures
        match (r, get_spec(entries@, key@)) {
            (Some(v), Some(w)) => *v == w,
            (None, None) => true,
            _ => false,
        },
{
    let mut i: usize = 0;
    while i < entries.len()
        invariant
            i <= entries@.len(),
            forall|j: int| 0 <= j < i ==> (#[trigger] entries@[j]).0@ != key@,
        decreases entries.len() - i,
    {
        if str_eq(entries[i].0.as_str(), key) {
            proof {
                let w = choose|x: int|
                    0 <= x < entries@.len() && (#[trigger] entries@[x]).0@ == key@ && forall|j: int|
                        0 <= j < x ==> (#[trigger] entries@[j]).0@ != key@;
                assert(0 <= i < entries@.len() && entries@[i as int].0@ == key@ && forall|j: int|
                    0 <= j < i ==> (#[trigger] entries@[j]).0@ != key@);
                if w < i {
                    assert(entries@[w].0@ != key@);
                } else if w > i {
                    assert(entries@[i as int].0@ != key@);
                }
            }
            return Some(&entries[i].1);
        }
        i += 1;
    }
    None
}

pub open spec fn errs_view(errors: Seq<AclError>) -> Seq<ErrView> {
    errors.map_values(|e: AclError| err_view(e))
}

/// What a block says, as (allow, deny, errors).
pub open spec fn block_view(b: AclBlock) -> (Seq<Seq<char>>, Seq<Seq<char>>, Seq<ErrView>) {
    (crate::text::string_seq(b.allow@), crate::text::string_seq(b.deny@), errs_view(b.errors@))
}

/// The rules a mapping declares: `allow` then `deny`, each either a list that replaces
/// that side or an error appended to the block's errors.
pub open spec fn acl_spec(entries: Seq<(String, FmValue)>, raw: Seq<char>) -> (Seq<Seq<char>>, Seq<Seq<char>>, Seq<ErrView>) {
    let empty = (Seq::<Seq<char>>::empty(), Seq::<Seq<char>>::empty(), Seq::<ErrView>::empty());
    let after_allow = match get_spec(entries, "allow"@) {
        None => empty,
        Some(v) => match email_list_spec("allow"@, v, raw) {
            Ok(list) => (list, empty.1, empty.2),
            Err(e) => (empty.0, empty.1, seq![e]),
        },
    };
    match get_spec(entries, "deny"@) {
        None => after_allow,
        Some(v) => match email_list_spec("deny"@, v, raw) {
            Ok(list) => (after_allow.0, list, after_allow.2),
            Err(e) => (after_allow.0, after_allow.1, after_allow.2.push(e)),
        },
    }
}

/// Parse the `allow` and `deny` keys out of already-parsed frontmatter.
///
/// `raw` is the original file text, used only to locate line numbers for error
/// reporting; parsing itself works from the structured value. Anything but a mapping
/// declares no rules.
pub fn parse_acl(frontmatter: &FmValue, raw: &str) -> (r: AclBlock)
    ensures
        match *frontmatter {
            FmValue::Object(entries) => block_view(r) == acl_spec(entries@, raw@),
            _ => r.spec_empty(),
        },
{
    let mut block = AclBlock::new();
    let entries = match frontmatter {
        FmValue::Object(entries) => entries,
        _ => return block,
    };
    assert(block_view(block) =~= (Seq::<Seq<char>>::empty(), Seq::<Seq<char>>::empty(), Seq::<ErrView>::empty()));
    if let Some(value) = get_entry(entries, "allow") {
        match parse_email_list("allow", value, raw) {
            Ok(emails) => {
                block.allow = emails;
            },
            Err(error) => {
                block.errors.push(error);
                assert(errs_view(block.errors@) =~= seq![err_view(error)]);
            },
        }
    }
    let ghost mid = block_view(block);
    if let Some(value) = get_entry(entries, "deny") {
        match parse_email_list("deny", value, raw) {
            Ok(emails) => {
                block.deny = emails;
            },
            Err(error) => {
                let ghost before = block.errors@;
                block.errors.push(error);
                assert(errs_view(block.errors@) =~= errs_view(before).push(err_view(error)));
            },
        }
    }
    block
}

/// Every entry but the rule keys.
pub open spec fn keeps_entry() -> spec_fn((String, FmValue)) -> bool {
    |p: (String, FmValue)| p.0@ != "allow"@ && p.0@ != "deny"@
}

/// Remove the rule keys from frontmatter before anything can render it, so invitee
/// addresses cannot reach a page.
pub fn strip_acl_keys(frontmatter: FmValue) -> (r: FmValue)
    ensures
        match (frontmatter, r) {
            (FmValue::Object(before), FmValue::Object(after)) => after@ == before@.filter(keeps_entry()),
            (FmValue::Object(_), _) => false,
            (_, other) => other == frontmatter,
        },
{
    match frontmatter {
        FmValue::Object(entries) => {
            let ghost before = entries@;
            let mut kept: Vec<(String, FmValue)> = Vec::new();
            let mut entries = entries;
            let mut rest: Vec<(String, FmValue)> = Vec::new();
            while entries.len() > 0
                invariant
                    rest@.len() + entries@.len() == before.len(),
                    entries@ == before.take(entries@.len() as int),
                    forall|j: int| 0 <= j < rest@.len() ==> #[trigger] rest@[j] == before[before.len() - 1 - j],
                decreases entries.len(),
            {
                let e = entries.pop().unwrap();
                assert(entries@ =~= before.take(entries@.len() as int));
                rest.push(e);
            }
            let n = rest.len();
            let mut i: usize = 0;
            while rest.len() > 0
                invariant
                    n == before.len(),
                    i + rest@.len() == n,
                    forall|j: int| 0 <= j < rest@.len() ==> #[trigger] rest@[j] == before[n - 1 - j],
                    kept@ == before.take(i as int).filter(keeps_entry()),
                decreases rest.len(),
            {
                let e = rest.pop().unwrap();
                assert(e == before[i as int]);
                assert(before.take(i + 1).drop_last() =~= before.take(i as int));
                let is_allow = str_eq(e.0.as_str(), "allow");
                let is_deny = str_eq(e.0.as_str(), "deny");
                if !is_allow && !is_deny {
                    kept.push(e);
                }
                i += 1;
                proof {
                    before.take(i - 1).lemma_filter_push(before[i - 1], keeps_entry());
                    reveal_strlit("allow");
                    reveal_strlit("deny");
                    assert(before.take(i as int) =~= before.take(i - 1).push(before[i - 1]));
                }
            }
            assert(before.take(n as int) =~= before);
            FmValue::Object(kept)
        },
        other => other,
    }
}

} // verus!
