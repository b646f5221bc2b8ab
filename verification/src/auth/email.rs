//! Email address validation.
//!
//! Deliberately conservative. These addresses are access-control subjects: an address
//! accepted loosely could mask a typo that the vault owner believes granted access.
//! Rejecting the ambiguous case is the safe error.
use vstd::prelude::*;

use crate::text::{
    chars_of, contains_seq, is_ascii_alnum, lower_seq, lower_vec, split_char, split_vec,
    string_of, trim, trim_bounds, views, push_range,
};

verus! {

pub open spec fn is_ascii_char(c: char) -> bool {
    (c as u32) < 128
}

/// `u8::is_ascii_whitespace`.
pub open spec fn is_ascii_whitespace(c: char) -> bool {
    c == ' ' || c == '\t' || c == '\n' || c == '\u{0C}' || c == '\r'
}

/// `u8::is_ascii_control`.
pub open spec fn is_ascii_control(c: char) -> bool {
    (c as u32) < 32 || (c as u32) == 127
}

/// The characters a local part may hold besides letters and digits.
pub open spec fn is_local_symbol(c: char) -> bool {
    c == '!' || c == '#' || c == '$' || c == '%' || c == '&' || c == '\'' || c == '*' || c == '+'
        || c == '-' || c == '/' || c == '=' || c == '?' || c == '^' || c == '_' || c == '`' || c
        == '{' || c == '|' || c == '}' || c == '~' || c == '.'
}

pub open spec fn valid_local(l: Seq<char>) -> bool {
    &&& 0 < l.len() <= 64
    &&& l[0] != '.'
    &&& l.last() != '.'
    &&& !contains_seq(l, seq!['.', '.'])
    &&& forall|i: int| 0 <= i < l.len() ==> is_ascii_alnum(#[trigger] l[i]) || is_local_symbol(l[i])
}

pub open spec fn valid_label(l: Seq<char>) -> bool {
    &&& 0 < l.len() <= 63
    &&& l[0] != '-'
    &&& l.last() != '-'
    &&& forall|i: int| 0 <= i < l.len() ==> is_ascii_alnum(#[trigger] l[i]) || l[i] == '-'
}

/// At least two dot-separated labels, each non-empty, at most 63 long, made of letters,
/// digits and hyphens, and neither starting nor ending with a hyphen.
pub open spec fn valid_domain(d: Seq<char>) -> bool {
    let labels = split_char(d, '.');
    &&& 0 < d.len() <= 253
    &&& labels.len() >= 2
    &&& forall|i: int| 0 <= i < labels.len() ==> valid_label(#[trigger] labels[i])
}

/// ASCII only, no whitespace or control characters, at most 254 long, exactly one `@`,
/// a valid local part and a valid domain.
pub open spec fn valid_email(s: Seq<char>) -> bool {
    let parts = split_char(s, '@');
    &&& 0 < s.len() <= 254
    &&& forall|i: int| 0 <= i < s.len() ==> is_ascii_char(#[trigger] s[i])
    &&& forall|i: int| 0 <= i < s.len() ==> !is_ascii_whitespace(#[trigger] s[i]) && !is_ascii_control(s[i])
    &&& parts.len() == 2
    &&& valid_local(parts[0])
    &&& valid_domain(parts[1])
}

fn is_alnum(c: char) -> (r: bool)
    ensures
        r == is_ascii_alnum(c),
{
    ('0' <= c && c <= '9') || ('a' <= c && c <= 'z') || ('A' <= c && c <= 'Z')
}

fn valid_label_exec(l: &Vec<char>) -> (r: bool)
    ensures
        r == valid_label(l@),
{
    if l.len() == 0 || l.len() > 63 || l[0] == '-' || l[l.len() - 1] == '-' {
        return false;
    }
    let mut i: usize = 0;
    while i < l.len()
        invariant
            i <= l@.len(),
            forall|j: int| 0 <= j < i ==> is_ascii_alnum(#[trigger] l@[j]) || l@[j] == '-',
        decreases l.len() - i,
    {
        if !(is_alnum(l[i]) || l[i] == '-') {
            return false;
        }
        i += 1;
    }
    true
}

/// True when `domain` is a domain mdshelf accepts in an address.
pub fn is_valid_domain(domain: &str) -> (r: bool)
    ensures
        r == valid_domain(domain@),
{
    let d = chars_of(domain);
    valid_domain_vec(&d)
}

fn valid_domain_vec(d: &Vec<char>) -> (r: bool)
    ensures
        r == valid_domain(d@),
{
    if d.len() == 0 || d.len() > 253 {
        return false;
    }
    let labels = split_vec(d, '.');
    if labels.len() < 2 {
        return false;
    }
    let mut i: usize = 0;
    while i < labels.len()
        invariant
            i <= labels@.len(),
            views(labels@) == split_char(d@, '.'),
            forall|j: int| 0 <= j < i ==> valid_label(#[trigger] views(labels@)[j]),
        decreases labels.len() - i,
    {
        if !valid_label_exec(&labels[i]) {
            assert(views(labels@)[i as int] == labels@[i as int]@);
            return false;
        }
        i += 1;
    }
    true
}

fn valid_local_exec(l: &Vec<char>) -> (r: bool)
    ensures
        r == valid_local(l@),
{
    if l.len() == 0 || l.len() > 64 || l[0] == '.' || l[l.len() - 1] == '.' {
        return false;
    }
    let mut i: usize = 0;
    while i < l.len()
        invariant
            i <= l@.len(),
            forall|j: int| 0 <= j < i ==> is_ascii_alnum(#[trigger] l@[j]) || is_local_symbol(l@[j]),
            forall|j: int| 0 <= j < i && j + 1 < l@.len() ==> !(#[trigger] l@[j] == '.' && l@[j + 1] == '.'),
        decreases l.len() - i,
    {
        let c = l[i];
        if !(is_alnum(c) || c == '!' || c == '#' || c == '$' || c == '%' || c == '&' || c == '\''
            || c == '*' || c == '+' || c == '-' || c == '/' || c == '=' || c == '?' || c == '^'
            || c == '_' || c == '`' || c == '{' || c == '|' || c == '}' || c == '~' || c == '.') {
            return false;
        }
        if i + 1 < l.len() && c == '.' && l[i + 1] == '.' {
            assert(crate::text::occurs_at(l@, seq!['.', '.'], i as int)) by {
                assert(l@.subrange(i as int, i + 2) =~= seq!['.', '.']);
            }
            return false;
        }
        i += 1;
    }
    assert(!contains_seq(l@, seq!['.', '.'])) by {
        if contains_seq(l@, seq!['.', '.']) {
            let k = choose|k: int| crate::text::occurs_at(l@, seq!['.', '.'], k);
            assert(l@.subrange(k, k + 2)[0] == l@[k]);
            assert(l@.subrange(k, k + 2)[1] == l@[k + 1]);
        }
    }
    true
}

/// True when `raw` is an address mdshelf is willing to treat as an ACL subject.
///
/// Requires: ASCII only, exactly one `@`, a non-empty local part, and a domain of at
/// least two dot-separated labels each of which is non-empty and free of leading or
/// trailing hyphens.
pub fn is_valid_email(raw: &str) -> (r: bool)
    ensures
        r == valid_email(raw@),
{
    let s = chars_of(raw);
    if s.len() == 0 || s.len() > 254 {
        return false;
    }
    let mut i: usize = 0;
    while i < s.len()
        invariant
            i <= s@.len(),
            s@ == raw@,
            forall|j: int| 0 <= j < i ==> is_ascii_char(#[trigger] s@[j]),
            forall|j: int| 0 <= j < i ==> !is_ascii_whitespace(#[trigger] s@[j]) && !is_ascii_control(s@[j]),
        decreases s.len() - i,
    {
        let c = s[i];
        if (c as u32) >= 128 {
            assert(!is_ascii_char(raw@[i as int]));
            assert(!(forall|j: int| 0 <= j < raw@.len() ==> is_ascii_char(#[trigger] raw@[j])));
            return false;
        }
        if c == ' ' || c == '\t' || c == '\n' || c == '\u{0C}' || c == '\r' || (c as u32) < 32
            || (c as u32) == 127 {
            assert(is_ascii_whitespace(raw@[i as int]) || is_ascii_control(raw@[i as int]));
            assert(!(forall|j: int| 0 <= j < raw@.len() ==> !is_ascii_whitespace(#[trigger] raw@[j]) && !is_ascii_control(raw@[j])));
            return false;
        }
        i += 1;
    }
    let parts = split_vec(&s, '@');
    if parts.len() != 2 {
        return false;
    }
    assert(views(parts@)[0] == parts@[0]@);
    assert(views(parts@)[1] == parts@[1]@);
    if !valid_local_exec(&parts[0]) {
        return false;
    }
    valid_domain_vec(&parts[1])
}

pub open spec fn normalized_email(raw: Seq<char>) -> Seq<char> {
    lower_seq(trim(raw))
}

/// Normalize an address for comparison: surrounding whitespace removed, ASCII letters
/// lowered, so `Ana@Corp.COM` in a vault matches `ana@corp.com` from the provider.
pub fn normalize_email(raw: &str) -> (r: String)
    ensures
        r@ == normalized_email(raw@),
{
    let v = chars_of(raw);
    let (a, b) = trim_bounds(&v, 0, v.len());
    let mut t: Vec<char> = Vec::new();
    push_range(&mut t, &v, a, b);
    assert(v@.subrange(0, v@.len() as int) =~= v@);
    let lowered = lower_vec(&t);
    string_of(&lowered)
}

/// What an accepted address looks like: ASCII, split by `@` into exactly two pieces
/// neither of which holds another `@`, a non-empty local part, and a domain of at least
/// two dot-separated labels, each non-empty and neither starting nor ending with `-`.
/// So `ana@corp`, `ana@`, `@corp.com` and `a@b@c.com` are all refused.
pub proof fn lemma_valid_email_shape(s: Seq<char>)
    requires
        valid_email(s),
    ensures
        forall|i: int| 0 <= i < s.len() ==> is_ascii_char(#[trigger] s[i]),
        split_char(s, '@').len() == 2,
        forall|k: int, j: int| 0 <= k < 2 && 0 <= j < split_char(s, '@')[k].len()
            ==> #[trigger] split_char(s, '@')[k][j] != '@',
        split_char(s, '@')[0].len() > 0,
        split_char(split_char(s, '@')[1], '.').len() >= 2,
        forall|k: int| 0 <= k < split_char(split_char(s, '@')[1], '.').len() ==> {
            let label = #[trigger] split_char(split_char(s, '@')[1], '.')[k];
            label.len() > 0 && label[0] != '-' && label.last() != '-'
        },
{
    assert forall|k: int, j: int| 0 <= k < 2 && 0 <= j < split_char(s, '@')[k].len()
        implies #[trigger] split_char(s, '@')[k][j] != '@' by {
        crate::text::lemma_split_pieces_lack_sep(s, '@', k, j);
    }
    let labels = split_char(split_char(s, '@')[1], '.');
    assert forall|k: int| 0 <= k < labels.len() implies {
        let label = #[trigger] labels[k];
        label.len() > 0 && label[0] != '-' && label.last() != '-'
    } by {
        assert(valid_label(labels[k]));
    }
}

/// The characters the rules allow in a local part: ASCII letters and digits and
/// ``!#$%&'*+-/=?^_`{|}~.``.
pub open spec fn local_char_allowed(c: char) -> bool {
    ||| ('a' <= c && c <= 'z')
    ||| ('A' <= c && c <= 'Z')
    ||| ('0' <= c && c <= '9')
    ||| c == '!' ||| c == '#' ||| c == '$' ||| c == '%' ||| c == '&' ||| c == '\''
    ||| c == '*' ||| c == '+' ||| c == '-' ||| c == '/' ||| c == '=' ||| c == '?'
    ||| c == '^' ||| c == '_' ||| c == '`' ||| c == '{' ||| c == '|' ||| c == '}'
    ||| c == '~' ||| c == '.'
}

/// Every well-formed address is accepted: a local part of 1 to 64 allowed characters,
/// not starting or ending with `.` and without `..`, then `@` and a valid domain, at
/// most 254 characters in all. In particular `_` and each other listed symbol may
/// stand anywhere in the local part.
pub proof fn lemma_well_formed_address_is_accepted(local: Seq<char>, domain: Seq<char>)
    requires
        0 < local.len() <= 64,
        local[0] != '.',
        local.last() != '.',
        !contains_seq(local, seq!['.', '.']),
        forall|i: int| 0 <= i < local.len() ==> local_char_allowed(#[trigger] local[i]),
        valid_domain(domain),
        local.len() + 1 + domain.len() <= 254,
    ensures
        valid_email(local + seq!['@'] + domain),
{
    let s = local + seq!['@'] + domain;
    let labels = split_char(domain, '.');
    assert forall|m: int| 0 <= m < domain.len() implies
        (is_ascii_alnum(#[trigger] domain[m]) || domain[m] == '-' || domain[m] == '.') by {
        if domain[m] != '.' {
            crate::text::lemma_split_covers(domain, '.', m);
            let (i, j) = choose|i: int, j: int| 0 <= i < labels.len() && 0 <= j < labels[i].len()
                && labels[i][j] == domain[m];
            assert(valid_label(labels[i]));
        }
    }
    assert forall|j: int| 0 <= j < local.len() implies local[j] != '@' by {
        assert(local_char_allowed(local[j]));
    }
    assert forall|j: int| 0 <= j < domain.len() implies domain[j] != '@' by {
        assert(is_ascii_alnum(domain[j]) || domain[j] == '-' || domain[j] == '.');
    }
    crate::text::lemma_split_two(local, '@', domain);
    assert forall|i: int| 0 <= i < s.len() implies is_ascii_char(#[trigger] s[i])
        && !is_ascii_whitespace(s[i]) && !is_ascii_control(s[i]) by {
        if i < local.len() {
            assert(s[i] == local[i]);
            assert(local_char_allowed(local[i]));
        } else if i > local.len() {
            assert(s[i] == domain[i - local.len() - 1]);
            assert(is_ascii_alnum(domain[i - local.len() - 1]) || domain[i - local.len() - 1] == '-'
                || domain[i - local.len() - 1] == '.');
        }
    }
    assert forall|i: int| 0 <= i < local.len() implies is_ascii_alnum(#[trigger] local[i])
        || is_local_symbol(local[i]) by {
        assert(local_char_allowed(local[i]));
    }
}

/// Only well-formed addresses are accepted: an accepted address is a local part of 1 to
/// 64 allowed characters, not starting or ending with `.` and without `..`, then one
/// `@`, then a valid domain whose labels hold only ASCII letters, digits and `-`.
pub proof fn lemma_accepted_address_is_well_formed(s: Seq<char>)
    requires
        valid_email(s),
    ensures
        ({
            let local = split_char(s, '@')[0];
            let domain = split_char(s, '@')[1];
            &&& s == local + seq!['@'] + domain
            &&& 0 < local.len() <= 64
            &&& local[0] != '.'
            &&& local.last() != '.'
            &&& !contains_seq(local, seq!['.', '.'])
            &&& forall|i: int| 0 <= i < local.len() ==> local_char_allowed(#[trigger] local[i])
            &&& valid_domain(domain)
            &&& forall|i: int| 0 <= i < domain.len() ==> (is_ascii_alnum(#[trigger] domain[i]) || domain[i] == '-'
                || domain[i] == '.')
        }),
{
    crate::text::lemma_split_two_rejoin(s, '@');
    let local = split_char(s, '@')[0];
    let domain = split_char(s, '@')[1];
    let labels = split_char(domain, '.');
    assert forall|i: int| 0 <= i < local.len() implies local_char_allowed(#[trigger] local[i]) by {
        assert(is_ascii_alnum(local[i]) || is_local_symbol(local[i]));
    }
    assert forall|m: int| 0 <= m < domain.len() implies
        (is_ascii_alnum(#[trigger] domain[m]) || domain[m] == '-' || domain[m] == '.') by {
        if domain[m] != '.' {
            crate::text::lemma_split_covers(domain, '.', m);
            let (i, j) = choose|i: int, j: int| 0 <= i < labels.len() && 0 <= j < labels[i].len()
                && labels[i][j] == domain[m];
            assert(valid_label(labels[i]));
        }
    }
}

} // verus!
