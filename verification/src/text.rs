//! Character-level text primitives shared by the rest of the library.
//!
//! Text is handled as sequences of `char`: a `&str` is read into a `Vec<char>`, worked on
//! by index, and turned back into a `String` at the edge. The spec functions here are
//! the vocabulary the contracts elsewhere are written in.
use vstd::prelude::*;

verus! {

/// Unicode `White_Space`, exactly the set `char::is_whitespace` accepts.
pub open spec fn is_ws(c: char) -> bool {
    ||| c == ' '
    ||| c == '\t'
    ||| c == '\n'
    ||| c == '\u{0B}'
    ||| c == '\u{0C}'
    ||| c == '\r'
    ||| c == '\u{85}'
    ||| c == '\u{A0}'
    ||| c == '\u{1680}'
    ||| ('\u{2000}' as u32 <= c as u32 && c as u32 <= '\u{200A}' as u32)
    ||| c == '\u{2028}'
    ||| c == '\u{2029}'
    ||| c == '\u{202F}'
    ||| c == '\u{205F}'
    ||| c == '\u{3000}'
}

/// ASCII whitespace, as `u8::is_ascii_whitespace` defines it.
pub open spec fn is_ascii_ws(c: char) -> bool {
    c == ' ' || c == '\t' || c == '\n' || c == '\u{0C}' || c == '\r'
}

pub open spec fn is_ascii_digit(c: char) -> bool {
    '0' <= c && c <= '9'
}

pub open spec fn is_ascii_alpha(c: char) -> bool {
    ('a' <= c && c <= 'z') || ('A' <= c && c <= 'Z')
}

pub open spec fn is_ascii_alnum(c: char) -> bool {
    is_ascii_digit(c) || is_ascii_alpha(c)
}

/// `char::to_ascii_lowercase`.
pub open spec fn lower(c: char) -> char {
    if 'A' <= c && c <= 'Z' {
        ((c as u32) + 32) as char
    } else {
        c
    }
}

pub open spec fn lower_seq(s: Seq<char>) -> Seq<char> {
    s.map_values(|c: char| lower(c))
}

/// `str::trim_start`.
pub open spec fn trim_start(s: Seq<char>) -> Seq<char>
    decreases s.len(),
{
    if s.len() > 0 && is_ws(s[0]) {
        trim_start(s.drop_first())
    } else {
        s
    }
}

/// `str::trim_end`.
pub open spec fn trim_end(s: Seq<char>) -> Seq<char>
    decreases s.len(),
{
    if s.len() > 0 && is_ws(s.last()) {
        trim_end(s.drop_last())
    } else {
        s
    }
}

/// `str::trim`.
pub open spec fn trim(s: Seq<char>) -> Seq<char> {
    trim_end(trim_start(s))
}

/// `str::trim_start_matches(c)` for a single character.
pub open spec fn trim_start_char(s: Seq<char>, c: char) -> Seq<char>
    decreases s.len(),
{
    if s.len() > 0 && s[0] == c {
        trim_start_char(s.drop_first(), c)
    } else {
        s
    }
}

/// `str::trim_end_matches(c)` for a single character.
pub open spec fn trim_end_char(s: Seq<char>, c: char) -> Seq<char>
    decreases s.len(),
{
    if s.len() > 0 && s.last() == c {
        trim_end_char(s.drop_last(), c)
    } else {
        s
    }
}

pub open spec fn starts_with(s: Seq<char>, p: Seq<char>) -> bool {
    p.len() <= s.len() && s.take(p.len() as int) == p
}

pub open spec fn ends_with(s: Seq<char>, p: Seq<char>) -> bool {
    p.len() <= s.len() && s.skip(s.len() - p.len()) == p
}

/// `p` occurs in `s` starting at `i`.
pub open spec fn occurs_at(s: Seq<char>, p: Seq<char>, i: int) -> bool {
    0 <= i && i + p.len() <= s.len() && s.subrange(i, i + p.len()) == p
}

/// `str::contains` for a pattern string.
pub open spec fn contains_seq(s: Seq<char>, p: Seq<char>) -> bool {
    exists|i: int| occurs_at(s, p, i)
}

/// Byte order of the UTF-8 encodings, which is code point order: the order `String`
/// and `BTreeMap<String, _>` use.
pub open spec fn lex_lt(a: Seq<char>, b: Seq<char>) -> bool
    decreases a.len(),
{
    if a.len() == 0 {
        b.len() > 0
    } else if b.len() == 0 {
        false
    } else if (a[0] as u32) < (b[0] as u32) {
        true
    } else if a[0] == b[0] {
        lex_lt(a.drop_first(), b.drop_first())
    } else {
        false
    }
}

pub proof fn lemma_lex_irreflexive(a: Seq<char>)
    ensures
        !lex_lt(a, a),
    decreases a.len(),
{
    if a.len() > 0 {
        lemma_lex_irreflexive(a.drop_first());
    }
}

pub proof fn lemma_lex_transitive(a: Seq<char>, b: Seq<char>, c: Seq<char>)
    requires
        lex_lt(a, b),
        lex_lt(b, c),
    ensures
        lex_lt(a, c),
    decreases a.len(),
{
    if a.len() > 0 && b.len() > 0 && c.len() > 0 && a[0] == b[0] && b[0] == c[0] {
        lemma_lex_transitive(a.drop_first(), b.drop_first(), c.drop_first());
    }
}

pub proof fn lemma_lex_total(a: Seq<char>, b: Seq<char>)
    requires
        a != b,
    ensures
        lex_lt(a, b) || lex_lt(b, a),
    decreases a.len(),
{
    if a.len() == 0 {
        assert(b.len() > 0) by {
            if b.len() == 0 {
                assert(a =~= b);
            }
        }
    } else if b.len() > 0 && a[0] != b[0] {
        vstd::utf8::char_u32_cast(a[0], a[0] as u32);
        vstd::utf8::char_u32_cast(b[0], b[0] as u32);
    } else if b.len() > 0 && a[0] == b[0] {
        if a.drop_first() == b.drop_first() {
            assert(a =~= seq![a[0]] + a.drop_first());
            assert(b =~= seq![b[0]] + b.drop_first());
        }
        lemma_lex_total(a.drop_first(), b.drop_first());
    }
}

pub proof fn lemma_lex_asymmetric(a: Seq<char>, b: Seq<char>)
    requires
        lex_lt(a, b),
    ensures
        !lex_lt(b, a),
{
    if lex_lt(b, a) {
        lemma_lex_transitive(a, b, a);
        lemma_lex_irreflexive(a);
    }
}

proof fn lemma_lex_skip(a: Seq<char>, b: Seq<char>, i: int)
    requires
        0 <= i <= a.len(),
        i <= b.len(),
        a.take(i) == b.take(i),
    ensures
        lex_lt(a, b) == lex_lt(a.skip(i), b.skip(i)),
    decreases i,
{
    if i > 0 {
        assert(a[0] == a.take(i)[0]);
        assert(b[0] == b.take(i)[0]);
        assert(a.drop_first().take(i - 1) =~= a.take(i).drop_first());
        assert(b.drop_first().take(i - 1) =~= b.take(i).drop_first());
        lemma_lex_skip(a.drop_first(), b.drop_first(), i - 1);
        assert(a.drop_first().skip(i - 1) =~= a.skip(i));
        assert(b.drop_first().skip(i - 1) =~= b.skip(i));
    } else {
        assert(a.skip(0) =~= a);
        assert(b.skip(0) =~= b);
    }
}

/// What `str::to_lowercase` gives: the text with every character in lower case, by
/// Unicode's mappings.
pub uninterp spec fn lowercase_of(s: Seq<char>) -> Seq<char>;

/// `str::to_lowercase` (std). Claimed: the result is `lowercase_of(s)`, and on ASCII
/// text it lowers exactly the ASCII capitals, one character for one.
#[verifier::external_body]
pub(crate) fn to_lowercase(s: &str) -> (r: String)
    ensures
        r@ == lowercase_of(s@),
        (forall|i: int| 0 <= i < s@.len() ==> (#[trigger] s@[i] as u32) < 128) ==> r@ == lower_seq(s@),
{
    s.to_lowercase()
}

/// The characters of `s`.
pub fn chars_of(s: &str) -> (v: Vec<char>)
    ensures
        v@ == s@,
{
    let mut v: Vec<char> = Vec::new();
    for c in it: s.chars()
        invariant
            v@ == it.seq().take(it.index() as int),
    {
        v.push(c);
    }
    v
}

/// `String::push`.
#[verifier::external_body]
pub fn push_char(s: &mut String, c: char)
    ensures
        final(s)@ == old(s)@.push(c),
{
    s.push(c);
}

/// The string whose characters are `v[lo..hi]`.
pub fn string_of_range(v: &Vec<char>, lo: usize, hi: usize) -> (s: String)
    requires
        lo <= hi <= v.len(),
    ensures
        s@ == v@.subrange(lo as int, hi as int),
{
    let mut s = String::new();
    let mut i = lo;
    while i < hi
        invariant
            lo <= i <= hi <= v.len(),
            s@ == v@.subrange(lo as int, i as int),
        decreases hi - i,
    {
        push_char(&mut s, v[i]);
        i += 1;
        assert(s@ =~= v@.subrange(lo as int, i as int));
    }
    s
}

/// The string whose characters are `v`.
pub fn string_of(v: &Vec<char>) -> (s: String)
    ensures
        s@ == v@,
{
    let s = string_of_range(v, 0, v.len());
    assert(v@.subrange(0, v@.len() as int) =~= v@);
    s
}

/// Append the characters `v[lo..hi]` to `out`.
pub fn push_range(out: &mut Vec<char>, v: &Vec<char>, lo: usize, hi: usize)
    requires
        lo <= hi <= v.len(),
    ensures
        final(out)@ == old(out)@ + v@.subrange(lo as int, hi as int),
{
    let mut i = lo;
    while i < hi
        invariant
            lo <= i <= hi <= v.len(),
            out@ == old(out)@ + v@.subrange(lo as int, i as int),
        decreases hi - i,
    {
        out.push(v[i]);
        i += 1;
        assert(out@ =~= old(out)@ + v@.subrange(lo as int, i as int));
    }
}

/// Append all of `v` to `out`.
pub fn push_all(out: &mut Vec<char>, v: &Vec<char>)
    ensures
        final(out)@ == old(out)@ + v@,
{
    push_range(out, v, 0, v.len());
    assert(v@.subrange(0, v@.len() as int) =~= v@);
}

/// Append the characters of `s` to `out`.
pub fn push_str(out: &mut Vec<char>, s: &str)
    ensures
        final(out)@ == old(out)@ + s@,
{
    let v = chars_of(s);
    push_all(out, &v);
}

/// Whether two character ranges hold the same characters.
pub fn range_eq(a: &Vec<char>, alo: usize, ahi: usize, b: &Vec<char>, blo: usize, bhi: usize) -> (r: bool)
    requires
        alo <= ahi <= a.len(),
        blo <= bhi <= b.len(),
    ensures
        r == (a@.subrange(alo as int, ahi as int) == b@.subrange(blo as int, bhi as int)),
{
    if ahi - alo != bhi - blo {
        proof {
            if a@.subrange(alo as int, ahi as int) == b@.subrange(blo as int, bhi as int) {
                assert(a@.subrange(alo as int, ahi as int).len() == b@.subrange(blo as int, bhi as int).len());
            }
        }
        return false;
    }
    let n = ahi - alo;
    let mut i: usize = 0;
    while i < n
        invariant
            n == ahi - alo,
            n == bhi - blo,
            alo <= ahi <= a.len(),
            blo <= bhi <= b.len(),
            0 <= i <= n,
            forall|j: int| 0 <= j < i ==> #[trigger] a@[alo + j] == b@[blo + j],
        decreases n - i,
    {
        if a[alo + i] != b[blo + i] {
            assert(a@.subrange(alo as int, ahi as int)[i as int] != b@.subrange(blo as int, bhi as int)[i as int]);
            return false;
        }
        i += 1;
    }
    assert forall|j: int| 0 <= j < n implies a@.subrange(alo as int, ahi as int)[j] == b@.subrange(blo as int, bhi as int)[j] by {
        assert(a@[alo + j] == b@[blo + j]);
    }
    assert(a@.subrange(alo as int, ahi as int) =~= b@.subrange(blo as int, bhi as int));
    true
}

/// Whether two sequences of characters are equal.
pub fn vec_eq(a: &Vec<char>, b: &Vec<char>) -> (r: bool)
    ensures
        r == (a@ == b@),
{
    let r = range_eq(a, 0, a.len(), b, 0, b.len());
    assert(a@.subrange(0, a@.len() as int) =~= a@);
    assert(b@.subrange(0, b@.len() as int) =~= b@);
    r
}

/// `a == b` for string slices.
pub fn str_eq(a: &str, b: &str) -> (r: bool)
    ensures
        r == (a@ == b@),
{
    let va = chars_of(a);
    let vb = chars_of(b);
    vec_eq(&va, &vb)
}

/// Whether `p` occurs in `v` at position `i`.
pub fn occurs_at_exec(v: &Vec<char>, p: &Vec<char>, i: usize) -> (r: bool)
    requires
        i <= v.len(),
    ensures
        r == occurs_at(v@, p@, i as int),
{
    if p.len() > v.len() - i {
        return false;
    }
    let r = range_eq(v, i, i + p.len(), p, 0, p.len());
    assert(p@.subrange(0, p@.len() as int) =~= p@);
    r
}

/// Whether `p` occurs anywhere in `v`.
pub fn contains_exec(v: &Vec<char>, p: &Vec<char>) -> (r: bool)
    ensures
        r == contains_seq(v@, p@),
{
    let mut i: usize = 0;
    while i < v.len()
        invariant
            i <= v.len(),
            forall|j: int| 0 <= j < i ==> !occurs_at(v@, p@, j),
        decreases v.len() - i,
    {
        if occurs_at_exec(v, p, i) {
            return true;
        }
        i += 1;
    }
    if occurs_at_exec(v, p, i) {
        return true;
    }
    assert forall|j: int| !occurs_at(v@, p@, j) by {
        if 0 <= j && j <= i {
        } else if j > i {
            assert(j + p@.len() > v@.len());
        }
    }
    false
}

/// Whether the character `c` occurs in `v`.
pub fn has_char(v: &Vec<char>, c: char) -> (r: bool)
    ensures
        r == v@.contains(c),
{
    let mut i: usize = 0;
    while i < v.len()
        invariant
            i <= v.len(),
            forall|j: int| 0 <= j < i ==> v@[j] != c,
        decreases v.len() - i,
    {
        if v[i] == c {
            return true;
        }
        i += 1;
    }
    false
}

/// `a < b` in the order `String` compares by.
pub fn str_lt(a: &str, b: &str) -> (r: bool)
    ensures
        r == lex_lt(a@, b@),
{
    let va = chars_of(a);
    let vb = chars_of(b);
    let mut i: usize = 0;
    while i < va.len() && i < vb.len() && va[i] == vb[i]
        invariant
            i <= va.len(),
            i <= vb.len(),
            va@.take(i as int) == vb@.take(i as int),
        decreases va.len() - i,
    {
        assert(va@.take(i + 1) =~= va@.take(i as int).push(va@[i as int]));
        assert(vb@.take(i + 1) =~= vb@.take(i as int).push(vb@[i as int]));
        i += 1;
    }
    proof {
        lemma_lex_skip(va@, vb@, i as int);
    }
    if i == va.len() {
        i < vb.len()
    } else if i == vb.len() {
        false
    } else {
        (va[i] as u32) < (vb[i] as u32)
    }
}

/// `char::is_whitespace`.
pub fn is_ws_exec(c: char) -> (r: bool)
    ensures
        r == is_ws(c),
{
    c == ' ' || c == '\t' || c == '\n' || c == '\u{0B}' || c == '\u{0C}' || c == '\r' || c
        == '\u{85}' || c == '\u{A0}' || c == '\u{1680}' || ('\u{2000}' <= c && c <= '\u{200A}')
        || c == '\u{2028}' || c == '\u{2029}' || c == '\u{202F}' || c == '\u{205F}' || c
        == '\u{3000}'
}

/// `char::to_ascii_lowercase`.
pub fn lower_exec(c: char) -> (r: char)
    ensures
        r == lower(c),
{
    if 'A' <= c && c <= 'Z' {
        let b = (c as u32) + 32;
        char_from_ascii(b)
    } else {
        c
    }
}

fn char_from_ascii(b: u32) -> (c: char)
    requires
        b < 128,
    ensures
        c == b as char,
{
    (b as u8) as char
}

proof fn lemma_trim_start_skip(s: Seq<char>, i: int)
    requires
        0 <= i <= s.len(),
        forall|j: int| 0 <= j < i ==> is_ws(s[j]),
    ensures
        trim_start(s) == trim_start(s.skip(i)),
    decreases i,
{
    if i > 0 {
        lemma_trim_start_skip(s.drop_first(), i - 1);
        assert(s.drop_first().skip(i - 1) =~= s.skip(i));
    } else {
        assert(s.skip(0) =~= s);
    }
}

proof fn lemma_trim_end_take(s: Seq<char>, i: int)
    requires
        0 <= i <= s.len(),
        forall|j: int| i <= j < s.len() ==> is_ws(s[j]),
    ensures
        trim_end(s) == trim_end(s.take(i)),
    decreases s.len() - i,
{
    if i < s.len() {
        lemma_trim_end_take(s.drop_last(), i);
        assert(s.drop_last().take(i) =~= s.take(i));
    } else {
        assert(s.take(i) =~= s);
    }
}

/// The bounds of `v[lo..hi]` with leading whitespace removed.
pub fn trim_start_bound(v: &Vec<char>, lo: usize, hi: usize) -> (r: usize)
    requires
        lo <= hi <= v.len(),
    ensures
        lo <= r <= hi,
        v@.subrange(r as int, hi as int) == trim_start(v@.subrange(lo as int, hi as int)),
{
    let mut i = lo;
    while i < hi && is_ws_exec(v[i])
        invariant
            lo <= i <= hi <= v.len(),
            forall|j: int| lo <= j < i ==> is_ws(v@[j]),
        decreases hi - i,
    {
        i += 1;
    }
    proof {
        let s = v@.subrange(lo as int, hi as int);
        lemma_trim_start_skip(s, i - lo);
        assert(s.skip(i - lo) =~= v@.subrange(i as int, hi as int));
    }
    i
}

/// The bounds of `v[lo..hi]` with trailing whitespace removed.
pub fn trim_end_bound(v: &Vec<char>, lo: usize, hi: usize) -> (r: usize)
    requires
        lo <= hi <= v.len(),
    ensures
        lo <= r <= hi,
        v@.subrange(lo as int, r as int) == trim_end(v@.subrange(lo as int, hi as int)),
{
    let mut i = hi;
    while i > lo && is_ws_exec(v[i - 1])
        invariant
            lo <= i <= hi <= v.len(),
            forall|j: int| i <= j < hi ==> is_ws(v@[j]),
        decreases i - lo,
    {
        i -= 1;
    }
    proof {
        let s = v@.subrange(lo as int, hi as int);
        lemma_trim_end_take(s, i - lo);
        assert(s.take(i - lo) =~= v@.subrange(lo as int, i as int));
    }
    i
}

/// The bounds of `v[lo..hi]` with surrounding whitespace removed.
pub fn trim_bounds(v: &Vec<char>, lo: usize, hi: usize) -> (r: (usize, usize))
    requires
        lo <= hi <= v.len(),
    ensures
        lo <= r.0 <= r.1 <= hi,
        v@.subrange(r.0 as int, r.1 as int) == trim(v@.subrange(lo as int, hi as int)),
{
    let a = trim_start_bound(v, lo, hi);
    let b = trim_end_bound(v, a, hi);
    (a, b)
}

/// `v` with every character lowered to ASCII lowercase.
pub fn lower_vec(v: &Vec<char>) -> (r: Vec<char>)
    ensures
        r@ == lower_seq(v@),
{
    let mut r: Vec<char> = Vec::new();
    let mut i: usize = 0;
    while i < v.len()
        invariant
            i <= v.len(),
            r@ == lower_seq(v@.take(i as int)),
        decreases v.len() - i,
    {
        r.push(lower_exec(v[i]));
        i += 1;
        assert(r@ =~= lower_seq(v@.take(i as int)));
    }
    assert(v@.take(v@.len() as int) =~= v@);
    r
}

/// Position of the last `c` in `s`, or -1.
pub open spec fn last_index_of(s: Seq<char>, c: char) -> int
    decreases s.len(),
{
    if s.len() == 0 {
        -1
    } else if s.last() == c {
        s.len() - 1
    } else {
        last_index_of(s.drop_last(), c)
    }
}

pub proof fn lemma_last_index_bounds(s: Seq<char>, c: char)
    ensures
        -1 <= last_index_of(s, c) < s.len(),
        last_index_of(s, c) >= 0 ==> s[last_index_of(s, c)] == c,
        forall|j: int| last_index_of(s, c) < j < s.len() ==> s[j] != c,
    decreases s.len(),
{
    if s.len() > 0 && s.last() != c {
        lemma_last_index_bounds(s.drop_last(), c);
        assert forall|j: int| last_index_of(s, c) < j < s.len() implies s[j] != c by {
            if j < s.len() - 1 {
                assert(s[j] == s.drop_last()[j]);
            }
        }
    }
}

proof fn lemma_last_index_push(s: Seq<char>, x: char, c: char)
    ensures
        last_index_of(s.push(x), c) == if x == c {
            s.len() as int
        } else {
            last_index_of(s, c)
        },
{
    assert(s.push(x).drop_last() =~= s);
}

/// `str::split(c)`, as the sequence of pieces between occurrences of `c`.
pub open spec fn split_char(s: Seq<char>, c: char) -> Seq<Seq<char>>
    decreases s.len(),
{
    let k = last_index_of(s, c);
    if k < 0 {
        seq![s]
    } else {
        proof {
            lemma_last_index_bounds(s, c);
        }
        split_char(s.take(k), c).push(s.skip(k + 1))
    }
}

/// No piece of `split_char(s, c)` holds `c`.
pub proof fn lemma_split_pieces_lack_sep(s: Seq<char>, c: char, i: int, j: int)
    requires
        0 <= i < split_char(s, c).len(),
        0 <= j < split_char(s, c)[i].len(),
    ensures
        split_char(s, c)[i][j] != c,
    decreases s.len(),
{
    let k = last_index_of(s, c);
    lemma_last_index_bounds(s, c);
    if k >= 0 {
        let front = split_char(s.take(k), c);
        if i < front.len() {
            lemma_split_pieces_lack_sep(s.take(k), c, i, j);
        } else {
            assert(split_char(s, c)[i] == s.skip(k + 1));
            assert(s.skip(k + 1)[j] == s[k + 1 + j]);
        }
    }
}

/// Text without `c` is a single piece.
pub proof fn lemma_split_absent(s: Seq<char>, c: char)
    requires
        forall|j: int| 0 <= j < s.len() ==> s[j] != c,
    ensures
        split_char(s, c) == seq![s],
{
    lemma_last_index_bounds(s, c);
}

/// Two pieces without `c`, joined by one `c`, split back into those two pieces.
pub proof fn lemma_split_two(a: Seq<char>, c: char, b: Seq<char>)
    requires
        forall|j: int| 0 <= j < a.len() ==> a[j] != c,
        forall|j: int| 0 <= j < b.len() ==> b[j] != c,
    ensures
        split_char(a + seq![c] + b, c) == seq![a, b],
{
    let s = a + seq![c] + b;
    lemma_last_index_bounds(s, c);
    let k = last_index_of(s, c);
    assert(s[a.len() as int] == c);
    if k > a.len() {
        assert(s[k] == b[k - a.len() - 1]);
    }
    assert(k == a.len());
    assert(s.take(k) =~= a);
    assert(s.skip(k + 1) =~= b);
    lemma_split_absent(a, c);
}

/// Text that splits into two pieces is those pieces joined by one `c`.
pub proof fn lemma_split_two_rejoin(s: Seq<char>, c: char)
    requires
        split_char(s, c).len() == 2,
    ensures
        s == split_char(s, c)[0] + seq![c] + split_char(s, c)[1],
{
    let k = last_index_of(s, c);
    lemma_last_index_bounds(s, c);
    if k < 0 {
        assert(split_char(s, c).len() == 1);
    } else {
        let t = s.take(k);
        lemma_last_index_bounds(t, c);
        if last_index_of(t, c) >= 0 {
            lemma_split_len_ge_one(t.take(last_index_of(t, c)), c);
            assert(split_char(t, c).len() >= 2);
        }
        assert(split_char(t, c) == seq![t]);
        assert(s =~= t + seq![c] + s.skip(k + 1));
    }
}

proof fn lemma_split_len_ge_one(s: Seq<char>, c: char)
    ensures
        split_char(s, c).len() >= 1,
    decreases s.len(),
{
    let k = last_index_of(s, c);
    lemma_last_index_bounds(s, c);
    if k >= 0 {
        lemma_split_len_ge_one(s.take(k), c);
    }
}

/// Every character of every piece of `split_char(s, c)` is a character of `s` at some
/// position.
pub proof fn lemma_split_pieces_from(s: Seq<char>, c: char, i: int, j: int)
    requires
        0 <= i < split_char(s, c).len(),
        0 <= j < split_char(s, c)[i].len(),
    ensures
        exists|m: int| 0 <= m < s.len() && s[m] == split_char(s, c)[i][j],
    decreases s.len(),
{
    let k = last_index_of(s, c);
    lemma_last_index_bounds(s, c);
    if k < 0 {
        assert(s[j] == split_char(s, c)[i][j]);
    } else {
        let front = split_char(s.take(k), c);
        if i < front.len() {
            lemma_split_pieces_from(s.take(k), c, i, j);
            let m = choose|m: int| 0 <= m < s.take(k).len() && s.take(k)[m] == front[i][j];
            assert(s[m] == s.take(k)[m]);
        } else {
            assert(split_char(s, c)[i] == s.skip(k + 1));
            assert(s.skip(k + 1)[j] == s[k + 1 + j]);
        }
    }
}

/// Every character of `s` other than `c` lies in some piece of `split_char(s, c)`.
pub proof fn lemma_split_covers(s: Seq<char>, c: char, m: int)
    requires
        0 <= m < s.len(),
        s[m] != c,
    ensures
        exists|i: int, j: int| 0 <= i < split_char(s, c).len() && 0 <= j < split_char(s, c)[i].len()
            && split_char(s, c)[i][j] == s[m],
    decreases s.len(),
{
    let k = last_index_of(s, c);
    lemma_last_index_bounds(s, c);
    if k < 0 {
        assert(split_char(s, c)[0][m] == s[m]);
    } else {
        let pieces = split_char(s, c);
        let front = split_char(s.take(k), c);
        if m < k {
            lemma_split_covers(s.take(k), c, m);
            let (i, j) = choose|i: int, j: int| 0 <= i < front.len() && 0 <= j < front[i].len()
                && front[i][j] == s.take(k)[m];
            assert(pieces[i] == front[i]);
        } else {
            assert(m > k);
            assert(pieces[front.len() as int] == s.skip(k + 1));
            assert(s.skip(k + 1)[m - k - 1] == s[m]);
        }
    }
}

/// With `s` neither starting nor ending with `c` and never holding `c` twice in a row,
/// no piece of `split_char(s, c)` is empty.
pub proof fn lemma_split_pieces_nonempty(s: Seq<char>, c: char, i: int)
    requires
        s.len() > 0,
        s[0] != c,
        s.last() != c,
        forall|j: int| 0 <= j < s.len() - 1 ==> !(#[trigger] s[j] == c && s[j + 1] == c),
        0 <= i < split_char(s, c).len(),
    ensures
        split_char(s, c)[i].len() > 0,
    decreases s.len(),
{
    let k = last_index_of(s, c);
    lemma_last_index_bounds(s, c);
    if k >= 0 {
        let front = split_char(s.take(k), c);
        if i < front.len() {
            assert(k > 0);
            assert(s[k - 1] != c) by {
                assert(!(s[k - 1] == c && s[k] == c));
            }
            let t = s.take(k);
            assert forall|j: int| 0 <= j < t.len() - 1 implies !(#[trigger] t[j] == c && t[j + 1] == c) by {
                assert(!(s[j] == c && s[j + 1] == c));
            }
            lemma_split_pieces_nonempty(t, c, i);
        } else {
            assert(split_char(s, c)[i] == s.skip(k + 1));
            assert(k < s.len() - 1);
        }
    }
}

/// `parts.join(sep)`.
pub open spec fn join(parts: Seq<Seq<char>>, sep: Seq<char>) -> Seq<char>
    decreases parts.len(),
{
    if parts.len() == 0 {
        Seq::empty()
    } else if parts.len() == 1 {
        parts[0]
    } else {
        join(parts.drop_last(), sep) + sep + parts.last()
    }
}

/// The character sequences held by a vector of character vectors.
pub open spec fn views(v: Seq<Vec<char>>) -> Seq<Seq<char>> {
    v.map_values(|x: Vec<char>| x@)
}

/// The position of the last `c` in `v`.
pub fn last_index(v: &Vec<char>, c: char) -> (r: Option<usize>)
    ensures
        match r {
            Some(k) => k as int == last_index_of(v@, c),
            None => last_index_of(v@, c) == -1,
        },
{
    let mut i = v.len();
    assert(v@.take(i as int) =~= v@);
    while i > 0
        invariant
            i <= v.len(),
            last_index_of(v@, c) == last_index_of(v@.take(i as int), c),
        decreases i,
    {
        assert(v@.take(i as int).drop_last() =~= v@.take(i - 1));
        if v[i - 1] == c {
            return Some(i - 1);
        }
        i -= 1;
    }
    assert(v@.take(0) =~= Seq::<char>::empty());
    None
}

/// The pieces of `v` between occurrences of `c`.
pub fn split_vec(v: &Vec<char>, c: char) -> (r: Vec<Vec<char>>)
    ensures
        views(r@) == split_char(v@, c),
{
    let mut segs: Vec<Vec<char>> = Vec::new();
    let mut start: usize = 0;
    let mut i: usize = 0;
    while i < v.len()
        invariant
            start <= i <= v.len(),
            last_index_of(v@.take(i as int), c) == start - 1,
            views(segs@).push(v@.subrange(start as int, i as int)) == split_char(v@.take(i as int), c),
        decreases v.len() - i,
    {
        let ghost prev = v@.take(i as int);
        assert(v@.take(i + 1) =~= prev.push(v@[i as int]));
        proof {
            lemma_last_index_push(prev, v@[i as int], c);
        }
        if v[i] == c {
            let mut seg: Vec<char> = Vec::new();
            push_range(&mut seg, v, start, i);
            segs.push(seg);
            start = i + 1;
            proof {
                let t = v@.take(i + 1);
                assert(t.take(i as int) =~= prev);
                assert(t.skip(i + 1) =~= v@.subrange(start as int, i + 1));
                assert(views(segs@) =~= split_char(prev, c));
            }
        } else {
            proof {
                let t = v@.take(i + 1);
                let k = last_index_of(prev, c);
                if k >= 0 {
                    lemma_last_index_bounds(prev, c);
                    assert(t.take(k) =~= prev.take(k));
                    assert(split_char(prev, c) == split_char(prev.take(k), c).push(prev.skip(k + 1)));
                    assert(views(segs@) =~= split_char(prev.take(k), c)) by {
                        assert(views(segs@).push(v@.subrange(start as int, i as int)).drop_last() =~= views(segs@));
                        assert(split_char(prev.take(k), c).push(prev.skip(k + 1)).drop_last() =~= split_char(prev.take(k), c));
                    }
                    assert(t.skip(k + 1) =~= v@.subrange(start as int, i + 1));
                    assert(views(segs@).push(v@.subrange(start as int, i + 1)) =~= split_char(t, c));
                } else {
                    assert(views(segs@).push(v@.subrange(start as int, i as int)) =~= seq![prev]);
                    assert(views(segs@).len() == 0);
                    assert(v@.subrange(start as int, i + 1) =~= t);
                    assert(views(segs@).push(v@.subrange(start as int, i + 1)) =~= split_char(t, c));
                }
            }
        }
        i += 1;
    }
    let mut last: Vec<char> = Vec::new();
    push_range(&mut last, v, start, v.len());
    segs.push(last);
    assert(v@.take(v@.len() as int) =~= v@);
    assert(views(segs@) =~= split_char(v@, c));
    segs
}

/// `parts.join(sep)`.
pub fn join_vec(parts: &Vec<Vec<char>>, sep: &Vec<char>) -> (r: Vec<char>)
    ensures
        r@ == join(views(parts@), sep@),
{
    let mut out: Vec<char> = Vec::new();
    let mut i: usize = 0;
    while i < parts.len()
        invariant
            i <= parts@.len(),
            out@ == join(views(parts@).take(i as int), sep@),
        decreases parts.len() - i,
    {
        let ghost before = views(parts@).take(i as int);
        assert(views(parts@).take(i + 1).drop_last() =~= before);
        if i > 0 {
            push_all(&mut out, sep);
        }
        push_all(&mut out, &parts[i]);
        proof {
            if i == 0 {
                assert(out@ =~= views(parts@).take(1)[0]);
            } else {
                assert(out@ =~= join(views(parts@).take(i + 1), sep@));
            }
        }
        i += 1;
    }
    assert(views(parts@).take(parts@.len() as int) =~= views(parts@));
    out
}

/// Insert `x` into a sorted sequence, keeping it sorted and leaving it unchanged when
/// `x` is already present.
pub open spec fn sort_insert(s: Seq<Seq<char>>, x: Seq<char>) -> Seq<Seq<char>>
    decreases s.len(),
{
    if s.len() == 0 {
        seq![x]
    } else if s[0] == x {
        s
    } else if lex_lt(x, s[0]) {
        seq![x] + s
    } else {
        seq![s[0]] + sort_insert(s.drop_first(), x)
    }
}

/// The sorted, duplicate-free arrangement of `s`, built one insertion at a time.
pub open spec fn sort_dedup(s: Seq<Seq<char>>) -> Seq<Seq<char>>
    decreases s.len(),
{
    if s.len() == 0 {
        Seq::empty()
    } else {
        sort_insert(sort_dedup(s.drop_last()), s.last())
    }
}

pub open spec fn strictly_sorted(s: Seq<Seq<char>>) -> bool {
    forall|i: int, j: int| 0 <= i < j < s.len() ==> lex_lt(#[trigger] s[i], #[trigger] s[j])
}

pub open spec fn string_seq(v: Seq<String>) -> Seq<Seq<char>> {
    v.map_values(|s: String| s@)
}

proof fn lemma_sort_insert_skip(s: Seq<Seq<char>>, x: Seq<char>, p: int)
    requires
        0 <= p <= s.len(),
        forall|i: int| 0 <= i < p ==> lex_lt(#[trigger] s[i], x),
    ensures
        sort_insert(s, x) == s.take(p) + sort_insert(s.skip(p), x),
    decreases p,
{
    if p > 0 {
        lemma_lex_asymmetric(s[0], x);
        lemma_lex_irreflexive(x);
        assert forall|i: int| 0 <= i < p - 1 implies lex_lt(#[trigger] s.drop_first()[i], x) by {
            assert(s.drop_first()[i] == s[i + 1]);
        }
        lemma_sort_insert_skip(s.drop_first(), x, p - 1);
        assert(s.drop_first().skip(p - 1) =~= s.skip(p));
        assert(seq![s[0]] + s.drop_first().take(p - 1) =~= s.take(p));
    } else {
        assert(s.skip(0) =~= s);
    }
}

pub proof fn lemma_sort_insert_sorted(s: Seq<Seq<char>>, x: Seq<char>)
    requires
        strictly_sorted(s),
    ensures
        strictly_sorted(sort_insert(s, x)),
        sort_insert(s, x).to_set() == s.to_set().insert(x),
    decreases s.len(),
{
    if s.len() == 0 {
        assert(sort_insert(s, x).to_set() =~= s.to_set().insert(x)) by {
            assert forall|y| seq![x].contains(y) <==> y == x by {
                if y == x {
                    assert(seq![x][0] == y);
                }
            }
        }
    } else if s[0] == x {
        assert(s.to_set().insert(x) =~= s.to_set()) by {
            assert(s.contains(x));
        }
    } else if lex_lt(x, s[0]) {
        let r = seq![x] + s;
        assert forall|i: int, j: int| 0 <= i < j < r.len() implies lex_lt(#[trigger] r[i], #[trigger] r[j]) by {
            if i == 0 {
                if j > 1 {
                    lemma_lex_transitive(x, s[0], s[j - 1]);
                }
            } else {
                assert(r[i] == s[i - 1] && r[j] == s[j - 1]);
            }
        }
        assert(r.to_set() =~= s.to_set().insert(x)) by {
            assert forall|y| r.contains(y) <==> s.contains(y) || y == x by {
                if r.contains(y) {
                    let k = choose|k: int| 0 <= k < r.len() && r[k] == y;
                    if k > 0 {
                        assert(s[k - 1] == y);
                    }
                }
                if s.contains(y) {
                    let k = choose|k: int| 0 <= k < s.len() && s[k] == y;
                    assert(r[k + 1] == y);
                }
                if y == x {
                    assert(r[0] == y);
                }
            }
        }
    } else {
        lemma_lex_total(x, s[0]);
        let t = s.drop_first();
        assert(strictly_sorted(t)) by {
            assert forall|i: int, j: int| 0 <= i < j < t.len() implies lex_lt(#[trigger] t[i], #[trigger] t[j]) by {
                assert(t[i] == s[i + 1] && t[j] == s[j + 1]);
            }
        }
        lemma_sort_insert_sorted(t, x);
        let u = sort_insert(t, x);
        let r = seq![s[0]] + u;
        assert forall|i: int, j: int| 0 <= i < j < r.len() implies lex_lt(#[trigger] r[i], #[trigger] r[j]) by {
            if i == 0 {
                assert(r[j] == u[j - 1]);
                assert(u.to_set().contains(u[j - 1]));
                assert(t.to_set().insert(x).contains(u[j - 1]));
                if u[j - 1] != x {
                    assert(t.contains(u[j - 1]));
                    let k = choose|k: int| 0 <= k < t.len() && t[k] == u[j - 1];
                    assert(s[k + 1] == u[j - 1]);
                }
            } else {
                assert(r[i] == u[i - 1] && r[j] == u[j - 1]);
            }
        }
        assert(r.to_set() =~= s.to_set().insert(x)) by {
            assert(s =~= seq![s[0]] + t);
            assert forall|y| r.contains(y) <==> s.contains(y) || y == x by {
                if r.contains(y) {
                    let k = choose|k: int| 0 <= k < r.len() && r[k] == y;
                    if k > 0 {
                        assert(u.contains(y));
                        assert(u.to_set().contains(y));
                        if y != x {
                            assert(t.contains(y));
                            let m = choose|m: int| 0 <= m < t.len() && t[m] == y;
                            assert(s[m + 1] == y);
                        }
                    } else {
                        assert(s[0] == y);
                    }
                }
                if s.contains(y) {
                    let k = choose|k: int| 0 <= k < s.len() && s[k] == y;
                    if k == 0 {
                        assert(r[0] == y);
                    } else {
                        assert(t[k - 1] == y);
                        assert(t.to_set().contains(y));
                        assert(u.to_set().contains(y));
                        let m = choose|m: int| 0 <= m < u.len() && u[m] == y;
                        assert(r[m + 1] == y);
                    }
                }
                if y == x {
                    assert(u.to_set().contains(x));
                    let m = choose|m: int| 0 <= m < u.len() && u[m] == x;
                    assert(r[m + 1] == y);
                }
            }
        }
    }
}

/// `sort_dedup` orders its input and removes repeats, keeping every element.
pub proof fn lemma_sort_dedup(s: Seq<Seq<char>>)
    ensures
        strictly_sorted(sort_dedup(s)),
        sort_dedup(s).to_set() == s.to_set(),
    decreases s.len(),
{
    if s.len() == 0 {
        assert(sort_dedup(s).to_set() =~= s.to_set());
    } else {
        lemma_sort_dedup(s.drop_last());
        lemma_sort_insert_sorted(sort_dedup(s.drop_last()), s.last());
        assert(s.to_set() =~= s.drop_last().to_set().insert(s.last())) by {
            assert(s =~= s.drop_last().push(s.last()));
            assert forall|y| s.contains(y) <==> s.drop_last().contains(y) || y == s.last() by {
                if s.contains(y) {
                    let k = choose|k: int| 0 <= k < s.len() && s[k] == y;
                    if k < s.len() - 1 {
                        assert(s.drop_last()[k] == y);
                    }
                }
                if s.drop_last().contains(y) {
                    let k = choose|k: int| 0 <= k < s.drop_last().len() && s.drop_last()[k] == y;
                    assert(s[k] == y);
                }
            }
        }
    }
}

/// Insert `x` into a sorted list of strings, as `sort_insert` describes.
pub fn insert_sorted(v: &mut Vec<String>, x: String)
    ensures
        string_seq(final(v)@) == sort_insert(string_seq(old(v)@), x@),
{
    let ghost s = string_seq(v@);
    let mut p: usize = 0;
    while p < v.len() && str_lt(v[p].as_str(), x.as_str())
        invariant
            p <= v@.len(),
            s == string_seq(v@),
            forall|i: int| 0 <= i < p ==> lex_lt(#[trigger] s[i], x@),
        decreases v.len() - p,
    {
        p += 1;
    }
    proof {
        lemma_sort_insert_skip(s, x@, p as int);
        assert(s.take(p as int) + s.skip(p as int) =~= s);
    }
    if p < v.len() && str_eq(v[p].as_str(), x.as_str()) {
        return;
    }
    proof {
        if p < s.len() {
            lemma_lex_total(x@, s[p as int]);
        }
    }
    v.insert(p, x);
    assert(string_seq(v@) =~= s.take(p as int) + (seq![x@] + s.skip(p as int)));
}

/// The character of a decimal digit.
pub open spec fn digit_char(d: int) -> char {
    ((48 + d) as u32) as char
}

/// The decimal representation of `n`, without sign or leading zeros.
pub open spec fn decimal(n: nat) -> Seq<char>
    decreases n,
{
    if n < 10 {
        seq![digit_char(n as int)]
    } else {
        decimal(n / 10).push(digit_char((n % 10) as int))
    }
}

/// `k` zeros (none when `k` is not positive).
pub open spec fn zeros(k: int) -> Seq<char> {
    Seq::new(if k > 0 { k as nat } else { 0 }, |i: int| '0')
}

/// An integer as `format!("{:0w$}")` writes it: sign first, then zeros up to the width.
pub open spec fn zero_padded(n: int, width: int) -> Seq<char> {
    if n < 0 {
        let d = decimal((-n) as nat);
        seq!['-'] + zeros(width - 1 - d.len()) + d
    } else {
        let d = decimal(n as nat);
        zeros(width - d.len()) + d
    }
}

pub proof fn lemma_decimal_len(n: nat)
    ensures
        1 <= decimal(n).len(),
        n < 10 <==> decimal(n).len() == 1,
        n < 100 ==> decimal(n).len() <= 2,
    decreases n,
{
    if n >= 10 {
        lemma_decimal_len(n / 10);
    }
}

fn digit_exec(d: u64) -> (c: char)
    requires
        d < 10,
    ensures
        c == digit_char(d as int),
{
    let b: u8 = 48u8 + d as u8;
    b as char
}

/// Append the decimal representation of `n`.
pub fn push_decimal(out: &mut Vec<char>, n: u64)
    ensures
        final(out)@ == old(out)@ + decimal(n as nat),
    decreases n,
{
    if n >= 10 {
        push_decimal(out, n / 10);
    }
    let c = digit_exec(n % 10);
    out.push(c);
    proof {
        if n >= 10 {
            assert(final(out)@ =~= old(out)@ + decimal(n as nat));
        } else {
            assert(final(out)@ =~= old(out)@ + decimal(n as nat));
        }
    }
}

/// Append `n` zero-padded to `width` characters, sign included.
pub fn push_padded(out: &mut Vec<char>, n: i64, width: usize)
    requires
        n > i64::MIN,
    ensures
        final(out)@ == old(out)@ + zero_padded(n as int, width as int),
{
    let mut digits: Vec<char> = Vec::new();
    let magnitude: u64 = if n < 0 { (-n) as u64 } else { n as u64 };
    push_decimal(&mut digits, magnitude);
    assert(digits@ =~= decimal(magnitude as nat));
    let sign: usize = if n < 0 { 1 } else { 0 };
    if n < 0 {
        out.push('-');
    }
    let ghost start = out@;
    let target: usize = if width > sign && width - sign > digits.len() {
        width - sign - digits.len()
    } else {
        0
    };
    let mut i: usize = 0;
    while i < target
        invariant
            i <= target,
            out@ == start + zeros(i as int),
        decreases target - i,
    {
        out.push('0');
        i += 1;
        assert(out@ =~= start + zeros(i as int));
    }
    push_all(out, &digits);
    proof {
        let k: int = if n < 0 { 1 } else { 0 };
        assert(zeros(target as int) =~= zeros(width - k - digits@.len()));
        if n < 0 {
            assert(out@ =~= old(out)@ + zero_padded(n as int, width as int));
        } else {
            assert(out@ =~= old(out)@ + zero_padded(n as int, width as int));
        }
    }
}

/// `str::replace(pat, rep)` for a non-empty pattern: matches are replaced from the
/// left, without overlapping.
pub open spec fn replace_all(s: Seq<char>, pat: Seq<char>, rep: Seq<char>) -> Seq<char>
    decreases s.len(),
{
    if s.len() == 0 || pat.len() == 0 {
        s
    } else if starts_with(s, pat) {
        rep + replace_all(s.skip(pat.len() as int), pat, rep)
    } else {
        seq![s[0]] + replace_all(s.skip(1), pat, rep)
    }
}

/// `s.replace(pat, rep)` over characters.
pub fn replace_vec(s: &Vec<char>, pat: &Vec<char>, rep: &Vec<char>) -> (r: Vec<char>)
    requires
        pat.len() > 0,
    ensures
        r@ == replace_all(s@, pat@, rep@),
{
    let mut out: Vec<char> = Vec::new();
    let mut i: usize = 0;
    assert(s@.skip(0) =~= s@);
    assert(out@ + replace_all(s@, pat@, rep@) =~= replace_all(s@, pat@, rep@));
    while i < s.len()
        invariant
            i <= s.len(),
            pat.len() > 0,
            out@ + replace_all(s@.skip(i as int), pat@, rep@) == replace_all(s@, pat@, rep@),
        decreases s.len() - i,
    {
        let ghost rest = s@.skip(i as int);
        let hit = pat.len() <= s.len() - i && range_eq(s, i, i + pat.len(), pat, 0, pat.len());
        proof {
            assert(pat@.subrange(0, pat@.len() as int) =~= pat@);
            if pat@.len() <= rest.len() {
                assert(rest.take(pat@.len() as int) =~= s@.subrange(i as int, i + pat@.len()));
            }
        }
        if hit {
            push_all(&mut out, rep);
            assert(rest.skip(pat@.len() as int) =~= s@.skip(i + pat@.len()));
            i += pat.len();
        } else {
            out.push(s[i]);
            assert(rest.skip(1) =~= s@.skip(i + 1));
            i += 1;
        }
        assert(out@ + replace_all(s@.skip(i as int), pat@, rep@) =~= replace_all(s@, pat@, rep@));
    }
    assert(s@.skip(s@.len() as int) =~= Seq::<char>::empty());
    assert(out@ =~= replace_all(s@, pat@, rep@));
    out
}

} // verus!
