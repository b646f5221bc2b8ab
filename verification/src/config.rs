//! The configuration a server runs with, and the rules that decide whether it is valid.
//!
//! Reading the TOML file and resolving paths on disk happen at the edge; what a value
//! means, and which values are refused, is decided here.
use vstd::prelude::*;

use crate::auth::email::{is_valid_email, valid_email};
use crate::links::time::{all_digits, digits_value};
use crate::acl::index::{trim_end_char_vec, trim_start_char_vec};
use crate::text::{
    join, str_eq, last_index_of, chars_of, is_ascii_alnum, push_all, push_range, push_str, split_char, split_vec, string_of,
    trim, trim_bounds, trim_end_char, trim_start_char, views,
};

verus! {

/// Why a duration was refused.
#[derive(Debug, Clone, Copy, PartialEq, Eq, Structural)]
pub enum DurationError {
    /// Nothing but whitespace.
    Empty,
    /// Only digits, so no unit says what they count.
    MissingUnit,
    /// The value does not begin with a digit.
    MissingNumber,
    /// The number does not fit in 64 bits.
    InvalidNumber,
    /// The unit is not one of `s`, `m`, `h`, `d`, `w`.
    UnknownUnit,
    /// The number of seconds does not fit in 64 bits.
    Overflow,
}

/// Seconds in one of the supported units.
pub open spec fn unit_seconds(unit: Seq<char>) -> Option<nat> {
    if unit == seq!['s'] {
        Some(1)
    } else if unit == seq!['m'] {
        Some(60)
    } else if unit == seq!['h'] {
        Some(3600)
    } else if unit == seq!['d'] {
        Some(86400)
    } else if unit == seq!['w'] {
        Some(604800)
    } else {
        None
    }
}

/// Position of the first character of `s` that is not an ASCII digit, or -1.
pub open spec fn first_non_digit(s: Seq<char>) -> int
    decreases s.len(),
{
    if s.len() == 0 {
        -1
    } else if !('0' <= s[0] <= '9') {
        0
    } else if first_non_digit(s.drop_first()) < 0 {
        -1
    } else {
        first_non_digit(s.drop_first()) + 1
    }
}

/// What `parse_duration` makes of `raw`: a number of seconds, or why it refused.
pub open spec fn duration_spec(raw: Seq<char>) -> Result<nat, DurationError> {
    let t = trim(raw);
    let k = first_non_digit(t);
    if t.len() == 0 {
        Err(DurationError::Empty)
    } else if k < 0 {
        Err(DurationError::MissingUnit)
    } else if k == 0 {
        Err(DurationError::MissingNumber)
    } else if digits_value(t.take(k)) > u64::MAX {
        Err(DurationError::InvalidNumber)
    } else {
        match unit_seconds(t.skip(k)) {
            None => Err(DurationError::UnknownUnit),
            Some(per) => if digits_value(t.take(k)) * per > u64::MAX {
                Err(DurationError::Overflow)
            } else {
                Ok(digits_value(t.take(k)) * per)
            },
        }
    }
}

proof fn lemma_first_non_digit(s: Seq<char>, k: int)
    requires
        0 <= k <= s.len(),
        k < s.len() ==> !('0' <= s[k] <= '9'),
        forall|j: int| 0 <= j < k ==> '0' <= #[trigger] s[j] <= '9',
    ensures
        first_non_digit(s) == if k < s.len() { k } else { -1 },
    decreases k,
{
    if k > 0 {
        lemma_first_non_digit(s.drop_first(), k - 1);
    }
}

proof fn lemma_digits_monotone(s: Seq<char>, k: int)
    requires
        0 <= k <= s.len(),
        all_digits(s),
    ensures
        digits_value(s.take(k)) <= digits_value(s),
    decreases s.len() - k,
{
    if k < s.len() {
        lemma_digits_monotone(s, k + 1);
        assert(s.take(k + 1).drop_last() =~= s.take(k));
    } else {
        assert(s.take(k) =~= s);
    }
}

proof fn lemma_first_non_digit_found(s: Seq<char>)
    requires
        first_non_digit(s) >= 0,
    ensures
        first_non_digit(s) < s.len(),
        !('0' <= s[first_non_digit(s)] <= '9'),
        forall|j: int| 0 <= j < first_non_digit(s) ==> '0' <= #[trigger] s[j] <= '9',
    decreases s.len(),
{
    if s.len() > 0 && '0' <= s[0] <= '9' {
        lemma_first_non_digit_found(s.drop_first());
        assert forall|j: int| 0 <= j < first_non_digit(s) implies '0' <= #[trigger] s[j] <= '9' by {
            if j > 0 {
                assert(s[j] == s.drop_first()[j - 1]);
            }
        }
    }
}

/// A duration is accepted exactly when, once trimmed, it is a non-empty run of ASCII
/// digits followed by one of the units `s`, `m`, `h`, `d`, `w`, and the number of
/// seconds fits in 64 bits; it is then that number of seconds. So `45s`, ` 7d ` and
/// `2w` are read, and `30`, `d30`, `30y` and `-5d` are refused.
pub proof fn lemma_duration_form(raw: Seq<char>, digits: Seq<char>, unit: Seq<char>)
    requires
        trim(raw) == digits + unit,
        digits.len() > 0,
        all_digits(digits),
        unit_seconds(unit) is Some,
    ensures
        digits_value(digits) * unit_seconds(unit)->0 <= u64::MAX ==> duration_spec(raw)
            == Ok::<nat, DurationError>(digits_value(digits) * unit_seconds(unit)->0),
        duration_spec(raw) is Ok <==> digits_value(digits) * unit_seconds(unit)->0 <= u64::MAX,
{
    let t = trim(raw);
    assert(unit.len() == 1);
    assert(!('0' <= unit[0] <= '9'));
    assert(t[digits.len() as int] == unit[0]);
    lemma_first_non_digit(t, digits.len() as int);
    assert(t.take(digits.len() as int) =~= digits);
    assert(t.skip(digits.len() as int) =~= unit);
    let per = unit_seconds(unit)->0;
    assert(per >= 1);
    if digits_value(digits) > u64::MAX {
        assert(digits_value(digits) * per >= digits_value(digits)) by (nonlinear_arith)
            requires per >= 1;
    }
}

/// Conversely, whatever is accepted has that form.
pub proof fn lemma_accepted_duration_form(raw: Seq<char>)
    requires
        duration_spec(raw) is Ok,
    ensures
        ({
            let t = trim(raw);
            let k = first_non_digit(t);
            &&& 0 < k < t.len()
            &&& all_digits(t.take(k))
            &&& unit_seconds(t.skip(k)) is Some
            &&& duration_spec(raw) == Ok::<nat, DurationError>(digits_value(t.take(k)) * unit_seconds(t.skip(k))->0)
            &&& digits_value(t.take(k)) * unit_seconds(t.skip(k))->0 <= u64::MAX
        }),
{
    let t = trim(raw);
    lemma_first_non_digit_found(t);
    let k = first_non_digit(t);
    assert forall|i: int| 0 <= i < t.take(k).len() implies '0' <= #[trigger] t.take(k)[i] <= '9' by {
        assert(t.take(k)[i] == t[i]);
    }
}

/// The number of seconds written as `<integer><unit>`, with unit one of `s`, `m`,
/// `h`, `d`, `w`. A bare number or an unknown unit is refused rather than guessed at.
pub fn parse_duration(raw: &str) -> (r: Result<u64, DurationError>)
    ensures
        match r {
            Ok(secs) => duration_spec(raw@) == Ok::<nat, DurationError>(secs as nat),
            Err(e) => duration_spec(raw@) == Err::<nat, DurationError>(e),
        },
{
    let v = chars_of(raw);
    let (lo, hi) = trim_bounds(&v, 0, v.len());
    assert(v@.subrange(0, v@.len() as int) =~= v@);
    let ghost t = v@.subrange(lo as int, hi as int);
    assert(t == trim(raw@));
    if lo == hi {
        return Err(DurationError::Empty);
    }
    let mut i: usize = lo;
    let mut value: u64 = 0;
    let mut overflowed: bool = false;
    while i < hi && '0' <= v[i] && v[i] <= '9'
        invariant
            lo <= i <= hi <= v.len(),
            t == v@.subrange(lo as int, hi as int),
            forall|j: int| 0 <= j < i - lo ==> '0' <= #[trigger] t[j] <= '9',
            all_digits(t.take(i - lo)),
            !overflowed ==> value as nat == digits_value(t.take(i - lo)),
            overflowed ==> digits_value(t.take(i - lo)) > u64::MAX,
        decreases hi - i,
    {
        let d: u64 = v[i] as u64 - 48;
        assert(t[i - lo] == v@[i as int]);
        assert(t.take(i - lo + 1).drop_last() =~= t.take(i - lo));
        if !overflowed {
            match value.checked_mul(10) {
                Some(x) => match x.checked_add(d) {
                    Some(y) => {
                        value = y;
                    },
                    None => {
                        overflowed = true;
                    },
                },
                None => {
                    overflowed = true;
                },
            }
        }
        i += 1;
    }
    let k: usize = i - lo;
    proof {
        lemma_first_non_digit(t, k as int);
    }
    if i == hi {
        return Err(DurationError::MissingUnit);
    }
    if k == 0 {
        return Err(DurationError::MissingNumber);
    }
    if overflowed {
        return Err(DurationError::InvalidNumber);
    }
    let rest: usize = hi - i;
    let per: u64 = if rest == 1 && v[i] == 's' {
        1
    } else if rest == 1 && v[i] == 'm' {
        60
    } else if rest == 1 && v[i] == 'h' {
        3600
    } else if rest == 1 && v[i] == 'd' {
        86400
    } else if rest == 1 && v[i] == 'w' {
        604800
    } else {
        0
    };
    proof {
        let u = t.skip(k as int);
        if rest == 1 {
            let c = v@[i as int];
            assert(u =~= seq![c]);
            if c != 's' {
                assert(u[0] != seq!['s'][0]);
            }
            if c != 'm' {
                assert(u[0] != seq!['m'][0]);
            }
            if c != 'h' {
                assert(u[0] != seq!['h'][0]);
            }
            if c != 'd' {
                assert(u[0] != seq!['d'][0]);
            }
            if c != 'w' {
                assert(u[0] != seq!['w'][0]);
            }
            assert(per != 0 ==> unit_seconds(u) == Some(per as nat));
            assert(per == 0 ==> unit_seconds(u) is None);
        } else {
            assert(u.len() != 1);
            assert(u != seq!['s'] && u != seq!['m'] && u != seq!['h'] && u != seq!['d'] && u
                != seq!['w']);
        }
    }
    if per == 0 {
        return Err(DurationError::UnknownUnit);
    }
    match value.checked_mul(per) {
        Some(secs) => Ok(secs),
        None => Err(DurationError::Overflow),
    }
}

/// Why a site mount was refused.
#[derive(Debug, Clone, Copy, PartialEq, Eq, Structural)]
pub enum MountError {
    /// Nothing but whitespace.
    Empty,
    /// Two slashes in a row inside the mount.
    EmptySegment,
    /// A segment holds something other than ASCII letters, digits, `-` and `_`.
    InvalidSegment,
    /// Nothing but slashes: the root, where the server's home page lives.
    Root,
}

pub open spec fn mount_char_ok(c: char) -> bool {
    is_ascii_alnum(c) || c == '-' || c == '_'
}

pub open spec fn segment_problem(seg: Seq<char>) -> Option<MountError> {
    if seg.len() == 0 {
        Some(MountError::EmptySegment)
    } else if !(forall|i: int| 0 <= i < seg.len() ==> mount_char_ok(#[trigger] seg[i])) {
        Some(MountError::InvalidSegment)
    } else {
        None
    }
}

/// The problem with the first bad segment, if any.
pub open spec fn segments_problem(segs: Seq<Seq<char>>) -> Option<MountError>
    decreases segs.len(),
{
    if segs.len() == 0 {
        None
    } else {
        match segment_problem(segs[0]) {
            Some(e) => Some(e),
            None => segments_problem(segs.drop_first()),
        }
    }
}

/// A mount with exactly one leading slash and no trailing slash, made of URL-safe
/// segments, or why it was refused.
pub open spec fn mount_spec(raw: Seq<char>) -> Result<Seq<char>, MountError> {
    let t = trim(raw);
    if t.len() == 0 {
        Err(MountError::Empty)
    } else {
        let w = if t[0] == '/' { t } else { seq!['/'] + t };
        let c = trim_end_char(w, '/');
        if c.len() == 0 {
            Err(MountError::Root)
        } else {
            match segments_problem(split_char(c.drop_first(), '/')) {
                Some(e) => Err(e),
                None => Ok(c),
            }
        }
    }
}

/// `trim_end_char(s, c)` is a prefix of `s` that is empty or does not end with `c`.
pub proof fn lemma_trim_end_char_shape(s: Seq<char>, c: char)
    ensures
        trim_end_char(s, c).len() <= s.len(),
        trim_end_char(s, c) == s.take(trim_end_char(s, c).len() as int),
        trim_end_char(s, c).len() > 0 ==> trim_end_char(s, c).last() != c,
    decreases s.len(),
{
    if s.len() > 0 && s.last() == c {
        lemma_trim_end_char_shape(s.drop_last(), c);
        let t = trim_end_char(s.drop_last(), c);
        assert(s.drop_last().take(t.len() as int) =~= s.take(t.len() as int));
    } else {
        assert(s.take(s.len() as int) =~= s);
    }
}

/// With no problem in any segment, every segment is non-empty and URL-safe.
proof fn lemma_segments_fine(segs: Seq<Seq<char>>)
    requires
        segments_problem(segs) is None,
    ensures
        forall|k: int| 0 <= k < segs.len() ==> segment_problem(#[trigger] segs[k]) is None,
    decreases segs.len(),
{
    if segs.len() > 0 {
        lemma_segments_fine(segs.drop_first());
        assert forall|k: int| 0 <= k < segs.len() implies segment_problem(#[trigger] segs[k]) is None by {
            if k > 0 {
                assert(segs[k] == segs.drop_first()[k - 1]);
            }
        }
    }
}

/// A mount that is accepted has exactly one leading slash and no trailing slash, and
/// what follows the leading slash is non-empty segments of ASCII letters, digits, `-`
/// and `_` separated by single slashes; in particular `/` itself is never accepted.
pub proof fn lemma_accepted_mount_shape(raw: Seq<char>)
    requires
        mount_spec(raw) is Ok,
    ensures
        ({
            let m = mount_spec(raw)->Ok_0;
            &&& m.len() >= 2
            &&& m[0] == '/'
            &&& m.last() != '/'
            &&& forall|k: int| 0 <= k < split_char(m.drop_first(), '/').len()
                ==> segment_problem(#[trigger] split_char(m.drop_first(), '/')[k]) is None
        }),
{
    let t = trim(raw);
    let w = if t[0] == '/' { t } else { seq!['/'] + t };
    let c = trim_end_char(w, '/');
    lemma_trim_end_char_shape(w, '/');
    assert(c.len() > 0);
    assert(c[0] == w[0]);
    lemma_segments_fine(split_char(c.drop_first(), '/'));
    if c.len() == 1 {
        assert(c.last() == '/');
    }
}

/// A character a mount segment may hold: an ASCII letter or digit, `-` or `_`.
pub open spec fn url_safe_char(c: char) -> bool {
    ('a' <= c && c <= 'z') || ('A' <= c && c <= 'Z') || ('0' <= c && c <= '9') || c == '-' || c == '_'
}

proof fn lemma_segments_all_fine(segs: Seq<Seq<char>>)
    requires
        forall|k: int| 0 <= k < segs.len() ==> segment_problem(#[trigger] segs[k]) is None,
    ensures
        segments_problem(segs) is None,
    decreases segs.len(),
{
    if segs.len() > 0 {
        assert(segment_problem(segs[0]) is None);
        assert forall|k: int| 0 <= k < segs.drop_first().len() implies segment_problem(#[trigger] segs.drop_first()[k]) is None by {
            assert(segs.drop_first()[k] == segs[k + 1]);
        }
        lemma_segments_all_fine(segs.drop_first());
    }
}

/// Every well-formed mount is accepted as written: non-empty segments of ASCII letters,
/// digits, `-` and `_`, separated by single slashes, with or without the leading slash,
/// normalize to themselves behind exactly one leading slash. No such segment is ever
/// refused.
pub proof fn lemma_well_formed_mount_is_accepted(body: Seq<char>, leading_slash: bool)
    requires
        body.len() > 0,
        body[0] != '/',
        body.last() != '/',
        forall|j: int| 0 <= j < body.len() ==> body[j] == '/' || url_safe_char(#[trigger] body[j]),
        forall|j: int| 0 <= j < body.len() - 1 ==> !(#[trigger] body[j] == '/' && body[j + 1] == '/'),
    ensures
        mount_spec(if leading_slash { seq!['/'] + body } else { body }) == Ok::<Seq<char>, MountError>(
            seq!['/'] + body,
        ),
{
    let raw = if leading_slash { seq!['/'] + body } else { body };
    let w = seq!['/'] + body;
    assert(!crate::text::is_ws(raw[0]));
    assert(raw.last() == body.last());
    assert(!crate::text::is_ws(raw.last()));
    assert(crate::text::trim_start(raw) == raw);
    assert(trim(raw) == raw);
    if !leading_slash {
        assert(raw[0] != '/');
    }
    assert(trim_end_char(w, '/') == w);
    assert(w.drop_first() =~= body);
    let segs = split_char(body, '/');
    assert forall|k: int| 0 <= k < segs.len() implies segment_problem(#[trigger] segs[k]) is None by {
        crate::text::lemma_split_pieces_nonempty(body, '/', k);
        assert forall|i: int| 0 <= i < segs[k].len() implies mount_char_ok(#[trigger] segs[k][i]) by {
            crate::text::lemma_split_pieces_from(body, '/', k, i);
            crate::text::lemma_split_pieces_lack_sep(body, '/', k, i);
            let m = choose|m: int| 0 <= m < body.len() && body[m] == segs[k][i];
            assert(url_safe_char(body[m]));
        }
    }
    lemma_segments_all_fine(segs);
}

fn segment_problem_exec(seg: &Vec<char>) -> (r: Option<MountError>)
    ensures
        r == segment_problem(seg@),
{
    if seg.len() == 0 {
        return Some(MountError::EmptySegment);
    }
    let mut i: usize = 0;
    while i < seg.len()
        invariant
            i <= seg.len(),
            forall|j: int| 0 <= j < i ==> mount_char_ok(#[trigger] seg@[j]),
        decreases seg.len() - i,
    {
        let c = seg[i];
        if !(('0' <= c && c <= '9') || ('a' <= c && c <= 'z') || ('A' <= c && c <= 'Z') || c
            == '-' || c == '_') {
            return Some(MountError::InvalidSegment);
        }
        i += 1;
    }
    None
}

/// Ensure the mount has exactly one leading slash and no trailing slash, and contains
/// only URL-safe segments. The root `/` is refused: it would collide with the server's
/// home page.
pub fn normalize_mount(mount: &str) -> (r: Result<String, MountError>)
    ensures
        match r {
            Ok(m) => mount_spec(mount@) == Ok::<Seq<char>, MountError>(m@),
            Err(e) => mount_spec(mount@) == Err::<Seq<char>, MountError>(e),
        },
{
    let v = chars_of(mount);
    let (lo, hi) = trim_bounds(&v, 0, v.len());
    assert(v@.subrange(0, v@.len() as int) =~= v@);
    if lo == hi {
        return Err(MountError::Empty);
    }
    let mut w: Vec<char> = Vec::new();
    if v[lo] != '/' {
        w.push('/');
    }
    push_range(&mut w, &v, lo, hi);
    let ghost t = v@.subrange(lo as int, hi as int);
    assert(w@ =~= if t[0] == '/' { t } else { seq!['/'] + t });
    let c = trim_end_char_vec(&w, '/');
    if c.len() == 0 {
        return Err(MountError::Root);
    }
    let mut inner: Vec<char> = Vec::new();
    push_range(&mut inner, &c, 1, c.len());
    assert(inner@ =~= c@.drop_first());
    let segs = split_vec(&inner, '/');
    let ghost all = views(segs@);
    assert(all.skip(0) =~= all);
    assert(mount_spec(mount@) == match segments_problem(all) {
        Some(e) => Err(e),
        None => Ok::<Seq<char>, MountError>(c@),
    });
    let mut i: usize = 0;
    while i < segs.len()
        invariant
            i <= segs.len(),
            all == views(segs@),
            segments_problem(all) == segments_problem(all.skip(i as int)),
            mount_spec(mount@) == match segments_problem(all) {
                Some(e) => Err(e),
                None => Ok::<Seq<char>, MountError>(c@),
            },
        decreases segs.len() - i,
    {
        let ghost rest = all.skip(i as int);
        assert(rest[0] == segs@[i as int]@);
        assert(rest.drop_first() =~= all.skip(i + 1));
        match segment_problem_exec(&segs[i]) {
            Some(e) => return Err(e),
            None => {},
        }
        i += 1;
    }
    assert(all.skip(segs.len() as int) =~= Seq::<Seq<char>>::empty());
    Ok(string_of(&c))
}

/// `[server]` settings.
#[derive(Debug, Clone)]
pub struct ServerConfig {
    pub live_reload: bool,
    pub log_level: String,
}

impl ServerConfig {
    pub fn new() -> (r: ServerConfig)
        ensures
            r.live_reload,
            r.log_level@ == "info"@,
    {
        ServerConfig { live_reload: true, log_level: String::from_str("info") }
    }
}

/// `[auth]` settings. Credentials never live here; they come from the environment.
#[derive(Debug, Clone)]
pub struct AuthConfig {
    /// Identity provider. Only "google" is supported.
    pub provider: String,
    /// Absolute ceiling on a session before full re-authentication, e.g. `30d`.
    pub session_max_age: String,
    /// Address used for the `mailto:` request-access link on the deny page.
    pub owner_email: Option<String>,
    /// How long access-log entries are retained, e.g. `90d`.
    pub audit_retention: String,
    /// Path to the SQLite sidecar.
    pub database: Option<String>,
    /// Path to the AEAD key file.
    pub key_file: Option<String>,
}

/// Seconds in thirty days: the session ceiling when none is configured.
pub const DEFAULT_SESSION_MAX_AGE: u64 = 2_592_000;

/// Seconds in ninety days: how long the access log is kept when nothing else is said.
pub const DEFAULT_AUDIT_RETENTION: u64 = 7_776_000;

/// A configured duration in seconds, or `fallback` when it does not parse.
pub open spec fn duration_or(raw: Seq<char>, fallback: nat) -> nat {
    match duration_spec(raw) {
        Ok(secs) => secs,
        Err(_) => fallback,
    }
}

impl AuthConfig {
    /// The defaults: Google, thirty-day sessions, a ninety-day audit log.
    pub fn new() -> (r: AuthConfig)
        ensures
            r.provider@ == "google"@,
            r.session_max_age@ == "30d"@,
            r.audit_retention@ == "90d"@,
            r.owner_email is None,
            r.database is None,
            r.key_file is None,
    {
        AuthConfig {
            provider: String::from_str("google"),
            session_max_age: String::from_str("30d"),
            owner_email: None,
            audit_retention: String::from_str("90d"),
            database: None,
            key_file: None,
        }
    }

    /// `session_max_age` in seconds. Validated at load time, so the fallback is never
    /// reached by a configuration that was accepted.
    pub fn session_max_age(&self) -> (r: u64)
        ensures
            r as nat == duration_or(self.session_max_age@, DEFAULT_SESSION_MAX_AGE as nat),
    {
        match parse_duration(self.session_max_age.as_str()) {
            Ok(secs) => secs,
            Err(_) => DEFAULT_SESSION_MAX_AGE,
        }
    }

    /// `audit_retention` in seconds.
    pub fn audit_retention(&self) -> (r: u64)
        ensures
            r as nat == duration_or(self.audit_retention@, DEFAULT_AUDIT_RETENTION as nat),
    {
        match parse_duration(self.audit_retention.as_str()) {
            Ok(secs) => secs,
            Err(_) => DEFAULT_AUDIT_RETENTION,
        }
    }
}

/// `[theme]` settings.
#[derive(Debug, Clone)]
pub struct ThemeConfig {
    /// Name of a built-in theme.
    pub name: Option<String>,
    /// Directory layered above the built-in theme.
    pub directory: Option<String>,
}

/// `[links]` settings, as written in the file.
#[derive(Debug, Clone)]
pub struct LinksConfig {
    pub enabled: bool,
    pub prefix: String,
    pub default_lifetime: String,
    pub max_lifetime: String,
    pub revoked_retention: String,
}

impl LinksConfig {
    /// Links on, under `/s`, living a day by default and thirty days at most.
    pub fn new() -> (r: LinksConfig)
        ensures
            r.enabled,
            r.prefix@ == "/s"@,
            r.default_lifetime@ == "1d"@,
            r.max_lifetime@ == "30d"@,
            r.revoked_retention@ == "90d"@,
    {
        LinksConfig {
            enabled: true,
            prefix: String::from_str("/s"),
            default_lifetime: String::from_str("1d"),
            max_lifetime: String::from_str("30d"),
            revoked_retention: String::from_str("90d"),
        }
    }
}

/// One `[[sites]]` entry.
#[derive(Debug, Clone)]
pub struct SiteConfig {
    pub path: String,
    pub mount: Option<String>,
    pub title: Option<String>,
    /// Per-site theme directory, layered above the global one.
    pub theme: Option<String>,
    pub color: Option<String>,
}

impl SiteConfig {
    /// A site rooted at `path`, mounted at `/docs`.
    pub fn for_test(path: &str) -> (r: SiteConfig)
        ensures
            r.path@ == path@,
            r.mount matches Some(m) && m@ == "/docs"@,
            r.title matches Some(t) && t@ == "Docs"@,
            r.theme is None,
            r.color is None,
    {
        SiteConfig {
            path: path.to_owned(),
            mount: Some(String::from_str("/docs")),
            title: Some(String::from_str("Docs")),
            theme: None,
            color: None,
        }
    }

    /// The mount, which validation always fills in.
    pub fn mount(&self) -> (r: &str)
        requires
            self.mount is Some,
        ensures
            r@ == self.mount->0@,
    {
        match &self.mount {
            Some(m) => m.as_str(),
            None => "",
        }
    }

    /// The title, which validation always fills in.
    pub fn title(&self) -> (r: &str)
        requires
            self.title is Some,
        ensures
            r@ == self.title->0@,
    {
        match &self.title {
            Some(t) => t.as_str(),
            None => "",
        }
    }

    /// The accent colour, which validation always fills in.
    pub fn color(&self) -> (r: &str)
        requires
            self.color is Some,
        ensures
            r@ == self.color->0@,
    {
        match &self.color {
            Some(c) => c.as_str(),
            None => "",
        }
    }
}

/// The whole configuration file.
#[derive(Debug, Clone)]
pub struct Config {
    pub host: String,
    pub port: u16,
    pub server: ServerConfig,
    pub theme: ThemeConfig,
    /// Absent means the server is entirely unauthenticated.
    pub auth: Option<AuthConfig>,
    pub links: Option<LinksConfig>,
    pub sites: Vec<SiteConfig>,
    /// Directory of the loaded config file, against which relative paths resolve.
    pub source_dir: String,
}

/// `host:port`.
pub open spec fn bind_addr_spec(host: Seq<char>, port: u16) -> Seq<char> {
    host + seq![':'] + crate::text::decimal(port as nat)
}

impl Config {
    /// The address the server listens on.
    pub fn bind_addr(&self) -> (r: String)
        ensures
            r@ == bind_addr_spec(self.host@, self.port),
    {
        let mut out: Vec<char> = Vec::new();
        push_str(&mut out, self.host.as_str());
        out.push(':');
        crate::text::push_decimal(&mut out, self.port as u64);
        assert(out@ =~= bind_addr_spec(self.host@, self.port));
        string_of(&out)
    }
}

/// Why a configuration was refused.
#[derive(Debug, Clone)]
pub enum ConfigError {
    /// No `[[sites]]` at all.
    NoSites,
    /// `[auth] provider` names something other than Google.
    UnsupportedProvider(String),
    /// `[auth] session_max_age` is not a duration.
    SessionMaxAge(DurationError),
    /// `[auth] audit_retention` is not a duration.
    AuditRetention(DurationError),
    /// `[auth] owner_email` is not an address.
    OwnerEmail(String),
    /// A site's path is not a directory.
    NotADirectory(String),
    /// A site's mount (as written, or derived from its path) was refused.
    Mount(String, MountError),
    /// Two sites share a mount.
    DuplicateMount(String),
}

/// A `ConfigError` as values.
pub enum ConfigProblem {
    NoSites,
    UnsupportedProvider(Seq<char>),
    SessionMaxAge(DurationError),
    AuditRetention(DurationError),
    OwnerEmail(Seq<char>),
    NotADirectory(Seq<char>),
    Mount(Seq<char>, MountError),
    DuplicateMount(Seq<char>),
}

impl ConfigError {
    pub open spec fn problem(&self) -> ConfigProblem {
        match self {
            ConfigError::NoSites => ConfigProblem::NoSites,
            ConfigError::UnsupportedProvider(p) => ConfigProblem::UnsupportedProvider(p@),
            ConfigError::SessionMaxAge(e) => ConfigProblem::SessionMaxAge(*e),
            ConfigError::AuditRetention(e) => ConfigProblem::AuditRetention(*e),
            ConfigError::OwnerEmail(o) => ConfigProblem::OwnerEmail(o@),
            ConfigError::NotADirectory(p) => ConfigProblem::NotADirectory(p@),
            ConfigError::Mount(m, e) => ConfigProblem::Mount(m@, *e),
            ConfigError::DuplicateMount(m) => ConfigProblem::DuplicateMount(m@),
        }
    }
}

/// The first problem with the `[auth]` section, if any.
pub open spec fn auth_problem(auth: Option<AuthConfig>) -> Option<ConfigProblem> {
    match auth {
        None => None,
        Some(a) => if a.provider@ != "google"@ {
            Some(ConfigProblem::UnsupportedProvider(a.provider@))
        } else if duration_spec(a.session_max_age@) is Err {
            Some(ConfigProblem::SessionMaxAge(duration_spec(a.session_max_age@)->Err_0))
        } else if duration_spec(a.audit_retention@) is Err {
            Some(ConfigProblem::AuditRetention(duration_spec(a.audit_retention@)->Err_0))
        } else if a.owner_email is Some && !valid_email(a.owner_email->0@) {
            Some(ConfigProblem::OwnerEmail(a.owner_email->0@))
        } else {
            None
        },
    }
}

/// The last named component of a path, as `Path::file_name` reads it.
pub open spec fn last_named(segs: Seq<Seq<char>>) -> Option<Seq<char>>
    decreases segs.len(),
{
    if segs.len() == 0 {
        None
    } else if segs.last().len() == 0 || segs.last() == seq!['.'] {
        last_named(segs.drop_last())
    } else if segs.last() == seq!['.', '.'] {
        None
    } else {
        Some(segs.last())
    }
}

pub open spec fn file_name_spec(path: Seq<char>) -> Option<Seq<char>> {
    last_named(split_char(path, '/'))
}

/// `/` followed by the directory's name.
pub open spec fn derive_mount_spec(path: Seq<char>) -> Seq<char> {
    match file_name_spec(path) {
        Some(n) => seq!['/'] + n,
        None => seq!['/'],
    }
}

/// The directory's name, or "Site".
pub open spec fn derive_title_spec(path: Seq<char>) -> Seq<char> {
    match file_name_spec(path) {
        Some(n) => n,
        None => "Site"@,
    }
}

/// The accent colours handed out to sites without one, in order.
pub open spec fn palette(i: int) -> Seq<char> {
    if i == 0 {
        "#10b981"@
    } else if i == 1 {
        "#3b82f6"@
    } else if i == 2 {
        "#8b5cf6"@
    } else if i == 3 {
        "#f43f5e"@
    } else if i == 4 {
        "#f59e0b"@
    } else if i == 5 {
        "#0ea5e9"@
    } else if i == 6 {
        "#14b8a6"@
    } else if i == 7 {
        "#d946ef"@
    } else {
        "#6366f1"@
    }
}

/// The mount a site asks for before normalisation.
pub open spec fn site_mount_source(site: SiteConfig) -> Seq<char> {
    match site.mount {
        Some(m) => m@,
        None => derive_mount_spec(site.path@),
    }
}

pub open spec fn site_mount(site: SiteConfig) -> Result<Seq<char>, MountError> {
    mount_spec(site_mount_source(site))
}

pub open spec fn mount_taken(sites: Seq<SiteConfig>, i: int, m: Seq<char>) -> bool {
    exists|j: int| 0 <= j < i && #[trigger] site_mount(sites[j]) == Ok::<Seq<char>, MountError>(m)
}

/// The problem with site `i`, given that the sites before it were accepted.
pub open spec fn site_problem(sites: Seq<SiteConfig>, dirs: Seq<bool>, i: int) -> Option<
    ConfigProblem,
> {
    if !dirs[i] {
        Some(ConfigProblem::NotADirectory(sites[i].path@))
    } else {
        match site_mount(sites[i]) {
            Err(e) => Some(ConfigProblem::Mount(site_mount_source(sites[i]), e)),
            Ok(m) => if mount_taken(sites, i, m) {
                Some(ConfigProblem::DuplicateMount(m))
            } else {
                None
            },
        }
    }
}

/// The first problem among the first `n` sites.
pub open spec fn sites_problem(sites: Seq<SiteConfig>, dirs: Seq<bool>, n: int) -> Option<
    ConfigProblem,
>
    decreases n,
{
    if n <= 0 {
        None
    } else {
        match sites_problem(sites, dirs, n - 1) {
            Some(p) => Some(p),
            None => site_problem(sites, dirs, n - 1),
        }
    }
}

/// The first problem with a configuration whose site `i` is a directory exactly when
/// `dirs[i]`.
pub open spec fn config_problem(c: Config, dirs: Seq<bool>) -> Option<ConfigProblem> {
    if c.sites.len() == 0 {
        Some(ConfigProblem::NoSites)
    } else {
        match auth_problem(c.auth) {
            Some(p) => Some(p),
            None => sites_problem(c.sites@, dirs, c.sites.len() as int),
        }
    }
}

/// Site `i` after validation filled in its mount, title and colour.
pub open spec fn site_filled(old_site: SiteConfig, new_site: SiteConfig, i: int) -> bool {
    &&& new_site.path == old_site.path
    &&& new_site.theme == old_site.theme
    &&& new_site.mount matches Some(m) && Ok::<Seq<char>, MountError>(m@) == site_mount(old_site)
    &&& new_site.title matches Some(t) && t@ == match old_site.title {
        Some(o) => o@,
        None => derive_title_spec(old_site.path@),
    }
    &&& new_site.color matches Some(c) && c@ == match old_site.color {
        Some(o) => o@,
        None => palette(i % 9),
    }
}

fn is_dot(seg: &Vec<char>) -> (r: bool)
    ensures
        r == (seg@ == seq!['.']),
{
    if seg.len() == 1 && seg[0] == '.' {
        assert(seg@ =~= seq!['.']);
        true
    } else {
        proof {
            if seg@ == seq!['.'] {
                assert(seg@.len() == 1 && seg@[0] == '.');
            }
        }
        false
    }
}

fn is_dot_dot(seg: &Vec<char>) -> (r: bool)
    ensures
        r == (seg@ == seq!['.', '.']),
{
    if seg.len() == 2 && seg[0] == '.' && seg[1] == '.' {
        assert(seg@ =~= seq!['.', '.']);
        true
    } else {
        proof {
            if seg@ == seq!['.', '.'] {
                assert(seg@.len() == 2 && seg@[0] == '.' && seg@[1] == '.');
            }
        }
        false
    }
}

/// The last named component of `path`.
fn file_name(path: &Vec<char>) -> (r: Option<Vec<char>>)
    ensures
        match r {
            Some(n) => file_name_spec(path@) == Some(n@),
            None => file_name_spec(path@) is None,
        },
{
    let segs = split_vec(path, '/');
    let ghost all = views(segs@);
    let mut i: usize = segs.len();
    assert(all.take(i as int) =~= all);
    while i > 0
        invariant
            i <= segs.len(),
            all == views(segs@),
            all == split_char(path@, '/'),
            last_named(all) == last_named(all.take(i as int)),
        decreases i,
    {
        let ghost pre = all.take(i as int);
        assert(pre.last() == segs@[i - 1]@);
        assert(pre.drop_last() =~= all.take(i - 1));
        let seg = &segs[i - 1];
        if seg.len() == 0 || is_dot(seg) {
            i -= 1;
        } else if is_dot_dot(seg) {
            return None;
        } else {
            let mut out: Vec<char> = Vec::new();
            crate::text::push_all(&mut out, seg);
            assert(out@ =~= seg@);
            return Some(out);
        }
    }
    None
}

/// The last named component of `path`, as characters.
pub fn file_name_of(path: &str) -> (r: Option<Vec<char>>)
    ensures
        match r {
            Some(n) => file_name_spec(path@) == Some(n@),
            None => file_name_spec(path@) is None,
        },
{
    let v = chars_of(path);
    file_name(&v)
}

/// `/name` for the directory at `path`, or `/` when it has no name.
pub fn derive_mount(path: &str) -> (r: String)
    ensures
        r@ == derive_mount_spec(path@),
{
    let v = chars_of(path);
    let mut out: Vec<char> = Vec::new();
    out.push('/');
    match file_name(&v) {
        Some(n) => push_all(&mut out, &n),
        None => {},
    }
    assert(out@ =~= derive_mount_spec(path@));
    string_of(&out)
}

/// The directory's name, or "Site" when it has none.
pub fn derive_title(path: &str) -> (r: String)
    ensures
        r@ == derive_title_spec(path@),
{
    let v = chars_of(path);
    match file_name(&v) {
        Some(n) => string_of(&n),
        None => String::from_str("Site"),
    }
}

fn palette_color(i: usize) -> (r: String)
    ensures
        r@ == palette((i % 9) as int),
{
    let k = i % 9;
    if k == 0 {
        String::from_str("#10b981")
    } else if k == 1 {
        String::from_str("#3b82f6")
    } else if k == 2 {
        String::from_str("#8b5cf6")
    } else if k == 3 {
        String::from_str("#f43f5e")
    } else if k == 4 {
        String::from_str("#f59e0b")
    } else if k == 5 {
        String::from_str("#0ea5e9")
    } else if k == 6 {
        String::from_str("#14b8a6")
    } else if k == 7 {
        String::from_str("#d946ef")
    } else {
        String::from_str("#6366f1")
    }
}

fn check_auth(auth: &Option<AuthConfig>) -> (r: Option<ConfigError>)
    ensures
        match r {
            Some(e) => auth_problem(*auth) == Some(e.problem()),
            None => auth_problem(*auth) is None,
        },
{
    match auth {
        None => None,
        Some(a) => {
            if !str_eq(a.provider.as_str(), "google") {
                return Some(ConfigError::UnsupportedProvider(a.provider.clone()));
            }
            match parse_duration(a.session_max_age.as_str()) {
                Err(e) => return Some(ConfigError::SessionMaxAge(e)),
                Ok(_) => {},
            }
            match parse_duration(a.audit_retention.as_str()) {
                Err(e) => return Some(ConfigError::AuditRetention(e)),
                Ok(_) => {},
            }
            match &a.owner_email {
                Some(o) => if !is_valid_email(o.as_str()) {
                    return Some(ConfigError::OwnerEmail(o.clone()));
                },
                None => {},
            }
            None
        },
    }
}

fn clone_opt(o: &Option<String>) -> (r: Option<String>)
    ensures
        r == *o,
{
    match o {
        Some(s) => Some(s.clone()),
        None => None,
    }
}

proof fn lemma_sites_problem_stable(sites: Seq<SiteConfig>, dirs: Seq<bool>, k: int, n: int)
    requires
        0 <= k <= n,
        sites_problem(sites, dirs, k) is Some,
    ensures
        sites_problem(sites, dirs, n) == sites_problem(sites, dirs, k),
    decreases n - k,
{
    if n > k {
        lemma_sites_problem_stable(sites, dirs, k, n - 1);
    }
}

/// The unchanged parts of a configuration.
pub open spec fn same_settings(a: Config, b: Config) -> bool {
    &&& a.host == b.host
    &&& a.port == b.port
    &&& a.server == b.server
    &&& a.theme == b.theme
    &&& a.auth == b.auth
    &&& a.links == b.links
    &&& a.source_dir == b.source_dir
}

impl Config {
    /// Check a loaded configuration and fill in what a site may leave out: its mount
    /// (from its directory's name), its title and its accent colour.
    ///
    /// `dirs[i]` says whether site `i`'s path names a directory; the paths themselves
    /// have already been resolved against the config file's directory. On a refusal
    /// the configuration is left as it was.
    pub fn normalize_and_validate(&mut self, dirs: &Vec<bool>) -> (r: Result<(), ConfigError>)
        requires
            dirs.len() == old(self).sites.len(),
        ensures
            match r {
                Ok(()) => {
                    &&& config_problem(*old(self), dirs@) is None
                    &&& same_settings(*final(self), *old(self))
                    &&& final(self).sites.len() == old(self).sites.len()
                    &&& forall|i: int|
                        0 <= i < old(self).sites.len() ==> site_filled(
                            #[trigger] old(self).sites@[i],
                            final(self).sites@[i],
                            i,
                        )
                },
                Err(e) => config_problem(*old(self), dirs@) == Some(e.problem()) && *final(self)
                    == *old(self),
            },
    {
        let n = self.sites.len();
        if n == 0 {
            return Err(ConfigError::NoSites);
        }
        match check_auth(&self.auth) {
            Some(e) => return Err(e),
            None => {},
        }
        let mut mounts: Vec<String> = Vec::new();
        let mut new_sites: Vec<SiteConfig> = Vec::new();
        let mut i: usize = 0;
        while i < n
            invariant
                i <= n == self.sites.len() == dirs.len(),
                *self == *old(self),
                config_problem(*self, dirs@) == sites_problem(self.sites@, dirs@, n as int),
                mounts.len() == i,
                new_sites.len() == i,
                sites_problem(self.sites@, dirs@, i as int) is None,
                forall|j: int|
                    0 <= j < i ==> Ok::<Seq<char>, MountError>(#[trigger] mounts@[j]@) == site_mount(
                        self.sites@[j],
                    ),
                forall|j: int|
                    0 <= j < i ==> site_filled(self.sites@[j], #[trigger] new_sites@[j], j),
            decreases n - i,
        {
            let site = &self.sites[i];
            if !dirs[i] {
                proof {
                    lemma_sites_problem_stable(self.sites@, dirs@, i + 1, n as int);
                }
                return Err(ConfigError::NotADirectory(site.path.clone()));
            }
            let source: String = match &site.mount {
                Some(m) => m.clone(),
                None => derive_mount(site.path.as_str()),
            };
            assert(source@ == site_mount_source(self.sites@[i as int]));
            let m = match normalize_mount(source.as_str()) {
                Ok(m) => m,
                Err(e) => {
                    proof {
                        lemma_sites_problem_stable(self.sites@, dirs@, i + 1, n as int);
                    }
                    return Err(ConfigError::Mount(source, e));
                },
            };
            let mut j: usize = 0;
            #[verifier::loop_isolation(false)]
            while j < i
                invariant
                    j <= i == mounts.len(),
                    forall|k: int| 0 <= k < j ==> (#[trigger] mounts@[k])@ != m@,
                decreases i - j,
            {
                if str_eq(mounts[j].as_str(), m.as_str()) {
                    proof {
                        assert(site_mount(self.sites@[j as int]) == Ok::<Seq<char>, MountError>(
                            m@,
                        ));
                        assert(mount_taken(self.sites@, i as int, m@));
                        lemma_sites_problem_stable(self.sites@, dirs@, i + 1, n as int);
                    }
                    return Err(ConfigError::DuplicateMount(m));
                }
                j += 1;
            }
            assert(!mount_taken(self.sites@, i as int, m@)) by {
                if mount_taken(self.sites@, i as int, m@) {
                    let k = choose|k: int|
                        0 <= k < i && #[trigger] site_mount(self.sites@[k]) == Ok::<
                            Seq<char>,
                            MountError,
                        >(m@);
                    assert(Ok::<Seq<char>, MountError>(mounts@[k]@) == site_mount(self.sites@[k]));
                }
            }
            let title: String = match &site.title {
                Some(t) => t.clone(),
                None => derive_title(site.path.as_str()),
            };
            let color: String = match &site.color {
                Some(c) => c.clone(),
                None => palette_color(i),
            };
            let filled = SiteConfig {
                path: site.path.clone(),
                mount: Some(m.clone()),
                title: Some(title),
                theme: clone_opt(&site.theme),
                color: Some(color),
            };
            new_sites.push(filled);
            mounts.push(m);
            i += 1;
        }
        self.sites = new_sites;
        Ok(())
    }
}

impl DurationError {
    pub open spec fn text(self) -> Seq<char> {
        match self {
            DurationError::Empty => "duration is empty; expected a value such as `30d`"@,
            DurationError::MissingUnit => "duration has no unit; expected e.g. `30d`"@,
            DurationError::MissingNumber => "duration does not start with a number; expected e.g. `30d`"@,
            DurationError::InvalidNumber => "duration has an invalid number"@,
            DurationError::UnknownUnit => "duration has an unknown unit; use one of s, m, h, d, w"@,
            DurationError::Overflow => "duration overflows"@,
        }
    }

    /// What is wrong, in words.
    pub fn describe(&self) -> (r: &'static str)
        ensures
            r@ == self.text(),
    {
        match self {
            DurationError::Empty => "duration is empty; expected a value such as `30d`",
            DurationError::MissingUnit => "duration has no unit; expected e.g. `30d`",
            DurationError::MissingNumber => "duration does not start with a number; expected e.g. `30d`",
            DurationError::InvalidNumber => "duration has an invalid number",
            DurationError::UnknownUnit => "duration has an unknown unit; use one of s, m, h, d, w",
            DurationError::Overflow => "duration overflows",
        }
    }
}

impl MountError {
    pub open spec fn text(self) -> Seq<char> {
        match self {
            MountError::Empty => "cannot be empty; use a prefix such as /docs"@,
            MountError::EmptySegment => "contains an empty segment"@,
            MountError::InvalidSegment => "has a segment with characters other than letters, digits, - and _"@,
            MountError::Root => "must not be / (it would conflict with the server home page); use a prefix such as /docs or /wiki"@,
        }
    }

    /// What is wrong, in words.
    pub fn describe(&self) -> (r: &'static str)
        ensures
            r@ == self.text(),
    {
        match self {
            MountError::Empty => "cannot be empty; use a prefix such as /docs",
            MountError::EmptySegment => "contains an empty segment",
            MountError::InvalidSegment => "has a segment with characters other than letters, digits, - and _",
            MountError::Root => "must not be / (it would conflict with the server home page); use a prefix such as /docs or /wiki",
        }
    }
}

/// The text shown for a refused configuration.
pub open spec fn problem_text(p: ConfigProblem) -> Seq<char> {
    match p {
        ConfigProblem::NoSites => "config defines no [[sites]]; nothing to serve."@,
        ConfigProblem::UnsupportedProvider(v) => "[auth] provider `"@ + v
            + "` is not supported; only `google` is available."@,
        ConfigProblem::SessionMaxAge(e) => "[auth] session_max_age is invalid: "@ + e.text(),
        ConfigProblem::AuditRetention(e) => "[auth] audit_retention is invalid: "@ + e.text(),
        ConfigProblem::OwnerEmail(v) => "[auth] owner_email `"@ + v
            + "` is not a valid email address"@,
        ConfigProblem::NotADirectory(v) => "site path "@ + v
            + " is not a directory (or does not exist)."@,
        ConfigProblem::Mount(v, e) => "site mount `"@ + v + "` "@ + e.text(),
        ConfigProblem::DuplicateMount(v) => "duplicate site mount: "@ + v,
    }
}

impl ConfigError {
    /// The refusal, in words.
    pub fn message(&self) -> (r: String)
        ensures
            r@ == problem_text(self.problem()),
    {
        let mut out: Vec<char> = Vec::new();
        match self {
            ConfigError::NoSites => push_str(&mut out, "config defines no [[sites]]; nothing to serve."),
            ConfigError::UnsupportedProvider(v) => {
                push_str(&mut out, "[auth] provider `");
                push_str(&mut out, v.as_str());
                push_str(&mut out, "` is not supported; only `google` is available.");
            },
            ConfigError::SessionMaxAge(e) => {
                push_str(&mut out, "[auth] session_max_age is invalid: ");
                push_str(&mut out, e.describe());
            },
            ConfigError::AuditRetention(e) => {
                push_str(&mut out, "[auth] audit_retention is invalid: ");
                push_str(&mut out, e.describe());
            },
            ConfigError::OwnerEmail(v) => {
                push_str(&mut out, "[auth] owner_email `");
                push_str(&mut out, v.as_str());
                push_str(&mut out, "` is not a valid email address");
            },
            ConfigError::NotADirectory(v) => {
                push_str(&mut out, "site path ");
                push_str(&mut out, v.as_str());
                push_str(&mut out, " is not a directory (or does not exist).");
            },
            ConfigError::Mount(v, e) => {
                push_str(&mut out, "site mount `");
                push_str(&mut out, v.as_str());
                push_str(&mut out, "` ");
                push_str(&mut out, e.describe());
            },
            ConfigError::DuplicateMount(v) => {
                push_str(&mut out, "duplicate site mount: ");
                push_str(&mut out, v.as_str());
            },
        }
        assert(out@ =~= problem_text(self.problem()));
        string_of(&out)
    }
}

/// The components a path keeps once `.` and `..` are resolved without touching the
/// disk: `.` and empty pieces vanish, `..` removes the component before it.
pub open spec fn kept_components(segs: Seq<Seq<char>>) -> Seq<Seq<char>>
    decreases segs.len(),
{
    if segs.len() == 0 {
        Seq::empty()
    } else {
        let prev = kept_components(segs.drop_last());
        let s = segs.last();
        if s.len() == 0 || s == seq!['.'] {
            prev
        } else if s == seq!['.', '.'] {
            if prev.len() > 0 {
                prev.drop_last()
            } else {
                prev
            }
        } else {
            prev.push(s)
        }
    }
}

/// `path` with `.` and `..` resolved lexically.
pub open spec fn normalize_path_spec(path: Seq<char>) -> Seq<char> {
    let kept = join(kept_components(split_char(path, '/')), seq!['/']);
    if path.len() > 0 && path[0] == '/' {
        seq!['/'] + kept
    } else {
        kept
    }
}

/// Resolve `..` and `.` segments without requiring the path to exist on disk.
pub fn normalize_path(path: &str) -> (r: String)
    ensures
        r@ == normalize_path_spec(path@),
{
    let v = chars_of(path);
    let segs = split_vec(&v, '/');
    let ghost all = views(segs@);
    let mut kept: Vec<Vec<char>> = Vec::new();
    let mut i: usize = 0;
    assert(all.take(0) =~= Seq::<Seq<char>>::empty());
    while i < segs.len()
        invariant
            i <= segs.len(),
            all == views(segs@),
            views(kept@) == kept_components(all.take(i as int)),
        decreases segs.len() - i,
    {
        let ghost pre = all.take(i + 1);
        assert(pre.drop_last() =~= all.take(i as int));
        assert(pre.last() == segs@[i as int]@);
        let seg = &segs[i];
        if seg.len() == 0 || is_dot(seg) {
        } else if is_dot_dot(seg) {
            if kept.len() > 0 {
                let _ = kept.pop();
                assert(views(kept@) =~= kept_components(all.take(i as int)).drop_last());
            }
        } else {
            let mut copy: Vec<char> = Vec::new();
            push_all(&mut copy, seg);
            kept.push(copy);
            assert(views(kept@) =~= kept_components(all.take(i as int)).push(seg@));
        }
        i += 1;
    }
    assert(all.take(segs.len() as int) =~= all);
    let mut sep: Vec<char> = Vec::new();
    sep.push('/');
    assert(sep@ =~= seq!['/']);
    let joined = crate::text::join_vec(&kept, &sep);
    let mut out: Vec<char> = Vec::new();
    if v.len() > 0 && v[0] == '/' {
        out.push('/');
    }
    push_all(&mut out, &joined);
    assert(out@ =~= normalize_path_spec(path@));
    string_of(&out)
}

/// `base.join(path)`: `path` itself when absolute, else `path` under `base`.
pub open spec fn join_path_spec(base: Seq<char>, path: Seq<char>) -> Seq<char> {
    if path.len() > 0 && path[0] == '/' {
        path
    } else if base.len() == 0 || base.last() == '/' {
        base + path
    } else {
        base + seq!['/'] + path
    }
}

/// A path read relative to `base` unless absolute, with `.` and `..` resolved.
pub fn resolve_against(path: &str, base: &str) -> (r: String)
    ensures
        r@ == normalize_path_spec(join_path_spec(base@, path@)),
{
    let p = chars_of(path);
    let b = chars_of(base);
    let mut joined: Vec<char> = Vec::new();
    if p.len() > 0 && p[0] == '/' {
        push_all(&mut joined, &p);
    } else {
        push_all(&mut joined, &b);
        if b.len() > 0 && b[b.len() - 1] != '/' {
            joined.push('/');
        }
        push_all(&mut joined, &p);
    }
    assert(joined@ =~= join_path_spec(base@, path@));
    let s = string_of(&joined);
    normalize_path(s.as_str())
}

/// mdshelf's per-user directory, `~/.config/mdshelf`, given the home directory.
pub fn user_config_dir(home: Option<&str>) -> (r: Option<String>)
    ensures
        match home {
            Some(h) => r matches Some(d) && d@ == join_path_spec(h@, ".config/mdshelf"@),
            None => r is None,
        },
{
    match home {
        None => None,
        Some(h) => {
            let v = chars_of(h);
            let mut out: Vec<char> = Vec::new();
            push_all(&mut out, &v);
            if v.len() > 0 && v[v.len() - 1] != '/' {
                out.push('/');
            }
            push_str(&mut out, ".config/mdshelf");
            proof {
                reveal_strlit(".config/mdshelf");
            }
            assert(out@ =~= join_path_spec(h@, ".config/mdshelf"@));
            Some(string_of(&out))
        },
    }
}

impl Config {
    /// A validated configuration around sites that are known to be directories.
    pub fn for_test(source_dir: String, sites: Vec<SiteConfig>) -> (r: Config)
        requires
            sites.len() > 0,
            sites_problem(sites@, Seq::new(sites@.len(), |i: int| true), sites@.len() as int)
                is None,
        ensures
            r.sites.len() == sites.len(),
            r.source_dir == source_dir,
            r.auth is None,
            r.host@ == "127.0.0.1"@,
            r.port == 4444,
            forall|i: int| 0 <= i < sites.len() ==> site_filled(#[trigger] sites@[i], r.sites@[i], i),
    {
        let n = sites.len();
        let mut config = Config {
            host: String::from_str("127.0.0.1"),
            port: 4444,
            server: ServerConfig::new(),
            theme: ThemeConfig { name: None, directory: None },
            auth: None,
            links: None,
            sites,
            source_dir,
        };
        let mut dirs: Vec<bool> = Vec::new();
        let mut i: usize = 0;
        while i < n
            invariant
                i <= n,
                dirs.len() == i,
                forall|j: int| 0 <= j < i ==> dirs@[j],
            decreases n - i,
        {
            dirs.push(true);
            i += 1;
        }
        assert(dirs@ =~= Seq::new(n as nat, |i: int| true));
        match config.normalize_and_validate(&dirs) {
            Ok(()) => {},
            Err(_) => {},
        }
        config
    }
}

} // verus!
