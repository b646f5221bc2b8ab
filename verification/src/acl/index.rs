//! The per-site ACL index: rule blocks arranged so a chain can be assembled for any path.
//!
//! Built from the vault on load and rebuilt by the watcher, so an edit takes effect on
//! the next request. It is derived state only — the markdown is the source of truth.
use vstd::prelude::*;

use crate::auth::crypto::{signature_digest, signature_digest_spec};
use crate::auth::store::RuleRow;
use crate::content::page::{is_index_rel, url_path_from_rel};
use crate::text::{
    chars_of, insert_sorted, last_index, last_index_of, lemma_last_index_bounds,
    lemma_lex_irreflexive, lemma_lex_total, lemma_lex_transitive, lex_lt, push_range,
    sort_dedup, sort_insert, str_eq, str_lt, string_of, string_seq, trim_end_char,
    trim_start_char,
};

use super::resolver::{
    chain_view, lemma_resolution_verdict, resolution_of, resolve, CandView, Candidate, Decision,
    Level, Resolution,
};
use super::{AclBlock, AclError};

verus! {

/// `\` read as `/`, so a Windows-style relative path names the same folder.
pub open spec fn slashes(s: Seq<char>) -> Seq<char> {
    s.map_values(|c: char| if c == '\\' { '/' } else { c })
}

/// A folder or file path with its separators unified and no leading or trailing `/`.
pub open spec fn normalize_folder_spec(s: Seq<char>) -> Seq<char> {
    trim_start_char(trim_end_char(slashes(s), '/'), '/')
}

/// What `Path::parent` gives for a `/`-separated relative path ("" at the top).
pub open spec fn path_parent(s: Seq<char>) -> Seq<char> {
    let t = trim_end_char(s, '/');
    let k = last_index_of(t, '/');
    if k < 0 {
        Seq::empty()
    } else {
        t.take(k)
    }
}

pub open spec fn parent_folder_spec(rel: Seq<char>) -> Seq<char> {
    normalize_folder_spec(path_parent(rel))
}

/// The folder one level up: everything before the last `/`, or "".
pub open spec fn folder_up(f: Seq<char>) -> Seq<char> {
    let k = last_index_of(f, '/');
    if k < 0 {
        Seq::empty()
    } else {
        f.take(k)
    }
}

/// `f`, then each enclosing folder from nearest to furthest, ending at the site root "".
pub open spec fn ancestors(f: Seq<char>) -> Seq<Seq<char>>
    decreases f.len(),
{
    if f.len() == 0 {
        seq![f]
    } else {
        proof {
            lemma_last_index_bounds(f, '/');
        }
        seq![f] + ancestors(folder_up(f))
    }
}

/// A rule block plus the file it came from.
#[derive(Debug)]
pub struct RuleSource {
    pub block: AclBlock,
    /// Path of the declaring file, relative to the site root.
    pub file: String,
}

/// Keys in strictly increasing order, which also makes them unique.
pub open spec fn keys_sorted(e: Seq<(String, RuleSource)>) -> bool {
    forall|i: int, j: int| 0 <= i < j < e.len() ==> lex_lt(#[trigger] e[i].0@, #[trigger] e[j].0@)
}

/// The rules filed under `key`, if any.
pub open spec fn key_index(e: Seq<(String, RuleSource)>, key: Seq<char>) -> int {
    choose|i: int| 0 <= i < e.len() && (#[trigger] e[i]).0@ == key
}

/// The rules filed under `key`, if any.
pub open spec fn lookup(e: Seq<(String, RuleSource)>, key: Seq<char>) -> Option<RuleSource> {
    if exists|i: int| 0 <= i < e.len() && (#[trigger] e[i]).0@ == key {
        Some(e[key_index(e, key)].1)
    } else {
        None
    }
}

pub open spec fn all_nonempty(e: Seq<(String, RuleSource)>) -> bool {
    forall|i: int| 0 <= i < e.len() ==> !(#[trigger] e[i]).1.block.spec_empty()
}

proof fn lemma_lookup_at(e: Seq<(String, RuleSource)>, j: int)
    requires
        keys_sorted(e),
        0 <= j < e.len(),
    ensures
        lookup(e, e[j].0@) == Some(e[j].1),
{
    let key = e[j].0@;
    let i = key_index(e, key);
    lemma_lex_irreflexive(key);
    if i < j {
        assert(lex_lt(e[i].0@, e[j].0@));
    } else if j < i {
        assert(lex_lt(e[j].0@, e[i].0@));
    }
}

fn find_key(e: &Vec<(String, RuleSource)>, key: &str) -> (r: Option<usize>)
    requires
        keys_sorted(e@),
    ensures
        match r {
            Some(i) => i < e@.len() && e@[i as int].0@ == key@ && lookup(e@, key@) == Some(
                e@[i as int].1,
            ),
            None => lookup(e@, key@) is None,
        },
{
    let mut i: usize = 0;
    while i < e.len()
        invariant
            i <= e@.len(),
            keys_sorted(e@),
            forall|j: int| 0 <= j < i ==> (#[trigger] e@[j]).0@ != key@,
        decreases e.len() - i,
    {
        if str_eq(e[i].0.as_str(), key) {
            proof {
                lemma_lookup_at(e@, i as int);
            }
            return Some(i);
        }
        i += 1;
    }
    None
}

/// File `src` under `key`, replacing whatever was filed there before.
fn upsert(e: &mut Vec<(String, RuleSource)>, key: String, src: RuleSource)
    requires
        keys_sorted(old(e)@),
    ensures
        keys_sorted(final(e)@),
        lookup(final(e)@, key@) == Some(src),
        forall|k: Seq<char>| k != key@ ==> lookup(final(e)@, k) == lookup(old(e)@, k),
        forall|i: int|
            0 <= i < final(e)@.len() ==> (#[trigger] final(e)@[i]).1 == src || old(e)@.contains(
                final(e)@[i],
            ),
{
    let ghost s = e@;
    let mut p: usize = 0;
    while p < e.len() && str_lt(e[p].0.as_str(), key.as_str())
        invariant
            p <= e@.len(),
            s == e@,
            forall|i: int| 0 <= i < p ==> lex_lt(#[trigger] s[i].0@, key@),
        decreases e.len() - p,
    {
        p += 1;
    }
    if p < e.len() && str_eq(e[p].0.as_str(), key.as_str()) {
        let ghost k0 = e@[p as int].0;
        e.set(p, (key, src));
        proof {
            let t = e@;
            assert(t[p as int].0@ == s[p as int].0@);
            assert forall|i: int, j: int| 0 <= i < j < t.len() implies lex_lt(#[trigger] t[i].0@, #[trigger] t[j].0@) by {
                assert(s[i].0@ == t[i].0@ || i == p);
                assert(s[j].0@ == t[j].0@ || j == p);
                assert(lex_lt(s[i].0@, s[j].0@));
            }
            lemma_lookup_at(t, p as int);
            assert forall|k: Seq<char>| k != key@ implies lookup(t, k) == lookup(s, k) by {
                if exists|i: int| 0 <= i < s.len() && (#[trigger] s[i]).0@ == k {
                    let i = choose|i: int| 0 <= i < s.len() && (#[trigger] s[i]).0@ == k;
                    lemma_lookup_at(s, i);
                    lemma_lookup_at(t, i);
                } else {
                    assert forall|i: int| 0 <= i < t.len() implies (#[trigger] t[i]).0@ != k by {
                        if i != p {
                            assert(t[i] == s[i]);
                        }
                    }
                }
            }
            assert forall|i: int| 0 <= i < t.len() implies (#[trigger] t[i]).1 == src || s.contains(t[i]) by {
                if i != p {
                    assert(t[i] == s[i]);
                }
            }
        }
        return;
    }
    proof {
        if p < s.len() {
            lemma_lex_total(key@, s[p as int].0@);
        }
    }
    e.insert(p, (key, src));
    proof {
        let t = e@;
        assert(t[p as int].0@ == key@);
        assert forall|i: int| 0 <= i < t.len() && i != p implies (#[trigger] t[i]) == (if i < p { s[i] } else { s[i - 1] }) by {}
        assert forall|i: int, j: int| 0 <= i < j < t.len() implies lex_lt(#[trigger] t[i].0@, #[trigger] t[j].0@) by {
            if i < p && j < p {
                assert(lex_lt(s[i].0@, s[j].0@));
            } else if i < p && j == p {
            } else if i < p && j > p {
                assert(lex_lt(s[i].0@, s[j - 1].0@));
            } else if i == p {
                if j - 1 > p {
                    assert(lex_lt(s[p as int].0@, s[j - 1].0@));
                    lemma_lex_transitive(key@, s[p as int].0@, s[j - 1].0@);
                }
            } else {
                assert(lex_lt(s[i - 1].0@, s[j - 1].0@));
            }
        }
        lemma_lookup_at(t, p as int);
        assert forall|k: Seq<char>| k != key@ implies lookup(t, k) == lookup(s, k) by {
            if exists|i: int| 0 <= i < s.len() && (#[trigger] s[i]).0@ == k {
                let i = choose|i: int| 0 <= i < s.len() && (#[trigger] s[i]).0@ == k;
                lemma_lookup_at(s, i);
                if i < p {
                    lemma_lookup_at(t, i);
                } else {
                    assert(t[i + 1] == s[i]);
                    lemma_lookup_at(t, i + 1);
                }
            } else {
                assert forall|i: int| 0 <= i < t.len() implies (#[trigger] t[i]).0@ != k by {
                    if i < p {
                        assert(t[i] == s[i]);
                    } else if i > p {
                        assert(t[i] == s[i - 1]);
                    }
                }
            }
        }
        assert forall|i: int| 0 <= i < t.len() implies (#[trigger] t[i]).1 == src || s.contains(t[i]) by {
            if i < p {
                assert(s[i] == t[i]);
            } else if i > p {
                assert(s[i - 1] == t[i]);
            }
        }
    }
}

/// Rule blocks for one site, arranged for lookup.
pub struct AclIndex {
    /// Folder path ("" is the site root) -> rules from that folder's index file.
    folders: Vec<(String, RuleSource)>,
    /// Relative file path -> rules from that non-index file.
    files: Vec<(String, RuleSource)>,
}

/// One rule the index would answer with, as its level, where it came from, and its rules.
pub open spec fn cand_of(level: Level, src: RuleSource) -> CandView {
    (level, src.file@, src.block)
}

impl AclIndex {
    #[verifier::type_invariant]
    spec fn inv(self) -> bool {
        &&& keys_sorted(self.folders@)
        &&& keys_sorted(self.files@)
        &&& all_nonempty(self.folders@)
        &&& all_nonempty(self.files@)
    }

    /// Folder rules, ordered by folder.
    pub closed spec fn folder_entries(self) -> Seq<(String, RuleSource)> {
        self.folders@
    }

    /// File rules, ordered by file.
    pub closed spec fn file_entries(self) -> Seq<(String, RuleSource)> {
        self.files@
    }

    pub open spec fn folder_rule(self, folder: Seq<char>) -> Option<RuleSource> {
        lookup(self.folder_entries(), folder)
    }

    pub open spec fn file_rule(self, file: Seq<char>) -> Option<RuleSource> {
        lookup(self.file_entries(), file)
    }

    pub open spec fn spec_is_empty(self) -> bool {
        self.folder_entries().len() == 0 && self.file_entries().len() == 0
    }

    /// The folder rules met walking `anc`, in order.
    pub open spec fn folder_chain(self, anc: Seq<Seq<char>>) -> Seq<CandView>
        decreases anc.len(),
    {
        if anc.len() == 0 {
            Seq::empty()
        } else {
            let rest = self.folder_chain(anc.drop_first());
            match self.folder_rule(anc[0]) {
                Some(src) => seq![
                    cand_of(if anc[0].len() == 0 { Level::Site } else { Level::Folder }, src),
                ] + rest,
                None => rest,
            }
        }
    }

    /// The ordered chain of rule blocks that applies to `rel`, most specific first: the
    /// file's own rules (for a non-index file), then each ancestor folder from nearest to
    /// furthest, then the site root.
    pub open spec fn chain_of(self, rel: Seq<char>) -> Seq<CandView> {
        let head = if !is_index_rel(rel) {
            match self.file_rule(normalize_folder_spec(rel)) {
                Some(src) => seq![cand_of(Level::File, src)],
                None => Seq::empty(),
            }
        } else {
            Seq::empty()
        };
        head + self.folder_chain(ancestors(parent_folder_spec(rel)))
    }

    pub fn new() -> (r: Self)
        ensures
            r.spec_is_empty(),
    {
        AclIndex { folders: Vec::new(), files: Vec::new() }
    }

    /// Record the rules declared by one file.
    ///
    /// An index file's rules are filed under its folder, because they govern that folder
    /// and everything beneath it, including the index page itself. A block that declares
    /// nothing is not recorded at all.
    pub fn insert(&mut self, rel_path: &str, block: AclBlock)
        ensures
            block.spec_empty() ==> final(self).folder_entries() == old(self).folder_entries()
                && final(self).file_entries() == old(self).file_entries(),
            !block.spec_empty() && is_index_rel(rel_path@) ==> {
                &&& final(self).folder_rule(parent_folder_spec(rel_path@)) is Some
                &&& final(self).folder_rule(parent_folder_spec(rel_path@))->0.block == block
                &&& final(self).folder_rule(parent_folder_spec(rel_path@))->0.file@
                    == normalize_folder_spec(rel_path@)
                &&& forall|k: Seq<char>|
                    k != parent_folder_spec(rel_path@) ==> final(self).folder_rule(k) == old(
                        self,
                    ).folder_rule(k)
                &&& final(self).file_entries() == old(self).file_entries()
            },
            !block.spec_empty() && !is_index_rel(rel_path@) ==> {
                &&& final(self).file_rule(normalize_folder_spec(rel_path@)) is Some
                &&& final(self).file_rule(normalize_folder_spec(rel_path@))->0.block == block
                &&& final(self).file_rule(normalize_folder_spec(rel_path@))->0.file@
                    == normalize_folder_spec(rel_path@)
                &&& forall|k: Seq<char>|
                    k != normalize_folder_spec(rel_path@) ==> final(self).file_rule(k) == old(
                        self,
                    ).file_rule(k)
                &&& final(self).folder_entries() == old(self).folder_entries()
            },
    {
        proof {
            use_type_invariant(&*self);
        }
        if block.is_empty() {
            return;
        }
        let file = normalize_folder(rel_path);
        let key_file = normalize_folder(rel_path);
        if is_index_file(rel_path) {
            let key = parent_folder(rel_path);
            let ghost k = key@;
            let src = RuleSource { block, file };
            let ghost gsrc = src;
            let mut folders = Vec::new();
            std::mem::swap(&mut folders, &mut self.folders);
            upsert(&mut folders, key, src);
            proof {
                assert forall|i: int| 0 <= i < folders@.len() implies !(#[trigger] folders@[i]).1.block.spec_empty() by {
                    if folders@[i].1 != gsrc {
                        let j = choose|j: int| 0 <= j < old(self).folders@.len() && old(self).folders@[j] == folders@[i];
                        assert(!old(self).folders@[j].1.block.spec_empty());
                    }
                }
            }
            self.folders = folders;
        } else {
            let src = RuleSource { block, file };
            let ghost gsrc = src;
            let mut files = Vec::new();
            std::mem::swap(&mut files, &mut self.files);
            upsert(&mut files, key_file, src);
            proof {
                assert forall|i: int| 0 <= i < files@.len() implies !(#[trigger] files@[i]).1.block.spec_empty() by {
                    if files@[i].1 != gsrc {
                        let j = choose|j: int| 0 <= j < old(self).files@.len() && old(self).files@[j] == files@[i];
                        assert(!old(self).files@[j].1.block.spec_empty());
                    }
                }
            }
            self.files = files;
        }
    }

    /// True when the site declares no rules at all.
    ///
    /// Such a site is served exactly as it was before auth existed.
    pub fn is_empty(&self) -> (r: bool)
        ensures
            r == self.spec_is_empty(),
    {
        self.folders.len() == 0 && self.files.len() == 0
    }

    /// Folders that declare rules, in order.
    pub fn rule_folders(&self) -> (r: Vec<String>)
        ensures
            r@.len() == self.folder_entries().len(),
            forall|i: int| 0 <= i < r@.len() ==> (#[trigger] r@[i])@ == self.folder_entries()[i].0@,
    {
        let mut r: Vec<String> = Vec::new();
        let mut i: usize = 0;
        while i < self.folders.len()
            invariant
                i <= self.folders@.len(),
                r@.len() == i,
                forall|j: int| 0 <= j < i ==> (#[trigger] r@[j])@ == self.folders@[j].0@,
            decreases self.folders.len() - i,
        {
            r.push(self.folders[i].0.clone());
            i += 1;
        }
        r
    }

    /// Build the ordered chain of rule blocks that applies to `rel_path`.
    fn chain(&self, rel_path: &str) -> (r: Vec<Candidate<'_>>)
        ensures
            chain_view(r@) == self.chain_of(rel_path@),
    {
        proof {
            use_type_invariant(&*self);
        }
        let mut candidates: Vec<Candidate<'_>> = Vec::new();
        let normalized = normalize_folder(rel_path);
        // An index file has no file-level rules of its own: what it declares is the
        // folder rule, which is picked up by the folder walk below.
        if !is_index_file(rel_path) {
            if let Some(i) = find_key(&self.files, normalized.as_str()) {
                candidates.push(
                    Candidate {
                        level: Level::File,
                        source: self.files[i].1.file.clone(),
                        block: &self.files[i].1.block,
                    },
                );
            }
        }
        let ghost head = chain_view(candidates@);
        assert(head + self.folder_chain(ancestors(parent_folder_spec(rel_path@)))
            =~= self.chain_of(rel_path@));
        let start = parent_folder(rel_path);
        let mut folder = chars_of(start.as_str());
        while folder.len() > 0
            invariant
                keys_sorted(self.folders@),
                chain_view(candidates@) + self.folder_chain(ancestors(folder@)) == self.chain_of(
                    rel_path@,
                ),
            decreases folder.len(),
        {
            let key = string_of(&folder);
            let ghost before = chain_view(candidates@);
            let ghost anc = ancestors(folder@);
            proof {
                lemma_last_index_bounds(folder@, '/');
            }
            assert(anc[0] == folder@);
            assert(anc.drop_first() =~= ancestors(folder_up(folder@)));
            if let Some(i) = find_key(&self.folders, key.as_str()) {
                candidates.push(
                    Candidate {
                        level: Level::Folder,
                        source: self.folders[i].1.file.clone(),
                        block: &self.folders[i].1.block,
                    },
                );
                assert(chain_view(candidates@) =~= before + seq![
                    cand_of(Level::Folder, self.folders@[i as int].1),
                ]);
            } else {
                assert(chain_view(candidates@) =~= before);
            }
            let up = match last_index(&folder, '/') {
                Some(k) => {
                    let mut u: Vec<char> = Vec::new();
                    push_range(&mut u, &folder, 0, k);
                    u
                },
                None => Vec::new(),
            };
            assert(up@ =~= folder_up(folder@));
            folder = up;
        }
        let ghost before = chain_view(candidates@);
        assert(ancestors(folder@) =~= seq![folder@]);
        assert(seq![folder@].drop_first() =~= Seq::<Seq<char>>::empty());
        assert(self.folder_chain(seq![folder@].drop_first()) =~= Seq::<CandView>::empty());
        let root = String::new();
        assert(root@ =~= folder@);
        if let Some(i) = find_key(&self.folders, root.as_str()) {
            candidates.push(
                Candidate {
                    level: Level::Site,
                    source: self.folders[i].1.file.clone(),
                    block: &self.folders[i].1.block,
                },
            );
            assert(chain_view(candidates@) =~= before + seq![
                cand_of(Level::Site, self.folders@[i as int].1),
            ]);
        } else {
            assert(chain_view(candidates@) =~= before);
        }
        candidates
    }

    /// Resolve `rel_path` for `email`, with a full trace.
    pub fn resolve(&self, rel_path: &str, email: &str) -> (r: Resolution)
        ensures
            resolution_of(r, self.chain_of(rel_path@), email@),
    {
        resolve(self.chain(rel_path), email)
    }

    /// Whether `email` may read `rel_path`: the most specific rule that names the address
    /// decides, and nothing named means no.
    pub fn allows(&self, rel_path: &str, email: &str) -> (r: bool)
        ensures
            r == (super::resolver::verdict(self.chain_of(rel_path@), email@) == Decision::Allow),
    {
        let resolution = self.resolve(rel_path, email);
        proof {
            lemma_resolution_verdict(resolution, self.chain_of(rel_path@), email@);
        }
        resolution.is_allowed()
    }
}

/// The folder a relative path sits in, as a `/`-joined string ("" for the site root).
pub fn parent_folder(rel_path: &str) -> (r: String)
    ensures
        r@ == parent_folder_spec(rel_path@),
{
    let v = chars_of(rel_path);
    let t = trim_end_char_vec(&v, '/');
    proof {
        lemma_last_index_bounds(t@, '/');
    }
    let parent = match last_index(&t, '/') {
        Some(k) => {
            let mut u: Vec<char> = Vec::new();
            push_range(&mut u, &t, 0, k);
            u
        },
        None => Vec::new(),
    };
    assert(parent@ =~= path_parent(rel_path@));
    normalize_folder_vec(&parent)
}

/// True when `rel_path` is a folder's index file, and therefore governs that folder and
/// everything beneath it. Asks the page layer, so the two can never disagree.
pub fn is_index_file(rel_path: &str) -> (r: bool)
    ensures
        r == is_index_rel(rel_path@),
{
    url_path_from_rel(rel_path).1
}

fn normalize_folder(raw: &str) -> (r: String)
    ensures
        r@ == normalize_folder_spec(raw@),
{
    let v = chars_of(raw);
    normalize_folder_vec(&v)
}

fn normalize_folder_vec(v: &Vec<char>) -> (r: String)
    ensures
        r@ == normalize_folder_spec(v@),
{
    let mut u: Vec<char> = Vec::new();
    let mut i: usize = 0;
    while i < v.len()
        invariant
            i <= v@.len(),
            u@ == slashes(v@.take(i as int)),
        decreases v.len() - i,
    {
        let c = v[i];
        u.push(if c == '\\' { '/' } else { c });
        i += 1;
        assert(u@ =~= slashes(v@.take(i as int)));
    }
    assert(v@.take(v@.len() as int) =~= v@);
    let t = trim_end_char_vec(&u, '/');
    let w = trim_start_char_vec(&t, '/');
    string_of(&w)
}

proof fn lemma_trim_end_char_take(s: Seq<char>, c: char, i: int)
    requires
        0 <= i <= s.len(),
        forall|j: int| i <= j < s.len() ==> s[j] == c,
    ensures
        trim_end_char(s, c) == trim_end_char(s.take(i), c),
    decreases s.len() - i,
{
    if i < s.len() {
        lemma_trim_end_char_take(s.drop_last(), c, i);
        assert(s.drop_last().take(i) =~= s.take(i));
    } else {
        assert(s.take(i) =~= s);
    }
}

proof fn lemma_trim_start_char_skip(s: Seq<char>, c: char, i: int)
    requires
        0 <= i <= s.len(),
        forall|j: int| 0 <= j < i ==> s[j] == c,
    ensures
        trim_start_char(s, c) == trim_start_char(s.skip(i), c),
    decreases i,
{
    if i > 0 {
        lemma_trim_start_char_skip(s.drop_first(), c, i - 1);
        assert(s.drop_first().skip(i - 1) =~= s.skip(i));
    } else {
        assert(s.skip(0) =~= s);
    }
}

/// `v` without trailing `c`s.
pub fn trim_end_char_vec(v: &Vec<char>, c: char) -> (r: Vec<char>)
    ensures
        r@ == trim_end_char(v@, c),
{
    let mut i = v.len();
    while i > 0 && v[i - 1] == c
        invariant
            i <= v@.len(),
            forall|j: int| i <= j < v@.len() ==> v@[j] == c,
        decreases i,
    {
        i -= 1;
    }
    proof {
        lemma_trim_end_char_take(v@, c, i as int);
    }
    let mut r: Vec<char> = Vec::new();
    push_range(&mut r, v, 0, i);
    assert(r@ =~= v@.take(i as int));
    r
}

/// `v` without leading `c`s.
pub fn trim_start_char_vec(v: &Vec<char>, c: char) -> (r: Vec<char>)
    ensures
        r@ == trim_start_char(v@, c),
{
    let mut i: usize = 0;
    while i < v.len() && v[i] == c
        invariant
            i <= v@.len(),
            forall|j: int| 0 <= j < i ==> v@[j] == c,
        decreases v.len() - i,
    {
        i += 1;
    }
    proof {
        lemma_trim_start_char_skip(v@, c, i as int);
    }
    let mut r: Vec<char> = Vec::new();
    push_range(&mut r, v, i, v.len());
    assert(r@ =~= v@.skip(i as int));
    r
}

/// Each block's errors, tagged with the file that declared it, entry by entry.
pub open spec fn error_pairs(e: Seq<(String, RuleSource)>) -> Seq<(Seq<char>, AclError)>
    decreases e.len(),
{
    if e.len() == 0 {
        Seq::empty()
    } else {
        error_pairs(e.drop_last()) + tagged(e.last().1.file@, e.last().1.block.errors@)
    }
}

/// Every address a block names: its `allow` list, then its `deny` list.
pub open spec fn block_emails(b: AclBlock) -> Seq<Seq<char>> {
    string_seq(b.allow@) + string_seq(b.deny@)
}

pub open spec fn named_emails(e: Seq<(String, RuleSource)>) -> Seq<Seq<char>>
    decreases e.len(),
{
    if e.len() == 0 {
        Seq::empty()
    } else {
        named_emails(e.drop_last()) + block_emails(e.last().1.block)
    }
}

/// A block's entries as (effect, address): `allow` entries first, then `deny`.
pub open spec fn block_pairs(b: AclBlock) -> Seq<(Seq<char>, Seq<char>)> {
    b.allow@.map_values(|x: String| ("allow"@, x@)) + b.deny@.map_values(|x: String| ("deny"@, x@))
}

pub open spec fn level_word(key: Seq<char>, folder: bool) -> Seq<char> {
    if !folder {
        "file"@
    } else if key.len() == 0 {
        "site"@
    } else {
        "folder"@
    }
}

/// Rows (path, level, effect, email) for the entries of one map.
pub open spec fn rows_spec(e: Seq<(String, RuleSource)>, folder: bool) -> Seq<(Seq<char>, Seq<char>, Seq<char>, Seq<char>)>
    decreases e.len(),
{
    if e.len() == 0 {
        Seq::empty()
    } else {
        let key = e.last().0@;
        rows_spec(e.drop_last(), folder) + rows_for(key, level_word(key, folder), block_pairs(e.last().1.block))
    }
}

pub open spec fn rows_view(s: Seq<RuleRow>) -> Seq<(Seq<char>, Seq<char>, Seq<char>, Seq<char>)> {
    s.map_values(|x: RuleRow| row_view(x))
}

pub open spec fn rows_for(key: Seq<char>, level: Seq<char>, pairs: Seq<(Seq<char>, Seq<char>)>) -> Seq<(Seq<char>, Seq<char>, Seq<char>, Seq<char>)> {
    pairs.map_values(|p: (Seq<char>, Seq<char>)| (key, level, p.0, p.1))
}

pub open spec fn error_refs(s: Seq<(&str, &AclError)>) -> Seq<(Seq<char>, AclError)> {
    s.map_values(|p: (&str, &AclError)| (p.0@, *p.1))
}

pub open spec fn tagged(file: Seq<char>, errors: Seq<AclError>) -> Seq<(Seq<char>, AclError)> {
    errors.map_values(|er: AclError| (file, er))
}

pub open spec fn row_view(r: RuleRow) -> (Seq<char>, Seq<char>, Seq<char>, Seq<char>) {
    (r.path@, r.level@, r.effect@, r.email@)
}

/// The signature part one rule block contributes for `email`.
pub open spec fn sig_part(prefix: Seq<char>, key: Seq<char>, b: AclBlock, email: Seq<char>) -> Seq<Seq<char>> {
    match b.spec_decide(email) {
        Some(d) => seq![prefix + key + seq![':'] + d.spec_str()],
        None => if b.spec_poisoned() {
            seq![prefix + key + ":poisoned"@]
        } else {
            Seq::empty()
        },
    }
}

pub open spec fn sig_parts(e: Seq<(String, RuleSource)>, prefix: Seq<char>, email: Seq<char>) -> Seq<Seq<char>>
    decreases e.len(),
{
    if e.len() == 0 {
        Seq::empty()
    } else {
        sig_parts(e.drop_last(), prefix, email) + sig_part(prefix, e.last().0@, e.last().1.block, email)
    }
}

proof fn lemma_sort_dedup_append(s: Seq<Seq<char>>, t: Seq<Seq<char>>)
    requires
        t.len() <= 1,
    ensures
        sort_dedup(s + t) == if t.len() == 0 { sort_dedup(s) } else { sort_insert(sort_dedup(s), t[0]) },
{
    if t.len() == 0 {
        assert(s + t =~= s);
    } else {
        assert((s + t).drop_last() =~= s);
    }
}

impl AclIndex {
    /// Every rule source in the index: folder rules, then file rules.
    pub open spec fn all_rules(self) -> Seq<RuleSource> {
        self.folder_entries().map_values(|p: (String, RuleSource)| p.1) + self.file_entries().map_values(
            |p: (String, RuleSource)| p.1,
        )
    }

    pub open spec fn spec_signature(self, email: Seq<char>) -> Seq<char> {
        signature_digest_spec(
            sort_dedup(
                sig_parts(self.folder_entries(), "f:"@, email) + sig_parts(self.file_entries(), "p:"@, email),
            ),
        )
    }

    /// Every malformed rule block's errors, with the file that declared it.
    pub fn poisoned(&self) -> (r: Vec<(&str, &AclError)>)
        ensures
            error_refs(r@) == error_pairs(self.folder_entries())
                + error_pairs(self.file_entries()),
    {
        let mut r: Vec<(&str, &AclError)> = Vec::new();
        collect_errors(&self.folders, &mut r);
        let ghost mid = r@;
        collect_errors(&self.files, &mut r);
        r
    }

    /// Every address named anywhere in the site, sorted, each once.
    pub fn known_emails(&self) -> (r: Vec<String>)
        ensures
            string_seq(r@) == sort_dedup(named_emails(self.folder_entries()) + named_emails(self.file_entries())),
            crate::text::strictly_sorted(string_seq(r@)),
            string_seq(r@).to_set() == (named_emails(self.folder_entries()) + named_emails(self.file_entries())).to_set(),
    {
        let mut r: Vec<String> = Vec::new();
        let ghost s0: Seq<Seq<char>> = Seq::empty();
        assert(string_seq(r@) =~= sort_dedup(s0));
        collect_emails(&self.folders, &mut r, Ghost(s0));
        collect_emails(&self.files, &mut r, Ghost(named_emails(self.folders@)));
        proof {
            crate::text::lemma_sort_dedup(named_emails(self.folders@) + named_emails(self.files@));
            assert(s0 + named_emails(self.folders@) =~= named_emails(self.folders@));
        }
        r
    }

    /// Rows for the derived rule table: folder rules, then file rules.
    pub fn rows(&self) -> (r: Vec<RuleRow>)
        ensures
            rows_view(r@) == rows_spec(self.folder_entries(), true) + rows_spec(
                self.file_entries(),
                false,
            ),
    {
        let mut r: Vec<RuleRow> = Vec::new();
        collect_rows(&self.folders, true, &mut r);
        collect_rows(&self.files, false, &mut r);
        r
    }

    /// A stable digest of the rules that bear on `email` anywhere in this site.
    ///
    /// Two viewers the rules treat identically get the same signature, so they can share
    /// one cached navigation tree and search index.
    pub fn signature(&self, email: &str) -> (r: String)
        ensures
            r@ == self.spec_signature(email@),
    {
        let mut parts: Vec<String> = Vec::new();
        let ghost s0: Seq<Seq<char>> = Seq::empty();
        assert(string_seq(parts@) =~= sort_dedup(s0));
        collect_parts(&self.folders, "f:", email, &mut parts, Ghost(s0));
        collect_parts(&self.files, "p:", email, &mut parts, Ghost(sig_parts(self.folders@, "f:"@, email@)));
        assert(s0 + sig_parts(self.folders@, "f:"@, email@) =~= sig_parts(self.folders@, "f:"@, email@));
        signature_digest(&parts)
    }
}

fn collect_errors<'a>(e: &'a Vec<(String, RuleSource)>, r: &mut Vec<(&'a str, &'a AclError)>)
    ensures
        error_refs(final(r)@) == error_refs(old(r)@) + error_pairs(e@),
{
    let ghost base = error_refs(r@);
    let mut i: usize = 0;
    while i < e.len()
        invariant
            i <= e@.len(),
            error_refs(r@) == base + error_pairs(e@.take(i as int)),
        decreases e.len() - i,
    {
        let source = &e[i].1;
        let ghost before = error_refs(r@);
        let mut k: usize = 0;
        while k < source.block.errors.len()
            invariant
                k <= source.block.errors@.len(),
                source == &e@[i as int].1,
                error_refs(r@) == before + tagged(source.file@, source.block.errors@.take(k as int)),
            decreases source.block.errors.len() - k,
        {
            let ghost prev = r@;
            let file_str = source.file.as_str();
            let err = &source.block.errors[k];
            r.push((file_str, err));
            assert(r@ == prev.push((file_str, err)));
            assert((file_str@, *err) == (source.file@, source.block.errors@[k as int]));
            assert(source.block.errors@.take(k + 1) =~= source.block.errors@.take(k as int).push(source.block.errors@[k as int]));
            assert(error_refs(r@) =~= error_refs(prev).push((file_str@, *err)));
            assert(tagged(source.file@, source.block.errors@.take(k + 1)) =~= tagged(source.file@, source.block.errors@.take(k as int)).push((source.file@, source.block.errors@[k as int])));
            k += 1;
            assert(error_refs(r@) =~= before + tagged(source.file@, source.block.errors@.take(k as int)));
        }
        assert(source.block.errors@.take(k as int) =~= source.block.errors@);
        assert(e@.take(i + 1).drop_last() =~= e@.take(i as int));
        i += 1;
        assert(error_refs(r@) =~= base + error_pairs(e@.take(i as int)));
    }
    assert(e@.take(e@.len() as int) =~= e@);
}

fn collect_emails(e: &Vec<(String, RuleSource)>, r: &mut Vec<String>, Ghost(prior): Ghost<Seq<Seq<char>>>)
    requires
        string_seq(old(r)@) == sort_dedup(prior),
    ensures
        string_seq(final(r)@) == sort_dedup(prior + named_emails(e@)),
{
    let mut i: usize = 0;
    while i < e.len()
        invariant
            i <= e@.len(),
            string_seq(r@) == sort_dedup(prior + named_emails(e@.take(i as int))),
        decreases e.len() - i,
    {
        let block = &e[i].1.block;
        let ghost base = prior + named_emails(e@.take(i as int));
        let mut k: usize = 0;
        while k < block.allow.len()
            invariant
                k <= block.allow@.len(),
                block == &e@[i as int].1.block,
                string_seq(r@) == sort_dedup(base + string_seq(block.allow@).take(k as int)),
            decreases block.allow.len() - k,
        {
            insert_sorted(r, block.allow[k].clone());
            assert((base + string_seq(block.allow@).take(k + 1)).drop_last() =~= base + string_seq(block.allow@).take(k as int));
            k += 1;
        }
        assert(string_seq(block.allow@).take(k as int) =~= string_seq(block.allow@));
        let mut m: usize = 0;
        while m < block.deny.len()
            invariant
                m <= block.deny@.len(),
                block == &e@[i as int].1.block,
                string_seq(r@) == sort_dedup(base + string_seq(block.allow@) + string_seq(block.deny@).take(m as int)),
            decreases block.deny.len() - m,
        {
            insert_sorted(r, block.deny[m].clone());
            assert((base + string_seq(block.allow@) + string_seq(block.deny@).take(m + 1)).drop_last() =~= base + string_seq(block.allow@) + string_seq(block.deny@).take(m as int));
            m += 1;
        }
        assert(string_seq(block.deny@).take(m as int) =~= string_seq(block.deny@));
        assert(e@.take(i + 1).drop_last() =~= e@.take(i as int));
        assert(prior + named_emails(e@.take(i + 1)) =~= base + string_seq(block.allow@) + string_seq(block.deny@));
        i += 1;
    }
    assert(e@.take(e@.len() as int) =~= e@);
}

fn collect_rows(e: &Vec<(String, RuleSource)>, folder: bool, r: &mut Vec<RuleRow>)
    ensures
        rows_view(final(r)@) == rows_view(old(r)@)
            + rows_spec(e@, folder),
{
    let ghost base = rows_view(r@);
    let mut i: usize = 0;
    while i < e.len()
        invariant
            i <= e@.len(),
            rows_view(r@) == base + rows_spec(e@.take(i as int), folder),
        decreases e.len() - i,
    {
        let key = &e[i].0;
        let key_str = key.as_str();
        let level = if !folder {
            "file"
        } else if key_str.is_empty() {
            "site"
        } else {
            "folder"
        };
        proof {
            reveal_strlit("file");
            reveal_strlit("site");
            reveal_strlit("folder");
        }
        assert(level@ == level_word(key@, folder));
        let pairs = e[i].1.block.entries();
        let ghost before = rows_view(r@);
        let ghost bp = block_pairs(e@[i as int].1.block);
        assert(pairs@.len() == bp.len());
        assert forall|j: int| 0 <= j < bp.len() implies #[trigger] bp[j] == (pairs@[j].0@, pairs@[j].1@) by {
            let b = e@[i as int].1.block;
            if j < b.allow@.len() {
            } else {
                assert(pairs@[b.allow@.len() + (j - b.allow@.len())] == pairs@[j]);
            }
        }
        let mut k: usize = 0;
        while k < pairs.len()
            invariant
                k <= pairs@.len(),
                pairs@.len() == bp.len(),
                forall|j: int| 0 <= j < bp.len() ==> #[trigger] bp[j] == (pairs@[j].0@, pairs@[j].1@),
                level@ == level_word(key@, folder),
                rows_view(r@) == before + rows_for(key@, level_word(key@, folder), bp.take(k as int)),
            decreases pairs.len() - k,
        {
            let row = RuleRow {
                path: key.clone(),
                level: String::from_str(level),
                effect: pairs[k].0.clone(),
                email: pairs[k].1.clone(),
            };
            assert(row_view(row) == (key@, level_word(key@, folder), bp[k as int].0, bp[k as int].1));
            let ghost prev = r@;
            r.push(row);
            assert(bp.take(k + 1) =~= bp.take(k as int).push(bp[k as int]));
            assert(rows_view(r@) =~= rows_view(prev).push(row_view(row)));
            assert(rows_for(key@, level_word(key@, folder), bp.take(k + 1)) =~= rows_for(key@, level_word(key@, folder), bp.take(k as int)).push(row_view(row)));
            k += 1;
            assert(rows_view(r@) =~= before + rows_for(key@, level_word(key@, folder), bp.take(k as int)));
        }
        assert(bp.take(k as int) =~= bp);
        assert(e@.take(i + 1).drop_last() =~= e@.take(i as int));
        i += 1;
        assert(rows_view(r@) =~= base + rows_spec(e@.take(i as int), folder));
    }
    assert(e@.take(e@.len() as int) =~= e@);
}

fn collect_parts(
    e: &Vec<(String, RuleSource)>,
    prefix: &str,
    email: &str,
    parts: &mut Vec<String>,
    Ghost(prior): Ghost<Seq<Seq<char>>>,
)
    requires
        string_seq(old(parts)@) == sort_dedup(prior),
    ensures
        string_seq(final(parts)@) == sort_dedup(prior + sig_parts(e@, prefix@, email@)),
{
    let mut i: usize = 0;
    while i < e.len()
        invariant
            i <= e@.len(),
            string_seq(parts@) == sort_dedup(prior + sig_parts(e@.take(i as int), prefix@, email@)),
        decreases e.len() - i,
    {
        let key = &e[i].0;
        let block = &e[i].1.block;
        let ghost base = prior + sig_parts(e@.take(i as int), prefix@, email@);
        let ghost part = sig_part(prefix@, key@, *block, email@);
        assert(e@.take(i + 1).drop_last() =~= e@.take(i as int));
        assert(prior + sig_parts(e@.take(i + 1), prefix@, email@) =~= base + part);
        proof {
            lemma_sort_dedup_append(base, part);
        }
        if let Some(decision) = block.decide(email) {
            let mut text = String::from_str(prefix);
            text.append(key.as_str());
            text.append(":");
            text.append(decision.as_str());
            proof {
                reveal_strlit(":");
                assert(text@ =~= prefix@ + key@ + seq![':'] + decision.spec_str());
            }
            insert_sorted(parts, text);
        } else if block.is_poisoned() {
            let mut text = String::from_str(prefix);
            text.append(key.as_str());
            text.append(":poisoned");
            insert_sorted(parts, text);
        }
        i += 1;
    }
    assert(e@.take(e@.len() as int) =~= e@);
}

pub open spec fn filed(idx: AclIndex, b: AclBlock) -> bool {
    exists|j: int| 0 <= j < idx.all_rules().len() && (#[trigger] idx.all_rules()[j]).block == b
}

/// Every block a chain for `anc` holds was filed in the index.
proof fn lemma_folder_chain_from_rules(idx: AclIndex, anc: Seq<Seq<char>>)
    ensures
        forall|i: int| 0 <= i < idx.folder_chain(anc).len() ==> filed(idx, (#[trigger] idx.folder_chain(anc)[i]).2),
    decreases anc.len(),
{
    if anc.len() > 0 {
        lemma_folder_chain_from_rules(idx, anc.drop_first());
        let rest = idx.folder_chain(anc.drop_first());
        let c = idx.folder_chain(anc);
        match idx.folder_rule(anc[0]) {
            Some(src) => {
                let e = idx.folder_entries();
                let j = key_index(e, anc[0]);
                assert(idx.all_rules()[j] == e[j].1);
                assert forall|i: int| 0 <= i < c.len() implies filed(idx, (#[trigger] c[i]).2) by {
                    if i == 0 {
                        assert(idx.all_rules()[j].block == c[0].2);
                    } else {
                        assert(c[i] == rest[i - 1]);
                        assert(filed(idx, rest[i - 1].2));
                    }
                }
            },
            None => {
                assert forall|i: int| 0 <= i < c.len() implies filed(idx, (#[trigger] c[i]).2) by {
                    assert(c[i] == rest[i]);
                    assert(filed(idx, rest[i].2));
                }
            },
        }
    }
}

/// Every block in the chain for any path is one of the index's rule blocks.
proof fn lemma_chain_from_rules(idx: AclIndex, rel: Seq<char>)
    ensures
        forall|i: int| 0 <= i < idx.chain_of(rel).len() ==> filed(idx, (#[trigger] idx.chain_of(rel)[i]).2),
{
    let anc = ancestors(parent_folder_spec(rel));
    lemma_folder_chain_from_rules(idx, anc);
    let fc = idx.folder_chain(anc);
    let c = idx.chain_of(rel);
    let head_len = c.len() - fc.len();
    assert forall|x: int| 0 <= x < c.len() implies filed(idx, (#[trigger] c[x]).2) by {
        if x >= head_len {
            assert(c[x] == fc[x - head_len]);
            assert(filed(idx, fc[x - head_len].2));
        } else {
            let e = idx.file_entries();
            let key = normalize_folder_spec(rel);
            let j = key_index(e, key);
            let n = idx.folder_entries().len();
            assert(idx.all_rules()[n + j] == e[j].1);
            assert(idx.all_rules()[n + j].block == c[x].2);
        }
    }
}

/// An index with no rules denies every path to every address.
pub proof fn lemma_empty_index_denies(idx: AclIndex, rel: Seq<char>, email: Seq<char>)
    requires
        idx.spec_is_empty(),
    ensures
        super::resolver::verdict(idx.chain_of(rel), email) == Decision::Deny,
{
    lemma_chain_from_rules(idx, rel);
    let c = idx.chain_of(rel);
    if c.len() > 0 {
        assert(idx.all_rules().len() == 0);
        assert(filed(idx, c[0].2));
    }
}

/// Two addresses every rule in the site decides on identically see exactly the same
/// site: the same verdict on every path, and the same signature.
pub proof fn lemma_identical_treatment(idx: AclIndex, a: Seq<char>, b: Seq<char>, rel: Seq<char>)
    requires
        forall|j: int|
            0 <= j < idx.all_rules().len() ==> (#[trigger] idx.all_rules()[j]).block.spec_decide(a)
                == idx.all_rules()[j].block.spec_decide(b),
    ensures
        super::resolver::verdict(idx.chain_of(rel), a) == super::resolver::verdict(idx.chain_of(rel), b),
        idx.spec_signature(a) == idx.spec_signature(b),
{
    lemma_chain_from_rules(idx, rel);
    let c = idx.chain_of(rel);
    assert forall|i: int| 0 <= i < c.len() implies (#[trigger] c[i]).2.spec_decide(a) == c[i].2.spec_decide(b) by {
        assert(filed(idx, c[i].2));
        let j = choose|j: int| 0 <= j < idx.all_rules().len() && (#[trigger] idx.all_rules()[j]).block == c[i].2;
    }
    super::resolver::lemma_verdict_by_decisions(c, a, b);
    let f = idx.folder_entries();
    let g = idx.file_entries();
    assert forall|j: int| 0 <= j < f.len() implies (#[trigger] f[j]).1.block.spec_decide(a) == f[j].1.block.spec_decide(b) by {
        assert(idx.all_rules()[j] == f[j].1);
    }
    assert forall|j: int| 0 <= j < g.len() implies (#[trigger] g[j]).1.block.spec_decide(a) == g[j].1.block.spec_decide(b) by {
        assert(idx.all_rules()[f.len() + j] == g[j].1);
    }
    lemma_sig_parts_by_decisions(f, "f:"@, a, b);
    lemma_sig_parts_by_decisions(g, "p:"@, a, b);
}

proof fn lemma_sig_parts_by_decisions(e: Seq<(String, RuleSource)>, prefix: Seq<char>, a: Seq<char>, b: Seq<char>)
    requires
        forall|j: int| 0 <= j < e.len() ==> (#[trigger] e[j]).1.block.spec_decide(a) == e[j].1.block.spec_decide(b),
    ensures
        sig_parts(e, prefix, a) == sig_parts(e, prefix, b),
    decreases e.len(),
{
    if e.len() > 0 {
        assert(e.last() == e[e.len() - 1]);
        assert forall|j: int| 0 <= j < e.drop_last().len() implies (#[trigger] e.drop_last()[j]).1.block.spec_decide(a) == e.drop_last()[j].1.block.spec_decide(b) by {
            assert(e.drop_last()[j] == e[j]);
        }
        lemma_sig_parts_by_decisions(e.drop_last(), prefix, a, b);
    }
}

/// Every rule block among `e` says the same of `a` as of `b`.
pub open spec fn rules_agree(e: Seq<(String, RuleSource)>, a: Seq<char>, b: Seq<char>) -> bool {
    forall|i: int| 0 <= i < e.len() ==> (#[trigger] e[i]).1.block.spec_decide(a) == e[i].1.block.spec_decide(b)
}

/// The rules of the site treat `a` and `b` alike: no block tells them apart.
pub open spec fn treated_alike(idx: AclIndex, a: Seq<char>, b: Seq<char>) -> bool {
    rules_agree(idx.folder_entries(), a, b) && rules_agree(idx.file_entries(), a, b)
}

proof fn lemma_sig_parts_agree(e: Seq<(String, RuleSource)>, prefix: Seq<char>, a: Seq<char>, b: Seq<char>)
    requires
        rules_agree(e, a, b),
    ensures
        sig_parts(e, prefix, a) == sig_parts(e, prefix, b),
    decreases e.len(),
{
    if e.len() > 0 {
        assert(rules_agree(e.drop_last(), a, b)) by {
            assert forall|i: int| 0 <= i < e.drop_last().len() implies (#[trigger] e.drop_last()[i]).1.block.spec_decide(a)
                == e.drop_last()[i].1.block.spec_decide(b) by {
                assert(e.drop_last()[i] == e[i]);
            }
        }
        lemma_sig_parts_agree(e.drop_last(), prefix, a, b);
        assert(e.last() == e[e.len() - 1]);
    }
}

proof fn lemma_lookup_agrees(e: Seq<(String, RuleSource)>, key: Seq<char>, a: Seq<char>, b: Seq<char>)
    requires
        rules_agree(e, a, b),
    ensures
        lookup(e, key) matches Some(src) ==> src.block.spec_decide(a) == src.block.spec_decide(b),
{
    if lookup(e, key) is Some {
        let k = key_index(e, key);
        assert(0 <= k < e.len());
    }
}

proof fn lemma_folder_chain_agrees(idx: AclIndex, anc: Seq<Seq<char>>, a: Seq<char>, b: Seq<char>)
    requires
        treated_alike(idx, a, b),
    ensures
        forall|i: int| 0 <= i < idx.folder_chain(anc).len() ==> (#[trigger] idx.folder_chain(anc)[i]).2.spec_decide(a)
            == idx.folder_chain(anc)[i].2.spec_decide(b),
    decreases anc.len(),
{
    if anc.len() > 0 {
        lemma_folder_chain_agrees(idx, anc.drop_first(), a, b);
        lemma_lookup_agrees(idx.folder_entries(), anc[0], a, b);
        let rest = idx.folder_chain(anc.drop_first());
        match idx.folder_rule(anc[0]) {
            Some(src) => {
                let c = seq![cand_of(if anc[0].len() == 0 { Level::Site } else { Level::Folder }, src)];
                assert forall|i: int| 0 <= i < (c + rest).len() implies (#[trigger] (c + rest)[i]).2.spec_decide(a)
                    == (c + rest)[i].2.spec_decide(b) by {
                    if i > 0 {
                        assert((c + rest)[i] == rest[i - 1]);
                    }
                }
            },
            None => {},
        }
    }
}

proof fn lemma_verdict_agrees(chain: Seq<CandView>, a: Seq<char>, b: Seq<char>)
    requires
        forall|i: int| 0 <= i < chain.len() ==> (#[trigger] chain[i]).2.spec_decide(a) == chain[i].2.spec_decide(b),
    ensures
        super::resolver::verdict(chain, a) == super::resolver::verdict(chain, b),
    decreases chain.len(),
{
    if chain.len() > 0 {
        assert(chain[0].2.spec_decide(a) == chain[0].2.spec_decide(b));
        assert forall|i: int| 0 <= i < chain.drop_first().len() implies (#[trigger] chain.drop_first()[i]).2.spec_decide(a)
            == chain.drop_first()[i].2.spec_decide(b) by {
            assert(chain.drop_first()[i] == chain[i + 1]);
        }
        lemma_verdict_agrees(chain.drop_first(), a, b);
    }
}

/// Viewers the rules treat alike share a signature, and may read exactly the same
/// paths; so a cache keyed by signature never hands one viewer what another may read
/// unless the rules let both. (The reverse, that equal signatures mean alike treatment,
/// would need the digest to be free of collisions, which is not claimed.)
pub proof fn lemma_alike_viewers_share_signature_and_access(idx: AclIndex, a: Seq<char>, b: Seq<char>, rel: Seq<char>)
    requires
        treated_alike(idx, a, b),
    ensures
        idx.spec_signature(a) == idx.spec_signature(b),
        super::resolver::verdict(idx.chain_of(rel), a) == super::resolver::verdict(idx.chain_of(rel), b),
{
    lemma_sig_parts_agree(idx.folder_entries(), "f:"@, a, b);
    lemma_sig_parts_agree(idx.file_entries(), "p:"@, a, b);
    lemma_folder_chain_agrees(idx, ancestors(parent_folder_spec(rel)), a, b);
    lemma_lookup_agrees(idx.file_entries(), normalize_folder_spec(rel), a, b);
    let chain = idx.chain_of(rel);
    let head = if !is_index_rel(rel) {
        match idx.file_rule(normalize_folder_spec(rel)) {
            Some(src) => seq![cand_of(Level::File, src)],
            None => Seq::empty(),
        }
    } else {
        Seq::empty()
    };
    let tail = idx.folder_chain(ancestors(parent_folder_spec(rel)));
    assert(chain == head + tail);
    assert forall|i: int| 0 <= i < chain.len() implies (#[trigger] chain[i]).2.spec_decide(a) == chain[i].2.spec_decide(b) by {
        if i >= head.len() {
            assert(chain[i] == tail[i - head.len()]);
        }
    }
    lemma_verdict_agrees(chain, a, b);
}

} // verus!
