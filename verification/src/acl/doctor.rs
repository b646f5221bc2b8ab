//! `acl doctor`: what a site's rules get wrong or leave fragile, and how it is reported.
use vstd::prelude::*;

use super::index::{error_pairs, error_refs, named_emails, parent_folder, parent_folder_spec, AclIndex};
use super::resolver::{verdict, Decision};
use crate::text::{
    decimal, insert_sorted, push_decimal, push_str, sort_dedup, sort_insert, str_eq, string_of,
    string_seq,
};

verus! {

/// What the doctor finds in one site.
#[derive(Debug, Clone)]
pub struct SiteDiagnosis {
    /// The site declares no rules at all, so with sign-in on nobody can read it.
    pub no_rules: bool,
    /// Every rule that failed to parse, as (file, line, message).
    pub poisoned: Vec<(String, Option<usize>, String)>,
    /// Folders holding a page that no address named in the site can read, in order.
    pub unreachable: Vec<String>,
    /// Addresses granted access but absent from the access log, in order.
    pub unused_grants: Vec<String>,
    /// Folders with pages but no rules of their own, in order.
    pub inheriting: Vec<String>,
}

/// The label a folder is reported under.
pub open spec fn folder_label(f: Seq<char>) -> Seq<char> {
    if f.len() == 0 {
        "(site root)"@
    } else {
        f
    }
}

/// Whether some address in `known` may read the file at `rel`.
pub open spec fn readable_by_any(acl: AclIndex, rel: Seq<char>, known: Seq<Seq<char>>) -> bool {
    exists|i: int| 0 <= i < known.len() && verdict(acl.chain_of(rel), #[trigger] known[i]) == Decision::Allow
}

/// The folder labels of the pages no address in `known` can read, in page order.
pub open spec fn unreadable_folders(acl: AclIndex, rels: Seq<Seq<char>>, known: Seq<Seq<char>>) -> Seq<Seq<char>>
    decreases rels.len(),
{
    if rels.len() == 0 {
        Seq::empty()
    } else {
        let rest = unreadable_folders(acl, rels.drop_last(), known);
        if readable_by_any(acl, rels.last(), known) {
            rest
        } else {
            rest.push(folder_label(parent_folder_spec(rels.last())))
        }
    }
}

/// The addresses in `known` the access log has never seen; none when the log is empty.
pub open spec fn unseen(known: Seq<Seq<char>>, seen: Seq<Seq<char>>) -> Seq<Seq<char>>
    decreases known.len(),
{
    if known.len() == 0 {
        Seq::empty()
    } else {
        let rest = unseen(known.drop_last(), seen);
        if seen.len() > 0 && !seen.contains(known.last()) {
            rest.push(known.last())
        } else {
            rest
        }
    }
}

/// The folders of pages, below the root, that declare no rules themselves.
pub open spec fn inheriting_folders(rels: Seq<Seq<char>>, rule_folders: Seq<Seq<char>>) -> Seq<Seq<char>>
    decreases rels.len(),
{
    if rels.len() == 0 {
        Seq::empty()
    } else {
        let rest = inheriting_folders(rels.drop_last(), rule_folders);
        let f = parent_folder_spec(rels.last());
        if f.len() > 0 && !rule_folders.contains(f) {
            rest.push(f)
        } else {
            rest
        }
    }
}

pub open spec fn poisoned_view(s: Seq<(String, Option<usize>, String)>) -> Seq<(Seq<char>, Option<usize>, Seq<char>)> {
    s.map_values(|p: (String, Option<usize>, String)| (p.0@, p.1, p.2@))
}

pub open spec fn error_lines(s: Seq<(Seq<char>, super::AclError)>) -> Seq<(Seq<char>, Option<usize>, Seq<char>)> {
    s.map_values(|p: (Seq<char>, super::AclError)| (p.0, p.1.line, p.1.message@))
}

fn contains_string(v: &Vec<String>, s: &str) -> (r: bool)
    ensures
        r == string_seq(v@).contains(s@),
{
    let mut i: usize = 0;
    while i < v.len()
        invariant
            i <= v.len(),
            forall|j: int| 0 <= j < i ==> v@[j]@ != s@,
        decreases v.len() - i,
    {
        if str_eq(v[i].as_str(), s) {
            assert(string_seq(v@)[i as int] == s@);
            return true;
        }
        i += 1;
    }
    false
}

/// What is wrong or fragile in a site's rules, given the site's page files and the
/// addresses the access log has seen.
pub fn diagnose(acl: &AclIndex, page_rel_paths: &Vec<String>, seen: &Vec<String>) -> (r: SiteDiagnosis)
    ensures
        r.no_rules == acl.spec_is_empty(),
        !r.no_rules ==> ({
            let known = sort_dedup(named_emails(acl.folder_entries()) + named_emails(acl.file_entries()));
            let rels = string_seq(page_rel_paths@);
            &&& poisoned_view(r.poisoned@) == error_lines(error_pairs(acl.folder_entries()) + error_pairs(acl.file_entries()))
            &&& string_seq(r.unreachable@) == sort_dedup(unreadable_folders(*acl, rels, known))
            &&& string_seq(r.unused_grants@) == unseen(known, string_seq(seen@))
            &&& string_seq(r.inheriting@) == sort_dedup(inheriting_folders(rels, acl.folder_entries().map_values(
                |e: (String, super::index::RuleSource)| e.0@,
            )))
        }),
        r.no_rules ==> r.poisoned@.len() == 0 && r.unreachable@.len() == 0 && r.unused_grants@.len() == 0
            && r.inheriting@.len() == 0,
{
    if acl.is_empty() {
        return SiteDiagnosis {
            no_rules: true,
            poisoned: Vec::new(),
            unreachable: Vec::new(),
            unused_grants: Vec::new(),
            inheriting: Vec::new(),
        };
    }
    let errs = acl.poisoned();
    let ghost ev = error_lines(error_refs(errs@));
    let mut poisoned: Vec<(String, Option<usize>, String)> = Vec::new();
    let mut i: usize = 0;
    while i < errs.len()
        invariant
            i <= errs@.len(),
            ev == error_lines(error_refs(errs@)),
            poisoned_view(poisoned@) == ev.take(i as int),
        decreases errs.len() - i,
    {
        let (file, error) = errs[i];
        let ghost before = poisoned_view(poisoned@);
        let entry = (file.to_owned(), error.line, error.message.clone());
        assert(ev[i as int] == (entry.0@, entry.1, entry.2@));
        poisoned.push(entry);
        assert(poisoned_view(poisoned@) =~= before.push(ev[i as int]));
        assert(ev.take(i + 1) =~= ev.take(i as int).push(ev[i as int]));
        i += 1;
    }
    assert(ev.take(errs@.len() as int) =~= ev);
    let known = acl.known_emails();
    let ghost kv = string_seq(known@);
    let ghost rels = string_seq(page_rel_paths@);
    let mut unreachable: Vec<String> = Vec::new();
    let mut i: usize = 0;
    assert(rels.take(0) =~= Seq::<Seq<char>>::empty());
    while i < page_rel_paths.len()
        invariant
            i <= page_rel_paths@.len(),
            rels == string_seq(page_rel_paths@),
            kv == string_seq(known@),
            string_seq(unreachable@) == sort_dedup(unreadable_folders(*acl, rels.take(i as int), kv)),
        decreases page_rel_paths.len() - i,
    {
        let ghost pre = rels.take(i + 1);
        assert(pre.drop_last() =~= rels.take(i as int));
        assert(pre.last() == page_rel_paths@[i as int]@);
        let rel = page_rel_paths[i].as_str();
        let mut readable = false;
        let mut k: usize = 0;
        while k < known.len() && !readable
            invariant
                k <= known@.len(),
                kv == string_seq(known@),
                readable ==> readable_by_any(*acl, rel@, kv),
                !readable ==> forall|j: int| 0 <= j < k ==> verdict(acl.chain_of(rel@), #[trigger] kv[j]) != Decision::Allow,
            decreases known.len() - k,
        {
            if acl.allows(rel, known[k].as_str()) {
                readable = true;
                assert(verdict(acl.chain_of(rel@), kv[k as int]) == Decision::Allow);
            }
            k += 1;
        }
        if !readable {
            proof {
                reveal_strlit("(site root)");
            }
            let folder = parent_folder(rel);
            let label = if chars_len_zero(&folder) {
                String::from_str("(site root)")
            } else {
                folder
            };
            assert(label@ == folder_label(parent_folder_spec(rel@)));
            let ghost lv = label@;
            let ghost prev = unreadable_folders(*acl, rels.take(i as int), kv);
            assert(!readable_by_any(*acl, rel@, kv));
            assert(unreadable_folders(*acl, pre, kv) == prev.push(lv));
            assert(prev.push(lv).drop_last() =~= prev);
            insert_sorted(&mut unreachable, label);
            assert(string_seq(unreachable@) == sort_dedup(unreadable_folders(*acl, pre, kv)));
        } else {
            assert(unreadable_folders(*acl, pre, kv) == unreadable_folders(*acl, rels.take(i as int), kv));
        }
        i += 1;
    }
    assert(rels.take(rels.len() as int) =~= rels);
    let mut unused: Vec<String> = Vec::new();
    let mut k: usize = 0;
    assert(kv.take(0) =~= Seq::<Seq<char>>::empty());
    while k < known.len()
        invariant
            k <= known@.len(),
            kv == string_seq(known@),
            string_seq(unused@) == unseen(kv.take(k as int), string_seq(seen@)),
        decreases known.len() - k,
    {
        let ghost pre = kv.take(k + 1);
        assert(pre.drop_last() =~= kv.take(k as int));
        assert(pre.last() == known@[k as int]@);
        if seen.len() > 0 && !contains_string(seen, known[k].as_str()) {
            unused.push(known[k].clone());
            assert(string_seq(unused@) =~= unseen(pre, string_seq(seen@)));
        }
        k += 1;
    }
    assert(kv.take(kv.len() as int) =~= kv);
    let folders = acl.rule_folders();
    let ghost fv = acl.folder_entries().map_values(|e: (String, super::index::RuleSource)| e.0@);
    assert(string_seq(folders@) =~= fv);
    let mut inheriting: Vec<String> = Vec::new();
    let mut i: usize = 0;
    while i < page_rel_paths.len()
        invariant
            i <= page_rel_paths@.len(),
            rels == string_seq(page_rel_paths@),
            string_seq(folders@) == fv,
            string_seq(inheriting@) == sort_dedup(inheriting_folders(rels.take(i as int), fv)),
        decreases page_rel_paths.len() - i,
    {
        let ghost pre = rels.take(i + 1);
        assert(pre.drop_last() =~= rels.take(i as int));
        assert(pre.last() == page_rel_paths@[i as int]@);
        let folder = parent_folder(page_rel_paths[i].as_str());
        let ghost prev = inheriting_folders(rels.take(i as int), fv);
        if !chars_len_zero(&folder) && !contains_string(&folders, folder.as_str()) {
            let ghost f = folder@;
            assert(inheriting_folders(pre, fv) == prev.push(f));
            assert(prev.push(f).drop_last() =~= prev);
            insert_sorted(&mut inheriting, folder);
        } else {
            assert(inheriting_folders(pre, fv) == prev);
        }
        i += 1;
    }
    SiteDiagnosis { no_rules: false, poisoned, unreachable, unused_grants: unused, inheriting }
}

fn chars_len_zero(s: &String) -> (r: bool)
    ensures
        r == (s@.len() == 0),
{
    crate::text::chars_of(s.as_str()).len() == 0
}

/// The warning for a site with no rules at all.
pub const NO_RULES_WARNING: &'static str = "  ⚠ no access rules at all — with `--auth google` this site is invisible to everyone (fail-closed default)";

/// How one unparsable rule is reported.
pub open spec fn poisoned_line(file: Seq<char>, line: Option<usize>, message: Seq<char>) -> Seq<char> {
    match line {
        Some(n) => "  ✗ "@ + file + ":"@ + decimal(n as nat) + "  "@ + message,
        None => "  ✗ "@ + file + "  "@ + message,
    }
}

/// Each item between `pre` and `suf`, one line each.
pub open spec fn frame_all(items: Seq<Seq<char>>, pre: Seq<char>, suf: Seq<char>) -> Seq<Seq<char>>
    decreases items.len(),
{
    if items.len() == 0 {
        Seq::empty()
    } else {
        frame_all(items.drop_last(), pre, suf).push(pre + items.last() + suf)
    }
}

/// The lines reporting unparsable rules.
pub open spec fn poisoned_lines(p: Seq<(Seq<char>, Option<usize>, Seq<char>)>) -> Seq<Seq<char>>
    decreases p.len(),
{
    if p.len() == 0 {
        Seq::empty()
    } else {
        poisoned_lines(p.drop_last()).push(poisoned_line(p.last().0, p.last().1, p.last().2))
    }
}

pub const UNREACHABLE_SUFFIX: &'static str = "  no address named in this vault can read this";

pub const UNUSED_SUFFIX: &'static str = "  granted access but never seen in the access log";

pub const INHERITING_SUFFIX: &'static str = "/  no index.md — inherits from an ancestor; creating one would change access for everything beneath it";

/// The report's lines for a site, under its `title (mount)` heading.
pub open spec fn report_spec(title: Seq<char>, mount: Seq<char>, d: SiteDiagnosis) -> Seq<Seq<char>> {
    let head = seq![title + " ("@ + mount + ")"@];
    if d.no_rules {
        head.push(NO_RULES_WARNING@)
    } else {
        head + poisoned_lines(poisoned_view(d.poisoned@))
            + frame_all(string_seq(d.unreachable@), "  ⚠ "@, UNREACHABLE_SUFFIX@)
            + frame_all(string_seq(d.unused_grants@), "  ⚠ "@, UNUSED_SUFFIX@)
            + frame_all(string_seq(d.inheriting@), "  · "@, INHERITING_SUFFIX@)
    }
}

fn framed(prefix: &str, middle: &str, suffix: &str) -> (r: String)
    ensures
        r@ == prefix@ + middle@ + suffix@,
{
    let mut out: Vec<char> = Vec::new();
    push_str(&mut out, prefix);
    push_str(&mut out, middle);
    push_str(&mut out, suffix);
    string_of(&out)
}

fn push_framed_all(lines: &mut Vec<String>, items: &Vec<String>, prefix: &str, suffix: &str)
    ensures
        string_seq(final(lines)@) == string_seq(old(lines)@) + frame_all(string_seq(items@), prefix@, suffix@),
{
    let ghost l0 = string_seq(lines@);
    let mut i: usize = 0;
    while i < items.len()
        invariant
            i <= items@.len(),
            string_seq(lines@) == l0 + frame_all(string_seq(items@).take(i as int), prefix@, suffix@),
        decreases items.len() - i,
    {
        let line = framed(prefix, items[i].as_str(), suffix);
        let ghost before = string_seq(lines@);
        lines.push(line);
        let ghost t = string_seq(items@).take(i + 1);
        assert(t.drop_last() =~= string_seq(items@).take(i as int));
        assert(t.last() == items@[i as int]@);
        assert(string_seq(lines@) =~= before.push(line@));
        assert(string_seq(lines@) =~= l0 + frame_all(string_seq(items@).take(i + 1), prefix@, suffix@));
        i += 1;
    }
    assert(string_seq(items@).take(items@.len() as int) =~= string_seq(items@));
}

impl SiteDiagnosis {
    /// The errors found: one per unparsable rule.
    pub fn errors(&self) -> (r: usize)
        ensures
            r == if self.no_rules { 0 } else { self.poisoned@.len() },
    {
        if self.no_rules { 0 } else { self.poisoned.len() }
    }

    /// The warnings found: a site without rules, else each unreachable folder and each
    /// unused grant.
    pub fn warnings(&self) -> (r: usize)
        requires
            self.unreachable@.len() + self.unused_grants@.len() <= usize::MAX,
        ensures
            r == if self.no_rules { 1 } else { self.unreachable@.len() + self.unused_grants@.len() },
    {
        if self.no_rules { 1 } else { self.unreachable.len() + self.unused_grants.len() }
    }

    /// The report's lines for the site titled `title` at `mount`.
    pub fn report(&self, title: &str, mount: &str) -> (r: Vec<String>)
        ensures
            string_seq(r@) == report_spec(title@, mount@, *self),
    {
        let head = {
            let mut out: Vec<char> = Vec::new();
            push_str(&mut out, title);
            push_str(&mut out, " (");
            push_str(&mut out, mount);
            push_str(&mut out, ")");
            string_of(&out)
        };
        let mut lines: Vec<String> = Vec::new();
        lines.push(head);
        assert(string_seq(lines@) =~= seq![title@ + " ("@ + mount@ + ")"@]);
        if self.no_rules {
            lines.push(String::from_str(NO_RULES_WARNING));
            assert(string_seq(lines@) =~= seq![title@ + " ("@ + mount@ + ")"@].push(NO_RULES_WARNING@));
            return lines;
        }
        let ghost l0 = string_seq(lines@);
        let ghost pv = poisoned_view(self.poisoned@);
        let mut i: usize = 0;
        while i < self.poisoned.len()
            invariant
                i <= self.poisoned@.len(),
                pv == poisoned_view(self.poisoned@),
                string_seq(lines@) == l0 + poisoned_lines(pv.take(i as int)),
            decreases self.poisoned.len() - i,
        {
            let (file, line, message) = (&self.poisoned[i].0, self.poisoned[i].1, &self.poisoned[i].2);
            let mut out: Vec<char> = Vec::new();
            push_str(&mut out, "  ✗ ");
            push_str(&mut out, file.as_str());
            match line {
                Some(n) => {
                    push_str(&mut out, ":");
                    push_decimal(&mut out, n as u64);
                },
                None => {},
            }
            push_str(&mut out, "  ");
            push_str(&mut out, message.as_str());
            proof {
                reveal_strlit("  ✗ ");
                reveal_strlit(":");
                reveal_strlit("  ");
            }
            assert(out@ =~= poisoned_line(file@, line, message@));
            let ghost before = string_seq(lines@);
            let text = string_of(&out);
            lines.push(text);
            let ghost t = pv.take(i + 1);
            assert(t.drop_last() =~= pv.take(i as int));
            assert(t.last() == (file@, line, message@));
            assert(string_seq(lines@) =~= before.push(text@));
            assert(string_seq(lines@) =~= l0 + poisoned_lines(pv.take(i + 1)));
            i += 1;
        }
        assert(pv.take(pv.len() as int) =~= pv);
        push_framed_all(&mut lines, &self.unreachable, "  ⚠ ", UNREACHABLE_SUFFIX);
        push_framed_all(&mut lines, &self.unused_grants, "  ⚠ ", UNUSED_SUFFIX);
        push_framed_all(&mut lines, &self.inheriting, "  · ", INHERITING_SUFFIX);
        lines
    }
}

/// The doctor's closing line: a failure naming the counts when any rule is broken,
/// else the number of warnings.
pub open spec fn summary_spec(errors: nat, warnings: nat) -> Result<Seq<char>, Seq<char>> {
    if errors > 0 {
        Err(decimal(errors) + " error(s), "@ + decimal(warnings) + " warning(s)"@)
    } else {
        Ok("no errors ("@ + decimal(warnings) + " warning(s))"@)
    }
}

/// The doctor's closing line.
pub fn summary(errors: usize, warnings: usize) -> (r: Result<String, String>)
    ensures
        match (r, summary_spec(errors as nat, warnings as nat)) {
            (Ok(a), Ok(b)) => a@ == b,
            (Err(a), Err(b)) => a@ == b,
            _ => false,
        },
{
    let mut out: Vec<char> = Vec::new();
    if errors > 0 {
        push_decimal(&mut out, errors as u64);
        push_str(&mut out, " error(s), ");
        push_decimal(&mut out, warnings as u64);
        push_str(&mut out, " warning(s)");
        Err(string_of(&out))
    } else {
        push_str(&mut out, "no errors (");
        push_decimal(&mut out, warnings as u64);
        push_str(&mut out, " warning(s))");
        Ok(string_of(&out))
    }
}

} // verus!
