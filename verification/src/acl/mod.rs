//! Access-control rules declared in the vault's own frontmatter.
//!
//! A rule lives in the file it protects, so renaming, moving, or deleting that file
//! carries or removes its rule with no bookkeeping.
//!
//! Two properties are load-bearing:
//!
//! 1. **Fail closed.** A path no rule names is denied, and a rule block that will not
//!    parse denies everyone. There is no code path that turns an error into access.
//! 2. **Rules never reach the browser.** `allow` and `deny` are stripped from the
//!    frontmatter that templates can see.
pub mod doctor;
pub mod edit;
pub mod frontmatter;
pub mod index;
pub mod resolver;

use vstd::prelude::*;

use crate::text::str_eq;
use resolver::Decision;

pub use frontmatter::{parse_acl, strip_acl_keys, FmValue};
pub use index::AclIndex;
pub use resolver::{Resolution, Step};

verus! {

/// The frontmatter keys that carry access rules.
pub const ALLOW_KEY: &'static str = "allow";
pub const DENY_KEY: &'static str = "deny";

/// Whether some entry of `list` is exactly `email`.
pub open spec fn names(list: Seq<String>, email: Seq<char>) -> bool {
    exists|i: int| 0 <= i < list.len() && (#[trigger] list[i])@ == email
}

/// Why a rule block could not be parsed.
#[derive(Debug, Clone)]
pub struct AclError {
    /// The frontmatter key at fault.
    pub key: String,
    /// Human-readable explanation, suitable for `mdshelf check` output.
    pub message: String,
    /// 1-based line within the file, when it could be located.
    pub line: Option<usize>,
}

/// The access rules declared by one file.
#[derive(Debug, Clone)]
pub struct AclBlock {
    pub allow: Vec<String>,
    pub deny: Vec<String>,
    /// Non-empty when the block failed to parse. A poisoned block denies everyone.
    pub errors: Vec<AclError>,
}

impl AclBlock {
    /// A block that declares nothing.
    pub fn new() -> (r: AclBlock)
        ensures
            r.allow@.len() == 0,
            r.deny@.len() == 0,
            r.errors@.len() == 0,
    {
        AclBlock { allow: Vec::new(), deny: Vec::new(), errors: Vec::new() }
    }

    pub open spec fn spec_empty(&self) -> bool {
        self.allow@.len() == 0 && self.deny@.len() == 0 && self.errors@.len() == 0
    }

    pub open spec fn spec_poisoned(&self) -> bool {
        self.errors@.len() > 0
    }

    /// How this block rules on `email`: a poisoned block denies everyone, then `deny`
    /// is consulted before `allow`.
    pub open spec fn spec_decide(&self, email: Seq<char>) -> Option<Decision> {
        if self.spec_poisoned() {
            Some(Decision::Deny)
        } else if names(self.deny@, email) {
            Some(Decision::Deny)
        } else if names(self.allow@, email) {
            Some(Decision::Allow)
        } else {
            None
        }
    }

    /// True when the block declares no rules at all and parsed cleanly.
    pub fn is_empty(&self) -> (r: bool)
        ensures
            r == self.spec_empty(),
    {
        self.allow.len() == 0 && self.deny.len() == 0 && self.errors.len() == 0
    }

    /// True when the block failed to parse, and therefore denies everyone.
    pub fn is_poisoned(&self) -> (r: bool)
        ensures
            r == self.spec_poisoned(),
    {
        self.errors.len() > 0
    }

    /// How this block rules on `email`, if it mentions them at all.
    ///
    /// `deny` is checked first so that listing an address in both keys within a single
    /// block denies — the conservative reading of a contradiction.
    pub fn decide(&self, email: &str) -> (r: Option<Decision>)
        ensures
            r == self.spec_decide(email@),
    {
        if self.is_poisoned() {
            return Some(Decision::Deny);
        }
        if list_names(&self.deny, email) {
            return Some(Decision::Deny);
        }
        if list_names(&self.allow, email) {
            return Some(Decision::Allow);
        }
        None
    }

    /// Every address named by this block, each with the key that names it: `allow`
    /// entries first, then `deny`.
    pub fn entries(&self) -> (r: Vec<(String, String)>)
        ensures
            r@.len() == self.allow@.len() + self.deny@.len(),
            forall|i: int|
                0 <= i < self.allow@.len() ==> (#[trigger] r@[i]).0@ == "allow"@ && r@[i].1@
                    == self.allow@[i]@,
            forall|i: int|
                0 <= i < self.deny@.len() ==> (#[trigger] r@[self.allow@.len() + i]).0@
                    == "deny"@ && r@[self.allow@.len() + i].1@ == self.deny@[i]@,
    {
        let mut r: Vec<(String, String)> = Vec::new();
        let mut i: usize = 0;
        while i < self.allow.len()
            invariant
                i <= self.allow@.len(),
                r@.len() == i,
                forall|j: int|
                    0 <= j < i ==> (#[trigger] r@[j]).0@ == "allow"@ && r@[j].1@
                        == self.allow@[j]@,
            decreases self.allow.len() - i,
        {
            r.push((String::from_str("allow"), self.allow[i].clone()));
            i += 1;
        }
        let mut k: usize = 0;
        while k < self.deny.len()
            invariant
                k <= self.deny@.len(),
                r@.len() == self.allow@.len() + k,
                forall|j: int|
                    0 <= j < self.allow@.len() ==> (#[trigger] r@[j]).0@ == "allow"@ && r@[j].1@
                        == self.allow@[j]@,
                forall|j: int|
                    0 <= j < k ==> (#[trigger] r@[self.allow@.len() + j]).0@ == "deny"@
                        && r@[self.allow@.len() + j].1@ == self.deny@[j]@,
            decreases self.deny.len() - k,
        {
            r.push((String::from_str("deny"), self.deny[k].clone()));
            k += 1;
        }
        r
    }
}

impl Default for AclBlock {
    fn default() -> (r: AclBlock)
        ensures
            r.spec_empty(),
    {
        AclBlock::new()
    }
}

/// Whether `list` holds `email` exactly.
pub fn list_names(list: &Vec<String>, email: &str) -> (r: bool)
    ensures
        r == names(list@, email@),
{
    let mut i: usize = 0;
    while i < list.len()
        invariant
            i <= list@.len(),
            forall|j: int| 0 <= j < i ==> (#[trigger] list@[j])@ != email@,
        decreases list.len() - i,
    {
        if str_eq(list[i].as_str(), email) {
            return true;
        }
        i += 1;
    }
    false
}

} // verus!
