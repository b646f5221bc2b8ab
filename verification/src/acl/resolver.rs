//! Resolving an effective decision for one (path, email) pair.
//!
//! Rules inherit downward, the most specific level that names the address wins, and an
//! explicit `deny` at that level overrides an inherited `allow`. When no level names the
//! address at all, the answer is Deny. A malformed block met before any decision denies.
//!
//! Resolution produces a full trace, not just a verdict, so `acl explain` can show which
//! rule decided and why.
use vstd::prelude::*;

use super::AclBlock;

verus! {

/// The outcome of resolving a path for an address.
#[derive(Debug, Clone, Copy, PartialEq, Eq, Structural)]
pub enum Decision {
    Allow,
    Deny,
}

impl Decision {
    pub fn is_allowed(self) -> (r: bool)
        ensures
            r == (self == Decision::Allow),
    {
        match self {
            Decision::Allow => true,
            Decision::Deny => false,
        }
    }

    pub open spec fn spec_str(self) -> Seq<char> {
        match self {
            Decision::Allow => "allow"@,
            Decision::Deny => "deny"@,
        }
    }

    pub fn as_str(self) -> (r: &'static str)
        ensures
            r@ == self.spec_str(),
    {
        match self {
            Decision::Allow => "allow",
            Decision::Deny => "deny",
        }
    }
}

/// Which level of the hierarchy a rule came from.
#[derive(Debug, Clone, Copy, PartialEq, Eq, Structural)]
pub enum Level {
    File,
    Folder,
    Site,
}

impl Level {
    pub open spec fn spec_str(self) -> Seq<char> {
        match self {
            Level::File => "file"@,
            Level::Folder => "folder"@,
            Level::Site => "site"@,
        }
    }

    pub fn as_str(self) -> (r: &'static str)
        ensures
            r@ == self.spec_str(),
    {
        match self {
            Level::File => "file",
            Level::Folder => "folder",
            Level::Site => "site",
        }
    }
}

/// One rung of the resolution ladder, recorded whether or not it matched.
#[derive(Debug, Clone)]
pub struct Step {
    pub level: Level,
    /// The file the rule was read from, relative to the site root.
    pub source: String,
    /// What this level said about the address, if anything.
    pub decision: Option<Decision>,
    /// Set when this level's rule block failed to parse.
    pub poisoned: bool,
    /// True for the level that decided the outcome.
    pub decisive: bool,
}

/// A verdict plus the reasoning that produced it.
#[derive(Debug, Clone)]
pub struct Resolution {
    pub decision: Decision,
    pub steps: Vec<Step>,
    /// Set when the verdict came from the fail-closed default rather than a rule.
    pub defaulted: bool,
    /// Set when a malformed rule block forced the verdict.
    pub poisoned_source: Option<String>,
}

/// A rule block paired with where it came from, ordered most specific first.
pub struct Candidate<'a> {
    pub level: Level,
    pub source: String,
    pub block: &'a AclBlock,
}

/// What resolution sees of a candidate: its level, its source file, and its rules.
pub type CandView = (Level, Seq<char>, AclBlock);

pub open spec fn cand_view(c: Candidate) -> CandView {
    (c.level, c.source@, *c.block)
}

pub open spec fn chain_view(chain: Seq<Candidate>) -> Seq<CandView> {
    chain.map_values(|c: Candidate| cand_view(c))
}

/// What a chain's step records about one candidate.
pub open spec fn step_records(step: Step, cand: CandView, email: Seq<char>, decisive: bool) -> bool {
    &&& step.level == cand.0
    &&& step.source@ == cand.1
    &&& step.decision == cand.2.spec_decide(email)
    &&& step.poisoned == cand.2.spec_poisoned()
    &&& step.decisive == decisive
}

/// Whether `cand` says anything about `email` (a poisoned block always does: it denies).
pub open spec fn rules_on(cand: CandView, email: Seq<char>) -> bool {
    cand.2.spec_decide(email) is Some
}

/// The exact outcome of resolving `email` against `chain`, most specific first.
pub open spec fn resolution_of(r: Resolution, chain: Seq<CandView>, email: Seq<char>) -> bool {
    let n = chain.len();
    let k = r.steps.len();
    &&& r.defaulted == (forall|i: int| 0 <= i < n ==> !rules_on(#[trigger] chain[i], email))
    &&& r.defaulted ==> {
        &&& k == n
        &&& r.decision == Decision::Deny
        &&& r.poisoned_source is None
    }
    &&& !r.defaulted ==> {
        &&& 0 < k <= n
        &&& forall|i: int| 0 <= i < k - 1 ==> !rules_on(#[trigger] chain[i], email)
        &&& chain[k - 1].2.spec_decide(email) == Some(r.decision)
        &&& match r.poisoned_source {
            Some(source) => chain[k - 1].2.spec_poisoned() && source@ == chain[k - 1].1,
            None => !chain[k - 1].2.spec_poisoned(),
        }
    }
    &&& forall|i: int|
        0 <= i < k ==> step_records(
            #[trigger] r.steps@[i],
            chain[i],
            email,
            !r.defaulted && i == k - 1,
        )
}

/// The verdict alone: the decision of the first block in the chain that rules on
/// `email`, or Deny when none does.
pub open spec fn verdict(chain: Seq<CandView>, email: Seq<char>) -> Decision
    decreases chain.len(),
{
    if chain.len() == 0 {
        Decision::Deny
    } else {
        match chain[0].2.spec_decide(email) {
            Some(d) => d,
            None => verdict(chain.drop_first(), email),
        }
    }
}

/// The verdict a resolution carries is the verdict of its chain.
pub proof fn lemma_resolution_verdict(r: Resolution, chain: Seq<CandView>, email: Seq<char>)
    requires
        resolution_of(r, chain, email),
    ensures
        r.decision == verdict(chain, email),
{
    lemma_verdict_first_ruling(chain, email, if r.defaulted { chain.len() as int } else { r.steps.len() - 1 });
}

proof fn lemma_verdict_first_ruling(chain: Seq<CandView>, email: Seq<char>, k: int)
    requires
        0 <= k <= chain.len(),
        forall|i: int| 0 <= i < k ==> !rules_on(#[trigger] chain[i], email),
    ensures
        verdict(chain, email) == if k < chain.len() && rules_on(chain[k], email) {
            chain[k].2.spec_decide(email)->0
        } else if k == chain.len() {
            Decision::Deny
        } else {
            verdict(chain, email)
        },
    decreases k,
{
    if k > 0 {
        assert(!rules_on(chain[0], email));
        assert forall|i: int| 0 <= i < k - 1 implies !rules_on(#[trigger] chain.drop_first()[i], email) by {
            assert(chain.drop_first()[i] == chain[i + 1]);
        }
        lemma_verdict_first_ruling(chain.drop_first(), email, k - 1);
    }
}

impl Resolution {
    pub fn is_allowed(&self) -> (r: bool)
        ensures
            r == (self.decision == Decision::Allow),
    {
        self.decision.is_allowed()
    }

    /// The rule that decided, if a rule did.
    pub fn decisive_step(&self) -> (r: Option<&Step>)
        ensures
            match first_decisive(self.steps@) {
                Some(i) => r == Some(&self.steps@[i]),
                None => r is None,
            },
    {
        let mut i: usize = 0;
        while i < self.steps.len()
            invariant
                i <= self.steps.len(),
                first_decisive(self.steps@.take(i as int)) is None,
            decreases self.steps.len() - i,
        {
            assert(self.steps@.take(i + 1).drop_last() =~= self.steps@.take(i as int));
            if self.steps[i].decisive {
                proof {
                    lemma_first_decisive_prefix(self.steps@, i + 1);
                }
                return Some(&self.steps[i]);
            }
            i += 1;
        }
        assert(self.steps@.take(i as int) =~= self.steps@);
        None
    }

    pub open spec fn spec_reason(&self) -> Seq<char> {
        match self.poisoned_source {
            Some(source) => "denied: the rule block in "@ + source@ + " could not be parsed"@,
            None => if self.defaulted {
                "denied: no rule at any level names this address (fail-closed default)"@
            } else {
                match first_decisive(self.steps@) {
                    Some(i) => {
                        let step = self.steps@[i];
                        let decision = match step.decision {
                            Some(d) => d,
                            None => Decision::Deny,
                        };
                        decision.spec_str() + ": "@ + step.level.spec_str() + " rule in "@
                            + step.source@
                    },
                    None => "denied"@,
                }
            },
        }
    }

    /// A one-line explanation of the verdict.
    pub fn reason(&self) -> (r: String)
        ensures
            r@ == self.spec_reason(),
    {
        if let Some(source) = &self.poisoned_source {
            let mut out = String::from_str("denied: the rule block in ");
            out.append(source.as_str());
            out.append(" could not be parsed");
            return out;
        }
        if self.defaulted {
            return String::from_str(
                "denied: no rule at any level names this address (fail-closed default)",
            );
        }
        match self.decisive_step() {
            Some(step) => {
                let decision = match step.decision {
                    Some(d) => d,
                    None => Decision::Deny,
                };
                let mut out = String::from_str(decision.as_str());
                out.append(": ");
                out.append(step.level.as_str());
                out.append(" rule in ");
                out.append(step.source.as_str());
                out
            },
            None => String::from_str("denied"),
        }
    }
}

/// The position of the first decisive step, if any.
pub open spec fn first_decisive(steps: Seq<Step>) -> Option<int>
    decreases steps.len(),
{
    if steps.len() == 0 {
        None
    } else {
        match first_decisive(steps.drop_last()) {
            Some(i) => Some(i),
            None => if steps.last().decisive {
                Some(steps.len() - 1)
            } else {
                None
            },
        }
    }
}

proof fn lemma_first_decisive_prefix(steps: Seq<Step>, j: int)
    requires
        0 <= j <= steps.len(),
        first_decisive(steps.take(j)) is Some,
    ensures
        first_decisive(steps) == first_decisive(steps.take(j)),
    decreases steps.len() - j,
{
    if j < steps.len() {
        assert(steps.take(j + 1).drop_last() =~= steps.take(j));
        lemma_first_decisive_prefix(steps, j + 1);
    } else {
        assert(steps.take(j) =~= steps);
    }
}

proof fn lemma_first_decisive_last(steps: Seq<Step>)
    requires
        steps.len() > 0,
        steps.last().decisive,
        forall|i: int| 0 <= i < steps.len() - 1 ==> !(#[trigger] steps[i]).decisive,
    ensures
        first_decisive(steps) == Some(steps.len() - 1),
{
    lemma_no_decisive(steps.drop_last());
}

proof fn lemma_no_decisive(steps: Seq<Step>)
    requires
        forall|i: int| 0 <= i < steps.len() ==> !(#[trigger] steps[i]).decisive,
    ensures
        first_decisive(steps) is None,
    decreases steps.len(),
{
    if steps.len() > 0 {
        assert forall|i: int| 0 <= i < steps.drop_last().len() implies !(#[trigger] steps.drop_last()[i]).decisive by {
            assert(steps.drop_last()[i] == steps[i]);
        }
        lemma_no_decisive(steps.drop_last());
    }
}

/// The explanation states the verdict it explains: a malformed block denies and is
/// named, whatever the blocks around it grant; the fail-closed default says so; and
/// otherwise the reason names the decision, the level and the file of the block that
/// ruled. An address is allowed exactly when its reason opens with `allow:`.
pub proof fn lemma_reason_states_the_verdict(r: Resolution, chain: Seq<CandView>, email: Seq<char>)
    requires
        resolution_of(r, chain, email),
    ensures
        r.poisoned_source matches Some(s) ==> r.decision == Decision::Deny
            && r.spec_reason() == "denied: the rule block in "@ + s@ + " could not be parsed"@,
        r.defaulted ==> r.spec_reason() == "denied: no rule at any level names this address (fail-closed default)"@,
        r.poisoned_source is None && !r.defaulted ==> ({
            let c = chain[r.steps.len() - 1];
            r.spec_reason() == r.decision.spec_str() + ": "@ + c.0.spec_str() + " rule in "@ + c.1
        }),
        (r.decision == Decision::Allow) == (r.spec_reason().take(6) == "allow:"@),
{
    reveal_strlit("denied: the rule block in ");
    reveal_strlit("denied: no rule at any level names this address (fail-closed default)");
    reveal_strlit("allow:");
    reveal_strlit("allow");
    reveal_strlit("deny");
    if r.poisoned_source is None && !r.defaulted {
        let k = r.steps.len() - 1;
        assert(step_records(r.steps@[k], chain[k], email, true));
        assert forall|i: int| 0 <= i < r.steps@.len() - 1 implies !(#[trigger] r.steps@[i]).decisive by {
            assert(step_records(r.steps@[i], chain[i], email, !r.defaulted && i == k));
        }
        lemma_first_decisive_last(r.steps@);
        assert("allow:"@[0] == 'a');
        let d = r.decision;
        let tail = ": "@ + chain[k].0.spec_str() + " rule in "@ + chain[k].1;
        reveal_strlit(": ");
        assert(r.spec_reason() == d.spec_str() + tail);
        assert(r.spec_reason().len() >= 6);
        assert(r.spec_reason().take(6)[0] == d.spec_str()[0]);
        if d == Decision::Allow {
            assert(r.spec_reason().take(6) =~= "allow:"@);
        }
    } else {
        assert(r.spec_reason().len() >= 6);
        assert(r.spec_reason().take(6)[0] == 'd');
    }
}

/// Resolve `email` against an ordered chain of rule blocks.
///
/// `candidates` must run from most specific to least: the file itself, then each
/// ancestor folder from nearest to furthest, then the site root.
pub fn resolve<'a>(candidates: Vec<Candidate<'a>>, email: &str) -> (r: Resolution)
    ensures
        resolution_of(r, chain_view(candidates@), email@),
{
    let ghost chain = chain_view(candidates@);
    let mut steps: Vec<Step> = Vec::new();
    let n = candidates.len();
    let mut i: usize = 0;
    while i < n
        invariant
            n == chain.len(),
            chain == chain_view(candidates@),
            i <= n,
            steps@.len() == i,
            forall|j: int| 0 <= j < i ==> !rules_on(#[trigger] chain[j], email@),
            forall|j: int| 0 <= j < i ==> step_records(#[trigger] steps@[j], chain[j], email@, false),
        decreases n - i,
    {
        let candidate = &candidates[i];
        let poisoned = candidate.block.is_poisoned();
        let decision = candidate.block.decide(email);
        // A malformed block denies, without consulting the rest. Falling back to an
        // ancestor here would mean a typo silently widened access.
        if poisoned {
            steps.push(
                Step {
                    level: candidate.level,
                    source: candidate.source.clone(),
                    decision: Some(Decision::Deny),
                    poisoned: true,
                    decisive: true,
                },
            );
            proof {
                assert(rules_on(chain[i as int], email@));
                assert forall|j: int| 0 <= j < steps@.len() implies step_records(
                    #[trigger] steps@[j],
                    chain[j],
                    email@,
                    j == i,
                ) by {}
            }
            return Resolution {
                decision: Decision::Deny,
                steps,
                defaulted: false,
                poisoned_source: Some(candidate.source.clone()),
            };
        }
        let decisive = decision.is_some();
        steps.push(
            Step {
                level: candidate.level,
                source: candidate.source.clone(),
                decision,
                poisoned,
                decisive,
            },
        );
        if let Some(d) = decision {
            proof {
                assert(rules_on(chain[i as int], email@));
                assert forall|j: int| 0 <= j < steps@.len() implies step_records(
                    #[trigger] steps@[j],
                    chain[j],
                    email@,
                    j == i,
                ) by {}
            }
            return Resolution { decision: d, steps, defaulted: false, poisoned_source: None };
        }
        i += 1;
    }
    // Nothing named this address, so nothing granted it anything.
    Resolution { decision: Decision::Deny, steps, defaulted: true, poisoned_source: None }
}

/// Fail closed: a chain only ever yields Allow because some block in it, intact,
/// lists the address under `allow` and not under `deny`.
pub proof fn lemma_allow_requires_grant(chain: Seq<CandView>, email: Seq<char>)
    requires
        verdict(chain, email) == Decision::Allow,
    ensures
        exists|i: int|
            0 <= i < chain.len() && !(#[trigger] chain[i]).2.spec_poisoned() && super::names(
                chain[i].2.allow@,
                email,
            ) && !super::names(chain[i].2.deny@, email),
    decreases chain.len(),
{
    if chain.len() > 0 {
        match chain[0].2.spec_decide(email) {
            Some(d) => {
                assert(!chain[0].2.spec_poisoned());
            },
            None => {
                lemma_allow_requires_grant(chain.drop_first(), email);
                let i = choose|i: int|
                    0 <= i < chain.drop_first().len() && !(#[trigger] chain.drop_first()[i]).2.spec_poisoned()
                        && super::names(chain.drop_first()[i].2.allow@, email) && !super::names(
                        chain.drop_first()[i].2.deny@,
                        email,
                    );
                assert(chain[i + 1] == chain.drop_first()[i]);
            },
        }
    }
}

/// The verdict depends on the chain only through what each block decides.
pub proof fn lemma_verdict_by_decisions(chain: Seq<CandView>, a: Seq<char>, b: Seq<char>)
    requires
        forall|i: int| 0 <= i < chain.len() ==> (#[trigger] chain[i]).2.spec_decide(a) == chain[i].2.spec_decide(b),
    ensures
        verdict(chain, a) == verdict(chain, b),
    decreases chain.len(),
{
    if chain.len() > 0 {
        assert(chain[0].2.spec_decide(a) == chain[0].2.spec_decide(b));
        assert forall|i: int| 0 <= i < chain.drop_first().len() implies (#[trigger] chain.drop_first()[i]).2.spec_decide(a) == chain.drop_first()[i].2.spec_decide(b) by {
            assert(chain.drop_first()[i] == chain[i + 1]);
        }
        lemma_verdict_by_decisions(chain.drop_first(), a, b);
    }
}

/// How a decision is reached: the most specific candidate that rules on the address
/// (a poisoned block always does) decides, the steps stop there with it as the one
/// decisive step, and the malformed block is named when it was that one; when no
/// candidate rules, every level is recorded and the answer is the fail-closed Deny.
pub proof fn lemma_most_specific_rule_decides(r: Resolution, chain: Seq<CandView>, email: Seq<char>, k: int)
    requires
        resolution_of(r, chain, email),
        0 <= k < chain.len(),
        rules_on(chain[k], email),
        forall|i: int| 0 <= i < k ==> !rules_on(#[trigger] chain[i], email),
    ensures
        !r.defaulted,
        r.steps@.len() == k + 1,
        chain[k].2.spec_decide(email) == Some(r.decision),
        forall|i: int| 0 <= i <= k ==> (#[trigger] r.steps@[i]).decisive == (i == k),
        (r.poisoned_source is Some) == chain[k].2.spec_poisoned(),
        r.poisoned_source matches Some(src) ==> src@ == chain[k].1,
{
    let n = r.steps@.len();
    assert(!r.defaulted);
    if n - 1 < k {
        assert(rules_on(chain[n - 1], email));
    }
    if n - 1 > k {
        assert(!rules_on(chain[k], email));
    }
    assert forall|i: int| 0 <= i <= k implies (#[trigger] r.steps@[i]).decisive == (i == k) by {
        assert(step_records(r.steps@[i], chain[i], email, !r.defaulted && i == n - 1));
    }
}

/// With no candidate ruling on the address, the answer is Deny by default, every level
/// is recorded, none decisive, and nothing is blamed on a malformed block.
pub proof fn lemma_no_rule_denies(r: Resolution, chain: Seq<CandView>, email: Seq<char>)
    requires
        resolution_of(r, chain, email),
        forall|i: int| 0 <= i < chain.len() ==> !rules_on(#[trigger] chain[i], email),
    ensures
        r.defaulted,
        r.decision == Decision::Deny,
        r.steps@.len() == chain.len(),
        r.poisoned_source is None,
        forall|i: int| 0 <= i < chain.len() ==> !(#[trigger] r.steps@[i]).decisive,
{
    assert forall|i: int| 0 <= i < chain.len() implies !(#[trigger] r.steps@[i]).decisive by {
        assert(step_records(r.steps@[i], chain[i], email, false));
    }
}

} // verus!
