//! Authorization requests awaiting their callback, keyed by their `state` value.
use vstd::prelude::*;

use crate::text::str_eq;

verus! {

/// An authorization request awaiting its callback.
#[derive(Debug, Clone)]
pub struct PendingFlow {
    pub verifier: String,
    pub nonce: String,
    pub next: String,
    pub created_at: i64,
}

/// The flow filed under `key`: the last entry with that key.
pub open spec fn lookup(entries: Seq<(String, PendingFlow)>, key: Seq<char>) -> Option<PendingFlow>
    decreases entries.len(),
{
    if entries.len() == 0 {
        None
    } else if entries.last().0@ == key {
        Some(entries.last().1)
    } else {
        lookup(entries.drop_last(), key)
    }
}

/// No key is filed twice.
pub open spec fn unique_keys(entries: Seq<(String, PendingFlow)>) -> bool {
    forall|i: int, j: int|
        0 <= i < j < entries.len() ==> (#[trigger] entries[i]).0@ != (#[trigger] entries[j]).0@
}

proof fn lemma_lookup_none(entries: Seq<(String, PendingFlow)>, key: Seq<char>)
    ensures
        lookup(entries, key) is None <==> forall|j: int|
            0 <= j < entries.len() ==> (#[trigger] entries[j]).0@ != key,
    decreases entries.len(),
{
    if entries.len() > 0 {
        lemma_lookup_none(entries.drop_last(), key);
        if lookup(entries, key) is None {
            assert forall|j: int| 0 <= j < entries.len() implies (#[trigger] entries[j]).0@ != key by {
                if j < entries.len() - 1 {
                    assert(entries[j] == entries.drop_last()[j]);
                }
            }
        } else {
            if entries.last().0@ != key {
                let w = choose|j: int|
                    0 <= j < entries.drop_last().len() && (#[trigger] entries.drop_last()[j]).0@
                        == key;
                assert(entries[w] == entries.drop_last()[w]);
            }
        }
    }
}

proof fn lemma_absent_prefix(entries: Seq<(String, PendingFlow)>, i: int)
    requires
        unique_keys(entries),
        0 <= i < entries.len(),
    ensures
        lookup(entries.take(i), entries[i].0@) is None,
{
    let t = entries.take(i);
    assert forall|j: int| 0 <= j < t.len() implies (#[trigger] t[j]).0@ != entries[i].0@ by {
        assert(t[j] == entries[j]);
    }
    lemma_lookup_none(t, entries[i].0@);
}

impl PendingFlow {
    /// A copy of this flow.
    pub fn duplicate(&self) -> (r: PendingFlow)
        ensures
            r == *self,
    {
        PendingFlow {
            verifier: self.verifier.clone(),
            nonce: self.nonce.clone(),
            next: self.next.clone(),
            created_at: self.created_at,
        }
    }
}

/// The pending authorization requests.
pub struct PendingFlows {
    entries: Vec<(String, PendingFlow)>,
}

impl PendingFlows {
    #[verifier::type_invariant]
    spec fn wf(&self) -> bool {
        unique_keys(self.entries@)
    }

    /// The flow filed under `key`, if any.
    pub closed spec fn get(&self, key: Seq<char>) -> Option<PendingFlow> {
        lookup(self.entries@, key)
    }

    /// No pending flows.
    pub fn new() -> (r: PendingFlows)
        ensures
            forall|k: Seq<char>| #[trigger] r.get(k) is None,
    {
        PendingFlows { entries: Vec::new() }
    }

    /// Whether a flow is filed under `key`.
    pub fn contains(&self, key: &str) -> (r: bool)
        ensures
            r == self.get(key@) is Some,
    {
        let mut i = self.entries.len();
        assert(self.entries@.take(i as int) =~= self.entries@);
        while i > 0
            invariant
                i <= self.entries.len(),
                lookup(self.entries@, key@) == lookup(self.entries@.take(i as int), key@),
            decreases i,
        {
            assert(self.entries@.take(i as int).drop_last() =~= self.entries@.take(i - 1));
            if str_eq(self.entries[i - 1].0.as_str(), key) {
                return true;
            }
            i -= 1;
        }
        false
    }

    /// File `flow` under `key`, replacing any flow already filed there.
    pub fn insert(&mut self, key: String, flow: PendingFlow)
        ensures
            forall|k: Seq<char>|
                #[trigger] final(self).get(k) == if k == key@ {
                    Some(flow)
                } else {
                    old(self).get(k)
                },
    {
        let ghost original = *self;
        let _ = self.take(key.as_str());
        proof {
            use_type_invariant(&*self);
        }
        let ghost before = self.entries@;
        assert(self.get(key@) is None);
        assert(forall|k: Seq<char>| k != key@ ==> #[trigger] lookup(before, k) == original.get(k)) by {
            assert forall|k: Seq<char>| k != key@ implies #[trigger] lookup(before, k) == original.get(k) by {
                assert(self.get(k) == original.get(k));
            }
        }
        let mut entries: Vec<(String, PendingFlow)> = Vec::new();
        std::mem::swap(&mut entries, &mut self.entries);
        proof {
            lemma_lookup_none(before, key@);
        }
        let ghost k0 = key@;
        let ghost f0 = flow;
        entries.push((key, flow));
        assert(entries@.drop_last() =~= before);
        assert forall|k: Seq<char>| #[trigger] lookup(entries@, k) == if k == k0 {
            Some(f0)
        } else {
            lookup(before, k)
        } by {
            assert(entries@.last() == (entries@.last().0, f0));
        }
        assert(unique_keys(entries@)) by {
            assert forall|i: int, j: int| 0 <= i < j < entries@.len() implies (
            #[trigger] entries@[i]).0@ != (#[trigger] entries@[j]).0@ by {
                if j == entries@.len() - 1 {
                    assert(entries@[i] == before[i]);
                    assert(before[i].0@ != k0);
                } else {
                    assert(entries@[i] == before[i] && entries@[j] == before[j]);
                }
            }
        }
        std::mem::swap(&mut entries, &mut self.entries);
        assert forall|k: Seq<char>| #[trigger] self.get(k) == if k == k0 {
            Some(f0)
        } else {
            original.get(k)
        } by {
            assert(self.get(k) == lookup(self.entries@, k));
        }
    }

    /// Remove and return the flow filed under `key`. Unknown, already used and expired
    /// states all come back as `None`.
    pub fn take(&mut self, key: &str) -> (r: Option<PendingFlow>)
        ensures
            r == old(self).get(key@),
            forall|k: Seq<char>|
                #[trigger] final(self).get(k) == if k == key@ {
                    None
                } else {
                    old(self).get(k)
                },
    {
        proof {
            use_type_invariant(&*self);
        }
        let ghost old_entries = self.entries@;
        let mut kept: Vec<(String, PendingFlow)> = Vec::new();
        let mut found: Option<PendingFlow> = None;
        let mut i: usize = 0;
        assert(old_entries.take(0) =~= Seq::<(String, PendingFlow)>::empty());
        while i < self.entries.len()
            invariant
                i <= self.entries.len(),
                self.entries@ == old_entries,
                unique_keys(old_entries),
                unique_keys(kept@),
                forall|k: Seq<char>|
                    #[trigger] lookup(kept@, k) == if k == key@ {
                        None
                    } else {
                        lookup(old_entries.take(i as int), k)
                    },
                found == lookup(old_entries.take(i as int), key@),
            decreases self.entries.len() - i,
        {
            let ghost pre = old_entries.take(i + 1);
            assert(pre.drop_last() =~= old_entries.take(i as int));
            assert(pre.last() == old_entries[i as int]);
            let entry = &self.entries[i];
            if str_eq(entry.0.as_str(), key) {
                found = Some(entry.1.duplicate());
                assert forall|k: Seq<char>| #[trigger] lookup(kept@, k) == if k == key@ {
                    None
                } else {
                    lookup(pre, k)
                } by {
                    if k != key@ {
                        assert(lookup(pre, k) == lookup(old_entries.take(i as int), k));
                    }
                }
            } else {
                proof {
                    lemma_absent_prefix(old_entries, i as int);
                    lemma_lookup_none(kept@, entry.0@);
                }
                let ghost before = kept@;
                kept.push((entry.0.clone(), entry.1.duplicate()));
                assert(kept@.drop_last() =~= before);
                assert forall|k: Seq<char>| #[trigger] lookup(kept@, k) == if k == key@ {
                    None
                } else {
                    lookup(pre, k)
                } by {
                    assert(lookup(kept@, k) == if kept@.last().0@ == k {
                        Some(kept@.last().1)
                    } else {
                        lookup(before, k)
                    });
                    assert(lookup(pre, k) == if pre.last().0@ == k {
                        Some(pre.last().1)
                    } else {
                        lookup(old_entries.take(i as int), k)
                    });
                }
                assert(unique_keys(kept@)) by {
                    assert forall|a: int, b: int| 0 <= a < b < kept@.len() implies (
                    #[trigger] kept@[a]).0@ != (#[trigger] kept@[b]).0@ by {
                        if b == kept@.len() - 1 {
                            assert(kept@[a] == before[a]);
                        } else {
                            assert(kept@[a] == before[a] && kept@[b] == before[b]);
                        }
                    }
                }
            }
            i += 1;
        }
        assert(old_entries.take(old_entries.len() as int) =~= old_entries);
        self.entries = kept;
        found
    }

    /// Drop every flow created before `cutoff`.
    pub fn retain_since(&mut self, cutoff: i64)
        ensures
            forall|k: Seq<char>|
                #[trigger] final(self).get(k) == match old(self).get(k) {
                    Some(f) => if f.created_at >= cutoff {
                        Some(f)
                    } else {
                        None
                    },
                    None => None,
                },
    {
        proof {
            use_type_invariant(&*self);
        }
        let ghost old_entries = self.entries@;
        let mut kept: Vec<(String, PendingFlow)> = Vec::new();
        let mut i: usize = 0;
        assert(old_entries.take(0) =~= Seq::<(String, PendingFlow)>::empty());
        while i < self.entries.len()
            invariant
                i <= self.entries.len(),
                self.entries@ == old_entries,
                unique_keys(old_entries),
                unique_keys(kept@),
                forall|k: Seq<char>|
                    #[trigger] lookup(kept@, k) == match lookup(old_entries.take(i as int), k) {
                        Some(f) => if f.created_at >= cutoff {
                            Some(f)
                        } else {
                            None
                        },
                        None => None,
                    },
            decreases self.entries.len() - i,
        {
            let ghost pre = old_entries.take(i + 1);
            assert(pre.drop_last() =~= old_entries.take(i as int));
            assert(pre.last() == old_entries[i as int]);
            let entry = &self.entries[i];
            proof {
                lemma_absent_prefix(old_entries, i as int);
            }
            let ghost before = kept@;
            if entry.1.created_at >= cutoff {
                proof {
                    lemma_lookup_none(kept@, entry.0@);
                }
                kept.push((entry.0.clone(), entry.1.duplicate()));
                assert(kept@.drop_last() =~= before);
                assert(lookup(kept@, entry.0@) == Some(entry.1));
                assert(unique_keys(kept@)) by {
                    assert forall|a: int, b: int| 0 <= a < b < kept@.len() implies (
                    #[trigger] kept@[a]).0@ != (#[trigger] kept@[b]).0@ by {
                        if b == kept@.len() - 1 {
                            assert(kept@[a] == before[a]);
                        } else {
                            assert(kept@[a] == before[a] && kept@[b] == before[b]);
                        }
                    }
                }
            }
            assert forall|k: Seq<char>| #[trigger] lookup(kept@, k) == match lookup(pre, k) {
                Some(f) => if f.created_at >= cutoff {
                    Some(f)
                } else {
                    None
                },
                None => None,
            } by {
                assert(lookup(pre, k) == if pre.last().0@ == k {
                    Some(pre.last().1)
                } else {
                    lookup(old_entries.take(i as int), k)
                });
                if kept@.len() > before.len() {
                    assert(lookup(kept@, k) == if kept@.last().0@ == k {
                        Some(kept@.last().1)
                    } else {
                        lookup(before, k)
                    });
                }
            }
            i += 1;
        }
        assert(old_entries.take(old_entries.len() as int) =~= old_entries);
        self.entries = kept;
    }
}

/// Drop the authorization requests older than `FLOW_TTL_MS` at `now`.
pub fn prune_expired_flows(flows: &mut PendingFlows, now: i64)
    requires
        now >= i64::MIN + crate::auth::FLOW_TTL_MS,
    ensures
        forall|k: Seq<char>|
            #[trigger] final(flows).get(k) == match old(flows).get(k) {
                Some(f) => if f.created_at >= now - crate::auth::FLOW_TTL_MS {
                    Some(f)
                } else {
                    None
                },
                None => None,
            },
{
    flows.retain_since(now - crate::auth::FLOW_TTL_MS);
}

/// What a later read finds under a key just filed: the flow that was filed, whatever
/// was there before; and no other key is disturbed.
pub proof fn lemma_take_returns_what_insert_filed(
    before: PendingFlows,
    after: PendingFlows,
    key: Seq<char>,
    flow: PendingFlow,
    other: Seq<char>,
)
    requires
        forall|k: Seq<char>|
            #[trigger] after.get(k) == if k == key {
                Some(flow)
            } else {
                before.get(k)
            },
        other != key,
    ensures
        after.get(key) == Some(flow),
        after.get(other) == before.get(other),
{
    assert(after.get(key) == Some(flow));
    assert(after.get(other) == before.get(other));
}

} // verus!
