//! Offline providers: a fixture provider for hand-built or captured test
//! data, and the provider of a port that has no configured backend. What
//! they decide is here; their async port implementations live at the edge.

use vstd::prelude::*;
use vstd::string::*;

use crate::api::{CapabilityStatus, SourceCapabilities};
use crate::error::ScoutError;
use crate::identity::{lemma_text_id_injective, text_id};
use crate::sorted_map::{inserted, lemma_inserted_entries, lemma_inserted_len, lemma_inserted_sorted, law_lookup_after_insert, lookup, KeyId, SortedMap};
use crate::text::{is_blank, is_blank_text};

verus! {

/// The status a fixture provider declares: `FixtureVerified` once it
/// holds a fixture, `Unknown` before.
pub open spec fn fixture_status(count: nat) -> CapabilityStatus {
    if count == 0 {
        CapabilityStatus::Unknown
    } else {
        CapabilityStatus::FixtureVerified
    }
}

/// Where a fixture's data came from.
#[derive(Debug)]
pub enum FixtureProvenance {
    /// Hand-constructed data.
    Synthetic { source: String },
    /// A real mainnet capture; every field is required.
    Mainnet {
        chain: String,
        block_or_slot: String,
        tx: String,
        captured_at: String,
        source: String,
    },
}

/// One named test fixture.
#[derive(Debug)]
pub struct Fixture {
    pub id: String,
    pub provenance: FixtureProvenance,
}

/// Why a fixture was rejected.
#[derive(Debug, PartialEq, Eq)]
pub enum FixtureError {
    /// A mainnet fixture left a required field blank.
    IncompleteMainnetProvenance { id: String, field: &'static str },
}

/// The first required mainnet field, in declaration order, that is blank
/// after trimming white space; none for a synthetic fixture.
pub open spec fn first_blank_field(p: FixtureProvenance) -> Option<Seq<char>> {
    match p {
        FixtureProvenance::Synthetic { .. } => None,
        FixtureProvenance::Mainnet { chain, block_or_slot, tx, captured_at, source } => {
            if is_blank_text(chain@) {
                Some("chain"@)
            } else if is_blank_text(block_or_slot@) {
                Some("block_or_slot"@)
            } else if is_blank_text(tx@) {
                Some("tx"@)
            } else if is_blank_text(captured_at@) {
                Some("captured_at"@)
            } else if is_blank_text(source@) {
                Some("source"@)
            } else {
                None
            }
        },
    }
}

impl FixtureError {
    /// `fixture `ID` claims mainnet provenance with an empty required field: FIELD`.
    pub fn to_display_string(&self) -> (s: String)
        ensures
            self matches FixtureError::IncompleteMainnetProvenance { id, field } ==> s@ == "fixture `"@
                + id@ + "` claims mainnet provenance with an empty required field: "@ + field@,
    {
        match self {
            FixtureError::IncompleteMainnetProvenance { id, field } => {
                let s = String::from_str("fixture `");
                let s = s.concat(id.as_str());
                let s = s.concat("` claims mainnet provenance with an empty required field: ");
                s.concat(field)
            },
        }
    }
}

impl Fixture {
    /// A mainnet fixture must fill every required field; a synthetic one
    /// requires none. The error names the first blank field.
    pub fn validate(&self) -> (r: Result<(), FixtureError>)
        ensures
            first_blank_field(self.provenance) is None <==> r is Ok,
            first_blank_field(self.provenance) matches Some(f) ==> r matches Err(
                FixtureError::IncompleteMainnetProvenance { id, field },
            ) && id@ == self.id@ && field@ == f,
    {
        match &self.provenance {
            FixtureProvenance::Synthetic { .. } => Ok(()),
            FixtureProvenance::Mainnet { chain, block_or_slot, tx, captured_at, source } => {
                let field: Option<&'static str> = if is_blank(chain.as_str()) {
                    Some("chain")
                } else if is_blank(block_or_slot.as_str()) {
                    Some("block_or_slot")
                } else if is_blank(tx.as_str()) {
                    Some("tx")
                } else if is_blank(captured_at.as_str()) {
                    Some("captured_at")
                } else if is_blank(source.as_str()) {
                    Some("source")
                } else {
                    None
                };
                match field {
                    Some(f) => Err(
                        FixtureError::IncompleteMainnetProvenance { id: self.id.clone(), field: f },
                    ),
                    None => Ok(()),
                }
            },
        }
    }
}

/// Serves fixtures, keyed by fixture id.
pub struct FixtureProvider {
    fixtures: SortedMap<String, Fixture>,
}

impl FixtureProvider {
    /// The fixtures, in id order.
    pub closed spec fn fixtures(&self) -> Seq<(String, Fixture)> {
        self.fixtures.pairs()
    }

    /// A provider with no fixture.
    pub fn new() -> (p: Self)
        ensures
            p.fixtures().len() == 0,
    {
        FixtureProvider { fixtures: SortedMap::new() }
    }

    /// Adds a fixture after validating it; a rejected fixture is not
    /// inserted. A fixture with the id of an earlier one replaces it.
    pub fn with_fixture(self, fixture: Fixture) -> (r: Result<Self, FixtureError>)
        ensures
            (r is Ok) <==> first_blank_field(fixture.provenance) is None,
            r matches Ok(p) ==> exists|k: String|
                k@ == fixture.id@ && p.fixtures() == inserted(self.fixtures(), k, fixture),
            r matches Ok(p) ==> p.fixtures().len() == if lookup(
                self.fixtures(),
                text_id(fixture.id@),
            ) is Some {
                self.fixtures().len()
            } else {
                self.fixtures().len() + 1
            },
            r matches Ok(p) ==> lookup(p.fixtures(), text_id(fixture.id@)) == Some(fixture),
            r matches Ok(p) ==> forall|id: Seq<u64>|
                id != text_id(fixture.id@) ==> #[trigger] lookup(p.fixtures(), id) == lookup(
                    self.fixtures(),
                    id,
                ),
            first_blank_field(fixture.provenance) matches Some(f) ==> r matches Err(
                FixtureError::IncompleteMainnetProvenance { id, field },
            ) && id@ == fixture.id@ && field@ == f,
    {
        match fixture.validate() {
            Err(e) => Err(e),
            Ok(()) => {
                let mut me = self;
                let k = fixture.id.clone();
                // The entries are sorted by id, as the insertion lemmas need.
                let _ = me.fixtures.entries();
                let ghost old_pairs = me.fixtures.pairs();
                let ghost kk = k;
                let ghost f = fixture;
                me.fixtures.insert(k, fixture);
                assert(kk@ == fixture.id@ && me.fixtures() == inserted(self.fixtures(), kk, fixture));
                proof {
                    lemma_inserted_len(old_pairs, kk, f);
                    assert forall|id: Seq<u64>| #[trigger]
                        lookup(me.fixtures(), id) == if id == text_id(fixture.id@) {
                            Some(f)
                        } else {
                            lookup(old_pairs, id)
                        } by {
                        law_lookup_after_insert(old_pairs, kk, f, id);
                    }
                }
                Ok(me)
            },
        }
    }

    pub fn fixture_count(&self) -> (n: usize)
        ensures
            n == self.fixtures().len(),
    {
        self.fixtures.len()
    }

    /// `token_market_activity` and `wallet_activity`, both
    /// `FixtureVerified` when there is a fixture and `Unknown` when there
    /// is none.
    pub fn capabilities(&self) -> (c: SourceCapabilities)
        ensures
            c.scoped_assets@.len() == 0,
            c.by_capability.pairs().len() == 2,
            lookup(c.by_capability.pairs(), text_id("token_market_activity"@)) == Some(
                fixture_status(self.fixtures().len()),
            ),
            lookup(c.by_capability.pairs(), text_id("wallet_activity"@)) == Some(
                fixture_status(self.fixtures().len()),
            ),
    {
        let mut caps = SourceCapabilities::empty();
        let status = if self.fixtures.is_empty() {
            CapabilityStatus::Unknown
        } else {
            CapabilityStatus::FixtureVerified
        };
        let a = String::from_str("token_market_activity");
        let b = String::from_str("wallet_activity");
        proof {
            reveal_strlit("token_market_activity");
            reveal_strlit("wallet_activity");
            lemma_text_id_injective(a@, b@);
        }
        let ghost p0 = caps.by_capability.pairs();
        caps.by_capability.insert(a, status);
        let ghost p1 = caps.by_capability.pairs();
        caps.by_capability.insert(b, status);
        proof {
            lemma_inserted_len(p0, a, status);
            lemma_inserted_sorted(p0, a, status);
            lemma_inserted_len(p1, b, status);
            law_lookup_after_insert(p0, a, status, b.key_id());
            law_lookup_after_insert(p0, a, status, a.key_id());
            law_lookup_after_insert(p1, b, status, a.key_id());
            law_lookup_after_insert(p1, b, status, b.key_id());
        }
        caps
    }

    /// What one scan yields: the fixture ids, in id order.
    pub fn scan_descriptions(&self) -> (r: Vec<String>)
        ensures
            r@.len() == self.fixtures().len(),
            forall|i: int| 0 <= i < r@.len() ==> #[trigger] r@[i]@ == self.fixtures()[i].0@,
    {
        let entries = self.fixtures.entries();
        let mut r: Vec<String> = Vec::new();
        let mut i: usize = 0;
        while i < entries.len()
            invariant
                i <= entries.len(),
                entries@ == self.fixtures(),
                r@.len() == i,
                forall|j: int| 0 <= j < i ==> #[trigger] r@[j]@ == self.fixtures()[j].0@,
            decreases entries.len() - i,
        {
            r.push(entries[i].0.clone());
            i += 1;
        }
        r
    }
}

/// The provider of a port that has no configured backend: every plan and
/// every scan fails with `ConfigurationRequired`, never an empty success.
#[derive(Debug, Clone, Copy)]
pub struct UnconfiguredProvider {
    pub port: &'static str,
    pub env_var: &'static str,
}

impl UnconfiguredProvider {
    pub fn new(port: &'static str, env_var: &'static str) -> (p: Self)
        ensures
            p.port == port,
            p.env_var == env_var,
    {
        UnconfiguredProvider { port, env_var }
    }

    /// Four capabilities, all `Unknown`, never `Unsupported`.
    pub fn capabilities(&self) -> (c: SourceCapabilities)
        ensures
            c.scoped_assets@.len() == 0,
            c.by_capability.pairs().len() == 4,
            forall|i: int|
                0 <= i < c.by_capability.pairs().len() ==> #[trigger] c.by_capability.pairs()[i].1
                    == CapabilityStatus::Unknown,
            lookup(c.by_capability.pairs(), text_id("token_market_activity"@)) is Some,
            lookup(c.by_capability.pairs(), text_id("wallet_activity"@)) is Some,
            lookup(c.by_capability.pairs(), text_id("raw_transactions"@)) is Some,
            lookup(c.by_capability.pairs(), text_id("historical_state"@)) is Some,
    {
        let u = CapabilityStatus::Unknown;
        let mut caps = SourceCapabilities::empty();
        let a = String::from_str("token_market_activity");
        let b = String::from_str("wallet_activity");
        let c = String::from_str("raw_transactions");
        let d = String::from_str("historical_state");
        proof {
            reveal_strlit("token_market_activity");
            reveal_strlit("wallet_activity");
            reveal_strlit("raw_transactions");
            reveal_strlit("historical_state");
            assert(a@[0] != c@[0]);
            assert(a@[0] != d@[0]);
            assert(b@[0] != c@[0]);
            assert(b@[0] != d@[0]);
            assert(c@[0] != d@[0]);
            lemma_text_id_injective(a@, b@);
            lemma_text_id_injective(a@, c@);
            lemma_text_id_injective(a@, d@);
            lemma_text_id_injective(b@, c@);
            lemma_text_id_injective(b@, d@);
            lemma_text_id_injective(c@, d@);
        }
        let ghost p0 = caps.by_capability.pairs();
        caps.by_capability.insert(a, u);
        let ghost p1 = caps.by_capability.pairs();
        caps.by_capability.insert(b, u);
        let ghost p2 = caps.by_capability.pairs();
        caps.by_capability.insert(c, u);
        let ghost p3 = caps.by_capability.pairs();
        caps.by_capability.insert(d, u);
        proof {
            lemma_inserted_len(p0, a, u);
            lemma_inserted_sorted(p0, a, u);
            lemma_inserted_len(p1, b, u);
            lemma_inserted_sorted(p1, b, u);
            lemma_inserted_len(p2, c, u);
            lemma_inserted_sorted(p2, c, u);
            lemma_inserted_len(p3, d, u);
            law_lookup_after_insert(p0, a, u, b.key_id());
            law_lookup_after_insert(p0, a, u, c.key_id());
            law_lookup_after_insert(p0, a, u, d.key_id());
            law_lookup_after_insert(p1, b, u, c.key_id());
            law_lookup_after_insert(p1, b, u, d.key_id());
            law_lookup_after_insert(p2, c, u, d.key_id());
            lemma_inserted_entries(p0, a, u);
            lemma_inserted_entries(p1, b, u);
            lemma_inserted_entries(p2, c, u);
            lemma_inserted_entries(p3, d, u);
            law_lookup_after_insert(p0, a, u, a.key_id());
            law_lookup_after_insert(p1, b, u, a.key_id());
            law_lookup_after_insert(p1, b, u, b.key_id());
            law_lookup_after_insert(p2, c, u, a.key_id());
            law_lookup_after_insert(p2, c, u, b.key_id());
            law_lookup_after_insert(p2, c, u, c.key_id());
            law_lookup_after_insert(p3, d, u, a.key_id());
            law_lookup_after_insert(p3, d, u, b.key_id());
            law_lookup_after_insert(p3, d, u, c.key_id());
            law_lookup_after_insert(p3, d, u, d.key_id());
        }
        caps
    }

    /// The error every plan and scan of this provider returns.
    pub fn configuration_error(&self) -> (e: ScoutError)
        ensures
            e == (ScoutError::ConfigurationRequired { port: self.port, env_var: self.env_var }),
    {
        ScoutError::ConfigurationRequired { port: self.port, env_var: self.env_var }
    }
}

} // verus!
