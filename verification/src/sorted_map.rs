//! An ordered map held as a vector of entries sorted by key identity.
//! Each key occurs at most once, and iteration is in increasing key order.

use vstd::prelude::*;

use crate::order::{
    compare_ids, lemma_lex_irreflexive, lemma_lex_total, lemma_lex_transitive, lex_less, KeyOrder,
};

verus! {

/// A key with an identity sequence: the map treats two keys with equal
/// identity sequences as the same key.
pub trait KeyId {
    spec fn key_id(&self) -> Seq<u64>;

    fn key_id_vec(&self) -> (r: Vec<u64>)
        ensures
            r@ == self.key_id(),
    ;
}

/// Identity sequences of the keys of `pairs`, in order.
pub open spec fn ids_of<K: KeyId, V>(pairs: Seq<(K, V)>) -> Seq<Seq<u64>> {
    pairs.map_values(|p: (K, V)| p.0.key_id())
}

/// Strictly increasing identity sequences.
pub open spec fn strictly_sorted(ids: Seq<Seq<u64>>) -> bool {
    forall|i: int, j: int| 0 <= i < j < ids.len() ==> lex_less(#[trigger] ids[i], #[trigger] ids[j])
}

/// Number of leading identities below `id`: where `id` belongs in a
/// sorted sequence.
pub open spec fn lower_bound(ids: Seq<Seq<u64>>, id: Seq<u64>) -> int
    decreases ids.len(),
{
    if ids.len() == 0 {
        0
    } else if lex_less(ids[0], id) {
        1 + lower_bound(ids.drop_first(), id)
    } else {
        0
    }
}

/// The entries after inserting `(k, v)`: replaces the entry with the same
/// key, or inserts a new entry at its sorted position.
pub open spec fn inserted<K: KeyId, V>(pairs: Seq<(K, V)>, k: K, v: V) -> Seq<(K, V)> {
    let p = lower_bound(ids_of(pairs), k.key_id());
    if p < pairs.len() && pairs[p].0.key_id() == k.key_id() {
        pairs.update(p, (k, v))
    } else {
        pairs.insert(p, (k, v))
    }
}

/// The value stored under the first key with identity `id`, if any.
pub open spec fn lookup<K: KeyId, V>(pairs: Seq<(K, V)>, id: Seq<u64>) -> Option<V>
    decreases pairs.len(),
{
    if pairs.len() == 0 {
        None
    } else if pairs[0].0.key_id() == id {
        Some(pairs[0].1)
    } else {
        lookup(pairs.drop_first(), id)
    }
}

/// The first entry with identity `id` is the one read.
pub proof fn lemma_lookup_first<K: KeyId, V>(pairs: Seq<(K, V)>, id: Seq<u64>, i: int)
    requires
        0 <= i < pairs.len(),
        pairs[i].0.key_id() == id,
        forall|j: int| 0 <= j < i ==> #[trigger] pairs[j].0.key_id() != id,
    ensures
        lookup(pairs, id) == Some(pairs[i].1),
    decreases i,
{
    if i > 0 {
        let rest = pairs.drop_first();
        assert forall|j: int| 0 <= j < i - 1 implies #[trigger] rest[j].0.key_id() != id by {
            assert(rest[j] == pairs[j + 1]);
        }
        assert(pairs[0].0.key_id() != id);
        lemma_lookup_first(rest, id, i - 1);
    }
}

/// A key identity held by no entry reads as nothing.
pub proof fn lemma_lookup_none<K: KeyId, V>(pairs: Seq<(K, V)>, id: Seq<u64>)
    requires
        forall|j: int| 0 <= j < pairs.len() ==> #[trigger] pairs[j].0.key_id() != id,
    ensures
        lookup(pairs, id) is None,
    decreases pairs.len(),
{
    if pairs.len() > 0 {
        let rest = pairs.drop_first();
        assert forall|j: int| 0 <= j < rest.len() implies #[trigger] rest[j].0.key_id() != id by {
            assert(rest[j] == pairs[j + 1]);
        }
        assert(pairs[0].0.key_id() != id);
        lemma_lookup_none(rest, id);
    }
}

pub proof fn lemma_lower_bound(ids: Seq<Seq<u64>>, id: Seq<u64>)
    requires
        strictly_sorted(ids),
    ensures
        0 <= lower_bound(ids, id) <= ids.len(),
        forall|i: int| 0 <= i < lower_bound(ids, id) ==> lex_less(#[trigger] ids[i], id),
        forall|i: int| lower_bound(ids, id) <= i < ids.len() ==> !lex_less(#[trigger] ids[i], id),
    decreases ids.len(),
{
    if ids.len() > 0 {
        let rest = ids.drop_first();
        assert(strictly_sorted(rest)) by {
            assert forall|i: int, j: int| 0 <= i < j < rest.len() implies lex_less(
                #[trigger] rest[i],
                #[trigger] rest[j],
            ) by {
                assert(rest[i] == ids[i + 1]);
                assert(rest[j] == ids[j + 1]);
            }
        }
        lemma_lower_bound(rest, id);
        if lex_less(ids[0], id) {
            assert forall|i: int| 0 <= i < lower_bound(ids, id) implies lex_less(
                #[trigger] ids[i],
                id,
            ) by {
                if i > 0 {
                    assert(ids[i] == rest[i - 1]);
                }
            }
            assert forall|i: int| lower_bound(ids, id) <= i < ids.len() implies !lex_less(
                #[trigger] ids[i],
                id,
            ) by {
                assert(ids[i] == rest[i - 1]);
            }
        } else {
            assert forall|i: int| 0 <= i < ids.len() implies !lex_less(#[trigger] ids[i], id) by {
                if i > 0 {
                    if lex_less(ids[i], id) {
                        lemma_lex_transitive(ids[0], ids[i], id);
                    }
                }
            }
        }
    }
}

/// Per-key lookup in sorted entries: an index holding `id` is unique.
pub proof fn lemma_unique_index<K: KeyId, V>(pairs: Seq<(K, V)>, i: int, j: int)
    requires
        strictly_sorted(ids_of(pairs)),
        0 <= i < pairs.len(),
        0 <= j < pairs.len(),
        pairs[i].0.key_id() == pairs[j].0.key_id(),
    ensures
        i == j,
{
    let ids = ids_of(pairs);
    assert(ids[i] == pairs[i].0.key_id());
    assert(ids[j] == pairs[j].0.key_id());
    if i < j {
        assert(lex_less(ids[i], ids[j]));
        lemma_lex_irreflexive(ids[i]);
    } else if j < i {
        assert(lex_less(ids[j], ids[i]));
        lemma_lex_irreflexive(ids[i]);
    }
}

/// Inserting a key that no entry holds adds one entry; a held key keeps the
/// count.
pub proof fn lemma_inserted_len<K: KeyId, V>(pairs: Seq<(K, V)>, k: K, v: V)
    requires
        strictly_sorted(ids_of(pairs)),
    ensures
        inserted(pairs, k, v).len() == if lookup(pairs, k.key_id()) is Some {
            pairs.len()
        } else {
            pairs.len() + 1
        },
{
    let ids = ids_of(pairs);
    let id = k.key_id();
    lemma_lower_bound(ids, id);
    let p = lower_bound(ids, id);
    if p < pairs.len() && pairs[p].0.key_id() == id {
        lemma_lookup_at(pairs, p, id);
    } else {
        assert forall|j: int| 0 <= j < pairs.len() implies #[trigger] pairs[j].0.key_id() != id by {
            assert(ids[j] == pairs[j].0.key_id());
            if pairs[j].0.key_id() == id {
                lemma_lex_irreflexive(id);
                if j < p {
                    assert(lex_less(ids[j], id));
                } else if j > p {
                    assert(!lex_less(ids[p], id));
                    assert(lex_less(ids[p], ids[j]));
                    assert(ids[p] == pairs[p].0.key_id());
                    lemma_lex_total(ids[p], id);
                }
            }
        }
        lemma_lookup_none(pairs, id);
    }
}

/// Every entry after an insertion is the inserted one or an earlier one.
pub proof fn lemma_inserted_entries<K: KeyId, V>(pairs: Seq<(K, V)>, k: K, v: V)
    requires
        strictly_sorted(ids_of(pairs)),
    ensures
        forall|i: int|
            0 <= i < inserted(pairs, k, v).len() ==> #[trigger] inserted(pairs, k, v)[i] == (k, v)
                || pairs.contains(inserted(pairs, k, v)[i]),
{
    let es = inserted(pairs, k, v);
    lemma_lower_bound(ids_of(pairs), k.key_id());
    let p = lower_bound(ids_of(pairs), k.key_id());
    assert forall|i: int| 0 <= i < es.len() implies #[trigger] es[i] == (k, v) || pairs.contains(
        es[i],
    ) by {
        if p < pairs.len() && pairs[p].0.key_id() == k.key_id() {
            if i != p {
                assert(es[i] == pairs[i]);
            }
        } else if i < p {
            assert(es[i] == pairs[i]);
        } else if i > p {
            assert(es[i] == pairs[i - 1]);
        }
    }
}

/// Inserting into strictly sorted entries keeps them strictly sorted.
pub proof fn lemma_inserted_sorted<K: KeyId, V>(pairs: Seq<(K, V)>, k: K, v: V)
    requires
        strictly_sorted(ids_of(pairs)),
    ensures
        strictly_sorted(ids_of(inserted(pairs, k, v))),
{
    let ids = ids_of(pairs);
    let id = k.key_id();
    lemma_lower_bound(ids, id);
    let p = lower_bound(ids, id);
    let replace = p < pairs.len() && pairs[p].0.key_id() == id;
    let es = inserted(pairs, k, v);
    let new_ids = ids_of(es);
    assert forall|i: int, j: int| 0 <= i < j < new_ids.len() implies lex_less(
        #[trigger] new_ids[i],
        #[trigger] new_ids[j],
    ) by {
        if replace {
            assert(ids[p] == pairs[p].0.key_id());
            assert(new_ids[i] == if i == p { id } else { ids[i] });
            assert(new_ids[j] == if j == p { id } else { ids[j] });
            assert(lex_less(ids[i], ids[j]));
        } else {
            let a = if i < p { ids[i] } else if i == p { id } else { ids[i - 1] };
            let b = if j < p { ids[j] } else if j == p { id } else { ids[j - 1] };
            assert(new_ids[i] == a);
            assert(new_ids[j] == b);
            if p < ids.len() {
                assert(ids[p] == pairs[p].0.key_id());
                assert(!lex_less(ids[p], id));
                assert(ids[p] != id);
                lemma_lex_total(ids[p], id);
                assert(lex_less(id, ids[p]));
            }
            if i < p && j == p {
            } else if i < p && j > p {
                lemma_lex_transitive(ids[i], id, ids[p]);
                if j - 1 > p {
                    lemma_lex_transitive(ids[i], ids[p], ids[j - 1]);
                }
            } else if i == p {
                if j - 1 > p {
                    lemma_lex_transitive(id, ids[p], ids[j - 1]);
                }
            } else if i > p {
                assert(lex_less(ids[i - 1], ids[j - 1]));
            }
        }
    }
}

/// In strictly sorted entries, the key at index `i` reads as the value at
/// index `i`.
pub proof fn lemma_lookup_at<K: KeyId, V>(pairs: Seq<(K, V)>, i: int, id: Seq<u64>)
    requires
        strictly_sorted(ids_of(pairs)),
        0 <= i < pairs.len(),
        id == pairs[i].0.key_id(),
    ensures
        lookup(pairs, id) == Some(pairs[i].1),
{
    assert forall|j: int| 0 <= j < i implies #[trigger] pairs[j].0.key_id() != id by {
        if pairs[j].0.key_id() == id {
            lemma_unique_index(pairs, i, j);
        }
    }
    lemma_lookup_first(pairs, id, i);
}

/// What a read gives back after a write: looking up the key just inserted
/// gives its value, and every other key reads as before.
pub proof fn law_lookup_after_insert<K: KeyId, V>(pairs: Seq<(K, V)>, k: K, v: V, id: Seq<u64>)
    requires
        strictly_sorted(ids_of(pairs)),
    ensures
        lookup(inserted(pairs, k, v), id) == if id == k.key_id() {
            Some(v)
        } else {
            lookup(pairs, id)
        },
{
    let ids = ids_of(pairs);
    lemma_lower_bound(ids, k.key_id());
    lemma_inserted_sorted(pairs, k, v);
    let p = lower_bound(ids, k.key_id());
    let es = inserted(pairs, k, v);
    let replace = p < pairs.len() && pairs[p].0.key_id() == k.key_id();
    if id == k.key_id() {
        assert(es[p] == (k, v));
        lemma_lookup_at(es, p, id);
    } else {
        if exists|i: int| 0 <= i < pairs.len() && #[trigger] pairs[i].0.key_id() == id {
            let j = choose|i: int| 0 <= i < pairs.len() && #[trigger] pairs[i].0.key_id() == id;
            let jj = if replace || j < p { j } else { j + 1 };
            assert(es[jj] == pairs[j]);
            lemma_lookup_at(es, jj, id);
            lemma_lookup_at(pairs, j, id);
        } else {
            assert forall|i: int| 0 <= i < es.len() implies #[trigger] es[i].0.key_id() != id by {
                if replace {
                    if i != p {
                        assert(es[i] == pairs[i]);
                    }
                } else if i < p {
                    assert(es[i] == pairs[i]);
                } else if i > p {
                    assert(es[i] == pairs[i - 1]);
                }
            }
            lemma_lookup_none(es, id);
            assert forall|i: int| 0 <= i < pairs.len() implies #[trigger] pairs[i].0.key_id() != id by {
            }
            lemma_lookup_none(pairs, id);
        }
    }
}

/// A map from keys to values, held sorted by key identity.
pub struct SortedMap<K: KeyId, V> {
    entries: Vec<(K, V)>,
}

impl<K: KeyId, V> SortedMap<K, V> {
    /// The entries, in increasing key order.
    pub closed spec fn pairs(&self) -> Seq<(K, V)> {
        self.entries@
    }

    #[verifier::type_invariant]
    closed spec fn sorted_inv(&self) -> bool {
        strictly_sorted(ids_of(self.entries@))
    }

    /// An empty map.
    pub fn new() -> (m: Self)
        ensures
            m.pairs() == Seq::<(K, V)>::empty(),
    {
        SortedMap { entries: Vec::new() }
    }

    /// Number of entries.
    pub fn len(&self) -> (n: usize)
        ensures
            n == self.pairs().len(),
    {
        self.entries.len()
    }

    pub fn is_empty(&self) -> (b: bool)
        ensures
            b == (self.pairs().len() == 0),
    {
        self.entries.len() == 0
    }

    /// The entries, in increasing key order.
    pub fn entries(&self) -> (r: &Vec<(K, V)>)
        ensures
            r@ == self.pairs(),
            strictly_sorted(ids_of(self.pairs())),
    {
        proof {
            use_type_invariant(self);
        }
        &self.entries
    }

    /// Index of the entry whose key has identity `id`, if any.
    fn find(&self, id: &Vec<u64>) -> (r: Option<usize>)
        ensures
            r matches Some(i) ==> i < self.pairs().len() && self.pairs()[i as int].0.key_id()
                == id@ && forall|j: int| 0 <= j < i ==> #[trigger] self.pairs()[j].0.key_id() != id@,
            r is None ==> forall|i: int|
                0 <= i < self.pairs().len() ==> #[trigger] self.pairs()[i].0.key_id() != id@,
    {
        let mut i: usize = 0;
        while i < self.entries.len()
            invariant
                i <= self.entries@.len(),
                forall|j: int| 0 <= j < i ==> #[trigger] self.entries@[j].0.key_id() != id@,
            decreases self.entries@.len() - i,
        {
            let kid = self.entries[i].0.key_id_vec();
            if compare_ids(kid.as_slice(), id.as_slice()) == KeyOrder::Equal {
                return Some(i);
            }
            i = i + 1;
        }
        None
    }

    /// The value stored under `key`, if any.
    pub fn get(&self, key: &K) -> (r: Option<&V>)
        ensures
            r matches Some(v) ==> lookup(self.pairs(), key.key_id()) == Some(*v),
            r is None ==> lookup(self.pairs(), key.key_id()) is None,
    {
        let id = key.key_id_vec();
        match self.find(&id) {
            Some(i) => {
                proof {
                    lemma_lookup_first(self.pairs(), key.key_id(), i as int);
                }
                Some(&self.entries[i].1)
            },
            None => {
                proof {
                    lemma_lookup_none(self.pairs(), key.key_id());
                }
                None
            },
        }
    }

    /// Whether some entry has a key with the identity of `key`.
    pub fn contains_key(&self, key: &K) -> (b: bool)
        ensures
            b == (lookup(self.pairs(), key.key_id()) is Some),
    {
        let id = key.key_id_vec();
        match self.find(&id) {
            Some(i) => {
                proof {
                    lemma_lookup_first(self.pairs(), key.key_id(), i as int);
                }
                true
            },
            None => {
                proof {
                    lemma_lookup_none(self.pairs(), key.key_id());
                }
                false
            },
        }
    }

    /// Inserts `(key, value)`, replacing the entry with the same key.
    pub fn insert(&mut self, key: K, value: V)
        ensures
            final(self).pairs() == inserted(old(self).pairs(), key, value),
    {
        proof {
            use_type_invariant(&*self);
        }
        let id = key.key_id_vec();
        let ghost ids = ids_of(self.entries@);
        let mut p: usize = 0;
        let mut found = false;
        while !found && p < self.entries.len()
            invariant
                p <= self.entries@.len(),
                ids == ids_of(self.entries@),
                strictly_sorted(ids),
                found ==> p < self.entries@.len() && !lex_less(ids[p as int], id@),
                forall|i: int| 0 <= i < p ==> lex_less(#[trigger] ids[i], id@),
            decreases self.entries@.len() - p, (if found { 0int } else { 1int }),
        {
            let kid = self.entries[p].0.key_id_vec();
            assert(ids[p as int] == kid@);
            if compare_ids(kid.as_slice(), id.as_slice()) != KeyOrder::Less {
                found = true;
            } else {
                p = p + 1;
            }
        }
        assert(lower_bound(ids, id@) == p as int) by {
            lemma_lower_bound(ids, id@);
            let lb = lower_bound(ids, id@);
            if lb > p {
                assert(lex_less(ids[p as int], id@));
            }
            if lb < p {
                assert(lex_less(ids[lb], id@));
            }
        }
        let replace = p < self.entries.len() && {
            let kid = self.entries[p].0.key_id_vec();
            compare_ids(kid.as_slice(), id.as_slice()) == KeyOrder::Equal
        };
        let mut es: Vec<(K, V)> = Vec::new();
        std::mem::swap(&mut es, &mut self.entries);
        let ghost old_pairs = es@;
        if replace {
            es.set(p, (key, value));
        } else {
            es.insert(p, (key, value));
        }
        proof {
            assert(es@ == inserted(old_pairs, key, value));
            lemma_inserted_sorted(old_pairs, key, value);
        }
        self.entries = es;
    }
}

} // verus!
