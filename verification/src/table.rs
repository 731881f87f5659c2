//! Ordered name tables.
//!
//! Every table in this library — the five name tables of a scope and the
//! mapping of a rename table — is an insertion-ordered map from an interned
//! symbol to a graph-node identity, held as an `indexmap::IndexMap` with
//! plain `u64` keys and values. The map itself is outside code; its contents
//! are named by [`table_entries`], a sequence of key/value pairs in insertion
//! order, and every operation the library performs on a table goes through a
//! wrapper whose contract speaks over that sequence.

use vstd::prelude::*;

verus! {

#[verifier::external_type_specification]
#[verifier::external_body]
#[verifier::reject_recursive_types(K)]
#[verifier::reject_recursive_types(V)]
#[verifier::reject_recursive_types(S)]
pub struct ExIndexMap<K, V, S>(indexmap::IndexMap<K, V, S>);

/// An insertion-ordered map from interned symbol to graph-node identity.
pub type Table = indexmap::IndexMap<u64, u64, std::hash::RandomState>;

/// The key/value pairs a table holds, in insertion order.
pub uninterp spec fn table_entries(m: Table) -> Seq<(u64, u64)>;

/// The keys of an entry sequence, in order.
pub open spec fn entry_keys(s: Seq<(u64, u64)>) -> Seq<u64> {
    s.map_values(|p: (u64, u64)| p.0)
}

/// The value under `k` in an entry sequence: the first pair whose key is `k`,
/// if any. Table keys are unique, so the first match is the only one.
pub open spec fn seq_get(s: Seq<(u64, u64)>, k: u64) -> Option<u64>
    decreases s.len(),
{
    if s.len() == 0 {
        None
    } else if s[0].0 == k {
        Some(s[0].1)
    } else {
        seq_get(s.drop_first(), k)
    }
}

/// Whether an entry sequence binds the key `k`.
pub open spec fn seq_has_key(s: Seq<(u64, u64)>, k: u64) -> bool {
    seq_get(s, k) is Some
}

/// An entry sequence after storing `v` under `k`: an existing key keeps its
/// place and takes the new value; a fresh key is appended last.
pub open spec fn seq_set(s: Seq<(u64, u64)>, k: u64, v: u64) -> Seq<(u64, u64)>
    decreases s.len(),
{
    if s.len() == 0 {
        seq![(k, v)]
    } else if s[0].0 == k {
        seq![(k, v)] + s.drop_first()
    } else {
        seq![s[0]] + seq_set(s.drop_first(), k, v)
    }
}

/// Storing under `k` binds `k` to `v` and leaves every other key unchanged.
pub proof fn lemma_seq_set_get(s: Seq<(u64, u64)>, k: u64, v: u64, q: u64)
    ensures
        seq_get(seq_set(s, k, v), q) == if q == k {
            Some(v)
        } else {
            seq_get(s, q)
        },
    decreases s.len(),
{
    reveal_with_fuel(seq_get, 3);
    reveal_with_fuel(seq_set, 3);
    if s.len() == 0 {
        assert(seq_set(s, k, v) =~= seq![(k, v)]);
        assert(seq![(k, v)].drop_first() =~= Seq::<(u64, u64)>::empty());
    } else if s[0].0 == k {
        assert(seq_set(s, k, v).drop_first() =~= s.drop_first());
        assert(seq_set(s, k, v)[0] == (k, v));
    } else {
        lemma_seq_set_get(s.drop_first(), k, v, q);
        assert(seq_set(s, k, v).drop_first() =~= seq_set(s.drop_first(), k, v));
        assert(seq_set(s, k, v)[0] == s[0]);
    }
}

/// Every value in an entry sequence is below `n`.
pub open spec fn values_lt(s: Seq<(u64, u64)>, n: int) -> bool {
    forall|i: int| 0 <= i < s.len() ==> ((#[trigger] s[i]).1 as int) < n
}

/// Storing a value below the bound keeps every value below the bound.
pub proof fn lemma_seq_set_values_lt(s: Seq<(u64, u64)>, k: u64, v: u64, n: int)
    requires
        values_lt(s, n),
        (v as int) < n,
    ensures
        values_lt(seq_set(s, k, v), n),
    decreases s.len(),
{
    let t = seq_set(s, k, v);
    if s.len() == 0 {
        assert(t =~= seq![(k, v)]);
        assert(forall|i: int| 0 <= i < t.len() ==> t[i] == (k, v));
    } else if s[0].0 == k {
        assert forall|i: int| 0 <= i < t.len() implies ((#[trigger] t[i]).1 as int) < n by {
            if i == 0 {
                assert(t[i] == (k, v));
            } else {
                assert(t[i] == s[i]);
            }
        }
    } else {
        lemma_seq_set_values_lt(s.drop_first(), k, v, n);
        assert forall|i: int| 0 <= i < t.len() implies ((#[trigger] t[i]).1 as int) < n by {
            if i == 0 {
                assert(t[i] == s[0]);
            } else {
                assert(t[i] == seq_set(s.drop_first(), k, v)[i - 1]);
            }
        }
    }
}

/// A bound entry comes from some position in the entry sequence.
pub proof fn lemma_seq_get_index(s: Seq<(u64, u64)>, k: u64, v: u64)
    requires
        seq_get(s, k) == Some(v),
    ensures
        exists|i: int| 0 <= i < s.len() && s[i] == (k, v),
    decreases s.len(),
{
    if s.len() > 0 {
        if s[0].0 == k {
            assert(s[0] == (k, v));
        } else {
            lemma_seq_get_index(s.drop_first(), k, v);
            let i = choose|i: int|
                0 <= i < s.drop_first().len() && s.drop_first()[i] == (k, v);
            assert(s[i + 1] == (k, v));
        }
    }
}

/// No two entries share a key; every table the library builds satisfies
/// this, since storing under an existing key replaces its entry.
pub open spec fn unique_keys(s: Seq<(u64, u64)>) -> bool {
    forall|i: int, j: int| 0 <= i < j < s.len() ==> (#[trigger] s[i]).0 != (#[trigger] s[j]).0
}

/// An entry whose key occurs at some position makes the key bound.
pub proof fn lemma_key_at_index(s: Seq<(u64, u64)>, i: int)
    requires
        0 <= i < s.len(),
    ensures
        seq_has_key(s, s[i].0),
    decreases i,
{
    if s[0].0 != s[i].0 {
        lemma_key_at_index(s.drop_first(), i - 1);
    }
}

/// Looking a key up in a sequence extended by one entry: the old entries
/// win, and the new entry answers only for its own, previously unbound key.
pub proof fn lemma_seq_get_append_one(a: Seq<(u64, u64)>, p: (u64, u64), k: u64)
    ensures
        seq_get(a.push(p), k) == (match seq_get(a, k) {
            Option::Some(v) => Some(v),
            Option::None => if p.0 == k {
                Some(p.1)
            } else {
                None
            },
        }),
    decreases a.len(),
{
    reveal_with_fuel(seq_get, 3);
    if a.len() == 0 {
        assert(a.push(p) =~= seq![p]);
        assert(seq![p].drop_first() =~= Seq::<(u64, u64)>::empty());
    } else {
        lemma_seq_get_append_one(a.drop_first(), p, k);
        assert(a.push(p).drop_first() =~= a.drop_first().push(p));
        assert(a.push(p)[0] == a[0]);
    }
}

/// The keys of two entry sequences laid end to end.
pub proof fn lemma_entry_keys_concat(a: Seq<(u64, u64)>, b: Seq<(u64, u64)>)
    ensures
        entry_keys(a + b) == entry_keys(a) + entry_keys(b),
{
    assert(entry_keys(a + b) =~= entry_keys(a) + entry_keys(b));
}

/// The keys after storing under `k`: unchanged when `k` was bound, extended
/// by `k` at the end when it was not.
pub proof fn lemma_seq_set_keys(s: Seq<(u64, u64)>, k: u64, v: u64)
    ensures
        entry_keys(seq_set(s, k, v)) == (if seq_has_key(s, k) {
            entry_keys(s)
        } else {
            entry_keys(s).push(k)
        }),
    decreases s.len(),
{
    if s.len() == 0 {
        assert(entry_keys(seq_set(s, k, v)) =~= entry_keys(s).push(k));
    } else if s[0].0 == k {
        lemma_entry_keys_concat(seq![(k, v)], s.drop_first());
        assert(s =~= seq![s[0]] + s.drop_first());
        lemma_entry_keys_concat(seq![s[0]], s.drop_first());
        assert(entry_keys(seq![(k, v)]) =~= seq![k]);
        assert(entry_keys(seq![s[0]]) =~= seq![k]);
    } else {
        lemma_seq_set_keys(s.drop_first(), k, v);
        let rest = seq_set(s.drop_first(), k, v);
        lemma_entry_keys_concat(seq![s[0]], rest);
        assert(s =~= seq![s[0]] + s.drop_first());
        lemma_entry_keys_concat(seq![s[0]], s.drop_first());
        assert(entry_keys(seq![s[0]]) =~= seq![s[0].0]);
        if seq_has_key(s.drop_first(), k) {
            assert(entry_keys(seq_set(s, k, v)) =~= entry_keys(s));
        } else {
            assert(seq![s[0].0] + entry_keys(s.drop_first()).push(k) =~= (seq![s[0].0]
                + entry_keys(s.drop_first())).push(k));
            assert(entry_keys(seq_set(s, k, v)) =~= entry_keys(s).push(k));
        }
    }
}

/// Storing preserves key uniqueness.
pub proof fn lemma_seq_set_unique(s: Seq<(u64, u64)>, k: u64, v: u64)
    requires
        unique_keys(s),
    ensures
        unique_keys(seq_set(s, k, v)),
{
    lemma_seq_set_keys(s, k, v);
    let t = seq_set(s, k, v);
    assert(entry_keys(t).len() == t.len());
    assert(entry_keys(s).len() == s.len());
    if seq_has_key(s, k) {
        assert forall|i: int, j: int| 0 <= i < j < t.len() implies (#[trigger] t[i]).0 != (
        #[trigger] t[j]).0 by {
            assert(entry_keys(t)[i] == t[i].0);
            assert(entry_keys(t)[j] == t[j].0);
            assert(entry_keys(s)[i] == s[i].0);
            assert(entry_keys(s)[j] == s[j].0);
        }
    } else {
        assert forall|i: int| 0 <= i < s.len() implies (#[trigger] s[i]).0 != k by {
            if s[i].0 == k {
                lemma_key_at_index(s, i);
            }
        }
        assert forall|i: int, j: int| 0 <= i < j < t.len() implies (#[trigger] t[i]).0 != (
        #[trigger] t[j]).0 by {
            assert(entry_keys(t)[i] == t[i].0);
            assert(entry_keys(t)[j] == t[j].0);
            if j < t.len() - 1 {
                assert(entry_keys(s)[i] == s[i].0);
                assert(entry_keys(s)[j] == s[j].0);
            } else {
                assert(entry_keys(s)[i] == s[i].0);
            }
        }
    }
}

/// A fresh table.
///
/// Relies on `indexmap::IndexMap::new`: the new map is empty.
#[verifier::external_body]
pub fn table_new() -> (r: Table)
    ensures
        table_entries(r) == Seq::<(u64, u64)>::empty(),
{
    indexmap::IndexMap::new()
}

/// The value stored under `k`, if any.
///
/// Relies on `indexmap::IndexMap::get`: returns the value of the entry whose
/// key equals `k`, and `None` when no entry has that key.
#[verifier::external_body]
pub fn table_get(m: &Table, k: u64) -> (r: Option<u64>)
    ensures
        r == seq_get(table_entries(*m), k),
{
    m.get(&k).copied()
}

/// Stores `v` under `k`.
///
/// Relies on `indexmap::IndexMap::insert`: an existing key retains its place
/// in the order and its value is updated; a fresh key is inserted last.
#[verifier::external_body]
pub fn table_insert(m: &mut Table, k: u64, v: u64)
    ensures
        table_entries(*final(m)) == seq_set(table_entries(*old(m)), k, v),
{
    m.insert(k, v);
}

/// The key/value pairs in insertion order.
///
/// Relies on `indexmap::IndexMap::iter`: yields the entries in their order.
#[verifier::external_body]
pub fn table_pairs(m: &Table) -> (r: Vec<(u64, u64)>)
    ensures
        r@ == table_entries(*m),
{
    m.iter().map(|(k, v)| (*k, *v)).collect()
}

/// The keys in insertion order.
///
/// Relies on `indexmap::IndexMap::keys`: yields the keys in their order.
#[verifier::external_body]
pub fn table_keys(m: &Table) -> (r: Vec<u64>)
    ensures
        r@ == entry_keys(table_entries(*m)),
{
    m.keys().copied().collect()
}

} // verus!
