use vstd::prelude::*;

verus! {

// The catalog keeps its lookup tables as association lists: vectors of
// (key, value) pairs with string keys, looked up by first match. The spec
// functions here give those lists their mathematical reading, and the lemmas
// support the linear-scan implementations.

/// Value stored under `key`, taking the first matching entry.
pub open spec fn kv_find<V>(s: Seq<(Seq<char>, V)>, key: Seq<char>) -> Option<V>
    decreases s.len(),
{
    if s.len() == 0 {
        None::<V>
    } else if s[0].0 == key {
        Some(s[0].1)
    } else {
        kv_find(s.drop_first(), key)
    }
}

pub open spec fn kv_contains<V>(s: Seq<(Seq<char>, V)>, key: Seq<char>) -> bool {
    kv_find(s, key) is Some
}

/// Replace the first entry under `key`, or append one if the key is new:
/// the reading of a map insertion on an association list.
pub open spec fn kv_put<V>(s: Seq<(Seq<char>, V)>, key: Seq<char>, value: V) -> Seq<
    (Seq<char>, V),
>
    decreases s.len(),
{
    if s.len() == 0 {
        seq![(key, value)]
    } else if s[0].0 == key {
        seq![(key, value)] + s.drop_first()
    } else {
        seq![s[0]] + kv_put(s.drop_first(), key, value)
    }
}

/// Drop the first entry under `key`, if any.
pub open spec fn kv_remove<V>(s: Seq<(Seq<char>, V)>, key: Seq<char>) -> Seq<(Seq<char>, V)>
    decreases s.len(),
{
    if s.len() == 0 {
        s
    } else if s[0].0 == key {
        s.drop_first()
    } else {
        seq![s[0]] + kv_remove(s.drop_first(), key)
    }
}

/// A linear scan that has found no match among the first `i` entries may keep
/// looking in the rest: the overall answer is the answer for the tail.
pub proof fn lemma_kv_find_skip<V>(s: Seq<(Seq<char>, V)>, key: Seq<char>, i: int)
    requires
        0 <= i <= s.len(),
        forall|j: int| 0 <= j < i ==> s[j].0 != key,
    ensures
        kv_find(s, key) == kv_find(s.skip(i), key),
    decreases i,
{
    if i > 0 {
        assert(s.skip(i - 1).drop_first() =~= s.skip(i));
        lemma_kv_find_skip(s, key, i - 1);
        assert(s.skip(i - 1)[0] == s[i - 1]);
    } else {
        assert(s.skip(0) =~= s);
    }
}

/// Lookup after an insertion: the inserted key reads back the new value, every
/// other key is untouched.
pub proof fn lemma_kv_put_find<V>(s: Seq<(Seq<char>, V)>, key: Seq<char>, value: V, k: Seq<char>)
    ensures
        kv_find(kv_put(s, key, value), k) == if k == key {
            Some(value)
        } else {
            kv_find(s, k)
        },
    decreases s.len(),
{
    let r = kv_put(s, key, value);
    let expected = if k == key {
        Some(value)
    } else {
        kv_find(s, k)
    };
    if s.len() == 0 {
        reveal_with_fuel(kv_find, 2);
        assert(r[0] == (key, value));
        assert(r.drop_first() =~= Seq::<(Seq<char>, V)>::empty());
        assert(kv_find(r, k) == expected);
    } else if s[0].0 == key {
        assert(r[0] == (key, value));
        assert(r.drop_first() =~= s.drop_first());
        assert(kv_find(r, k) == expected);
    } else {
        assert(r[0] == s[0]);
        assert(r.drop_first() =~= kv_put(s.drop_first(), key, value));
        lemma_kv_put_find(s.drop_first(), key, value, k);
        if k == s[0].0 {
            assert(kv_find(r, k) == Some(s[0].1));
            assert(kv_find(s, k) == Some(s[0].1));
        }
        assert(kv_find(r, k) == expected);
    }
}

/// No entry carries the key: the lookup finds nothing.
pub proof fn lemma_kv_find_absent<V>(s: Seq<(Seq<char>, V)>, key: Seq<char>)
    requires
        forall|j: int| 0 <= j < s.len() ==> s[j].0 != key,
    ensures
        kv_find(s, key) is None,
    decreases s.len(),
{
    if s.len() > 0 {
        assert(forall|j: int|
            0 <= j < s.drop_first().len() ==> s.drop_first()[j] == s[j + 1]);
        lemma_kv_find_absent(s.drop_first(), key);
    }
}

/// A found entry stands in the list.
pub proof fn lemma_kv_find_some_index<V>(s: Seq<(Seq<char>, V)>, key: Seq<char>)
    requires
        kv_find(s, key) is Some,
    ensures
        exists|j: int|
            0 <= j < s.len() && s[j].0 == key && s[j].1 == kv_find(s, key)->Some_0,
    decreases s.len(),
{
    if s.len() > 0 && s[0].0 != key {
        lemma_kv_find_some_index(s.drop_first(), key);
        let j = choose|j: int|
            0 <= j < s.drop_first().len() && s.drop_first()[j].0 == key && s.drop_first()[j].1
                == kv_find(s.drop_first(), key)->Some_0;
        assert(s[j + 1] == s.drop_first()[j]);
    }
}

/// Each key appears on at most one entry.
pub open spec fn kv_keys_unique<V>(s: Seq<(Seq<char>, V)>) -> bool {
    forall|i: int, j: int|
        0 <= i < j < s.len() ==> s[i].0 != s[j].0
}

/// The lookup answers with the entry at the first matching position.
pub proof fn lemma_kv_find_first<V>(s: Seq<(Seq<char>, V)>, key: Seq<char>, i: int)
    requires
        0 <= i < s.len(),
        s[i].0 == key,
        forall|j: int| 0 <= j < i ==> s[j].0 != key,
    ensures
        kv_find(s, key) == Some(s[i].1),
{
    lemma_kv_find_skip(s, key, i);
    assert(s.skip(i)[0] == s[i]);
}

/// A lookup that answers with nothing means no entry carries the key.
pub proof fn lemma_kv_find_none<V>(s: Seq<(Seq<char>, V)>, key: Seq<char>)
    requires
        kv_find(s, key) is None,
    ensures
        forall|j: int| 0 <= j < s.len() ==> s[j].0 != key,
    decreases s.len(),
{
    if s.len() > 0 {
        lemma_kv_find_none(s.drop_first(), key);
        assert forall|j: int| 0 <= j < s.len() implies s[j].0 != key by {
            if j > 0 {
                assert(s.drop_first()[j - 1] == s[j]);
            }
        }
    }
}

/// Insertion over an existing key is a positional update at the key's first
/// entry.
pub proof fn lemma_kv_put_is_update<V>(s: Seq<(Seq<char>, V)>, key: Seq<char>, value: V, i: int)
    requires
        0 <= i < s.len(),
        s[i].0 == key,
        forall|j: int| 0 <= j < i ==> s[j].0 != key,
    ensures
        kv_put(s, key, value) =~= s.update(i, (key, value)),
    decreases i,
{
    if i == 0 {
        assert(kv_put(s, key, value) == seq![(key, value)] + s.drop_first());
    } else {
        assert(forall|j: int|
            0 <= j < s.drop_first().len() ==> s.drop_first()[j] == s[j + 1]);
        lemma_kv_put_is_update(s.drop_first(), key, value, i - 1);
    }
}

/// Insertion under a fresh key appends an entry.
pub proof fn lemma_kv_put_is_push<V>(s: Seq<(Seq<char>, V)>, key: Seq<char>, value: V)
    requires
        forall|j: int| 0 <= j < s.len() ==> s[j].0 != key,
    ensures
        kv_put(s, key, value) =~= s.push((key, value)),
    decreases s.len(),
{
    if s.len() > 0 {
        assert(forall|j: int|
            0 <= j < s.drop_first().len() ==> s.drop_first()[j] == s[j + 1]);
        lemma_kv_put_is_push(s.drop_first(), key, value);
    }
}

/// Removal of an existing key is a positional removal of its first entry.
pub proof fn lemma_kv_remove_is_remove<V>(s: Seq<(Seq<char>, V)>, key: Seq<char>, i: int)
    requires
        0 <= i < s.len(),
        s[i].0 == key,
        forall|j: int| 0 <= j < i ==> s[j].0 != key,
    ensures
        kv_remove(s, key) =~= s.remove(i),
    decreases i,
{
    if i == 0 {
        assert(s.remove(0) =~= s.drop_first());
    } else {
        assert(forall|j: int|
            0 <= j < s.drop_first().len() ==> s.drop_first()[j] == s[j + 1]);
        lemma_kv_remove_is_remove(s.drop_first(), key, i - 1);
        assert(s.remove(i) =~= seq![s[0]] + s.drop_first().remove(i - 1));
    }
}

/// Removal of an absent key changes nothing.
pub proof fn lemma_kv_remove_absent<V>(s: Seq<(Seq<char>, V)>, key: Seq<char>)
    requires
        forall|j: int| 0 <= j < s.len() ==> s[j].0 != key,
    ensures
        kv_remove(s, key) =~= s,
    decreases s.len(),
{
    if s.len() > 0 {
        assert(forall|j: int|
            0 <= j < s.drop_first().len() ==> s.drop_first()[j] == s[j + 1]);
        lemma_kv_remove_absent(s.drop_first(), key);
    }
}

// ---------------------------------------------------------------------------
// Quantity tables: item id -> count, the executable form of a recipe's
// `inputs` and `outputs` mappings.

/// Mathematical reading of a quantity table.
pub open spec fn counts_view(s: Seq<(String, u32)>) -> Seq<(Seq<char>, u32)> {
    s.map_values(|p: (String, u32)| (p.0@, p.1))
}

/// The quantity table as a finite map from item id to count.
pub open spec fn totals_map(t: Seq<(String, u32)>) -> Map<Seq<char>, int> {
    Map::new(
        |k: Seq<char>| kv_contains(counts_view(t), k),
        |k: Seq<char>| kv_find(counts_view(t), k)->Some_0 as int,
    )
}

/// Every quantity in the table is a machine word, hence non-negative.
pub proof fn lemma_totals_map_nonneg(t: Seq<(String, u32)>)
    ensures
        forall|k: Seq<char>| #[trigger] totals_map(t).dom().contains(k) ==> totals_map(t)[k] >= 0,
{
}

/// Quantity stored under `key`, if any.
pub fn count_get(t: &Vec<(String, u32)>, key: &str) -> (r: Option<u32>)
    ensures
        r == kv_find(counts_view(t@), key@),
{
    let mut i: usize = 0;
    while i < t.len()
        invariant
            i <= t@.len(),
            forall|j: int| 0 <= j < i ==> counts_view(t@)[j].0 != key@,
        decreases t@.len() - i,
    {
        if crate::text::str_eq(t[i].0.as_str(), key) {
            proof {
                lemma_kv_find_first(counts_view(t@), key@, i as int);
            }
            return Some(t[i].1);
        }
        i = i + 1;
    }
    proof {
        lemma_kv_find_absent(counts_view(t@), key@);
    }
    None
}

/// Store `value` under `key`, replacing the first entry under that key or
/// appending a new one.
pub fn count_put(t: &mut Vec<(String, u32)>, key: &str, value: u32)
    ensures
        counts_view(final(t)@) == kv_put(counts_view(old(t)@), key@, value),
        kv_keys_unique(counts_view(old(t)@)) ==> kv_keys_unique(counts_view(final(t)@)),
{
    let mut i: usize = 0;
    while i < t.len()
        invariant
            i <= t@.len(),
            t@ == old(t)@,
            forall|j: int| 0 <= j < i ==> counts_view(t@)[j].0 != key@,
        decreases t@.len() - i,
    {
        if crate::text::str_eq(t[i].0.as_str(), key) {
            let owned: String = key.to_owned();
            t.set(i, (owned, value));
            proof {
                lemma_kv_put_is_update(counts_view(old(t)@), key@, value, i as int);
                assert(counts_view(t@) =~= counts_view(old(t)@).update(
                    i as int,
                    (key@, value),
                ));
                assert(forall|j: int|
                    0 <= j < counts_view(t@).len() ==> counts_view(t@)[j].0 == counts_view(
                        old(t)@,
                    )[j].0);
            }
            return ;
        }
        i = i + 1;
    }
    let owned: String = key.to_owned();
    t.push((owned, value));
    proof {
        lemma_kv_put_is_push(counts_view(old(t)@), key@, value);
        assert(counts_view(t@) =~= counts_view(old(t)@).push((key@, value)));
    }
}

/// Drop the first entry under `key` and report the quantity it held.
pub fn count_remove(t: &mut Vec<(String, u32)>, key: &str) -> (r: Option<u32>)
    ensures
        counts_view(final(t)@) == kv_remove(counts_view(old(t)@), key@),
        r == kv_find(counts_view(old(t)@), key@),
{
    let mut i: usize = 0;
    while i < t.len()
        invariant
            i <= t@.len(),
            t@ == old(t)@,
            forall|j: int| 0 <= j < i ==> counts_view(t@)[j].0 != key@,
        decreases t@.len() - i,
    {
        if crate::text::str_eq(t[i].0.as_str(), key) {
            let value: u32 = t[i].1;
            t.remove(i);
            proof {
                lemma_kv_find_first(counts_view(old(t)@), key@, i as int);
                lemma_kv_remove_is_remove(counts_view(old(t)@), key@, i as int);
                assert(counts_view(t@) =~= counts_view(old(t)@).remove(i as int));
            }
            return Some(value);
        }
        i = i + 1;
    }
    proof {
        lemma_kv_find_absent(counts_view(t@), key@);
        lemma_kv_remove_absent(counts_view(t@), key@);
    }
    None
}

} // verus!
