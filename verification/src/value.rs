//! Logical property values and property/value maps.
//!
//! A logical map is carried as a vector of `(property, value)` pairs with
//! pairwise-distinct property names; its mathematical view is the finite map
//! from property name (as a character sequence) to value.

use vstd::prelude::*;

verus! {

/// A logical value: what a record presents to clients under a property name.
#[derive(Debug)]
pub enum Value {
    /// No value (an empty long-text slot, for instance).
    Null,
    /// A textual value.
    Text(String),
    /// A numeric value (numeric and timestamp slots hold 64-bit integers).
    Num(i64),
}

impl Clone for Value {
    fn clone(&self) -> (r: Self)
        ensures
            r == *self,
    {
        match self {
            Value::Null => Value::Null,
            Value::Text(s) => Value::Text(s.clone()),
            Value::Num(n) => Value::Num(*n),
        }
    }
}

/// The map that a pair list denotes; a later pair wins on a repeated name.
pub open spec fn map_view(s: Seq<(String, Value)>) -> Map<Seq<char>, Value>
    decreases s.len(),
{
    if s.len() == 0 {
        Map::empty()
    } else {
        map_view(s.drop_last()).insert(s.last().0@, s.last().1)
    }
}

/// Pairwise-distinct property names.
pub open spec fn keys_unique(s: Seq<(String, Value)>) -> bool {
    forall|i: int, j: int|
        0 <= i < j < s.len() ==> #[trigger] s[i].0@ != #[trigger] s[j].0@
}

/// A name is in the map exactly when some pair carries it.
pub proof fn lemma_map_view_contains(s: Seq<(String, Value)>, k: Seq<char>)
    ensures
        map_view(s).contains_key(k) <==> exists|i: int|
            0 <= i < s.len() && #[trigger] s[i].0@ == k,
    decreases s.len(),
{
    if s.len() > 0 {
        lemma_map_view_contains(s.drop_last(), k);
        if s.last().0@ == k {
            assert(s[s.len() - 1].0@ == k);
        } else if map_view(s).contains_key(k) {
            let i = choose|i: int| 0 <= i < s.drop_last().len() && #[trigger] s.drop_last()[i].0@ == k;
            assert(s[i].0@ == k);
        } else {
            assert forall|i: int| 0 <= i < s.len() implies #[trigger] s[i].0@ != k by {
                if i < s.len() - 1 {
                    assert(s.drop_last()[i].0@ == s[i].0@);
                }
            }
        }
    }
}

/// With distinct names, the pair carrying a name gives the map's value there.
pub proof fn lemma_map_view_index(s: Seq<(String, Value)>, i: int)
    requires
        keys_unique(s),
        0 <= i < s.len(),
    ensures
        map_view(s).contains_key(s[i].0@),
        map_view(s)[s[i].0@] == s[i].1,
    decreases s.len(),
{
    if i == s.len() - 1 {
    } else {
        assert(s.drop_last()[i] == s[i]);
        lemma_map_view_index(s.drop_last(), i);
        assert(s[s.len() - 1].0@ != s[i].0@);
    }
}

/// Appending a pair inserts its binding.
pub proof fn lemma_map_view_push(s: Seq<(String, Value)>, p: (String, Value))
    ensures
        map_view(s.push(p)) == map_view(s).insert(p.0@, p.1),
{
    assert(s.push(p).drop_last() =~= s);
}

/// Replacing the pair that carries a name inserts the new binding.
pub proof fn lemma_map_view_update(s: Seq<(String, Value)>, i: int, p: (String, Value))
    requires
        keys_unique(s),
        0 <= i < s.len(),
        s[i].0@ == p.0@,
    ensures
        map_view(s.update(i, p)) =~= map_view(s).insert(p.0@, p.1),
    decreases s.len(),
{
    let t = s.update(i, p);
    if i == s.len() - 1 {
        assert(t.drop_last() =~= s.drop_last());
        assert(t.last() == p);
    } else {
        assert(t.drop_last() =~= s.drop_last().update(i, p));
        assert(t.last() == s.last());
        assert(s.drop_last()[i] == s[i]);
        lemma_map_view_update(s.drop_last(), i, p);
        assert(s[s.len() - 1].0@ != s[i].0@);
    }
}

/// Looks a property up in a pair list.
pub fn lookup(entries: &Vec<(String, Value)>, key: &String) -> (r: Option<Value>)
    requires
        keys_unique(entries@),
    ensures
        match r {
            Some(v) => map_view(entries@).contains_key(key@) && v == map_view(entries@)[key@],
            None => !map_view(entries@).contains_key(key@),
        },
{
    let n = entries.len();
    for i in 0..n
        invariant
            n == entries@.len(),
            keys_unique(entries@),
            forall|j: int| 0 <= j < i ==> #[trigger] entries@[j].0@ != key@,
    {
        if entries[i].0 == *key {
            proof {
                lemma_map_view_index(entries@, i as int);
            }
            return Some(entries[i].1.clone());
        }
    }
    proof {
        lemma_map_view_contains(entries@, key@);
    }
    None
}

/// Binds a property to a value, replacing any pair that already carries it.
pub fn upsert(entries: &mut Vec<(String, Value)>, key: String, v: Value)
    requires
        keys_unique(old(entries)@),
    ensures
        keys_unique(final(entries)@),
        map_view(final(entries)@) == map_view(old(entries)@).insert(key@, v),
{
    let n = entries.len();
    for i in 0..n
        invariant
            n == entries@.len(),
            entries@ == old(entries)@,
            keys_unique(entries@),
            forall|j: int| 0 <= j < i ==> #[trigger] entries@[j].0@ != key@,
    {
        if entries[i].0 == *&key {
            proof {
                lemma_map_view_update(entries@, i as int, (key, v));
            }
            entries.set(i, (key, v));
            assert(keys_unique(entries@)) by {
                assert(forall|j: int|
                    0 <= j < entries@.len() ==> #[trigger] entries@[j].0@ == old(entries)@[j].0@);
            }
            return;
        }
    }
    proof {
        lemma_map_view_push(entries@, (key, v));
        lemma_map_view_contains(entries@, key@);
    }
    entries.push((key, v));
    assert(keys_unique(entries@)) by {
        assert(forall|j: int|
            0 <= j < entries@.len() - 1 ==> #[trigger] entries@[j].0@ == old(entries)@[j].0@);
    }
}

} // verus!
