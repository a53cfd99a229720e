//! A flat string-keyed map of JSON values.
//!
//! Dimension maps built by extraction, variant override maps and resolved
//! configuration documents are all flat mappings from a string key to a
//! JSON-shaped value. [`JsonMap`] keeps the entries as an ordered list whose
//! keys stay unique; its view is the mathematical `Map` the entries denote.

use crate::json::{obj_lookup, spec_obj_entries, SpecValue, Value};
use vstd::prelude::*;

verus! {

/// A flat mapping from string keys to JSON-shaped values.
#[derive(Debug, PartialEq)]
pub struct JsonMap {
    entries: Vec<(String, Value)>,
}

/// The map denoted by an entry list; a later entry overrides an earlier one
/// with the same key.
pub open spec fn entries_to_map(s: Seq<(Seq<char>, SpecValue)>) -> Map<Seq<char>, SpecValue>
    decreases s.len(),
{
    if s.len() == 0 {
        Map::empty()
    } else {
        entries_to_map(s.drop_last()).insert(s.last().0, s.last().1)
    }
}

/// No two entries share a key.
pub open spec fn distinct_keys(s: Seq<(Seq<char>, SpecValue)>) -> bool {
    forall|i: int, j: int| 0 <= i < j < s.len() ==> s[i].0 != s[j].0
}

/// A key is in the denoted map exactly when some entry holds it, and the
/// denoted map's domain is finite.
proof fn lemma_etm_contains(s: Seq<(Seq<char>, SpecValue)>, k: Seq<char>)
    ensures
        entries_to_map(s).contains_key(k) <==> exists|i: int| 0 <= i < s.len() && s[i].0 == k,
        entries_to_map(s).dom().finite(),
    decreases s.len(),
{
    if s.len() == 0 {
    } else {
        lemma_etm_contains(s.drop_last(), k);
        if k == s.last().0 {
            assert(s[s.len() - 1].0 == k);
        } else {
            if entries_to_map(s).contains_key(k) {
                let i = choose|i: int| 0 <= i < s.drop_last().len() && s.drop_last()[i].0 == k;
                assert(s[i].0 == k);
            }
            if exists|i: int| 0 <= i < s.len() && s[i].0 == k {
                let i = choose|i: int| 0 <= i < s.len() && s[i].0 == k;
                assert(s.drop_last()[i].0 == k);
            }
        }
    }
}

/// With unique keys, the entry holding a key decides its value in the map.
proof fn lemma_etm_value(s: Seq<(Seq<char>, SpecValue)>, i: int)
    requires
        distinct_keys(s),
        0 <= i < s.len(),
    ensures
        entries_to_map(s).contains_key(s[i].0),
        entries_to_map(s)[s[i].0] == s[i].1,
    decreases s.len(),
{
    lemma_etm_contains(s, s[i].0);
    if i == s.len() - 1 {
    } else {
        assert(s.drop_last()[i] == s[i]);
        lemma_etm_value(s.drop_last(), i);
        assert(s[i].0 != s.last().0);
    }
}

/// With unique keys, the domain has exactly one key per entry.
proof fn lemma_etm_len(s: Seq<(Seq<char>, SpecValue)>)
    requires
        distinct_keys(s),
    ensures
        entries_to_map(s).dom().finite(),
        entries_to_map(s).dom().len() == s.len(),
    decreases s.len(),
{
    lemma_etm_contains(s, Seq::empty());
    if s.len() == 0 {
        assert(entries_to_map(s).dom() =~= Set::<Seq<char>>::empty());
    } else {
        lemma_etm_len(s.drop_last());
        lemma_etm_contains(s.drop_last(), s.last().0);
        assert(forall|i: int|
            0 <= i < s.drop_last().len() ==> s.drop_last()[i] == s[i] && s[i].0 != s.last().0);
        assert(!entries_to_map(s.drop_last()).contains_key(s.last().0));
        assert(entries_to_map(s).dom() =~= entries_to_map(s.drop_last()).dom().insert(
            s.last().0,
        ));
    }
}

/// With unique keys, first-match lookup agrees with the denoted map.
proof fn lemma_lookup_etm(s: Seq<(Seq<char>, SpecValue)>, k: Seq<char>)
    requires
        distinct_keys(s),
    ensures
        match obj_lookup(s, k) {
            Some(v) => entries_to_map(s).contains_key(k) && entries_to_map(s)[k] == v,
            None => !entries_to_map(s).contains_key(k),
        },
    decreases s.len(),
{
    lemma_etm_contains(s, k);
    if s.len() == 0 {
    } else if s[0].0 == k {
        lemma_etm_value(s, 0);
    } else {
        assert(forall|i: int, j: int|
            0 <= i < j < s.drop_first().len() ==> s.drop_first()[i] == s[i + 1]
                && s.drop_first()[j] == s[j + 1]);
        lemma_lookup_etm(s.drop_first(), k);
        lemma_etm_contains(s.drop_first(), k);
        if entries_to_map(s).contains_key(k) {
            let i = choose|i: int| 0 <= i < s.len() && s[i].0 == k;
            assert(s.drop_first()[i - 1].0 == k);
            let v = obj_lookup(s.drop_first(), k)->Some_0;
            let j = choose|j: int| 0 <= j < s.drop_first().len() && s.drop_first()[j].0 == k;
            lemma_etm_value(s.drop_first(), j);
            lemma_etm_value(s, j + 1);
        }
    }
}

/// Overwriting the entry that holds a key is insertion into the denoted map.
proof fn lemma_etm_update(s: Seq<(Seq<char>, SpecValue)>, i: int, v: SpecValue)
    requires
        distinct_keys(s),
        0 <= i < s.len(),
    ensures
        entries_to_map(s.update(i, (s[i].0, v))) =~= entries_to_map(s).insert(s[i].0, v),
    decreases s.len(),
{
    let t = s.update(i, (s[i].0, v));
    if i == s.len() - 1 {
        assert(t.drop_last() =~= s.drop_last());
        assert(t.last() == (s[i].0, v));
    } else {
        assert(t.drop_last() =~= s.drop_last().update(i, (s[i].0, v)));
        assert(s.drop_last()[i] == s[i]);
        lemma_etm_update(s.drop_last(), i, v);
        assert(t.last() == s.last());
        assert(s[i].0 != s.last().0);
    }
}

/// Dropping the entry that holds a key is removal from the denoted map.
proof fn lemma_etm_remove(s: Seq<(Seq<char>, SpecValue)>, i: int)
    requires
        distinct_keys(s),
        0 <= i < s.len(),
    ensures
        entries_to_map(s.remove(i)) =~= entries_to_map(s).remove(s[i].0),
    decreases s.len(),
{
    lemma_etm_contains(s.drop_last(), s[i].0);
    if i == s.len() - 1 {
        assert(s.remove(i) =~= s.drop_last());
        assert(forall|j: int|
            0 <= j < s.drop_last().len() ==> s.drop_last()[j] == s[j] && s[j].0 != s[i].0);
        assert(!entries_to_map(s.drop_last()).contains_key(s[i].0));
        assert(entries_to_map(s.drop_last()).insert(s[i].0, s[i].1).remove(s[i].0)
            =~= entries_to_map(s.drop_last()));
    } else {
        let t = s.remove(i);
        assert(t.drop_last() =~= s.drop_last().remove(i));
        assert(s.drop_last()[i] == s[i]);
        lemma_etm_remove(s.drop_last(), i);
        assert(t.last() == s.last());
        assert(s[i].0 != s.last().0);
        assert(entries_to_map(s.drop_last()).remove(s[i].0).insert(s.last().0, s.last().1)
            =~= entries_to_map(s.drop_last()).insert(s.last().0, s.last().1).remove(s[i].0));
    }
}

impl View for JsonMap {
    type V = Map<Seq<char>, SpecValue>;

    closed spec fn view(&self) -> Map<Seq<char>, SpecValue> {
        entries_to_map(self.entry_seq())
    }
}

impl JsonMap {
    /// The entry list's view.
    pub closed spec fn entry_seq(&self) -> Seq<(Seq<char>, SpecValue)> {
        spec_obj_entries(self.entries@)
    }

    /// How many entries the map holds.
    pub open spec fn spec_len(&self) -> nat {
        self.entry_seq().len()
    }

    /// The key of the entry at a position.
    pub open spec fn spec_key_at(&self, i: int) -> Seq<char> {
        self.entry_seq()[i].0
    }

    /// The map's entries keep their keys unique.
    pub open spec fn wf(&self) -> bool {
        distinct_keys(self.entry_seq())
    }

    /// The empty map.
    pub fn new() -> (r: JsonMap)
        ensures
            r.wf(),
            r@ == Map::<Seq<char>, SpecValue>::empty(),
            r.spec_len() == 0,
    {
        let r = JsonMap { entries: Vec::new() };
        proof {
            assert(r.entry_seq() =~= Seq::<(Seq<char>, SpecValue)>::empty());
        }
        r
    }

    /// Binds a key to a value, overwriting any existing binding.
    #[verifier::loop_isolation(false)]
    pub fn insert(&mut self, key: String, value: Value)
        requires
            old(self).wf(),
        ensures
            final(self).wf(),
            final(self)@ == old(self)@.insert(key@, value@),
    {
        let ghost s = self.entry_seq();
        let mut i: usize = 0;
        while i < self.entries.len()
            invariant
                *self == *old(self),
                i <= s.len(),
                forall|j: int| 0 <= j < i ==> s[j].0 != key@,
            decreases s.len() - i,
        {
            if self.entries[i].0 == key {
                self.entries.set(i, (key, value));
                proof {
                    assert(self.entry_seq() =~= s.update(i as int, (s[i as int].0, value@)));
                    lemma_etm_update(s, i as int, value@);
                }
                return;
            }
            i += 1;
        }
        self.entries.push((key, value));
        proof {
            assert(self.entry_seq() =~= s.push((key@, value@)));
            assert(self.entry_seq().drop_last() =~= s);
        }
    }

    /// Looks a key up.
    pub fn get<'a>(&'a self, key: &String) -> (r: Option<&'a Value>)
        requires
            self.wf(),
        ensures
            match r {
                Some(v) => self@.contains_key(key@) && self@[key@] == v@,
                None => !self@.contains_key(key@),
            },
    {
        let r = crate::json::obj_get(&self.entries, key);
        proof {
            lemma_lookup_etm(self.entry_seq(), key@);
        }
        r
    }

    /// Whether a key is bound.
    pub fn contains_key(&self, key: &String) -> (r: bool)
        requires
            self.wf(),
        ensures
            r == self@.contains_key(key@),
    {
        match self.get(key) {
            Some(_) => true,
            None => false,
        }
    }

    /// How many keys are bound.
    pub fn len(&self) -> (r: usize)
        requires
            self.wf(),
        ensures
            r == self@.dom().len(),
            r == self.spec_len(),
    {
        proof {
            lemma_etm_len(self.entry_seq());
        }
        self.entries.len()
    }

    /// The entry at a position.
    pub fn entry_at<'a>(&'a self, i: usize) -> (r: &'a (String, Value))
        requires
            i < self.spec_len(),
        ensures
            r.0@ == self.spec_key_at(i as int),
            r.1@ == self.entry_seq()[i as int].1,
            self.wf() ==> self@.contains_key(r.0@) && self@[r.0@] == r.1@,
    {
        proof {
            if self.wf() {
                lemma_etm_value(self.entry_seq(), i as int);
            }
        }
        &self.entries[i]
    }

    /// Unbinds a key, if bound.
    #[verifier::loop_isolation(false)]
    pub fn remove(&mut self, key: &String)
        requires
            old(self).wf(),
        ensures
            final(self).wf(),
            final(self)@ == old(self)@.remove(key@),
    {
        let ghost s = self.entry_seq();
        let mut i: usize = 0;
        while i < self.entries.len()
            invariant
                *self == *old(self),
                i <= s.len(),
                forall|j: int| 0 <= j < i ==> s[j].0 != key@,
            decreases s.len() - i,
        {
            if self.entries[i].0 == *key {
                self.entries.remove(i);
                proof {
                    assert(self.entry_seq() =~= s.remove(i as int));
                    lemma_etm_remove(s, i as int);
                    s.remove_ensures(i as int);
                    assert forall|a: int, b: int|
                        0 <= a < b < self.entry_seq().len()
                        implies self.entry_seq()[a].0 != self.entry_seq()[b].0 by {
                        if a < i as int {
                            assert(self.entry_seq()[a] == s[a]);
                        } else {
                            assert(self.entry_seq()[a] == s[a + 1]);
                        }
                        if b < i as int {
                            assert(self.entry_seq()[b] == s[b]);
                        } else {
                            assert(self.entry_seq()[b] == s[b + 1]);
                        }
                    }
                }
                return;
            }
            i += 1;
        }
        proof {
            lemma_etm_contains(s, key@);
            assert(self@ =~= old(self)@.remove(key@));
        }
    }

    /// Every bound key stands at some entry position.
    pub proof fn lemma_dom(&self)
        requires
            self.wf(),
        ensures
            self@.dom().finite(),
            self@.dom().len() == self.spec_len(),
            forall|k: Seq<char>|
                self@.contains_key(k) <==> exists|i: int|
                    0 <= i < self.spec_len() && self.spec_key_at(i) == k,
    {
        lemma_etm_len(self.entry_seq());
        assert forall|k: Seq<char>| self@.contains_key(k) implies exists|i: int|
            0 <= i < self.spec_len() && self.spec_key_at(i) == k by {
            lemma_etm_contains(self.entry_seq(), k);
            let i = choose|i: int|
                0 <= i < self.entry_seq().len() && self.entry_seq()[i].0 == k;
            assert(self.spec_key_at(i) == k);
        }
        assert forall|k: Seq<char>|
            (exists|i: int| 0 <= i < self.spec_len() && self.spec_key_at(i) == k)
            implies self@.contains_key(k) by {
            lemma_etm_contains(self.entry_seq(), k);
        }
    }
}

} // verus!
