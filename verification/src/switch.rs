//! The two dispatchers.
//!
//! A dispatcher holds a subject and a result slot that starts empty. Cases
//! fill the slot where their candidate equals the subject, and `default`
//! ends the dispatch: it falls back on one more producer where the slot is
//! still empty, and hands the slot's value back.
//!
//! A case does not end the dispatch. Every later case whose candidate equals
//! the subject stores over what an earlier one left, so the last such case
//! is the one that counts.

use crate::lemmas::{lemma_last_hit_slot, lemma_table_is_chain};
use crate::model::{
    case_slot, cases_slot, compares, default_runs, default_slot, entry_cases, hit_slot,
    is_walk_of, last_hit, table_slot,
};
use std::collections::HashMap;
use vstd::laws_eq::obeys_concrete_eq;
use vstd::prelude::*;
use vstd::std_specs::cmp::PartialEqSpec;
use vstd::std_specs::hash::obeys_key_model;

verus! {

/// A dispatcher whose cases are tried one at a time, in the order in which
/// they are written.
pub struct Switch<R, V: PartialEq + Clone> {
    /// The subject: the value that the candidates are compared with.
    pub value: V,
    /// The result slot.
    pub result: Option<R>,
}

impl<R, V: PartialEq + Clone> Switch<R, V> {
    /// A dispatcher on `value` with an empty slot.
    pub fn make(value: V) -> (out: Self)
        ensures
            out.value == value,
            out.result is None,
    {
        Self { value, result: None }
    }

    /// A table dispatcher on a clone of this dispatcher's subject, with
    /// `hash_map` applied to it. It starts from an empty slot: what this
    /// dispatcher's slot holds is not carried over.
    pub fn into_hash_map_switch(&self, hash_map: HashMap<V, R>) -> (out: HashMapSwitch<R, V>)
        ensures
            cloned(self.value, out.value()),
            exists|walk: Seq<(V, R)>, last: int|
                {
                    &&& obeys_key_model::<V>() ==> is_walk_of(walk, hash_map@)
                    &&& #[trigger] last_hit(out.value(), walk, last)
                    &&& out.result() == hit_slot(None, walk, last)
                },
            obeys_key_model::<V>() && obeys_concrete_eq::<V>() ==> out.result() == table_slot(
                out.value(),
                None,
                hash_map@,
            ),
    {
        HashMapSwitch::make(self.value.clone()).hash_case(hash_map)
    }

    /// Tries one case: where `comp` equals the subject, runs `r` and stores
    /// what it gave, over whatever the slot held; else leaves the dispatcher
    /// as it was.
    ///
    /// The producer has to be callable only where the comparison can hit, and
    /// it is run on a hit only, once.
    pub fn case<F: FnOnce() -> Option<R>>(self, comp: V, r: F) -> (out: Self)
        requires
            compares(comp, self.value, true) ==> r.requires(()),
        ensures
            out.value == self.value,
            exists|hit: bool|
                {
                    &&& #[trigger] compares(comp, self.value, hit)
                    &&& hit ==> r.ensures((), out.result)
                    &&& out.result == case_slot(self.result, hit, out.result)
                },
    {
        let mut this = self;
        let hit = comp == this.value;
        assert(compares(comp, self.value, hit));
        if hit {
            this.result = r();
        }
        this
    }

    /// Ends the dispatch: where the slot is still empty, runs `r` and hands
    /// back what it gave; else hands back the slot's value.
    ///
    /// The producer has to be callable only where the slot is empty, and it is
    /// not run on a filled slot.
    pub fn default<F: FnOnce() -> Option<R>>(self, r: F) -> (out: Option<R>)
        requires
            default_runs(self.result) ==> r.requires(()),
        ensures
            default_runs(self.result) ==> r.ensures((), out),
            out == default_slot(self.result, out),
    {
        if self.result.is_none() {
            r()
        } else {
            self.result
        }
    }
}

/// Moves the pairs out of a hash map into a vector, in the order in which
/// `HashMap::into_iter` walks the map.
///
/// Trusted, not proved: for a key type that fits the hash map model, the
/// vector holds the pairs of the map, each of them once. Nothing is said of
/// their order, which std leaves open.
#[verifier::external_body]
fn into_entries<R, V>(table: HashMap<V, R>) -> (entries: Vec<(V, R)>)
    ensures
        obeys_key_model::<V>() ==> is_walk_of(entries@, table@),
{
    table.into_iter().collect()
}

/// A dispatcher that takes its cases as a table from candidates to values,
/// all at once.
pub struct HashMapSwitch<R, V: PartialEq> {
    value: V,
    result: Option<R>,
}

impl<R, V: PartialEq> HashMapSwitch<R, V> {
    /// The subject.
    pub closed spec fn value(&self) -> V {
        self.value
    }

    /// What the result slot holds.
    pub closed spec fn result(&self) -> Option<R> {
        self.result
    }

    /// A dispatcher on `value` with an empty slot.
    pub fn make(value: V) -> (out: Self)
        ensures
            out.value() == value,
            out.result() is None,
    {
        Self { value, result: None }
    }

    /// Tries the entries in order, each as a case that gives its value: the
    /// slot ends with the value of the last entry whose key equals the
    /// subject, or as it was where no key does.
    pub fn entries_case(self, entries: Vec<(V, R)>) -> (out: Self)
        ensures
            out.value() == self.value(),
            exists|last: int|
                {
                    &&& #[trigger] last_hit(self.value(), entries@, last)
                    &&& out.result() == hit_slot(self.result(), entries@, last)
                },
            V::obeys_eq_spec() ==> out.result() == cases_slot(
                self.value(),
                self.result(),
                entry_cases(entries@),
            ),
    {
        let ghost mut last: int = -1;
        let mut this = self;
        for entry in it: entries
            invariant
                this.value == self.value,
                -1 <= last < it.index(),
                last >= 0 ==> compares(entries@[last].0, self.value, true),
                forall|j: int|
                    last < j < it.index() ==> compares(#[trigger] entries@[j].0, self.value, false),
                this.result == hit_slot(self.result, entries@, last),
        {
            let (key, value) = entry;
            let hit = key == this.value;
            assert(compares(key, self.value, hit));
            if hit {
                this.result = Some(value);
                proof {
                    last = it.index();
                }
            }
        }
        proof {
            assert(last_hit(self.value(), entries@, last));
            if V::obeys_eq_spec() {
                lemma_last_hit_slot(self.value(), self.result(), entries@, last);
            }
        }
        this
    }

    /// Applies a table: where it has the subject as a key, the slot ends with
    /// the value at that key; else the slot stays as it was.
    ///
    /// The table is walked pair by pair, in an order that the map does not
    /// promise, and the pairs are tried as `entries_case` tries them. For key
    /// types that fit the hash map model and are equal only to themselves the
    /// result does not depend on the order, since a map holds a key once.
    pub fn hash_case(self, hash_map: HashMap<V, R>) -> (out: Self)
        ensures
            out.value() == self.value(),
            exists|walk: Seq<(V, R)>, last: int|
                {
                    &&& obeys_key_model::<V>() ==> is_walk_of(walk, hash_map@)
                    &&& #[trigger] last_hit(self.value(), walk, last)
                    &&& out.result() == hit_slot(self.result(), walk, last)
                },
            obeys_key_model::<V>() && obeys_concrete_eq::<V>() ==> out.result() == table_slot(
                self.value(),
                self.result(),
                hash_map@,
            ),
    {
        let entries = into_entries(hash_map);
        let out = self.entries_case(entries);
        proof {
            if obeys_key_model::<V>() && obeys_concrete_eq::<V>() {
                assert(V::obeys_eq_spec()) by {
                    reveal(obeys_concrete_eq);
                }
                lemma_table_is_chain(self.value(), self.result(), hash_map@, entries@);
            }
        }
        out
    }

    /// Ends the dispatch: where the slot is still empty, runs `r` and hands
    /// back what it gave; else hands back the slot's value.
    ///
    /// The producer has to be callable only where the slot is empty, and it is
    /// not run on a filled slot.
    pub fn default<F: FnOnce() -> Option<R>>(self, r: F) -> (out: Option<R>)
        requires
            default_runs(self.result()) ==> r.requires(()),
        ensures
            default_runs(self.result()) ==> r.ensures((), out),
            out == default_slot(self.result(), out),
    {
        if self.result.is_none() {
            r()
        } else {
            self.result
        }
    }
}

} // verus!
