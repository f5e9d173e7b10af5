//! What holds of every dispatch, proved over the model.

use crate::model::{
    case_slot, cases_slot, compares, default_runs, default_slot, entry_cases, hit_slot, last_hit,
    table_slot,
};
use vstd::laws_eq::obeys_concrete_eq;
use vstd::prelude::*;
use vstd::std_specs::cmp::PartialEqSpec;

verus! {

/// Where `==` obeys its `eq_spec`, a comparison has one answer only: the one
/// that `eq_spec` gives.
pub proof fn lemma_compares_eq_spec<V: PartialEq>(candidate: V, subject: V, hit: bool)
    requires
        V::obeys_eq_spec(),
        compares(candidate, subject, hit),
    ensures
        hit == candidate.eq_spec(&subject),
{
}

/// A chain grows as the dispatcher does: one more case at its end is one more
/// step on the slot that the chain before it left.
pub proof fn lemma_cases_push<R, V: PartialEq>(
    subject: V,
    slot: Option<R>,
    cases: Seq<(V, Option<R>)>,
    candidate: V,
    produced: Option<R>,
)
    ensures
        cases_slot(subject, slot, Seq::empty()) == slot,
        cases_slot(subject, slot, cases.push((candidate, produced))) == case_slot(
            cases_slot(subject, slot, cases),
            candidate.eq_spec(&subject),
            produced,
        ),
{
    let longer = cases.push((candidate, produced));
    assert(longer.drop_last() == cases);
    assert(longer.last() == (candidate, produced));
}

/// Cases after the last one that equals the subject change nothing: the slot
/// holds what the producer of that last matching case gave, whatever the
/// earlier cases stored, and the final step goes on from there.
pub proof fn lemma_last_match_wins<R, V: PartialEq>(
    subject: V,
    slot: Option<R>,
    cases: Seq<(V, Option<R>)>,
    i: int,
    fallback: Option<R>,
)
    requires
        0 <= i < cases.len(),
        cases[i].0.eq_spec(&subject),
        forall|j: int| i < j < cases.len() ==> !(#[trigger] cases[j]).0.eq_spec(&subject),
    ensures
        cases_slot(subject, slot, cases) == cases[i].1,
        default_slot(cases_slot(subject, slot, cases), fallback) == default_slot(
            cases[i].1,
            fallback,
        ),
    decreases cases.len(),
{
    if i < cases.len() - 1 {
        let init = cases.drop_last();
        assert(!cases[cases.len() - 1].0.eq_spec(&subject));
        assert(init[i] == cases[i]);
        assert forall|j: int| i < j < init.len() implies !(#[trigger] init[j]).0.eq_spec(
            &subject,
        ) by {
            assert(init[j] == cases[j]);
        }
        lemma_last_match_wins(subject, slot, init, i, fallback);
    }
}

/// Where no candidate equals the subject, the chain of cases leaves the slot
/// as it was. A fresh dispatcher therefore ends with an empty slot.
pub proof fn lemma_no_match<R, V: PartialEq>(
    subject: V,
    slot: Option<R>,
    cases: Seq<(V, Option<R>)>,
)
    requires
        forall|j: int| 0 <= j < cases.len() ==> !(#[trigger] cases[j]).0.eq_spec(&subject),
    ensures
        cases_slot(subject, slot, cases) == slot,
        cases_slot(subject, None, cases) is None,
    decreases cases.len(),
{
    if cases.len() > 0 {
        let init = cases.drop_last();
        assert(!cases[cases.len() - 1].0.eq_spec(&subject));
        assert forall|j: int| 0 <= j < init.len() implies !(#[trigger] init[j]).0.eq_spec(
            &subject,
        ) by {
            assert(init[j] == cases[j]);
        }
        lemma_no_match(subject, slot, init);
        lemma_no_match::<R, V>(subject, None, init);
    }
}

/// Where no candidate equals the subject of a fresh dispatcher, the final
/// step runs its fallback producer and hands back what that gave.
pub proof fn lemma_no_match_default<R, V: PartialEq>(
    subject: V,
    cases: Seq<(V, Option<R>)>,
    fallback: Option<R>,
)
    requires
        forall|j: int| 0 <= j < cases.len() ==> !(#[trigger] cases[j]).0.eq_spec(&subject),
    ensures
        default_runs(cases_slot(subject, None::<R>, cases)),
        default_slot(cases_slot(subject, None, cases), fallback) == fallback,
{
    lemma_no_match::<R, V>(subject, None, cases);
}

/// Where exactly one candidate equals the subject and its producer gave a
/// value, that value is the result: the final step does not run its fallback
/// producer, so the result is the same whatever that producer would give.
pub proof fn lemma_single_match<R, V: PartialEq>(
    subject: V,
    cases: Seq<(V, Option<R>)>,
    i: int,
    fallback: Option<R>,
)
    requires
        0 <= i < cases.len(),
        forall|j: int|
            0 <= j < cases.len() ==> ((#[trigger] cases[j]).0.eq_spec(&subject) <==> j == i),
        cases[i].1 is Some,
    ensures
        cases_slot(subject, None, cases) == cases[i].1,
        !default_runs(cases_slot(subject, None, cases)),
        default_slot(cases_slot(subject, None, cases), fallback) == cases[i].1,
{
    lemma_last_match_wins(subject, None, cases, i, fallback);
}

/// The place of the last hit settles the slot after a chain of entries: the
/// chain stores the value of that entry, or nothing where no entry hit.
pub proof fn lemma_last_hit_slot<R, V: PartialEq>(
    subject: V,
    slot: Option<R>,
    entries: Seq<(V, R)>,
    last: int,
)
    requires
        V::obeys_eq_spec(),
        last_hit(subject, entries, last),
    ensures
        cases_slot(subject, slot, entry_cases(entries)) == hit_slot(slot, entries, last),
{
    let cases = entry_cases(entries);
    if last < 0 {
        assert forall|j: int| 0 <= j < cases.len() implies !(#[trigger] cases[j]).0.eq_spec(
            &subject,
        ) by {
            lemma_compares_eq_spec(entries[j].0, subject, false);
        }
        lemma_no_match(subject, slot, cases);
    } else {
        lemma_compares_eq_spec(entries[last].0, subject, true);
        assert forall|j: int| last < j < cases.len() implies !(#[trigger] cases[j]).0.eq_spec(
            &subject,
        ) by {
            lemma_compares_eq_spec(entries[j].0, subject, false);
        }
        lemma_last_match_wins(subject, slot, cases, last, None);
    }
}

/// Where every case that equals the subject gives the same value, and there
/// is such a case, the slot holds that value after the chain, in whatever
/// order the cases are tried.
pub proof fn lemma_matches_agree<R, V: PartialEq>(
    subject: V,
    slot: Option<R>,
    cases: Seq<(V, Option<R>)>,
    k: int,
    produced: Option<R>,
)
    requires
        0 <= k < cases.len(),
        cases[k].0.eq_spec(&subject),
        forall|j: int|
            0 <= j < cases.len() && (#[trigger] cases[j]).0.eq_spec(&subject) ==> cases[j].1
                == produced,
    ensures
        cases_slot(subject, slot, cases) == produced,
    decreases cases.len(),
{
    let end = cases.len() - 1;
    if !cases[end].0.eq_spec(&subject) {
        let init = cases.drop_last();
        assert(init[k] == cases[k]);
        assert forall|j: int|
            0 <= j < init.len() && (#[trigger] init[j]).0.eq_spec(&subject) implies init[j].1
            == produced by {
            assert(init[j] == cases[j]);
        }
        lemma_matches_agree(subject, slot, init, k, produced);
    }
}

/// A table gives what the chain of its entries gives, in whatever order the
/// entries are tried: the value at the subject where the table has that key,
/// the slot as it was where it has not. Keys are equal only to themselves here.
pub proof fn lemma_table_is_chain<R, V: PartialEq>(
    subject: V,
    slot: Option<R>,
    table: Map<V, R>,
    entries: Seq<(V, R)>,
)
    requires
        obeys_concrete_eq::<V>(),
        entries.to_set() == table.kv_pairs(),
    ensures
        cases_slot(subject, slot, entry_cases(entries)) == table_slot(subject, slot, table),
{
    reveal(obeys_concrete_eq);
    let cases = entry_cases(entries);
    assert forall|j: int| 0 <= j < entries.len() implies table.contains_pair(
        (#[trigger] entries[j]).0,
        entries[j].1,
    ) by {
        assert(entries.to_set().contains(entries[j]));
        assert(table.kv_pairs().contains(entries[j]));
    }
    if table.contains_key(subject) {
        let pair = (subject, table[subject]);
        assert(table.kv_pairs().contains(pair));
        assert(entries.to_set().contains(pair));
        let k = choose|k: int| 0 <= k < entries.len() && entries[k] == pair;
        assert forall|j: int|
            0 <= j < cases.len() && (#[trigger] cases[j]).0.eq_spec(&subject) implies cases[j].1
            == Some(table[subject]) by {
            assert(table.contains_pair(entries[j].0, entries[j].1));
        }
        lemma_matches_agree(subject, slot, cases, k, Some(table[subject]));
    } else {
        assert forall|j: int| 0 <= j < cases.len() implies !(#[trigger] cases[j]).0.eq_spec(
            &subject,
        ) by {
            assert(table.contains_pair(entries[j].0, entries[j].1));
        }
        lemma_no_match(subject, slot, cases);
    }
}

/// On a table, a fresh dispatcher resolves to the value at the subject where
/// the table has that key, and else to what the fallback producer gave.
pub proof fn lemma_table_default<R, V>(subject: V, table: Map<V, R>, fallback: Option<R>)
    ensures
        default_slot(table_slot(subject, None, table), fallback) == (if table.contains_key(
            subject,
        ) {
            Some(table[subject])
        } else {
            fallback
        }),
        table.contains_key(subject) ==> !default_runs(table_slot(subject, None::<R>, table)),
{
}

} // verus!
