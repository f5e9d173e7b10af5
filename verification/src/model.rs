//! The mathematical model of a dispatch.
//!
//! A dispatcher is a subject and a result slot. Every step of a dispatch is a
//! function from the slot before it to the slot after it, and the functions
//! here are those steps. The contracts of the dispatchers are written over
//! them.

use vstd::prelude::*;
use vstd::std_specs::cmp::PartialEqSpec;

verus! {

/// Whether the comparison `candidate == subject` can evaluate to `hit`.
///
/// For a type whose `==` obeys its `eq_spec`, the only such `hit` is
/// `candidate.eq_spec(&subject)`. For any other type this is as much as is
/// known of its `==`.
pub open spec fn compares<V: PartialEq>(candidate: V, subject: V, hit: bool) -> bool {
    call_ensures(V::eq, (&candidate, &subject), hit)
}

/// The slot after one case. A case that hits stores what its producer gave,
/// over whatever the slot held; a case that misses leaves the slot alone.
pub open spec fn case_slot<R>(slot: Option<R>, hit: bool, produced: Option<R>) -> Option<R> {
    if hit {
        produced
    } else {
        slot
    }
}

/// Whether the final step runs its fallback producer: only on an empty slot.
pub open spec fn default_runs<R>(slot: Option<R>) -> bool {
    slot is None
}

/// The value that the final step hands back, where `produced` is what the
/// fallback producer gives when it runs.
pub open spec fn default_slot<R>(slot: Option<R>, produced: Option<R>) -> Option<R> {
    if default_runs(slot) {
        produced
    } else {
        slot
    }
}

/// The slot after a chain of cases, tried in order from the first. A case is a
/// candidate and what its producer gives.
pub open spec fn cases_slot<R, V: PartialEq>(
    subject: V,
    slot: Option<R>,
    cases: Seq<(V, Option<R>)>,
) -> Option<R>
    decreases cases.len(),
{
    if cases.len() == 0 {
        slot
    } else {
        case_slot(
            cases_slot(subject, slot, cases.drop_last()),
            cases.last().0.eq_spec(&subject),
            cases.last().1,
        )
    }
}

/// The entries of a table read as cases: each key is a candidate whose
/// producer gives the entry's value.
pub open spec fn entry_cases<R, V>(entries: Seq<(V, R)>) -> Seq<(V, Option<R>)> {
    entries.map_values(|entry: (V, R)| (entry.0, Some(entry.1)))
}

/// Whether `last` is the place of the last entry that hits `subject`, or -1
/// where every comparison missed.
pub open spec fn last_hit<R, V: PartialEq>(subject: V, entries: Seq<(V, R)>, last: int) -> bool {
    &&& -1 <= last < entries.len()
    &&& last >= 0 ==> compares(entries[last].0, subject, true)
    &&& forall|j: int| last < j < entries.len() ==> compares(#[trigger] entries[j].0, subject, false)
}

/// The slot after the entries were tried in order, given the place of the
/// last hit.
pub open spec fn hit_slot<R, V>(slot: Option<R>, entries: Seq<(V, R)>, last: int) -> Option<R> {
    if last < 0 {
        slot
    } else {
        Some(entries[last].1)
    }
}

/// Whether `entries` holds the pairs of `table`, each once, in some order.
pub open spec fn is_walk_of<R, V>(entries: Seq<(V, R)>, table: Map<V, R>) -> bool {
    &&& entries.no_duplicates()
    &&& entries.to_set() == table.kv_pairs()
}

/// The slot after a table was applied: the value at the subject where the
/// table has that key, the slot as it was where it has not.
pub open spec fn table_slot<R, V>(subject: V, slot: Option<R>, table: Map<V, R>) -> Option<R> {
    if table.contains_key(subject) {
        Some(table[subject])
    } else {
        slot
    }
}

} // verus!
