//! Scores by name, in the order in which the names first appeared.
//!
//! The tables are `indexmap::IndexMap`s. A score is carried as its decimal text.

use indexmap::IndexMap;
use vstd::prelude::*;

verus! {

/// The insertion-ordered map of the `indexmap` crate.
#[verifier::external_type_specification]
#[verifier::external_body]
#[verifier::reject_recursive_types(K)]
#[verifier::reject_recursive_types(V)]
#[verifier::reject_recursive_types(S)]
pub struct ExIndexMap<K, V, S>(indexmap::IndexMap<K, V, S>);

/// A score for each metric.
pub type Metrics = IndexMap<String, String>;

/// The scores of each metric, for each evaluated matrix.
pub type Evaluation = IndexMap<String, IndexMap<String, String>>;

/// The entries of a table of metrics, in order.
pub uninterp spec fn metric_scores(m: IndexMap<String, String>) -> Seq<(Seq<char>, Seq<char>)>;

/// The entries of an evaluation, in order.
pub uninterp spec fn evaluation_scores(
    m: IndexMap<String, IndexMap<String, String>>,
) -> Seq<(Seq<char>, Seq<(Seq<char>, Seq<char>)>)>;

/// The index of the first entry under `key`, or the number of entries if there is none.
pub open spec fn position<V>(s: Seq<(Seq<char>, V)>, key: Seq<char>) -> int
    decreases s.len(),
{
    if s.len() == 0 {
        0
    } else if position(s.drop_last(), key) < s.len() - 1 {
        position(s.drop_last(), key)
    } else if s.last().0 == key {
        s.len() - 1
    } else {
        s.len() as int
    }
}

/// The value under `key`.
pub open spec fn lookup<V>(s: Seq<(Seq<char>, V)>, key: Seq<char>) -> Option<V> {
    if position(s, key) < s.len() {
        Some(s[position(s, key)].1)
    } else {
        None
    }
}

/// `s` with `value` under `key`: an entry that is there keeps its place, a new one goes last.
pub open spec fn upsert<V>(s: Seq<(Seq<char>, V)>, key: Seq<char>, value: V) -> Seq<
    (Seq<char>, V),
> {
    if position(s, key) < s.len() {
        s.update(position(s, key), (key, value))
    } else {
        s.push((key, value))
    }
}

/// `s` without its entry `i`, whose place the last entry takes.
pub open spec fn swap_removed<V>(s: Seq<(Seq<char>, V)>, i: int) -> Seq<(Seq<char>, V)> {
    s.update(i, s.last()).drop_last()
}

/// `IndexMap::new`, for an evaluation: a table without entries.
#[verifier::external_body]
pub(crate) fn evaluation_new() -> (r: Evaluation)
    ensures
        evaluation_scores(r) == Seq::<(Seq<char>, Seq<(Seq<char>, Seq<char>)>)>::empty(),
{
    IndexMap::new()
}

/// `IndexMap::insert`: an equal key keeps its place and gets the new value; a new key goes
/// last.
#[verifier::external_body]
pub(crate) fn metrics_insert(m: &mut Metrics, key: String, value: String)
    ensures
        metric_scores(*final(m)) == upsert(metric_scores(*old(m)), key@, value@),
{
    m.insert(key, value);
}

/// `IndexMap::entry`, followed by `Entry::or_default`: the value under `key`, which is put
/// there, empty and last, if there is none. What is then written through the result is in
/// the table under `key`.
#[verifier::external_body]
pub(crate) fn evaluation_entry<'a>(m: &'a mut Evaluation, key: String) -> (r: &'a mut Metrics)
    ensures
        metric_scores(*r) == (match lookup(evaluation_scores(*old(m)), key@) {
            Some(scores) => scores,
            None => Seq::<(Seq<char>, Seq<char>)>::empty(),
        }),
        evaluation_scores(*final(m)) == upsert(
            evaluation_scores(*old(m)),
            key@,
            metric_scores(*final(r)),
        ),
{
    m.entry(key).or_default()
}

/// `IndexMap::iter`, for metrics: the entries, in order.
#[verifier::external_body]
pub(crate) fn metrics_entries<'a>(m: &'a Metrics) -> (r: Vec<(&'a String, &'a String)>)
    ensures
        r@.len() == metric_scores(*m).len(),
        forall|i: int|
            0 <= i < r@.len() ==> (#[trigger] r@[i]).0@ == metric_scores(*m)[i].0 && r@[i].1@
                == metric_scores(*m)[i].1,
{
    m.iter().collect()
}

/// `IndexMap::iter`, for an evaluation: the entries, in order.
#[verifier::external_body]
pub(crate) fn evaluation_entries<'a>(m: &'a Evaluation) -> (r: Vec<(&'a String, &'a Metrics)>)
    ensures
        r@.len() == evaluation_scores(*m).len(),
        forall|i: int|
            0 <= i < r@.len() ==> (#[trigger] r@[i]).0@ == evaluation_scores(*m)[i].0
                && metric_scores(*r@[i].1) == evaluation_scores(*m)[i].1,
{
    m.iter().collect()
}

/// `IndexMap::swap_remove`: takes out the value under `key`; the last entry moves into its
/// place.
#[verifier::external_body]
pub(crate) fn evaluation_swap_remove(m: &mut Evaluation, key: &str) -> (r: Option<Metrics>)
    ensures
        match lookup(evaluation_scores(*old(m)), key@) {
            Some(scores) => r matches Some(metrics) && metric_scores(metrics) == scores
                && evaluation_scores(*final(m)) == swap_removed(
                evaluation_scores(*old(m)),
                position(evaluation_scores(*old(m)), key@),
            ),
            None => r is None && evaluation_scores(*final(m)) == evaluation_scores(*old(m)),
        },
{
    m.swap_remove(key)
}

/// Where a key is found, and what `upsert` leaves: the value under the key, the other keys
/// where they were, and nothing new on a second go.
pub proof fn lemma_upsert<V>(s: Seq<(Seq<char>, V)>, key: Seq<char>, value: V)
    ensures
        lookup(upsert(s, key, value), key) == Some(value),
        upsert(upsert(s, key, value), key, value) == upsert(s, key, value),
{
    let t = upsert(s, key, value);
    lemma_position(s, key);
    lemma_position(t, key);
    if position(s, key) < s.len() {
        let i = position(s, key);
        assert(t[i].0 == key);
        assert(position(t, key) == i) by {
            if position(t, key) < i {
                assert(t[position(t, key)] == s[position(t, key)]);
            }
        }
    } else {
        assert(t[s.len() as int].0 == key);
        assert(position(t, key) == s.len()) by {
            if position(t, key) < s.len() {
                assert(t[position(t, key)] == s[position(t, key)]);
            }
        }
    }
    assert(upsert(t, key, value) =~= t);
}

/// A position is the first under the key; without one, no entry is under the key.
pub proof fn lemma_position<V>(s: Seq<(Seq<char>, V)>, key: Seq<char>)
    ensures
        0 <= position(s, key) <= s.len(),
        position(s, key) < s.len() ==> s[position(s, key)].0 == key,
        forall|i: int| 0 <= i < position(s, key) ==> (#[trigger] s[i]).0 != key,
    decreases s.len(),
{
    if s.len() > 0 {
        lemma_position(s.drop_last(), key);
        assert forall|i: int| 0 <= i < position(s, key) implies (#[trigger] s[i]).0 != key by {
            if i < s.len() - 1 {
                assert(s.drop_last()[i] == s[i]);
            }
        }
    }
}

} // verus!
