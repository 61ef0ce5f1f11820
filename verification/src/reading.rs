//! What an evaluation line says, taken as a whole.

use crate::evaluation::{
    belongs_to, entry_pieces, entry_scores, law_entry_is_metric_and_score, line_parts, line_scores,
    put_part, put_parts, put_score, ScoreTable,
};
use crate::scores::{lemma_position, lookup, position, upsert};
use vstd::prelude::*;

verus! {

/// What a part says: a score under a metric, for each of the names that the part belongs to.
pub open spec fn part_entries(part: Seq<char>, names: Seq<Seq<char>>) -> Seq<
    (Seq<char>, Seq<char>, Seq<char>),
>
    decreases names.len(),
{
    if names.len() == 0 {
        Seq::empty()
    } else {
        let before = part_entries(part, names.drop_last());
        if belongs_to(part, names.last()) {
            let pieces = entry_pieces(part, names.last());
            before.push((names.last(), pieces[0], pieces[1]))
        } else {
            before
        }
    }
}

/// What the parts say, in order.
pub open spec fn parts_entries(parts: Seq<Seq<char>>, names: Seq<Seq<char>>) -> Seq<
    (Seq<char>, Seq<char>, Seq<char>),
>
    decreases parts.len(),
{
    if parts.len() == 0 {
        Seq::empty()
    } else {
        parts_entries(parts.drop_last(), names) + part_entries(parts.last(), names)
    }
}

/// What a line says of the names, in order: each entry's matrix, metric and score.
pub open spec fn line_entries(eval: Seq<char>, names: Seq<Seq<char>>) -> Seq<
    (Seq<char>, Seq<char>, Seq<char>),
> {
    parts_entries(line_parts(eval), names)
}

/// The texts without repetitions, in the order in which each is first seen.
pub open spec fn first_seen(s: Seq<Seq<char>>) -> Seq<Seq<char>>
    decreases s.len(),
{
    if s.len() == 0 {
        Seq::empty()
    } else {
        let before = first_seen(s.drop_last());
        if before.contains(s.last()) {
            before
        } else {
            before.push(s.last())
        }
    }
}

/// The matrices of the entries.
pub open spec fn entry_names(entries: Seq<(Seq<char>, Seq<char>, Seq<char>)>) -> Seq<Seq<char>> {
    entries.map_values(|e: (Seq<char>, Seq<char>, Seq<char>)| e.0)
}

/// The metrics of the entries of one matrix.
pub open spec fn entry_metrics(
    entries: Seq<(Seq<char>, Seq<char>, Seq<char>)>,
    name: Seq<char>,
) -> Seq<Seq<char>>
    decreases entries.len(),
{
    if entries.len() == 0 {
        Seq::empty()
    } else if entries.last().0 == name {
        entry_metrics(entries.drop_last(), name).push(entries.last().1)
    } else {
        entry_metrics(entries.drop_last(), name)
    }
}

/// The score of the last entry of the matrix and the metric.
pub open spec fn last_score(
    entries: Seq<(Seq<char>, Seq<char>, Seq<char>)>,
    name: Seq<char>,
    metric: Seq<char>,
) -> Option<Seq<char>>
    decreases entries.len(),
{
    if entries.len() == 0 {
        None
    } else if entries.last().0 == name && entries.last().1 == metric {
        Some(entries.last().2)
    } else {
        last_score(entries.drop_last(), name, metric)
    }
}

/// The keys of a table, in order.
pub open spec fn keys<V>(s: Seq<(Seq<char>, V)>) -> Seq<Seq<char>> {
    s.map_values(|e: (Seq<char>, V)| e.0)
}

/// The metrics under a matrix, with their scores; none where the matrix is not in the table.
pub open spec fn metrics_under(table: ScoreTable, name: Seq<char>) -> Seq<(Seq<char>, Seq<char>)> {
    match lookup(table, name) {
        Some(metrics) => metrics,
        None => Seq::empty(),
    }
}

proof fn lemma_position_by_keys<V>(s: Seq<(Seq<char>, V)>, t: Seq<(Seq<char>, V)>, key: Seq<char>)
    requires
        keys(s) == keys(t),
    ensures
        position(s, key) == position(t, key),
    decreases s.len(),
{
    assert(keys(s).len() == s.len() && keys(t).len() == t.len());
    if s.len() > 0 {
        assert(keys(s.drop_last()) =~= keys(s).drop_last());
        assert(keys(t.drop_last()) =~= keys(t).drop_last());
        assert(keys(s).last() == s.last().0 && keys(t).last() == t.last().0);
        lemma_position_by_keys(s.drop_last(), t.drop_last(), key);
    }
}

/// What `upsert` does to the keys and to what stands under each.
proof fn lemma_upsert_keys<V>(s: Seq<(Seq<char>, V)>, key: Seq<char>, value: V, other: Seq<char>)
    ensures
        keys(upsert(s, key, value)) == (if keys(s).contains(key) {
            keys(s)
        } else {
            keys(s).push(key)
        }),
        lookup(upsert(s, key, value), other) == (if other == key {
            Some(value)
        } else {
            lookup(s, other)
        }),
{
    let t = upsert(s, key, value);
    lemma_position(s, key);
    lemma_position(t, key);
    lemma_position(s, other);
    assert(keys(s).contains(key) <==> position(s, key) < s.len()) by {
        if keys(s).contains(key) {
            let i = choose|i: int| 0 <= i < keys(s).len() && keys(s)[i] == key;
            assert(s[i].0 == key);
        }
        if position(s, key) < s.len() {
            assert(keys(s)[position(s, key)] == key);
        }
    }
    if position(s, key) < s.len() {
        assert(keys(t) =~= keys(s));
        lemma_position_by_keys(s, t, other);
        lemma_position_by_keys(s, t, key);
    } else {
        assert(keys(t) =~= keys(s).push(key));
        assert(t.drop_last() =~= s);
    }
}

proof fn lemma_part_entries(
    entries: Seq<(Seq<char>, Seq<char>, Seq<char>)>,
    part: Seq<char>,
    names: Seq<Seq<char>>,
)
    ensures
        put_part(entry_scores(entries), part, names) == entry_scores(
            entries + part_entries(part, names),
        ),
    decreases names.len(),
{
    if names.len() == 0 {
        assert(entries + part_entries(part, names) =~= entries);
    } else {
        lemma_part_entries(entries, part, names.drop_last());
        if belongs_to(part, names.last()) {
            let all = entries + part_entries(part, names);
            assert(all.drop_last() =~= entries + part_entries(part, names.drop_last()));
        }
    }
}

proof fn lemma_parts_entries(parts: Seq<Seq<char>>, names: Seq<Seq<char>>)
    ensures
        put_parts(parts, names) == entry_scores(parts_entries(parts, names)),
    decreases parts.len(),
{
    if parts.len() > 0 {
        lemma_parts_entries(parts.drop_last(), names);
        lemma_part_entries(parts_entries(parts.drop_last(), names), parts.last(), names);
    }
}

/// Entries that are put into a table one after the other leave this: the matrices in the order
/// of their first entries; under each its metrics in the order of their first entries; under
/// each of those the score of the last entry; and nothing else.
pub proof fn law_table_of_entries(
    entries: Seq<(Seq<char>, Seq<char>, Seq<char>)>,
    name: Seq<char>,
    metric: Seq<char>,
)
    ensures
        keys(entry_scores(entries)) == first_seen(entry_names(entries)),
        keys(metrics_under(entry_scores(entries), name)) == first_seen(
            entry_metrics(entries, name),
        ),
        lookup(metrics_under(entry_scores(entries), name), metric) == last_score(
            entries,
            name,
            metric,
        ),
    decreases entries.len(),
{
    if entries.len() == 0 {
        assert(entry_names(entries) =~= Seq::empty());
        assert(keys(entry_scores(entries)) =~= Seq::empty());
        assert(metrics_under(entry_scores(entries), name) =~= Seq::empty());
        assert(keys(metrics_under(entry_scores(entries), name)) =~= Seq::empty());
    } else {
        let rest = entries.drop_last();
        let e = entries.last();
        let table = entry_scores(rest);
        law_table_of_entries(rest, name, metric);
        let metrics = metrics_under(table, e.0);
        assert(entry_scores(entries) == put_score(table, e.0, e.1, e.2));
        lemma_upsert_keys(table, e.0, upsert(metrics, e.1, e.2), name);
        lemma_upsert_keys(metrics, e.1, e.2, metric);
        assert(entry_names(entries).drop_last() =~= entry_names(rest));
        assert(entry_names(entries).last() == e.0);
        if e.0 == name {
            assert(entry_metrics(entries, name).drop_last() =~= entry_metrics(rest, name));
        }
    }
}

/// A line's table holds what the line says of the names: the matrices and the metrics in the
/// order of their first entries, under each metric the score of its last entry, and nothing
/// else.
pub proof fn law_table_of_a_line(
    eval: Seq<char>,
    names: Seq<Seq<char>>,
    name: Seq<char>,
    metric: Seq<char>,
)
    ensures
        keys(line_scores(eval, names)) == first_seen(entry_names(line_entries(eval, names))),
        keys(metrics_under(line_scores(eval, names), name)) == first_seen(
            entry_metrics(line_entries(eval, names), name),
        ),
        lookup(metrics_under(line_scores(eval, names), name), metric) == last_score(
            line_entries(eval, names),
            name,
            metric,
        ),
{
    lemma_parts_entries(line_parts(eval), names);
    law_table_of_entries(line_entries(eval, names), name, metric);
}

/// A score that is put into a table stands under its matrix and metric, and everything else
/// stands as it stood.
pub proof fn law_put_score_changes_one_place(
    table: ScoreTable,
    name: Seq<char>,
    metric: Seq<char>,
    score: Seq<char>,
    other_name: Seq<char>,
    other_metric: Seq<char>,
)
    ensures
        lookup(metrics_under(put_score(table, name, metric, score), name), metric) == Some(score),
        other_name != name || other_metric != metric ==> lookup(
            metrics_under(put_score(table, name, metric, score), other_name),
            other_metric,
        ) == lookup(metrics_under(table, other_name), other_metric),
{
    let metrics = metrics_under(table, name);
    lemma_upsert_keys(table, name, upsert(metrics, metric, score), name);
    lemma_upsert_keys(table, name, upsert(metrics, metric, score), other_name);
    lemma_upsert_keys(metrics, metric, score, metric);
    lemma_upsert_keys(metrics, metric, score, other_metric);
}

proof fn lemma_other_names_unchanged(
    table: ScoreTable,
    name: Seq<char>,
    metric: Seq<char>,
    score: Seq<char>,
    other: Seq<char>,
)
    requires
        other != name,
    ensures
        metrics_under(put_score(table, name, metric, score), other) == metrics_under(table, other),
{
    lemma_upsert_keys(table, name, upsert(metrics_under(table, name), metric, score), other);
}

/// A part that is no name with a dash and more behind it says nothing of that name, nor does any
/// part of a name that is not listed.
pub proof fn law_part_is_silent_on_other_names(
    table: ScoreTable,
    part: Seq<char>,
    names: Seq<Seq<char>>,
    name: Seq<char>,
)
    requires
        !(name + seq!['-']).is_prefix_of(part) || !names.contains(name),
    ensures
        metrics_under(put_part(table, part, names), name) == metrics_under(table, name),
    decreases names.len(),
{
    if names.len() > 0 {
        let rest = names.drop_last();
        if !names.contains(name) {
            assert(!rest.contains(name)) by {
                assert forall|i: int| 0 <= i < rest.len() implies rest[i] != name by {
                    assert(names.contains(names[i]));
                }
            }
        }
        law_part_is_silent_on_other_names(table, part, rest, name);
        let last = names.last();
        if belongs_to(part, last) {
            if last == name {
                assert(names[names.len() - 1] == name);
                assert(name + seq!['-'] =~= part.subrange(0, name.len() as int + 1)) by {
                    assert forall|i: int| 0 <= i < name.len() implies name[i] == part[i] by {
                        assert(part.take(name.len() as int)[i] == name[i]);
                    }
                }
            } else {
                let pieces = entry_pieces(part, last);
                lemma_other_names_unchanged(
                    put_part(table, part, rest),
                    last,
                    pieces[0],
                    pieces[1],
                    name,
                );
            }
        }
    }
}

/// A part that is a listed name, a dash, a metric, a colon and a score puts that score under the
/// name and the metric, whatever other names are listed, and changes no other metric of the name.
pub proof fn law_part_speaks_for_its_name(
    table: ScoreTable,
    names: Seq<Seq<char>>,
    name: Seq<char>,
    metric: Seq<char>,
    score: Seq<char>,
    other: Seq<char>,
)
    requires
        names.contains(name),
        !metric.contains(':'),
        !score.contains(':'),
    ensures
        ({
            let part = name + seq!['-'] + metric + seq![':'] + score;
            let after = metrics_under(put_part(table, part, names), name);
            &&& lookup(after, metric) == Some(score)
            &&& other != metric ==> lookup(after, other) == lookup(
                metrics_under(table, name),
                other,
            )
        }),
    decreases names.len(),
{
    let part = name + seq!['-'] + metric + seq![':'] + score;
    let rest = names.drop_last();
    let last = names.last();
    let before = put_part(table, part, rest);
    law_entry_is_metric_and_score(name, metric, score);
    if rest.contains(name) {
        law_part_speaks_for_its_name(table, rest, name, metric, score, other);
    } else {
        law_part_is_silent_on_other_names(table, part, rest, name);
        let i = choose|i: int| 0 <= i < names.len() && names[i] == name;
        if i < rest.len() {
            assert(rest[i] == name);
        }
        assert(last == name);
    }
    if belongs_to(part, last) {
        let pieces = entry_pieces(part, last);
        if last == name {
            law_put_score_changes_one_place(before, name, metric, score, name, other);
        } else {
            lemma_other_names_unchanged(before, last, pieces[0], pieces[1], name);
        }
    }
}

} // verus!
