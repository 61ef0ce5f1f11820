//! The line that reports a round's evaluation.

use crate::evaluation::{
    entry_pieces, entry_text, line_parts, line_scores, line_text, put_part, put_parts, put_score,
    ScoreTable,
};
use crate::scores::{
    evaluation_entries, evaluation_scores, lemma_position, lookup, metric_scores, metrics_entries,
    position, upsert, Evaluation, Metrics,
};
use crate::text::{
    is_less, lemma_text_order_total, lemma_text_order_transitive, push_signed, signed_decimal,
    text_less,
};
use vstd::prelude::*;

verus! {

broadcast use vstd::string::group_string_axioms;

/// A score, with the matrix and the metric that it is of.
pub struct Entry {
    pub name: String,
    pub metric: String,
    pub score: String,
}

impl View for Entry {
    type V = (Seq<char>, Seq<char>, Seq<char>);

    open spec fn view(&self) -> (Seq<char>, Seq<char>, Seq<char>) {
        (self.name@, self.metric@, self.score@)
    }
}

/// The entries as values.
pub open spec fn entry_views(v: Seq<Entry>) -> Seq<(Seq<char>, Seq<char>, Seq<char>)> {
    v.map_values(|e: Entry| e@)
}

/// Entries go by metric, and by matrix within a metric.
pub open spec fn entry_less(
    a: (Seq<char>, Seq<char>, Seq<char>),
    b: (Seq<char>, Seq<char>, Seq<char>),
) -> bool {
    text_less(a.1, b.1) || (a.1 == b.1 && text_less(a.0, b.0))
}

/// Two entries are of the same metric and the same matrix.
pub open spec fn same_place(
    a: (Seq<char>, Seq<char>, Seq<char>),
    b: (Seq<char>, Seq<char>, Seq<char>),
) -> bool {
    a.0 == b.0 && a.1 == b.1
}

/// Ordered entries with one more, in its place; it takes the place of one that is there.
pub open spec fn placed(
    entries: Seq<(Seq<char>, Seq<char>, Seq<char>)>,
    e: (Seq<char>, Seq<char>, Seq<char>),
) -> Seq<(Seq<char>, Seq<char>, Seq<char>)>
    decreases entries.len(),
{
    if entries.len() == 0 {
        seq![e]
    } else if same_place(entries.last(), e) {
        entries.drop_last().push(e)
    } else if entry_less(entries.last(), e) {
        entries.push(e)
    } else {
        placed(entries.drop_last(), e).push(entries.last())
    }
}

/// The scores of one matrix, put among ordered entries.
pub open spec fn placed_metrics(
    entries: Seq<(Seq<char>, Seq<char>, Seq<char>)>,
    name: Seq<char>,
    metrics: Seq<(Seq<char>, Seq<char>)>,
) -> Seq<(Seq<char>, Seq<char>, Seq<char>)>
    decreases metrics.len(),
{
    if metrics.len() == 0 {
        entries
    } else {
        placed(
            placed_metrics(entries, name, metrics.drop_last()),
            (name, metrics.last().0, metrics.last().1),
        )
    }
}

/// The scores of a table, ordered by metric and by matrix.
pub open spec fn ordered_entries(table: ScoreTable) -> Seq<(Seq<char>, Seq<char>, Seq<char>)>
    decreases table.len(),
{
    if table.len() == 0 {
        Seq::empty()
    } else {
        placed_metrics(ordered_entries(table.drop_last()), table.last().0, table.last().1)
    }
}

/// The head of a round's line.
pub open spec fn round_head(iteration: int) -> Seq<char> {
    "["@ + signed_decimal(iteration) + "]"@
}

/// Puts an entry in its place among ordered entries.
fn place(entries: &mut Vec<Entry>, e: Entry)
    ensures
        entry_views(final(entries)@) == placed(entry_views(old(entries)@), e@),
{
    let ghost all = entry_views(entries@);
    let mut i: usize = entries.len();
    assert(all.take(i as int) =~= all);
    assert(placed(all, e@) =~= placed(all.take(i as int), e@) + all.skip(i as int));
    while i > 0
        invariant_except_break
            all == entry_views(entries@),
            i <= entries.len(),
            placed(all, e@) == placed(all.take(i as int), e@) + all.skip(i as int),
        ensures
            all == entry_views(entries@),
            i <= entries.len(),
            placed(all, e@) == placed(all.take(i as int), e@) + all.skip(i as int),
            i > 0 ==> same_place(all[i - 1], e@) || entry_less(all[i - 1], e@),
        decreases i,
    {
        let ghost head = all.take(i as int);
        let last: &Entry = &entries[i - 1];
        assert(head.last() == last@);
        let same_metric: bool = last.metric == e.metric;
        if same_metric && last.name == e.name {
            break;
        }
        if is_less(last.metric.as_str(), e.metric.as_str()) {
            break;
        }
        if same_metric && is_less(last.name.as_str(), e.name.as_str()) {
            break;
        }
        assert(head.drop_last() =~= all.take(i - 1));
        assert(placed(head.drop_last(), e@).push(head.last()) + all.skip(i as int) =~= placed(
            all.take(i - 1),
            e@,
        ) + all.skip(i - 1));
        i = i - 1;
    }
    let ghost head = all.take(i as int);
    let replace: bool = i > 0 && entries[i - 1].metric == e.metric && entries[i - 1].name == e.name;
    if replace {
        assert(head.last() == all[i - 1]);
        assert(placed(head, e@) == head.drop_last().push(e@));
        entries.set(i - 1, e);
        assert(entry_views(entries@) =~= head.drop_last().push(e@) + all.skip(i as int));
    } else {
        if i > 0 {
            assert(head.last() == all[i - 1]);
        } else {
            assert(head =~= Seq::empty());
        }
        assert(placed(head, e@) =~= head.push(e@));
        entries.insert(i, e);
        assert(entry_views(entries@) =~= head.push(e@) + all.skip(i as int));
    }
}

/// Puts the scores of one matrix in their places.
fn place_metrics(entries: &mut Vec<Entry>, name: &str, metrics: &Metrics)
    ensures
        entry_views(final(entries)@) == placed_metrics(
            entry_views(old(entries)@),
            name@,
            metric_scores(*metrics),
        ),
{
    let rows: Vec<(&String, &String)> = metrics_entries(metrics);
    let ghost before = entry_views(entries@);
    let ghost scores = metric_scores(*metrics);
    let mut i: usize = 0;
    while i < rows.len()
        invariant
            i <= rows.len(),
            scores == metric_scores(*metrics),
            rows@.len() == scores.len(),
            forall|k: int|
                0 <= k < rows@.len() ==> (#[trigger] rows@[k]).0@ == scores[k].0 && rows@[k].1@
                    == scores[k].1,
            entry_views(entries@) == placed_metrics(before, name@, scores.take(i as int)),
        decreases rows.len() - i,
    {
        let (metric, score) = rows[i];
        let e = Entry { name: name.to_owned(), metric: metric.clone(), score: score.clone() };
        place(entries, e);
        assert(scores.take(i + 1).drop_last() =~= scores.take(i as int));
        i = i + 1;
    }
    assert(scores.take(i as int) =~= scores);
}

/// The line that reports the round: its number in brackets, then the scores by metric and
/// matrix, each as `<name>-<metric>:<score>` behind a tab.
pub fn evaluation_line(iteration: i32, results: &Evaluation) -> (r: String)
    ensures
        r@ == line_text(
            round_head(iteration as int),
            ordered_entries(evaluation_scores(*results)),
        ),
{
    let rows: Vec<(&String, &Metrics)> = evaluation_entries(results);
    let ghost table = evaluation_scores(*results);
    let mut entries: Vec<Entry> = Vec::new();
    let mut i: usize = 0;
    assert(entry_views(entries@) =~= ordered_entries(table.take(0)));
    while i < rows.len()
        invariant
            i <= rows.len(),
            table == evaluation_scores(*results),
            rows@.len() == table.len(),
            forall|k: int|
                0 <= k < rows@.len() ==> (#[trigger] rows@[k]).0@ == table[k].0 && metric_scores(
                    *rows@[k].1,
                ) == table[k].1,
            entry_views(entries@) == ordered_entries(table.take(i as int)),
        decreases rows.len() - i,
    {
        let (name, metrics) = rows[i];
        place_metrics(&mut entries, name.as_str(), metrics);
        assert(table.take(i + 1).drop_last() =~= table.take(i as int));
        i = i + 1;
    }
    assert(table.take(i as int) =~= table);
    let ghost ordered = entry_views(entries@);
    let mut line: String = String::new();
    line.append("[");
    push_signed(&mut line, iteration as i64);
    line.append("]");
    assert(line@ =~= round_head(iteration as int));
    proof {
        reveal_strlit("\t");
        reveal_strlit("-");
        reveal_strlit(":");
    }
    let mut k: usize = 0;
    while k < entries.len()
        invariant
            k <= entries.len(),
            ordered == entry_views(entries@),
            "\t"@ == seq!['\t'],
            "-"@ == seq!['-'],
            ":"@ == seq![':'],
            line@ == line_text(round_head(iteration as int), ordered.take(k as int)),
        decreases entries.len() - k,
    {
        let ghost before = line@;
        let e: &Entry = &entries[k];
        line.append("\t");
        line.append(e.name.as_str());
        line.append("-");
        line.append(e.metric.as_str());
        line.append(":");
        line.append(e.score.as_str());
        assert(ordered.take(k + 1).drop_last() =~= ordered.take(k as int));
        assert(ordered.take(k + 1).last() == e@);
        assert(line@ =~= before + seq!['\t'] + entry_text(e@));
        k = k + 1;
    }
    assert(ordered.take(k as int) =~= ordered);
    line
}

/// Each entry comes before those that follow it.
pub open spec fn strictly_ordered(s: Seq<(Seq<char>, Seq<char>, Seq<char>)>) -> bool {
    forall|i: int, j: int|
        #![trigger s[i], s[j]]
        0 <= i < j < s.len() ==> entry_less(s[i], s[j])
}

proof fn lemma_entry_order(
    a: (Seq<char>, Seq<char>, Seq<char>),
    b: (Seq<char>, Seq<char>, Seq<char>),
    c: (Seq<char>, Seq<char>, Seq<char>),
)
    ensures
        entry_less(a, b) || entry_less(b, a) || same_place(a, b),
        !(entry_less(a, b) && entry_less(b, a)),
        same_place(a, b) ==> !entry_less(a, b),
        entry_less(a, b) && entry_less(b, c) ==> entry_less(a, c),
        same_place(b, c) ==> entry_less(a, b) == entry_less(a, c),
{
    lemma_text_order_total(a.0, b.0);
    lemma_text_order_total(a.1, b.1);
    if text_less(a.1, b.1) && text_less(b.1, c.1) {
        lemma_text_order_transitive(a.1, b.1, c.1);
    }
    if text_less(a.0, b.0) && text_less(b.0, c.0) {
        lemma_text_order_transitive(a.0, b.0, c.0);
    }
}

proof fn lemma_placed(
    s: Seq<(Seq<char>, Seq<char>, Seq<char>)>,
    e: (Seq<char>, Seq<char>, Seq<char>),
)
    requires
        strictly_ordered(s),
    ensures
        strictly_ordered(placed(s, e)),
        forall|x: (Seq<char>, Seq<char>, Seq<char>)| #[trigger]
            placed(s, e).contains(x) <==> x == e || (s.contains(x) && !same_place(x, e)),
    decreases s.len(),
{
    let p = placed(s, e);
    if s.len() == 0 {
        assert(p[0] == e);
    } else {
        let last = s.last();
        let rest = s.drop_last();
        assert forall|i: int, j: int|
            #![trigger rest[i], rest[j]]
            0 <= i < j < rest.len() implies entry_less(rest[i], rest[j]) by {
            assert(entry_less(s[i], s[j]));
        }
        assert forall|i: int| 0 <= i < rest.len() implies entry_less(#[trigger] rest[i], last) by {
            assert(entry_less(s[i], s[s.len() - 1]));
        }
        assert forall|x: (Seq<char>, Seq<char>, Seq<char>)| #[trigger]
            s.contains(x) <==> rest.contains(x) || x == last by {
            if s.contains(x) {
                let i = choose|i: int| 0 <= i < s.len() && s[i] == x;
                if i < rest.len() {
                    assert(rest[i] == x);
                }
            }
            if rest.contains(x) {
                let i = choose|i: int| 0 <= i < rest.len() && rest[i] == x;
                assert(s[i] == x);
            }
            if x == last {
                assert(s[s.len() - 1] == x);
            }
        }
        lemma_entry_order(last, e, e);
        if same_place(last, e) {
            assert forall|i: int, j: int|
                #![trigger p[i], p[j]]
                0 <= i < j < p.len() implies entry_less(p[i], p[j]) by {
                if j == p.len() - 1 {
                    lemma_entry_order(rest[i], last, e);
                } else {
                    assert(entry_less(rest[i], rest[j]));
                }
            }
            assert forall|x: (Seq<char>, Seq<char>, Seq<char>)| #[trigger]
                p.contains(x) <==> x == e || (s.contains(x) && !same_place(x, e)) by {
                if rest.contains(x) {
                    let i = choose|i: int| 0 <= i < rest.len() && rest[i] == x;
                    assert(p[i] == x);
                    lemma_entry_order(x, last, e);
                    lemma_entry_order(x, e, e);
                }
                assert(p[p.len() - 1] == e);
                if p.contains(x) && x != e {
                    let i = choose|i: int| 0 <= i < p.len() && p[i] == x;
                    assert(rest[i] == x);
                }
            }
        } else if entry_less(last, e) {
            assert forall|i: int, j: int|
                #![trigger p[i], p[j]]
                0 <= i < j < p.len() implies entry_less(p[i], p[j]) by {
                if j == p.len() - 1 {
                    if i < rest.len() {
                        assert(p[i] == rest[i]);
                        lemma_entry_order(rest[i], last, e);
                    } else {
                        assert(p[i] == last);
                    }
                } else {
                    assert(entry_less(s[i], s[j]));
                }
            }
            assert forall|x: (Seq<char>, Seq<char>, Seq<char>)| #[trigger]
                p.contains(x) <==> x == e || (s.contains(x) && !same_place(x, e)) by {
                if s.contains(x) {
                    let i = choose|i: int| 0 <= i < s.len() && s[i] == x;
                    assert(p[i] == x);
                    lemma_entry_order(x, last, e);
                    lemma_entry_order(x, e, e);
                }
                assert(p[p.len() - 1] == e);
                if p.contains(x) && x != e {
                    let i = choose|i: int| 0 <= i < p.len() && p[i] == x;
                    assert(s[i] == x);
                }
            }
        } else {
            lemma_placed(rest, e);
            let q = placed(rest, e);
            assert forall|i: int, j: int|
                #![trigger p[i], p[j]]
                0 <= i < j < p.len() implies entry_less(p[i], p[j]) by {
                assert(p[i] == q[i]);
                if j == p.len() - 1 {
                    assert(q.contains(q[i]));
                    if q[i] != e {
                        let k = choose|k: int| 0 <= k < rest.len() && rest[k] == q[i];
                        assert(entry_less(rest[k], last));
                    }
                } else {
                    assert(p[j] == q[j]);
                }
            }
            assert forall|x: (Seq<char>, Seq<char>, Seq<char>)| #[trigger]
                p.contains(x) <==> x == e || (s.contains(x) && !same_place(x, e)) by {
                assert(p[p.len() - 1] == last);
                if q.contains(x) {
                    let i = choose|i: int| 0 <= i < q.len() && q[i] == x;
                    assert(p[i] == x);
                }
                if p.contains(x) {
                    let i = choose|i: int| 0 <= i < p.len() && p[i] == x;
                    if i < q.len() {
                        assert(q[i] == x);
                    }
                }
            }
        }
    }
}

proof fn lemma_placed_metrics_ordered(
    s: Seq<(Seq<char>, Seq<char>, Seq<char>)>,
    name: Seq<char>,
    metrics: Seq<(Seq<char>, Seq<char>)>,
)
    requires
        strictly_ordered(s),
    ensures
        strictly_ordered(placed_metrics(s, name, metrics)),
    decreases metrics.len(),
{
    if metrics.len() > 0 {
        lemma_placed_metrics_ordered(s, name, metrics.drop_last());
        lemma_placed(
            placed_metrics(s, name, metrics.drop_last()),
            (name, metrics.last().0, metrics.last().1),
        );
    }
}

/// The scores of a line are ordered: by metric, and by matrix within a metric, with one score
/// for each.
pub proof fn law_line_is_ordered(table: ScoreTable)
    ensures
        strictly_ordered(ordered_entries(table)),
    decreases table.len(),
{
    if table.len() > 0 {
        law_line_is_ordered(table.drop_last());
        lemma_placed_metrics_ordered(
            ordered_entries(table.drop_last()),
            table.last().0,
            table.last().1,
        );
    }
}

/// No key occurs twice.
pub open spec fn distinct_keys<V>(s: Seq<(Seq<char>, V)>) -> bool {
    forall|i: int, j: int|
        #![trigger s[i], s[j]]
        0 <= i < j < s.len() ==> s[i].0 != s[j].0
}

/// No matrix occurs twice, and no metric twice under a matrix.
pub open spec fn sound_table(table: ScoreTable) -> bool {
    distinct_keys(table) && forall|i: int|
        0 <= i < table.len() ==> distinct_keys((#[trigger] table[i]).1)
}

proof fn lemma_upsert_distinct<V>(s: Seq<(Seq<char>, V)>, key: Seq<char>, value: V)
    requires
        distinct_keys(s),
    ensures
        distinct_keys(upsert(s, key, value)),
{
    lemma_position(s, key);
    let t = upsert(s, key, value);
    assert forall|i: int, j: int|
        #![trigger t[i], t[j]]
        0 <= i < j < t.len() implies t[i].0 != t[j].0 by {
        if j < s.len() {
            assert(s[i].0 != s[j].0);
        } else {
            assert(s[i].0 != key);
        }
    }
}

/// A score that is put into a sound table leaves it sound.
pub proof fn law_put_score_keeps_the_table_sound(
    table: ScoreTable,
    name: Seq<char>,
    metric: Seq<char>,
    score: Seq<char>,
)
    requires
        sound_table(table),
    ensures
        sound_table(put_score(table, name, metric, score)),
{
    let metrics = match lookup(table, name) {
        Some(metrics) => metrics,
        None => Seq::<(Seq<char>, Seq<char>)>::empty(),
    };
    lemma_position(table, name);
    if position(table, name) < table.len() {
        assert(distinct_keys(table[position(table, name)].1));
    }
    lemma_upsert_distinct(metrics, metric, score);
    lemma_upsert_distinct(table, name, upsert(metrics, metric, score));
    let t = put_score(table, name, metric, score);
    assert forall|i: int| 0 <= i < t.len() implies distinct_keys((#[trigger] t[i]).1) by {
        if i < table.len() && i != position(table, name) {
            assert(distinct_keys(table[i].1));
        }
    }
}

proof fn lemma_put_part_sound(table: ScoreTable, part: Seq<char>, names: Seq<Seq<char>>)
    requires
        sound_table(table),
    ensures
        sound_table(put_part(table, part, names)),
    decreases names.len(),
{
    if names.len() > 0 {
        lemma_put_part_sound(table, part, names.drop_last());
        let pieces = entry_pieces(part, names.last());
        law_put_score_keeps_the_table_sound(
            put_part(table, part, names.drop_last()),
            names.last(),
            pieces[0],
            pieces[1],
        );
    }
}

proof fn lemma_put_parts_sound(parts: Seq<Seq<char>>, names: Seq<Seq<char>>)
    ensures
        sound_table(put_parts(parts, names)),
    decreases parts.len(),
{
    if parts.len() > 0 {
        lemma_put_parts_sound(parts.drop_last(), names);
        lemma_put_part_sound(put_parts(parts.drop_last(), names), parts.last(), names);
    }
}

/// A table read from an evaluation line is sound, whatever the line repeats.
pub proof fn law_read_table_is_sound(eval: Seq<char>, names: Seq<Seq<char>>)
    ensures
        sound_table(line_scores(eval, names)),
{
    lemma_put_parts_sound(line_parts(eval), names);
}

/// The table holds the score `e.2` under the matrix `e.0` and the metric `e.1`.
pub open spec fn table_holds(table: ScoreTable, e: (Seq<char>, Seq<char>, Seq<char>)) -> bool {
    exists|i: int, j: int|
        #![trigger table[i].1[j]]
        0 <= i < table.len() && table[i].0 == e.0 && 0 <= j < table[i].1.len() && table[i].1[j] == (
            e.1,
            e.2,
        )
}

proof fn lemma_placed_metrics_hold(
    s: Seq<(Seq<char>, Seq<char>, Seq<char>)>,
    name: Seq<char>,
    metrics: Seq<(Seq<char>, Seq<char>)>,
)
    requires
        strictly_ordered(s),
        distinct_keys(metrics),
        forall|x: (Seq<char>, Seq<char>, Seq<char>)| #[trigger] s.contains(x) ==> x.0 != name,
    ensures
        forall|x: (Seq<char>, Seq<char>, Seq<char>)| #[trigger]
            placed_metrics(s, name, metrics).contains(x) <==> s.contains(x) || (x.0 == name
                && metrics.contains((x.1, x.2))),
    decreases metrics.len(),
{
    if metrics.len() > 0 {
        let rest = metrics.drop_last();
        let last = metrics.last();
        assert forall|i: int, j: int|
            #![trigger rest[i], rest[j]]
            0 <= i < j < rest.len() implies rest[i].0 != rest[j].0 by {
            assert(metrics[i].0 != metrics[j].0);
        }
        lemma_placed_metrics_hold(s, name, rest);
        lemma_placed_metrics_ordered(s, name, rest);
        lemma_placed(placed_metrics(s, name, rest), (name, last.0, last.1));
        assert forall|x: (Seq<char>, Seq<char>, Seq<char>)| #[trigger]
            placed_metrics(s, name, metrics).contains(x) <==> s.contains(x) || (x.0 == name
                && metrics.contains((x.1, x.2))) by {
            let y = (x.1, x.2);
            assert(placed_metrics(s, name, rest).contains(x) <==> s.contains(x) || (x.0 == name
                && rest.contains(y)));
            if rest.contains(y) {
                let i = choose|i: int| 0 <= i < rest.len() && rest[i] == y;
                assert(metrics[i] == y);
                assert(metrics[i].0 != metrics[metrics.len() - 1].0);
            }
            if metrics.contains(y) {
                let i = choose|i: int| 0 <= i < metrics.len() && metrics[i] == y;
                if i < rest.len() {
                    assert(rest[i] == y);
                }
            }
            assert(metrics[metrics.len() - 1] == last);
            if s.contains(x) {
                assert(x.0 != name);
            }
        }
    } else {
        assert(placed_metrics(s, name, metrics) == s);
        assert(forall|y: (Seq<char>, Seq<char>)| !metrics.contains(y));
    }
}

/// A line holds the scores of the table, all of them and no others.
pub proof fn law_line_holds_the_table(table: ScoreTable, e: (Seq<char>, Seq<char>, Seq<char>))
    requires
        sound_table(table),
    ensures
        ordered_entries(table).contains(e) <==> table_holds(table, e),
    decreases table.len(),
{
    if table.len() > 0 {
        let rest = table.drop_last();
        let last = table.last();
        assert forall|i: int, j: int|
            #![trigger rest[i], rest[j]]
            0 <= i < j < rest.len() implies rest[i].0 != rest[j].0 by {
            assert(table[i].0 != table[j].0);
        }
        assert forall|i: int| 0 <= i < rest.len() implies distinct_keys((#[trigger] rest[i]).1) by {
            assert(distinct_keys(table[i].1));
        }
        law_line_is_ordered(rest);
        law_line_holds_the_table(rest, e);
        assert forall|x: (Seq<char>, Seq<char>, Seq<char>)| #[trigger]
            ordered_entries(rest).contains(x) implies x.0 != last.0 by {
            law_line_holds_the_table(rest, x);
            let (i, j) = choose|i: int, j: int|
                #![trigger rest[i].1[j]]
                0 <= i < rest.len() && rest[i].0 == x.0 && 0 <= j < rest[i].1.len() && rest[i].1[j]
                    == (x.1, x.2);
            assert(table[i].0 != table[table.len() - 1].0);
        }
        assert(distinct_keys(table[table.len() - 1].1));
        lemma_placed_metrics_hold(ordered_entries(rest), last.0, last.1);
        assert(ordered_entries(table).contains(e) <==> ordered_entries(rest).contains(e) || (e.0
            == last.0 && last.1.contains((e.1, e.2))));
        if table_holds(rest, e) {
            let (i, j) = choose|i: int, j: int|
                #![trigger rest[i].1[j]]
                0 <= i < rest.len() && rest[i].0 == e.0 && 0 <= j < rest[i].1.len() && rest[i].1[j]
                    == (e.1, e.2);
            assert(table[i].1[j] == (e.1, e.2));
        }
        if e.0 == last.0 && last.1.contains((e.1, e.2)) {
            let j = choose|j: int| 0 <= j < last.1.len() && last.1[j] == (e.1, e.2);
            assert(table[table.len() - 1].1[j] == (e.1, e.2));
        }
        if table_holds(table, e) {
            let (i, j) = choose|i: int, j: int|
                #![trigger table[i].1[j]]
                0 <= i < table.len() && table[i].0 == e.0 && 0 <= j < table[i].1.len()
                    && table[i].1[j] == (e.1, e.2);
            if i < rest.len() {
                assert(rest[i].1[j] == (e.1, e.2));
            } else {
                assert(last.1[j] == (e.1, e.2));
            }
        }
    }
}

/// A round's line begins with the round's number in brackets.
pub proof fn law_report_begins_with_the_round(iteration: int)
    ensures
        round_head(iteration) == seq!['['] + signed_decimal(iteration) + seq![']'],
{
    reveal_strlit("[");
    reveal_strlit("]");
    assert(round_head(iteration) =~= seq!['['] + signed_decimal(iteration) + seq![']']);
}

/// The order of a line's entries: by metric, and under the same metric by matrix, both as texts
/// are ordered.
pub proof fn law_order_of_entries(
    a: (Seq<char>, Seq<char>, Seq<char>),
    b: (Seq<char>, Seq<char>, Seq<char>),
)
    ensures
        a.1 != b.1 ==> (entry_less(a, b) <==> text_less(a.1, b.1)),
        a.1 == b.1 ==> (entry_less(a, b) <==> text_less(a.0, b.0)),
{
    lemma_text_order_total(a.1, b.1);
}

} // verus!
