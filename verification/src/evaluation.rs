//! Evaluation results: reading them from the C library's output.

use crate::booster::Booster;
use crate::number::{is_number_text, number_text};
use crate::scores::{
    evaluation_entry, evaluation_new, evaluation_scores, lemma_upsert, lookup, metrics_insert,
    upsert, Evaluation,
};
use crate::text::{
    chars_of, joined_by, law_split_finds_pieces, lemma_concat_without, lemma_split_tail,
    lemma_split_whole, split, split_text, views,
};
use vstd::prelude::*;

verus! {

broadcast use vstd::string::group_string_axioms;

/// Scores by metric, by matrix.
pub type ScoreTable = Seq<(Seq<char>, Seq<(Seq<char>, Seq<char>)>)>;

/// The texts of a list of names.
pub open spec fn name_texts(names: Seq<&str>) -> Seq<Seq<char>> {
    names.map_values(|s: &str| s@)
}

/// `part` is an entry of the matrix `name`: the name, then a dash.
pub open spec fn belongs_to(part: Seq<char>, name: Seq<char>) -> bool {
    name.len() < part.len() && part.take(name.len() as int) == name && part[name.len() as int] == '-'
}

/// What follows the name and the dash, cut at the colons: the metric and the score.
pub open spec fn entry_pieces(part: Seq<char>, name: Seq<char>) -> Seq<Seq<char>> {
    split(part.skip(name.len() as int + 1), ':')
}

/// `table` with a score under `name` and `metric`.
pub open spec fn put_score(
    table: ScoreTable,
    name: Seq<char>,
    metric: Seq<char>,
    score: Seq<char>,
) -> ScoreTable {
    let metrics = match lookup(table, name) {
        Some(metrics) => metrics,
        None => Seq::<(Seq<char>, Seq<char>)>::empty(),
    };
    upsert(table, name, upsert(metrics, metric, score))
}

/// `table` with what `part` says of each of the names that it belongs to.
pub open spec fn put_part(table: ScoreTable, part: Seq<char>, names: Seq<Seq<char>>) -> ScoreTable
    decreases names.len(),
{
    if names.len() == 0 {
        table
    } else {
        let before = put_part(table, part, names.drop_last());
        if belongs_to(part, names.last()) {
            let pieces = entry_pieces(part, names.last());
            put_score(before, names.last(), pieces[0], pieces[1])
        } else {
            before
        }
    }
}

/// What the parts say, taken one after the other.
pub open spec fn put_parts(parts: Seq<Seq<char>>, names: Seq<Seq<char>>) -> ScoreTable
    decreases parts.len(),
{
    if parts.len() == 0 {
        ScoreTable::empty()
    } else {
        put_part(put_parts(parts.drop_last(), names), parts.last(), names)
    }
}

/// The entries of an evaluation line: what stands between tabs, behind the round's number.
pub open spec fn line_parts(eval: Seq<char>) -> Seq<Seq<char>> {
    split(eval, '\t').skip(1)
}

/// The scores of an evaluation line.
pub open spec fn line_scores(eval: Seq<char>, names: Seq<Seq<char>>) -> ScoreTable {
    put_parts(line_parts(eval), names)
}

/// An entry can be read: one colon stands behind the name, and behind the colon a number.
pub open spec fn readable_entry(part: Seq<char>, name: Seq<char>) -> bool {
    entry_pieces(part, name).len() == 2 && number_text(entry_pieces(part, name)[1])
}

/// Every entry of one of the names can be read.
pub open spec fn readable_line(eval: Seq<char>, names: Seq<Seq<char>>) -> bool {
    forall|i: int, j: int|
        #![trigger line_parts(eval)[i], names[j]]
        0 <= i < line_parts(eval).len() && 0 <= j < names.len() && belongs_to(
            line_parts(eval)[i],
            names[j],
        ) ==> readable_entry(line_parts(eval)[i], names[j])
}

/// Whether `part` is an entry of `name`.
fn is_entry_of(part: &str, name: &str) -> (r: bool)
    ensures
        r == belongs_to(part@, name@),
{
    let p: Vec<char> = chars_of(part);
    let n: Vec<char> = chars_of(name);
    if n.len() >= p.len() || p[n.len()] != '-' {
        return false;
    }
    let mut i: usize = 0;
    while i < n.len()
        invariant
            p@ == part@,
            n@ == name@,
            i <= n.len() < p.len(),
            forall|j: int| 0 <= j < i ==> p@[j] == n@[j],
        decreases n.len() - i,
    {
        if p[i] != n[i] {
            assert(part@.take(n@.len() as int)[i as int] != name@[i as int]);
            return false;
        }
        i = i + 1;
    }
    assert(part@.take(n@.len() as int) =~= name@);
    true
}

/// Whether every entry of one of the names can be read.
pub fn is_readable_line(eval: &str, evnames: &[&str]) -> (r: bool)
    ensures
        r == readable_line(eval@, name_texts(evnames@)),
{
    let ghost names = name_texts(evnames@);
    let ghost parts = line_parts(eval@);
    let pieces: Vec<String> = split_text(eval, '\t');
    let mut i: usize = 1;
    while i < pieces.len()
        invariant
            names == name_texts(evnames@),
            parts == line_parts(eval@),
            views(pieces@) == split(eval@, '\t'),
            1 <= i <= pieces.len(),
            forall|k: int, j: int|
                #![trigger parts[k], names[j]]
                0 <= k < i - 1 && 0 <= j < names.len() && belongs_to(parts[k], names[j])
                    ==> readable_entry(parts[k], names[j]),
        decreases pieces.len() - i,
    {
        let part: &str = pieces[i].as_str();
        assert(part@ == parts[i - 1]);
        let mut j: usize = 0;
        while j < evnames.len()
            invariant
                names == name_texts(evnames@),
                parts == line_parts(eval@),
                1 <= i <= parts.len(),
                part@ == parts[i - 1],
                j <= evnames.len(),
                forall|k: int|
                    #![trigger names[k]]
                    0 <= k < j && belongs_to(part@, names[k]) ==> readable_entry(part@, names[k]),
            decreases evnames.len() - j,
        {
            let name: &str = evnames[j];
            assert(names[j as int] == name@);
            if is_entry_of(part, name) {
                let to: usize = part.unicode_len();
                let from: usize = name.unicode_len() + 1;
                let rest: &str = part.substring_char(from, to);
                assert(rest@ =~= part@.skip(name@.len() as int + 1));
                let metric_parts: Vec<String> = split_text(rest, ':');
                assert(views(metric_parts@) == entry_pieces(part@, name@));
                if metric_parts.len() != 2 || !is_number_text(metric_parts[1].as_str()) {
                    assert(!readable_entry(parts[i - 1], names[j as int]));
                    return false;
                }
                assert(readable_entry(part@, names[j as int]));
            }
            j = j + 1;
        }
        i = i + 1;
    }
    true
}

impl Booster {
    /// Reads an evaluation line: `<name>-<metric>:<score>` entries, each behind a tab.
    ///
    /// The dash behind the name keeps a name that begins another one ("val" and "val2") from
    /// taking the longer name's entries. Scores stay text.
    pub fn parse_eval_string(eval: &str, evnames: &[&str]) -> (r: Evaluation)
        requires
            readable_line(eval@, name_texts(evnames@)),
        ensures
            evaluation_scores(r) == line_scores(eval@, name_texts(evnames@)),
    {
        let ghost names = name_texts(evnames@);
        let ghost parts = line_parts(eval@);
        let pieces: Vec<String> = split_text(eval, '\t');
        let mut result: Evaluation = evaluation_new();
        let mut i: usize = 1;
        assert(parts.take(0) =~= Seq::<Seq<char>>::empty());
        while i < pieces.len()
            invariant
                names == name_texts(evnames@),
                parts == line_parts(eval@),
                readable_line(eval@, names),
                views(pieces@) == split(eval@, '\t'),
                1 <= i <= pieces.len(),
                evaluation_scores(result) == put_parts(parts.take(i - 1), names),
            decreases pieces.len() - i,
        {
            let part: &str = pieces[i].as_str();
            assert(part@ == parts[i - 1]);
            let ghost before = evaluation_scores(result);
            let mut j: usize = 0;
            assert(names.take(0) =~= Seq::<Seq<char>>::empty());
            while j < evnames.len()
                invariant
                    names == name_texts(evnames@),
                    parts == line_parts(eval@),
                    readable_line(eval@, names),
                    1 <= i <= parts.len(),
                    part@ == parts[i - 1],
                    j <= evnames.len(),
                    evaluation_scores(result) == put_part(before, part@, names.take(j as int)),
                decreases evnames.len() - j,
            {
                let name: &str = evnames[j];
                assert(names[j as int] == name@);
                assert(names.take(j + 1).drop_last() =~= names.take(j as int));
                if is_entry_of(part, name) {
                    let to: usize = part.unicode_len();
                    let from: usize = name.unicode_len() + 1;
                    let rest: &str = part.substring_char(from, to);
                    assert(rest@ =~= part@.skip(name@.len() as int + 1));
                    let metric_parts: Vec<String> = split_text(rest, ':');
                    assert(views(metric_parts@) == entry_pieces(part@, name@));
                    let metric: String = metric_parts[0].clone();
                    let score: String = metric_parts[1].clone();
                    assert(metric@ == entry_pieces(part@, name@)[0]);
                    assert(score@ == entry_pieces(part@, name@)[1]);
                    let metric_map = evaluation_entry(&mut result, name.to_owned());
                    metrics_insert(metric_map, metric, score);
                }
                j = j + 1;
            }
            assert(names.take(j as int) =~= names);
            assert(parts.take(i as int).drop_last() =~= parts.take(i - 1));
            i = i + 1;
        }
        assert(parts.take(i - 1) =~= parts);
        result
    }
}

/// A name that begins another name takes none of the other's entries, unless a dash follows
/// it in the other name.
pub proof fn law_prefix_names_do_not_cross(part: Seq<char>, name: Seq<char>, longer: Seq<char>)
    requires
        belongs_to(part, longer),
        name.len() < longer.len(),
        longer.take(name.len() as int) == name,
        longer[name.len() as int] != '-',
    ensures
        !belongs_to(part, name),
{
    assert(part[name.len() as int] == part.take(longer.len() as int)[name.len() as int]);
}

/// An entry as an evaluation line holds it.
pub open spec fn entry_text(entry: (Seq<char>, Seq<char>, Seq<char>)) -> Seq<char> {
    entry.0 + seq!['-'] + entry.1 + seq![':'] + entry.2
}

/// An evaluation line: the head, then the entries, each behind a tab.
pub open spec fn line_text(
    head: Seq<char>,
    entries: Seq<(Seq<char>, Seq<char>, Seq<char>)>,
) -> Seq<char>
    decreases entries.len(),
{
    if entries.len() == 0 {
        head
    } else {
        line_text(head, entries.drop_last()) + seq!['\t'] + entry_text(entries.last())
    }
}

/// The table that holds the entries' scores, put in one after the other.
pub open spec fn entry_scores(entries: Seq<(Seq<char>, Seq<char>, Seq<char>)>) -> ScoreTable
    decreases entries.len(),
{
    if entries.len() == 0 {
        ScoreTable::empty()
    } else {
        let e = entries.last();
        put_score(entry_scores(entries.drop_last()), e.0, e.1, e.2)
    }
}

/// An entry can be told from the line around it, and belongs to one of the names only.
pub open spec fn plain_entry(
    entry: (Seq<char>, Seq<char>, Seq<char>),
    names: Seq<Seq<char>>,
) -> bool {
    &&& !entry_text(entry).contains('\t')
    &&& !entry.1.contains(':')
    &&& !entry.2.contains(':')
    &&& names.contains(entry.0)
    &&& forall|j: int|
        #![trigger names[j]]
        0 <= j < names.len() && belongs_to(entry_text(entry), names[j]) ==> names[j] == entry.0
}

proof fn lemma_belongs_to_own_name(entry: (Seq<char>, Seq<char>, Seq<char>))
    requires
        !entry.1.contains(':'),
        !entry.2.contains(':'),
    ensures
        belongs_to(entry_text(entry), entry.0),
        entry_pieces(entry_text(entry), entry.0) == seq![entry.1, entry.2],
{
    let part = entry_text(entry);
    assert(part.take(entry.0.len() as int) =~= entry.0);
    let rest = part.skip(entry.0.len() as int + 1);
    assert(rest =~= entry.1 + seq![':'] + entry.2);
    lemma_split_tail(entry.1, entry.2, ':');
    lemma_split_whole(entry.1, ':');
    assert(split(rest, ':') =~= seq![entry.1, entry.2]);
}

/// What the names make of an entry that belongs to one of them only.
proof fn lemma_put_plain_part(
    table: ScoreTable,
    entry: (Seq<char>, Seq<char>, Seq<char>),
    names: Seq<Seq<char>>,
)
    requires
        !entry.1.contains(':'),
        !entry.2.contains(':'),
        forall|j: int|
            #![trigger names[j]]
            0 <= j < names.len() && belongs_to(entry_text(entry), names[j]) ==> names[j] == entry.0,
    ensures
        put_part(table, entry_text(entry), names) == (if names.contains(entry.0) {
            put_score(table, entry.0, entry.1, entry.2)
        } else {
            table
        }),
    decreases names.len(),
{
    if names.len() > 0 {
        let part = entry_text(entry);
        let rest = names.drop_last();
        assert(forall|j: int| 0 <= j < rest.len() ==> rest[j] == names[j]);
        lemma_put_plain_part(table, entry, rest);
        lemma_belongs_to_own_name(entry);
        if rest.contains(entry.0) {
            let j = choose|j: int| 0 <= j < rest.len() && rest[j] == entry.0;
            assert(names[j] == entry.0);
            if names.last() == entry.0 {
                lemma_put_score_twice(table, entry.0, entry.1, entry.2);
            } else {
                assert(names[names.len() - 1] == names.last());
            }
        } else if names.last() == entry.0 {
            assert(names[names.len() - 1] == entry.0);
        } else {
            assert(names[names.len() - 1] == names.last());
            assert(!names.contains(entry.0)) by {
                assert forall|j: int| 0 <= j < names.len() implies names[j] != entry.0 by {
                    if j < rest.len() {
                        assert(rest.contains(rest[j]));
                    }
                }
            }
        }
    }
}

proof fn lemma_put_score_twice(
    table: ScoreTable,
    name: Seq<char>,
    metric: Seq<char>,
    score: Seq<char>,
)
    ensures
        put_score(put_score(table, name, metric, score), name, metric, score) == put_score(
            table,
            name,
            metric,
            score,
        ),
{
    let metrics = match lookup(table, name) {
        Some(metrics) => metrics,
        None => Seq::<(Seq<char>, Seq<char>)>::empty(),
    };
    lemma_upsert(metrics, metric, score);
    lemma_upsert(table, name, upsert(metrics, metric, score));
}

/// Reading a written line gives the entries that were written; it can be read where their scores
/// are numbers.
pub proof fn law_line_reads_back(
    head: Seq<char>,
    entries: Seq<(Seq<char>, Seq<char>, Seq<char>)>,
    names: Seq<Seq<char>>,
)
    requires
        !head.contains('\t'),
        forall|i: int| 0 <= i < entries.len() ==> plain_entry(#[trigger] entries[i], names),
    ensures
        (forall|i: int| 0 <= i < entries.len() ==> number_text((#[trigger] entries[i]).2))
            ==> readable_line(line_text(head, entries), names),
        line_scores(line_text(head, entries), names) == entry_scores(entries),
{
    lemma_line_parts(head, entries, names);
    lemma_put_entries(entries, names);
    let line = line_text(head, entries);
    if forall|i: int| 0 <= i < entries.len() ==> number_text((#[trigger] entries[i]).2) {
        assert forall|i: int, j: int|
            #![trigger line_parts(line)[i], names[j]]
            0 <= i < line_parts(line).len() && 0 <= j < names.len() && belongs_to(
                line_parts(line)[i],
                names[j],
            ) implies readable_entry(line_parts(line)[i], names[j]) by {
            assert(plain_entry(entries[i], names));
            lemma_belongs_to_own_name(entries[i]);
        }
    }
}

/// The texts of the entries.
spec fn entry_texts(entries: Seq<(Seq<char>, Seq<char>, Seq<char>)>) -> Seq<Seq<char>> {
    entries.map_values(|e: (Seq<char>, Seq<char>, Seq<char>)| entry_text(e))
}

proof fn lemma_line_parts(
    head: Seq<char>,
    entries: Seq<(Seq<char>, Seq<char>, Seq<char>)>,
    names: Seq<Seq<char>>,
)
    requires
        !head.contains('\t'),
        forall|i: int| 0 <= i < entries.len() ==> plain_entry(#[trigger] entries[i], names),
    ensures
        split(line_text(head, entries), '\t') == seq![head] + entry_texts(entries),
        line_parts(line_text(head, entries)) == entry_texts(entries),
    decreases entries.len(),
{
    let line = line_text(head, entries);
    if entries.len() == 0 {
        lemma_split_whole(head, '\t');
        assert(seq![head] + entry_texts(entries) =~= seq![head]);
    } else {
        let rest = entries.drop_last();
        assert(forall|i: int| 0 <= i < rest.len() ==> rest[i] == entries[i]);
        lemma_line_parts(head, rest, names);
        assert(plain_entry(entries[entries.len() - 1], names));
        lemma_split_tail(line_text(head, rest), entry_text(entries.last()), '\t');
        assert(entry_texts(entries) =~= entry_texts(rest).push(entry_text(entries.last())));
        assert(split(line, '\t') =~= seq![head] + entry_texts(entries));
    }
    assert((seq![head] + entry_texts(entries)).skip(1) =~= entry_texts(entries));
}

proof fn lemma_put_entries(
    entries: Seq<(Seq<char>, Seq<char>, Seq<char>)>,
    names: Seq<Seq<char>>,
)
    requires
        forall|i: int| 0 <= i < entries.len() ==> plain_entry(#[trigger] entries[i], names),
    ensures
        put_parts(entry_texts(entries), names) == entry_scores(entries),
    decreases entries.len(),
{
    if entries.len() > 0 {
        let rest = entries.drop_last();
        assert(forall|i: int| 0 <= i < rest.len() ==> rest[i] == entries[i]);
        lemma_put_entries(rest, names);
        assert(plain_entry(entries[entries.len() - 1], names));
        assert(entry_texts(entries).drop_last() =~= entry_texts(rest));
        lemma_put_plain_part(entry_scores(rest), entries.last(), names);
    }
}

/// A part is an entry of a name exactly if it is the name, a dash, and anything.
pub proof fn law_entry_is_name_dash_rest(part: Seq<char>, name: Seq<char>)
    ensures
        belongs_to(part, name) <==> exists|rest: Seq<char>| part == #[trigger] (name + seq!['-'] + rest),
{
    if belongs_to(part, name) {
        let rest = part.skip(name.len() as int + 1);
        assert(part =~= name + seq!['-'] + rest);
    }
    if exists|rest: Seq<char>| part == #[trigger] (name + seq!['-'] + rest) {
        let rest = choose|rest: Seq<char>| part == #[trigger] (name + seq!['-'] + rest);
        assert(part.take(name.len() as int) =~= name);
    }
}

/// No entry is of two names, unless one of them is the other with a dash and more behind it; in
/// particular two different names of equal length share none.
pub proof fn law_names_share_no_entry(part: Seq<char>, a: Seq<char>, b: Seq<char>)
    requires
        belongs_to(part, a),
        belongs_to(part, b),
        a != b,
    ensures
        a.len() != b.len(),
        a.len() < b.len() ==> (a + seq!['-']).is_prefix_of(b),
        b.len() < a.len() ==> (b + seq!['-']).is_prefix_of(a),
{
    let (x, y) = if a.len() <= b.len() {
        (a, b)
    } else {
        (b, a)
    };
    assert(part.take(x.len() as int) == x);
    assert(part.take(y.len() as int) == y);
    if x.len() == y.len() {
        assert(x =~= y);
    } else {
        assert(y[x.len() as int] == part.take(y.len() as int)[x.len() as int]);
        assert forall|i: int| 0 <= i < x.len() implies x[i] == y[i] by {
            assert(x[i] == part.take(x.len() as int)[i]);
            assert(y[i] == part.take(y.len() as int)[i]);
        }
        assert((x + seq!['-']) =~= y.subrange(0, x.len() as int + 1));
    }
}

/// Behind its name and dash, an entry of a metric and a score, with one colon between them, is
/// read as these two.
pub proof fn law_entry_is_metric_and_score(
    name: Seq<char>,
    metric: Seq<char>,
    score: Seq<char>,
)
    requires
        !metric.contains(':'),
        !score.contains(':'),
    ensures
        belongs_to(name + seq!['-'] + metric + seq![':'] + score, name),
        entry_pieces(name + seq!['-'] + metric + seq![':'] + score, name) == seq![metric, score],
        entry_text((name, metric, score)) == name + seq!['-'] + metric + seq![':'] + score,
{
    let e = (name, metric, score);
    assert(entry_text(e) =~= name + seq!['-'] + metric + seq![':'] + score);
    lemma_belongs_to_own_name(e);
}

/// An entry of a listed name without exactly one colon, or with a score that is no number, makes
/// a line unreadable.
pub proof fn law_unreadable_entries(
    eval: Seq<char>,
    names: Seq<Seq<char>>,
    name: Seq<char>,
    rest: Seq<char>,
)
    requires
        line_parts(eval).contains(name + seq!['-'] + rest),
        names.contains(name),
        split(rest, ':').len() != 2 || !number_text(split(rest, ':')[1]),
    ensures
        !readable_line(eval, names),
{
    let part = name + seq!['-'] + rest;
    let i = choose|i: int| 0 <= i < line_parts(eval).len() && line_parts(eval)[i] == part;
    let j = choose|j: int| 0 <= j < names.len() && names[j] == name;
    assert(part.take(name.len() as int) =~= name);
    assert(part.skip(name.len() as int + 1) =~= rest);
    assert(belongs_to(line_parts(eval)[i], names[j]));
    assert(!readable_entry(line_parts(eval)[i], names[j]));
}

/// The entries of a line are what stands between its tabs, behind the first one, all of it and in
/// order.
pub proof fn law_parts_of_a_line(head: Seq<char>, parts: Seq<Seq<char>>)
    requires
        !head.contains('\t'),
        forall|i: int| 0 <= i < parts.len() ==> !(#[trigger] parts[i]).contains('\t'),
    ensures
        line_parts(joined_by(seq![head] + parts, '\t')) == parts,
{
    let all = seq![head] + parts;
    assert forall|i: int| 0 <= i < all.len() implies !(#[trigger] all[i]).contains('\t') by {
        if i > 0 {
            assert(all[i] == parts[i - 1]);
        }
    }
    law_split_finds_pieces(all, '\t');
    assert(all.skip(1) =~= parts);
}

/// A written line is the head and the entries, each as its name, a dash, its metric, a colon and
/// its score, with a tab between any two.
pub proof fn law_written_line(head: Seq<char>, entries: Seq<(Seq<char>, Seq<char>, Seq<char>)>)
    ensures
        line_text(head, entries) == joined_by(
            seq![head] + entries.map_values(
                |e: (Seq<char>, Seq<char>, Seq<char>)|
                    e.0 + seq!['-'] + e.1 + seq![':'] + e.2,
            ),
            '\t',
        ),
    decreases entries.len(),
{
    let write = |e: (Seq<char>, Seq<char>, Seq<char>)| e.0 + seq!['-'] + e.1 + seq![':'] + e.2;
    let all = seq![head] + entries.map_values(write);
    if entries.len() == 0 {
        assert(all =~= seq![head]);
    } else {
        law_written_line(head, entries.drop_last());
        assert(all.drop_last() =~= seq![head] + entries.drop_last().map_values(write));
        assert(all.last() == write(entries.last()));
        assert(entry_text(entries.last()) =~= write(entries.last()));
    }
}

/// Names among which none is another with a dash and more behind it. Different names of equal
/// length are such.
pub open spec fn separate_names(names: Seq<Seq<char>>) -> bool {
    forall|i: int, j: int|
        #![trigger names[i], names[j]]
        0 <= i < names.len() && 0 <= j < names.len() ==> !(names[i] + seq!['-']).is_prefix_of(
            names[j],
        )
}

/// Reading a written line gives the entries that were written, each under its own name and no
/// other, if no text holds what separates it from the next and no listed name is another with a
/// dash and more behind it.
pub proof fn law_line_of_separate_names_reads_back(
    head: Seq<char>,
    entries: Seq<(Seq<char>, Seq<char>, Seq<char>)>,
    names: Seq<Seq<char>>,
)
    requires
        separate_names(names),
        !head.contains('\t'),
        forall|i: int|
            0 <= i < entries.len() ==> names.contains((#[trigger] entries[i]).0)
                && !entries[i].0.contains('\t') && !entries[i].1.contains('\t')
                && !entries[i].2.contains('\t') && !entries[i].1.contains(':')
                && !entries[i].2.contains(':'),
    ensures
        line_scores(line_text(head, entries), names) == entry_scores(entries),
{
    assert forall|i: int| 0 <= i < entries.len() implies plain_entry(
        #[trigger] entries[i],
        names,
    ) by {
        let e = entries[i];
        let text = entry_text(e);
        lemma_concat_without(e.0, seq!['-'], '\t');
        lemma_concat_without(e.0 + seq!['-'], e.1, '\t');
        lemma_concat_without(e.0 + seq!['-'] + e.1, seq![':'], '\t');
        lemma_concat_without(e.0 + seq!['-'] + e.1 + seq![':'], e.2, '\t');
        lemma_belongs_to_own_name(e);
        let k = choose|k: int| 0 <= k < names.len() && names[k] == e.0;
        assert forall|j: int|
            #![trigger names[j]]
            0 <= j < names.len() && belongs_to(text, names[j]) implies names[j] == e.0 by {
            if names[j] != e.0 {
                law_names_share_no_entry(text, names[j], e.0);
                assert(!(names[j] + seq!['-']).is_prefix_of(names[k]));
                assert(!(names[k] + seq!['-']).is_prefix_of(names[j]));
            }
        }
    }
    law_line_reads_back(head, entries, names);
}

/// A list's names are the texts of its members, all of them and in order.
pub proof fn law_names_of_a_list(names: Seq<&str>)
    ensures
        name_texts(names).len() == names.len(),
        forall|i: int| 0 <= i < names.len() ==> #[trigger] name_texts(names)[i] == names[i]@,
{
}

/// A line can be read exactly if, wherever a part of it is a listed name, a dash and more, that
/// is two texts with a colon between them, the second the text of a number.
pub proof fn law_readable_lines(eval: Seq<char>, names: Seq<Seq<char>>)
    ensures
        readable_line(eval, names) <==> forall|i: int, j: int, rest: Seq<char>|
            0 <= i < line_parts(eval).len() && 0 <= j < names.len() && #[trigger] line_parts(
                eval,
            )[i] == #[trigger] (names[j] + seq!['-'] + rest) ==> split(rest, ':').len() == 2
                && number_text(split(rest, ':')[1]),
{
    let parts = line_parts(eval);
    if readable_line(eval, names) {
        assert forall|i: int, j: int, rest: Seq<char>|
            0 <= i < parts.len() && 0 <= j < names.len() && #[trigger] parts[i] == #[trigger] (names[j] + seq![
                '-',
            ] + rest) implies split(rest, ':').len() == 2 && number_text(
            split(rest, ':')[1],
        ) by {
            law_entry_is_name_dash_rest(parts[i], names[j]);
            assert(parts[i].skip(names[j].len() as int + 1) =~= rest);
            assert(readable_entry(parts[i], names[j]));
        }
    } else {
        let (i, j) = choose|i: int, j: int|
            #![trigger line_parts(eval)[i], names[j]]
            0 <= i < line_parts(eval).len() && 0 <= j < names.len() && belongs_to(
                line_parts(eval)[i],
                names[j],
            ) && !readable_entry(line_parts(eval)[i], names[j]);
        let rest = parts[i].skip(names[j].len() as int + 1);
        assert(parts[i] =~= names[j] + seq!['-'] + rest);
    }
}

} // verus!
