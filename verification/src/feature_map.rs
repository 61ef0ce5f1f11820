//! Feature maps: a name and a type for each feature, used when dumping models as text.

use crate::text::{
    decimal, is_digit, joined_by, law_decimal_reads_back, law_split_finds_pieces,
    lemma_decimal_digits, lemma_split_append, lemma_split_tail, lemma_split_whole, parse_u32,
    push_decimal, split, split_text, u32_of, views, IntFault,
};
use std::collections::BTreeMap;
use vstd::prelude::*;

verus! {

broadcast use {
    vstd::string::group_string_axioms,
    vstd::std_specs::btree::group_btree_axioms,
    vstd::laws_cmp::group_laws_cmp,
};

/// Indicates the type of a feature, used when dumping models as text.
#[derive(Clone, Copy, Debug, PartialEq, Eq, Structural)]
pub enum FeatureType {
    /// Binary indicator feature.
    Binary,
    /// Quantitative feature (e.g. age, time, etc.), can be missing.
    Quantitative,
    /// Integer feature (when hinted, decision boundary will be integer).
    Integer,
}

/// The type that a text names.
pub open spec fn type_of(s: Seq<char>) -> Option<FeatureType> {
    if s == "i"@ {
        Some(FeatureType::Binary)
    } else if s == "q"@ {
        Some(FeatureType::Quantitative)
    } else if s == "int"@ {
        Some(FeatureType::Integer)
    } else {
        None
    }
}

/// What is said of a text that names no type.
pub open spec fn unknown_type(s: Seq<char>) -> Seq<char> {
    "unrecognised feature type '"@ + s + "', must be one of: 'i', 'q', 'int'"@
}

impl FeatureType {
    /// The type's text.
    pub open spec fn text(self) -> Seq<char> {
        match self {
            FeatureType::Binary => "i"@,
            FeatureType::Quantitative => "q"@,
            FeatureType::Integer => "int"@,
        }
    }

    /// Reads a type: `i`, `q` or `int`.
    pub fn from_str(s: &str) -> (r: Result<FeatureType, String>)
        ensures
            match r {
                Ok(t) => type_of(s@) == Some(t),
                Err(message) => type_of(s@) is None && message@ == unknown_type(s@),
            },
    {
        let text: String = s.to_owned();
        if text == "i".to_owned() {
            return Ok(FeatureType::Binary);
        }
        if text == "q".to_owned() {
            return Ok(FeatureType::Quantitative);
        }
        if text == "int".to_owned() {
            return Ok(FeatureType::Integer);
        }
        let mut message: String = "unrecognised feature type '".to_owned();
        message.append(s);
        message.append("', must be one of: 'i', 'q', 'int'");
        Err(message)
    }

    /// The type's text.
    pub fn as_str(&self) -> (r: &'static str)
        ensures
            r@ == self.text(),
    {
        match self {
            FeatureType::Binary => "i",
            FeatureType::Quantitative => "q",
            FeatureType::Integer => "int",
        }
    }
}

impl std::str::FromStr for FeatureType {
    type Err = String;

    /// Reads a type: `i`, `q` or `int`.
    fn from_str(s: &str) -> (r: Result<FeatureType, String>)
        ensures
            match r {
                Ok(t) => type_of(s@) == Some(t),
                Err(message) => type_of(s@) is None && message@ == unknown_type(s@),
            },
    {
        FeatureType::from_str(s)
    }
}

/// A type is read back from its text.
pub proof fn law_type_reads_back(t: FeatureType)
    ensures
        type_of(t.text()) == Some(t),
{
    reveal_strlit("i");
    reveal_strlit("q");
    reveal_strlit("int");
    assert("i"@[0] != "q"@[0]);
    assert("int"@.len() == 3);
}

/// Why a line defines no feature.
#[verifier::ext_equal]
pub enum LineFault {
    /// There are not three fields.
    Fields,
    /// The first field is no number.
    Number(IntFault),
    /// The third field, given here, is no type.
    Type(Seq<char>),
}

/// What a line defines: the feature's number, its name and its type, between tabs.
pub open spec fn line_feature(line: Seq<char>) -> Result<(u32, Seq<char>, FeatureType), LineFault> {
    let parts = split(line, '\t');
    if parts.len() != 3 {
        Err(LineFault::Fields)
    } else {
        match u32_of(parts[0]) {
            Err(fault) => Err(LineFault::Number(fault)),
            Ok(number) => match type_of(parts[2]) {
                None => Err(LineFault::Type(parts[2])),
                Some(kind) => Ok((number, parts[1], kind)),
            },
        }
    }
}

/// What is said of a fault in a line, the first line being number 1.
pub open spec fn fault_message(line: nat, fault: LineFault) -> Seq<char> {
    "Unable to parse features from line "@ + decimal(line) + match fault {
        LineFault::Fields => ", expected 3 tab separated values"@,
        LineFault::Number(fault) => ", could not parse feature number: "@ + fault.message(),
        LineFault::Type(text) => ": "@ + unknown_type(text),
    }
}

/// The features that lines define; a later definition of a number takes the place of an
/// earlier one. The first line that defines no feature decides.
pub open spec fn features_of(lines: Seq<Seq<char>>) -> Result<
    Map<u32, (Seq<char>, FeatureType)>,
    (nat, LineFault),
>
    decreases lines.len(),
{
    if lines.len() == 0 {
        Ok(Map::empty())
    } else {
        match features_of(lines.drop_last()) {
            Err(fault) => Err(fault),
            Ok(features) => match line_feature(lines.last()) {
                Err(fault) => Err((lines.len(), fault)),
                Ok((number, name, kind)) => Ok(features.insert(number, (name, kind))),
            },
        }
    }
}

/// A line that defines a feature.
pub open spec fn feature_line(number: nat, name: Seq<char>, kind: FeatureType) -> Seq<char> {
    decimal(number) + seq!['\t'] + name + seq!['\t'] + kind.text()
}

/// The lines for the features with numbers below `n`, by number.
pub open spec fn lines_below(features: Map<u32, (Seq<char>, FeatureType)>, n: nat) -> Seq<Seq<char>>
    decreases n,
{
    if n == 0 {
        Seq::empty()
    } else {
        let before = lines_below(features, (n - 1) as nat);
        let k = (n - 1) as u32;
        if features.dom().contains(k) {
            before.push(feature_line(k as nat, features[k].0, features[k].1))
        } else {
            before
        }
    }
}

/// The lines for all features, by number.
pub open spec fn feature_lines(features: Map<u32, (Seq<char>, FeatureType)>) -> Seq<Seq<char>> {
    lines_below(features, 0x1_0000_0000)
}

/// Lines as one text, with a line end behind each.
pub open spec fn joined_lines(lines: Seq<Seq<char>>) -> Seq<char>
    decreases lines.len(),
{
    if lines.len() == 0 {
        Seq::empty()
    } else {
        joined_lines(lines.drop_last()) + lines.last() + seq!['\n']
    }
}

/// Maps a feature index to a name and type, used when dumping models as text.
pub struct FeatureMap(BTreeMap<u32, (String, FeatureType)>);

impl View for FeatureMap {
    type V = Map<u32, (Seq<char>, FeatureType)>;

    closed spec fn view(&self) -> Map<u32, (Seq<char>, FeatureType)> {
        self.0@.map_values(|v: (String, FeatureType)| (v.0@, v.1))
    }
}

/// Reads one line; a fault is told with the line's number.
fn read_line(number: usize, line: &str) -> (r: Result<(u32, String, FeatureType), String>)
    ensures
        match r {
            Ok(f) => line_feature(line@) == Ok::<_, LineFault>((f.0, f.1@, f.2)),
            Err(message) => line_feature(line@) matches Err(fault) && message@ == fault_message(
                number as nat,
                fault,
            ),
        },
{
    let parts: Vec<String> = split_text(line, '\t');
    let ghost pieces = split(line@, '\t');
    let mut message: String = "Unable to parse features from line ".to_owned();
    push_decimal(&mut message, number as u64);
    if parts.len() != 3 {
        message.append(", expected 3 tab separated values");
        return Err(message);
    }
    assert(parts@[0]@ == pieces[0] && parts@[1]@ == pieces[1] && parts@[2]@ == pieces[2]);
    let feature_num: u32 = match parse_u32(parts[0].as_str()) {
        Ok(num) => num,
        Err(fault) => {
            message.append(", could not parse feature number: ");
            message.append(fault.as_str());
            assert(message@ =~= fault_message(number as nat, LineFault::Number(fault)));
            return Err(message);
        },
    };
    let feature_type: FeatureType = match FeatureType::from_str(parts[2].as_str()) {
        Ok(feature_type) => feature_type,
        Err(text) => {
            message.append(": ");
            message.append(text.as_str());
            assert(message@ =~= fault_message(number as nat, LineFault::Type(pieces[2])));
            return Err(message);
        },
    };
    Ok((feature_num, parts[1].clone(), feature_type))
}

impl FeatureMap {
    /// Reads a feature map from the lines of a file, one feature definition per line:
    /// ```text
    /// <number>\t<name>\t<type>
    /// ```
    ///
    /// Type is one of:
    /// * `i` - binary feature
    /// * `q` - quantitative feature
    /// * `int` - integer features
    pub fn from_lines(lines: &[String]) -> (r: Result<FeatureMap, String>)
        ensures
            match r {
                Ok(map) => features_of(views(lines@)) == Ok::<_, (nat, LineFault)>(map@),
                Err(message) => features_of(views(lines@)) matches Err((line, fault)) && message@
                    == fault_message(line, fault),
            },
    {
        let ghost texts = views(lines@);
        let mut features: FeatureMap = FeatureMap(BTreeMap::new());
        assert(features@ =~= Map::<u32, (Seq<char>, FeatureType)>::empty());
        let mut i: usize = 0;
        while i < lines.len()
            invariant
                texts == views(lines@),
                i <= lines.len(),
                features_of(texts.take(i as int)) == Ok::<_, (nat, LineFault)>(features@),
            decreases lines.len() - i,
        {
            proof {
                assert(texts.take(i + 1).drop_last() =~= texts.take(i as int));
                assert(texts.take(i + 1).last() == lines@[i as int]@);
            }
            match read_line(i + 1, lines[i].as_str()) {
                Ok((number, name, kind)) => {
                    let ghost before = features@;
                    features.0.insert(number, (name, kind));
                    assert(features@ =~= before.insert(number, (name@, kind)));
                },
                Err(message) => {
                    proof {
                        lemma_fault_stays(texts, i + 1);
                    }
                    return Err(message);
                },
            }
            i = i + 1;
        }
        assert(texts.take(i as int) =~= texts);
        Ok(features)
    }

    /// The map as the text of a file that holds it.
    pub fn to_text(&self) -> (r: String)
        ensures
            r@ == joined_lines(feature_lines(self@)),
    {
        let mut out: String = String::new();
        let ghost map = self@;
        let iter = self.0.iter();
        let ghost pairs = vstd::std_specs::iter::IteratorSpec::remaining(&iter);
        let ghost keys = pairs.map_values(|kv: (&u32, &(String, FeatureType))| *kv.0);
        proof {
            reveal_strlit("\t");
            reveal_strlit("\n");
            lemma_increasing(keys);
            assert(lines_below(map, 0) =~= Seq::<Seq<char>>::empty());
        }
        let ghost mut below: nat = 0;
        for entry in it: iter
            invariant
                map == self@,
                it.seq() == pairs,
                keys == pairs.map_values(|kv: (&u32, &(String, FeatureType))| *kv.0),
                pairs_of(pairs, self.0@),
                forall|i: int, j: int|
                    #![trigger keys[i], keys[j]]
                    0 <= i < j < keys.len() ==> keys[i] < keys[j],
                below == (if it.index() == 0 {
                    0
                } else {
                    keys[it.index() - 1] + 1
                }),
                "\t"@ == seq!['\t'],
                "\n"@ == seq!['\n'],
                out@ == joined_lines(lines_below(map, below)),
        {
            let (number, feature) = entry;
            let ghost i = it.index() as int;
            let ghost lines = lines_below(map, below);
            proof {
                assert(pairs[i] == entry);
                assert(keys[i] == *number);
                assert(self.0@.contains_key(*pairs[i].0));
                assert forall|k: u32| below <= k < *number implies !map.dom().contains(k) by {
                    if map.dom().contains(k) {
                        assert(self.0@.contains_key(k));
                        let j = choose|j: int| 0 <= j < pairs.len() && *(#[trigger] pairs[j]).0 == k;
                        assert(keys[j] == k);
                        if j < i {
                            if j < i - 1 {
                                assert(keys[j] < keys[i - 1]);
                            }
                        } else if j > i {
                            assert(keys[i] < keys[j]);
                        }
                    }
                }
                lemma_no_lines_between(map, below, *number as nat);
            }
            let ghost before = out@;
            push_decimal(&mut out, *number as u64);
            out.append("\t");
            out.append(feature.0.as_str());
            out.append("\t");
            out.append(feature.1.as_str());
            out.append("\n");
            proof {
                below = *number as nat + 1;
                let line = feature_line(*number as nat, feature.0@, feature.1);
                assert(map[*number] == (feature.0@, feature.1));
                assert(lines_below(map, below) == lines.push(line));
                assert(lines.push(line).drop_last() =~= lines);
                assert(out@ =~= before + line + seq!['\n']);
            }
        }
        proof {
            assert forall|k: u32| below <= k < 0x1_0000_0000 implies !map.dom().contains(k) by {
                if map.dom().contains(k) {
                    assert(self.0@.contains_key(k));
                    let j = choose|j: int| 0 <= j < pairs.len() && *(#[trigger] pairs[j]).0 == k;
                    assert(keys[j] == k);
                    if j < keys.len() - 1 {
                        assert(keys[j] < keys[keys.len() - 1]);
                    }
                }
            }
            lemma_no_lines_between(map, below, 0x1_0000_0000);
        }
        out
    }
}

/// `pairs` are the entries of `m`.
spec fn pairs_of(
    pairs: Seq<(&u32, &(String, FeatureType))>,
    m: Map<u32, (String, FeatureType)>,
) -> bool {
    &&& forall|i: int|
        0 <= i < pairs.len() ==> m.contains_key(*(#[trigger] pairs[i]).0) && m[*pairs[i].0]
            == *pairs[i].1
    &&& forall|k: u32| #[trigger]
        m.contains_key(k) ==> exists|j: int| 0 <= j < pairs.len() && *(#[trigger] pairs[j]).0 == k
}

proof fn lemma_increasing(keys: Seq<u32>)
    requires
        vstd::std_specs::btree::increasing_seq(keys),
    ensures
        forall|i: int, j: int|
            #![trigger keys[i], keys[j]]
            0 <= i < j < keys.len() ==> keys[i] < keys[j],
{
    assert forall|i: int, j: int|
        #![trigger keys[i], keys[j]]
        0 <= i < j < keys.len() implies keys[i] < keys[j] by {
        assert(vstd::std_specs::cmp::OrdSpec::cmp_spec(&keys[i], &keys[j]) is Less);
    }
}

/// Numbers without a feature have no lines.
proof fn lemma_no_lines_between(
    features: Map<u32, (Seq<char>, FeatureType)>,
    from: nat,
    to: nat,
)
    requires
        from <= to <= 0x1_0000_0000,
        forall|k: u32| from <= k < to ==> !features.dom().contains(k),
    ensures
        lines_below(features, to) == lines_below(features, from),
    decreases to - from,
{
    if from < to {
        lemma_no_lines_between(features, from, (to - 1) as nat);
        assert(!features.dom().contains((to - 1) as u32));
    }
}

/// A fault in a line is a fault of all lines that begin with it.
proof fn lemma_fault_stays(lines: Seq<Seq<char>>, k: int)
    requires
        0 <= k <= lines.len(),
        features_of(lines.take(k)) is Err,
    ensures
        features_of(lines) == features_of(lines.take(k)),
    decreases lines.len() - k,
{
    if k == lines.len() {
        assert(lines.take(k) =~= lines);
    } else {
        assert(lines.take(k + 1).drop_last() =~= lines.take(k));
        lemma_fault_stays(lines, k + 1);
    }
}

/// A feature is read back from its line, if its name holds no tab.
pub proof fn law_line_reads_back(number: u32, name: Seq<char>, kind: FeatureType)
    requires
        !name.contains('\t'),
    ensures
        line_feature(feature_line(number as nat, name, kind)) == Ok::<_, LineFault>(
            (number, name, kind),
        ),
{
    let digits = decimal(number as nat);
    lemma_decimal_digits(number as nat);
    assert forall|i: int| 0 <= i < digits.len() implies digits[i] != '\t' by {
        assert(is_digit(digits[i]));
    }
    reveal_strlit("i");
    reveal_strlit("q");
    reveal_strlit("int");
    lemma_split_whole(digits, '\t');
    lemma_split_tail(digits, name, '\t');
    lemma_split_tail(digits + seq!['\t'] + name, kind.text(), '\t');
    assert(split(feature_line(number as nat, name, kind), '\t') =~= seq![
        digits,
        name,
        kind.text(),
    ]);
    law_decimal_reads_back(number);
    law_type_reads_back(kind);
}

/// The features with numbers below `n`.
spec fn features_below(features: Map<u32, (Seq<char>, FeatureType)>, n: nat) -> Map<
    u32,
    (Seq<char>, FeatureType),
> {
    features.restrict(Set::new(|k: u32| k < n))
}

proof fn lemma_lines_read_back(features: Map<u32, (Seq<char>, FeatureType)>, n: nat)
    requires
        n <= 0x1_0000_0000,
        forall|k: u32| #[trigger]
            features.dom().contains(k) ==> !features[k].0.contains('\t')
                && !features[k].0.contains('\n'),
    ensures
        features_of(lines_below(features, n)) == Ok::<_, (nat, LineFault)>(
            features_below(features, n),
        ),
        forall|i: int|
            0 <= i < lines_below(features, n).len() ==> !(#[trigger] lines_below(
                features,
                n,
            )[i]).contains('\n'),
    decreases n,
{
    if n == 0 {
        assert(features_below(features, n) =~= Map::empty());
    } else {
        let m = (n - 1) as nat;
        let k = m as u32;
        lemma_lines_read_back(features, m);
        if features.dom().contains(k) {
            let name = features[k].0;
            let kind = features[k].1;
            let line = feature_line(k as nat, name, kind);
            let before = lines_below(features, m);
            assert(before.push(line).drop_last() =~= before);
            law_line_reads_back(k, name, kind);
            assert(features_below(features, n) =~= features_below(features, m).insert(
                k,
                (name, kind),
            ));
            assert(!line.contains('\n')) by {
                lemma_decimal_digits(k as nat);
                reveal_strlit("i");
                reveal_strlit("q");
                reveal_strlit("int");
                let digits = decimal(k as nat);
                assert forall|i: int| 0 <= i < line.len() implies line[i] != '\n' by {
                    let a = digits.len() as int;
                    let b = name.len() as int;
                    if i < a {
                        assert(is_digit(digits[i]));
                    } else if a < i < a + 1 + b {
                        assert(line[i] == name[i - a - 1]);
                        assert(name.contains(name[i - a - 1]));
                    } else if i > a + 1 + b {
                        assert(line[i] == kind.text()[i - a - b - 2]);
                    }
                }
            }
        } else {
            assert(features_below(features, n) =~= features_below(features, m)) by {
                assert forall|x: u32| x < n && features.dom().contains(x) implies x < m by {
                    if x == m {
                        assert(x == k);
                    }
                }
            }
        }
    }
}

proof fn lemma_split_joined(lines: Seq<Seq<char>>)
    requires
        forall|i: int| 0 <= i < lines.len() ==> !(#[trigger] lines[i]).contains('\n'),
    ensures
        split(joined_lines(lines), '\n') == lines.push(Seq::<char>::empty()),
    decreases lines.len(),
{
    if lines.len() > 0 {
        let rest = lines.drop_last();
        assert forall|i: int| 0 <= i < rest.len() implies !(#[trigger] rest[i]).contains('\n') by {
            assert(!lines[i].contains('\n'));
        }
        lemma_split_joined(rest);
        let last = lines.last();
        assert(!lines[lines.len() - 1].contains('\n'));
        let before = joined_lines(rest);
        lemma_split_append(before, last, '\n');
        let empty = Seq::<char>::empty();
        assert(rest.push(empty).drop_last() =~= rest);
        assert(rest.push(empty).last() + last =~= last);
        assert(rest.push(last) =~= lines);
        lemma_split_tail(before + last, empty, '\n');
        assert(before + last + seq!['\n'] + empty =~= joined_lines(lines));
    } else {
        assert(seq![Seq::<char>::empty()] =~= lines.push(Seq::<char>::empty()));
    }
}

/// A map is read back from the lines of its text, if no name holds a tab or a line end.
pub proof fn law_map_reads_back(features: Map<u32, (Seq<char>, FeatureType)>)
    requires
        forall|k: u32| #[trigger]
            features.dom().contains(k) ==> !features[k].0.contains('\t')
                && !features[k].0.contains('\n'),
    ensures
        features_of(split(joined_lines(feature_lines(features)), '\n').drop_last()) == Ok::<
            _,
            (nat, LineFault),
        >(features),
{
    lemma_lines_read_back(features, 0x1_0000_0000);
    lemma_split_joined(feature_lines(features));
    assert(feature_lines(features).push(Seq::<char>::empty()).drop_last() =~= feature_lines(
        features,
    ));
    assert(features_below(features, 0x1_0000_0000) =~= features);
}

/// A text names a type exactly if it is that type's text: `i`, `q` or `int`. The complaint about
/// any other text quotes it.
pub proof fn law_types_by_their_texts(s: Seq<char>, t: FeatureType)
    ensures
        type_of(s) == Some(t) <==> s == (match t {
            FeatureType::Binary => seq!['i'],
            FeatureType::Quantitative => seq!['q'],
            FeatureType::Integer => seq!['i', 'n', 't'],
        }),
        unknown_type(s).take(27) == "unrecognised feature type '"@,
        unknown_type(s).skip(27) == s + "', must be one of: 'i', 'q', 'int'"@,
{
    reveal_strlit("i");
    reveal_strlit("q");
    reveal_strlit("int");
    reveal_strlit("unrecognised feature type '");
    assert("i"@ =~= seq!['i']);
    assert("q"@ =~= seq!['q']);
    assert("int"@ =~= seq!['i', 'n', 't']);
    assert(seq!['i'][0] != seq!['q'][0]);
    assert(seq!['i', 'n', 't'].len() == 3);
    assert(unknown_type(s).take(27) =~= "unrecognised feature type '"@);
    assert(unknown_type(s).skip(27) =~= s + "', must be one of: 'i', 'q', 'int'"@);
}

/// A line of three fields defines a feature exactly if the first is a number and the third a type,
/// and then the one that they say; otherwise the number is blamed before the type.
pub proof fn law_line_of_three_fields(number: Seq<char>, name: Seq<char>, kind: Seq<char>)
    requires
        !number.contains('\t'),
        !name.contains('\t'),
        !kind.contains('\t'),
    ensures
        ({
            let line = number + seq!['\t'] + name + seq!['\t'] + kind;
            match (u32_of(number), type_of(kind)) {
                (Ok(n), Some(t)) => line_feature(line) == Ok::<_, LineFault>((n, name, t)),
                (Ok(_), None) => line_feature(line) == Err::<(u32, Seq<char>, FeatureType), _>(
                    LineFault::Type(kind),
                ),
                (Err(fault), _) => line_feature(line) == Err::<(u32, Seq<char>, FeatureType), _>(
                    LineFault::Number(fault),
                ),
            }
        }),
{
    let line = number + seq!['\t'] + name + seq!['\t'] + kind;
    let f = seq![number, name, kind];
    let f1 = f.drop_last();
    let f2 = f1.drop_last();
    assert(joined_by(f2, '\t') == f[0]);
    assert(joined_by(f1, '\t') == f[0] + seq!['\t'] + f[1]);
    assert(joined_by(f, '\t') =~= line);
    law_split_finds_pieces(f, '\t');
}

/// A line of more or fewer than three fields is refused for that.
pub proof fn law_line_of_other_fields(fields: Seq<Seq<char>>)
    requires
        fields.len() > 0,
        fields.len() != 3,
        forall|i: int| 0 <= i < fields.len() ==> !(#[trigger] fields[i]).contains('\t'),
    ensures
        line_feature(joined_by(fields, '\t')) == Err::<(u32, Seq<char>, FeatureType), _>(
            LineFault::Fields,
        ),
{
    law_split_finds_pieces(fields, '\t');
}

/// Lines define features exactly if each of them does. Then every number that a line defines is
/// in the map, and no other, and what stands under it is what its last line says. Otherwise the
/// blame is on the first line that defines nothing, counted from 1, for its own fault.
pub proof fn law_features_of_lines(lines: Seq<Seq<char>>)
    ensures
        features_of(lines) is Ok <==> forall|i: int|
            0 <= i < lines.len() ==> line_feature(#[trigger] lines[i]) is Ok,
        features_of(lines) matches Ok(map) ==> (forall|k: u32| #[trigger]
            map.dom().contains(k) <==> exists|i: int|
                0 <= i < lines.len() && line_feature(#[trigger] lines[i])->Ok_0.0 == k),
        features_of(lines) matches Ok(map) ==> (forall|i: int|
            0 <= i < lines.len() && (forall|j: int|
                i < j < lines.len() ==> line_feature(#[trigger] lines[j])->Ok_0.0 != line_feature(
                    lines[i],
                )->Ok_0.0) ==> map[line_feature(#[trigger] lines[i])->Ok_0.0] == (
                line_feature(lines[i])->Ok_0.1,
                line_feature(lines[i])->Ok_0.2,
            )),
        features_of(lines) matches Err((n, fault)) ==> 1 <= n <= lines.len() && line_feature(
            lines[n - 1],
        ) == Err::<(u32, Seq<char>, FeatureType), _>(fault) && forall|i: int|
            0 <= i < n - 1 ==> line_feature(#[trigger] lines[i]) is Ok,
    decreases lines.len(),
{
    if lines.len() > 0 {
        let rest = lines.drop_last();
        law_features_of_lines(rest);
        assert forall|i: int| 0 <= i < rest.len() implies rest[i] == lines[i] by {}
        assert(lines[lines.len() - 1] == lines.last());
        match features_of(rest) {
            Err((n, fault)) => {
                assert(line_feature(rest[n - 1]) is Err);
                assert(line_feature(lines[n - 1]) is Err);
                assert forall|i: int| 0 <= i < n - 1 implies line_feature(
                    #[trigger] lines[i],
                ) is Ok by {
                    assert(line_feature(rest[i]) is Ok);
                }
            },
            Ok(before) => {
                assert forall|i: int| 0 <= i < rest.len() implies line_feature(
                    #[trigger] lines[i],
                ) is Ok by {
                    assert(line_feature(rest[i]) is Ok);
                }
                if let Ok((number, name, kind)) = line_feature(lines.last()) {
                    let map = before.insert(number, (name, kind));
                    assert(features_of(lines) == Ok::<_, (nat, LineFault)>(map));
                    assert forall|k: u32| #[trigger]
                        map.dom().contains(k) <==> exists|i: int|
                            0 <= i < lines.len() && line_feature(#[trigger] lines[i])->Ok_0.0
                                == k by {
                        if map.dom().contains(k) {
                            if k == number {
                                assert(line_feature(lines[lines.len() - 1])->Ok_0.0 == k);
                            } else {
                                assert(before.dom().contains(k));
                                let i = choose|i: int|
                                    0 <= i < rest.len() && line_feature(
                                        #[trigger] rest[i],
                                    )->Ok_0.0 == k;
                                assert(line_feature(lines[i])->Ok_0.0 == k);
                            }
                        }
                        if exists|i: int|
                            0 <= i < lines.len() && line_feature(#[trigger] lines[i])->Ok_0.0
                                == k {
                            let i = choose|i: int|
                                0 <= i < lines.len() && line_feature(#[trigger] lines[i])->Ok_0.0
                                    == k;
                            if i < rest.len() {
                                assert(line_feature(rest[i])->Ok_0.0 == k);
                                assert(before.dom().contains(k));
                            }
                        }
                    }
                    assert forall|i: int|
                        0 <= i < lines.len() && (forall|j: int|
                            i < j < lines.len() ==> line_feature(#[trigger] lines[j])->Ok_0.0
                                != line_feature(lines[i])->Ok_0.0) implies map[line_feature(
                        #[trigger] lines[i],
                    )->Ok_0.0] == (
                        line_feature(lines[i])->Ok_0.1,
                        line_feature(lines[i])->Ok_0.2,
                    ) by {
                        if i < rest.len() {
                            assert(line_feature(lines[lines.len() - 1])->Ok_0.0 != line_feature(
                                lines[i],
                            )->Ok_0.0);
                            assert forall|j: int| i < j < rest.len() implies line_feature(
                                #[trigger] rest[j],
                            )->Ok_0.0 != line_feature(rest[i])->Ok_0.0 by {
                                assert(line_feature(lines[j])->Ok_0.0 != line_feature(
                                    lines[i],
                                )->Ok_0.0);
                            }
                            assert(before[line_feature(rest[i])->Ok_0.0] == (
                                line_feature(rest[i])->Ok_0.1,
                                line_feature(rest[i])->Ok_0.2,
                            ));
                        }
                    }
                }
            },
        }
    }
}

/// The complaint about a line begins with the line's number, and goes on to the fault.
pub proof fn law_fault_tells_the_line(line: nat, fault: LineFault)
    ensures
        ({
            let head = "Unable to parse features from line "@ + decimal(line);
            let text = fault_message(line, fault);
            &&& text.take(head.len() as int) == head
            &&& text.skip(head.len() as int) == (match fault {
                LineFault::Fields => ", expected 3 tab separated values"@,
                LineFault::Number(fault) => ", could not parse feature number: "@ + (match fault {
                    IntFault::Empty => "cannot parse integer from empty string"@,
                    IntFault::InvalidDigit => "invalid digit found in string"@,
                    IntFault::Overflow => "number too large to fit in target type"@,
                }),
                LineFault::Type(text) => ": "@ + unknown_type(text),
            })
        }),
{
    let head = "Unable to parse features from line "@ + decimal(line);
    let text = fault_message(line, fault);
    assert(text.take(head.len() as int) =~= head);
    match fault {
        LineFault::Fields => {
            assert(text.skip(head.len() as int) =~= ", expected 3 tab separated values"@);
        },
        LineFault::Number(f) => {
            assert(text.skip(head.len() as int) =~= ", could not parse feature number: "@
                + f.message());
        },
        LineFault::Type(t) => {
            assert(text.skip(head.len() as int) =~= ": "@ + unknown_type(t));
        },
    }
}

/// The numbers of a map's features, one after the other, each with its line.
pub open spec fn numbered_lines(
    features: Map<u32, (Seq<char>, FeatureType)>,
    n: nat,
    lines: Seq<Seq<char>>,
    numbers: Seq<u32>,
) -> bool {
    &&& lines.len() == numbers.len()
    &&& forall|i: int, j: int|
        #![trigger numbers[i], numbers[j]]
        0 <= i < j < numbers.len() ==> numbers[i] < numbers[j]
    &&& forall|k: u32|
        #![trigger features.dom().contains(k)]
        #![trigger numbers.contains(k)]
        (features.dom().contains(k) && k < n) <==> numbers.contains(k)
    &&& forall|i: int|
        0 <= i < lines.len() ==> #[trigger] lines[i] == decimal(numbers[i] as nat) + seq!['\t']
            + features[numbers[i]].0 + seq!['\t'] + features[numbers[i]].1.text()
}

proof fn lemma_numbered(features: Map<u32, (Seq<char>, FeatureType)>, n: nat) -> (numbers: Seq<u32>)
    requires
        n <= 0x1_0000_0000,
    ensures
        numbered_lines(features, n, lines_below(features, n), numbers),
    decreases n,
{
    if n == 0 {
        Seq::empty()
    } else {
        let before = lemma_numbered(features, (n - 1) as nat);
        let k = (n - 1) as u32;
        let lines = lines_below(features, n);
        if features.dom().contains(k) {
            let numbers = before.push(k);
            assert forall|i: int, j: int|
                #![trigger numbers[i], numbers[j]]
                0 <= i < j < numbers.len() implies numbers[i] < numbers[j] by {
                if j == before.len() {
                    assert(before.contains(before[i]));
                    assert(features.dom().contains(before[i]) && before[i] < n - 1);
                } else {
                    assert(before[i] < before[j]);
                }
            }
            assert forall|x: u32|
                #![trigger features.dom().contains(x)]
                #![trigger numbers.contains(x)]
                (features.dom().contains(x) && x < n) <==> numbers.contains(x) by {
                if before.contains(x) {
                    let i = choose|i: int| 0 <= i < before.len() && before[i] == x;
                    assert(numbers[i] == x);
                }
                if x == k {
                    assert(numbers[before.len() as int] == k);
                }
                if numbers.contains(x) {
                    let i = choose|i: int| 0 <= i < numbers.len() && numbers[i] == x;
                    if i < before.len() {
                        assert(before[i] == x);
                        assert(before.contains(x));
                    }
                }
            }
            assert forall|i: int| 0 <= i < lines.len() implies #[trigger] lines[i] == decimal(
                numbers[i] as nat,
            ) + seq!['\t'] + features[numbers[i]].0 + seq!['\t']
                + features[numbers[i]].1.text() by {
                if i < before.len() {
                    assert(lines_below(features, (n - 1) as nat)[i] == lines[i]);
                    assert(numbers[i] == before[i]);
                }
            }
            numbers
        } else {
            before
        }
    }
}

/// A map is written by number: there is a line for each feature and for nothing else, lines are
/// in the order of the numbers, and each is its number, name and type between tabs.
pub proof fn law_map_is_written_by_number(features: Map<u32, (Seq<char>, FeatureType)>)
    ensures
        exists|numbers: Seq<u32>| #[trigger]
            numbered_lines(features, 0x1_0000_0000, feature_lines(features), numbers),
{
    let numbers = lemma_numbered(features, 0x1_0000_0000);
    assert(numbered_lines(features, 0x1_0000_0000, feature_lines(features), numbers));
}

/// Lines are written one after the other, each with a line end behind it.
pub proof fn law_lines_are_written_in_order(a: Seq<Seq<char>>, b: Seq<Seq<char>>, line: Seq<char>)
    ensures
        joined_lines(Seq::empty()) == Seq::<char>::empty(),
        joined_lines(seq![line]) == line + seq!['\n'],
        joined_lines(a + b) == joined_lines(a) + joined_lines(b),
    decreases b.len(),
{
    let none = Seq::<Seq<char>>::empty();
    assert(joined_lines(none) =~= Seq::empty());
    assert(seq![line].drop_last() =~= none);
    assert(joined_lines(seq![line]) =~= line + seq!['\n']);
    if b.len() == 0 {
        assert(a + b =~= a);
        assert(joined_lines(b) =~= Seq::empty());
        assert(joined_lines(a) + joined_lines(b) =~= joined_lines(a));
    } else {
        law_lines_are_written_in_order(a, b.drop_last(), line);
        assert((a + b).drop_last() =~= a + b.drop_last());
        assert((a + b).last() == b.last());
        assert(joined_lines(a + b) =~= joined_lines(a) + joined_lines(b));
    }
}

} // verus!
