//! Prediction types and configurations.

use crate::ctext::{holds_nul, lemma_chars_nul, lemma_decimal_nul};
use crate::predict_config;
use crate::text::{
    bool_text, decimal, joined_by, law_decimal_unambiguous, law_split_finds_pieces,
    lemma_concat_without, lemma_decimal_without, push_bool, push_decimal, push_signed,
    signed_decimal, split,
};
use vstd::prelude::*;

verus! {

broadcast use vstd::string::group_string_axioms;

/// What a prediction computes.
#[derive(Clone, Copy, Debug, PartialEq, Eq, Structural)]
pub enum PredictType {
    Normal,
    OutputMargin,
    PredictContribitions,
    PredictApproximateContributions,
    PredictFeatureInteractions,
    PredictApproximateFeatureInteractions,
    PredictLeafTraining,
}

impl PredictType {
    /// The number by which a configuration names the type.
    pub open spec fn code(self) -> nat {
        match self {
            PredictType::Normal => 0,
            PredictType::OutputMargin => 1,
            PredictType::PredictContribitions => 2,
            PredictType::PredictApproximateContributions => 3,
            PredictType::PredictFeatureInteractions => 4,
            PredictType::PredictApproximateFeatureInteractions => 5,
            PredictType::PredictLeafTraining => 6,
        }
    }

    /// The number by which a configuration names the type.
    pub fn as_usize(&self) -> (r: usize)
        ensures
            r == self.code(),
    {
        match self {
            PredictType::Normal => 0,
            PredictType::OutputMargin => 1,
            PredictType::PredictContribitions => 2,
            PredictType::PredictApproximateContributions => 3,
            PredictType::PredictFeatureInteractions => 4,
            PredictType::PredictApproximateFeatureInteractions => 5,
            PredictType::PredictLeafTraining => 6,
        }
    }
}

impl Default for PredictType {
    fn default() -> (r: Self)
        ensures
            r == PredictType::Normal,
    {
        PredictType::Normal
    }
}

/// A prediction's configuration.
#[derive(Clone, Copy, Debug, PartialEq, Eq, Structural)]
pub struct PredictConfig {
    pub _type: PredictType,
    pub training: bool,
    pub iteration_begin: i64,
    pub iteration_end: i64,
    pub strict_shape: bool,
}

impl Default for PredictConfig {
    fn default() -> (r: Self)
        ensures
            r == PredictConfig::standard(PredictType::Normal),
    {
        PredictConfig {
            _type: PredictType::Normal,
            training: false,
            iteration_begin: 0,
            iteration_end: 0,
            strict_shape: false,
        }
    }
}

impl PredictConfig {
    /// All trees, no training, flat output.
    pub open spec fn standard(kind: PredictType) -> PredictConfig {
        PredictConfig {
            _type: kind,
            training: false,
            iteration_begin: 0,
            iteration_end: 0,
            strict_shape: false,
        }
    }

    /// The configuration as JSON, without a terminator.
    pub open spec fn json(self) -> Seq<char> {
        "{\"type\":"@ + decimal(self._type.code()) + ",\"training\":"@ + bool_text(self.training)
            + ",\"iteration_begin\":"@ + signed_decimal(self.iteration_begin as int)
            + ",\"iteration_end\":"@ + signed_decimal(self.iteration_end as int)
            + ",\"strict_shape\":"@ + bool_text(self.strict_shape) + "}"@
    }

    /// The configuration as NUL-terminated JSON, mainly for `predict_matrix`.
    pub fn as_json(&self) -> (r: String)
        ensures
            r@ == self.json().push('\0'),
    {
        let mut out: String = String::new();
        out.append("{\"type\":");
        push_decimal(&mut out, self._type.as_usize() as u64);
        out.append(",\"training\":");
        push_bool(&mut out, self.training);
        out.append(",\"iteration_begin\":");
        push_signed(&mut out, self.iteration_begin);
        out.append(",\"iteration_end\":");
        push_signed(&mut out, self.iteration_end);
        out.append(",\"strict_shape\":");
        push_bool(&mut out, self.strict_shape);
        out.append("}");
        assert(out@ =~= self.json());
        proof {
            reveal_strlit("\0");
        }
        out.append("\0");
        assert(out@ =~= self.json().push('\0'));
        out
    }
}

/// A configuration's JSON holds no NUL.
pub proof fn lemma_json_nul(config: PredictConfig)
    ensures
        !holds_nul(config.json()),
{
    reveal_strlit("{\"type\":");
    reveal_strlit(",\"training\":");
    reveal_strlit("true");
    reveal_strlit("false");
    reveal_strlit(",\"iteration_begin\":");
    reveal_strlit(",\"iteration_end\":");
    reveal_strlit(",\"strict_shape\":");
    reveal_strlit("}");
    let t0 = "{\"type\":"@;
    let t1 = t0 + decimal(config._type.code());
    let t2 = t1 + ",\"training\":"@;
    let t3 = t2 + bool_text(config.training);
    let t4 = t3 + ",\"iteration_begin\":"@;
    let t5 = t4 + signed_decimal(config.iteration_begin as int);
    let t6 = t5 + ",\"iteration_end\":"@;
    let t7 = t6 + signed_decimal(config.iteration_end as int);
    let t8 = t7 + ",\"strict_shape\":"@;
    let t9 = t8 + bool_text(config.strict_shape);
    lemma_decimal_nul(config._type.code());
    lemma_signed_nul(config.iteration_begin as int);
    lemma_signed_nul(config.iteration_end as int);
    lemma_chars_nul(t0, decimal(config._type.code()));
    lemma_chars_nul(t1, ",\"training\":"@);
    lemma_chars_nul(t2, bool_text(config.training));
    lemma_chars_nul(t3, ",\"iteration_begin\":"@);
    lemma_chars_nul(t4, signed_decimal(config.iteration_begin as int));
    lemma_chars_nul(t5, ",\"iteration_end\":"@);
    lemma_chars_nul(t6, signed_decimal(config.iteration_end as int));
    lemma_chars_nul(t7, ",\"strict_shape\":"@);
    lemma_chars_nul(t8, bool_text(config.strict_shape));
    lemma_chars_nul(t9, "}"@);
}

proof fn lemma_signed_nul(n: int)
    ensures
        !holds_nul(signed_decimal(n)),
{
    if n < 0 {
        lemma_decimal_nul((-n) as nat);
        lemma_chars_nul(seq!['-'], decimal((-n) as nat));
    } else {
        lemma_decimal_nul(n as nat);
    }
}

/// The fixed configurations are what `as_json` gives for their types.
pub proof fn law_fixed_configs_match_as_json()
    ensures
        predict_config::NORMAL@ == PredictConfig::standard(PredictType::Normal).json().push('\0'),
        predict_config::MARGIN@ == PredictConfig::standard(PredictType::OutputMargin).json().push('\0'),
        predict_config::CONTRIBUTIONS@ == PredictConfig::standard(
            PredictType::PredictContribitions,
        ).json().push('\0'),
        predict_config::INTERACTIONS@ == PredictConfig::standard(
            PredictType::PredictFeatureInteractions,
        ).json().push('\0'),
        predict_config::LEAF@ == PredictConfig::standard(PredictType::PredictLeafTraining).json().push('\0'),
{
    reveal_strlit("{\"type\":");
    reveal_strlit(",\"training\":");
    reveal_strlit("false");
    reveal_strlit(",\"iteration_begin\":");
    reveal_strlit(",\"iteration_end\":");
    reveal_strlit(",\"strict_shape\":");
    reveal_strlit("}");
    reveal_strlit("{\"type\":0,\"training\":false,\"iteration_begin\":0,\"iteration_end\":0,\"strict_shape\":false}\0");
    assert(predict_config::NORMAL@ =~= PredictConfig::standard(PredictType::Normal).json().push('\0'));
    reveal_strlit("{\"type\":1,\"training\":false,\"iteration_begin\":0,\"iteration_end\":0,\"strict_shape\":false}\0");
    assert(predict_config::MARGIN@ =~= PredictConfig::standard(PredictType::OutputMargin).json().push('\0'));
    reveal_strlit("{\"type\":2,\"training\":false,\"iteration_begin\":0,\"iteration_end\":0,\"strict_shape\":false}\0");
    assert(predict_config::CONTRIBUTIONS@ =~= PredictConfig::standard(PredictType::PredictContribitions).json().push('\0'));
    reveal_strlit("{\"type\":4,\"training\":false,\"iteration_begin\":0,\"iteration_end\":0,\"strict_shape\":false}\0");
    assert(predict_config::INTERACTIONS@ =~= PredictConfig::standard(PredictType::PredictFeatureInteractions).json().push('\0'));
    reveal_strlit("{\"type\":6,\"training\":false,\"iteration_begin\":0,\"iteration_end\":0,\"strict_shape\":false}\0");
    assert(predict_config::LEAF@ =~= PredictConfig::standard(PredictType::PredictLeafTraining).json().push('\0'));
}

/// What stands between the commas of a configuration's JSON.
spec fn json_fields(config: PredictConfig) -> Seq<Seq<char>> {
    seq![
        "{\"type\":"@ + decimal(config._type.code()),
        "\"training\":"@ + (if config.training {
            "true"@
        } else {
            "false"@
        }),
        "\"iteration_begin\":"@ + signed_decimal(config.iteration_begin as int),
        "\"iteration_end\":"@ + signed_decimal(config.iteration_end as int),
        "\"strict_shape\":"@ + (if config.strict_shape {
            "true"@
        } else {
            "false"@
        }) + "}"@,
    ]
}

proof fn lemma_fields_without_comma(config: PredictConfig)
    ensures
        forall|i: int|
            0 <= i < json_fields(config).len() ==> !(#[trigger] json_fields(config)[i]).contains(
                ',',
            ),
{
    reveal_strlit("{\"type\":");
    reveal_strlit("\"training\":");
    reveal_strlit("true");
    reveal_strlit("false");
    reveal_strlit("\"iteration_begin\":");
    reveal_strlit("\"iteration_end\":");
    reveal_strlit("\"strict_shape\":");
    reveal_strlit("}");
    lemma_decimal_without(config._type.code() as int, ',');
    lemma_decimal_without(config.iteration_begin as int, ',');
    lemma_decimal_without(config.iteration_end as int, ',');
    lemma_concat_without("{\"type\":"@, decimal(config._type.code()), ',');
    lemma_concat_without(
        "\"iteration_begin\":"@,
        signed_decimal(config.iteration_begin as int),
        ',',
    );
    lemma_concat_without("\"iteration_end\":"@, signed_decimal(config.iteration_end as int), ',');
}

/// A configuration's JSON has five fields between commas. Each tells its own part of the
/// configuration, whatever the others are.
pub proof fn law_json_has_a_field_for_each_part(config: PredictConfig)
    ensures
        split(config.json(), ',').len() == 5,
        split(config.json(), ',')[0] == "{\"type\":"@ + decimal(config._type.code()),
        split(config.json(), ',')[1] == "\"training\":"@ + (if config.training {
            "true"@
        } else {
            "false"@
        }),
        split(config.json(), ',')[2] == "\"iteration_begin\":"@ + signed_decimal(
            config.iteration_begin as int,
        ),
        split(config.json(), ',')[3] == "\"iteration_end\":"@ + signed_decimal(
            config.iteration_end as int,
        ),
        split(config.json(), ',')[4] == "\"strict_shape\":"@ + (if config.strict_shape {
            "true"@
        } else {
            "false"@
        }) + "}"@,
{
    reveal_strlit("{\"type\":");
    reveal_strlit(",\"training\":");
    reveal_strlit("\"training\":");
    reveal_strlit("true");
    reveal_strlit("false");
    reveal_strlit(",\"iteration_begin\":");
    reveal_strlit("\"iteration_begin\":");
    reveal_strlit(",\"iteration_end\":");
    reveal_strlit("\"iteration_end\":");
    reveal_strlit(",\"strict_shape\":");
    reveal_strlit("\"strict_shape\":");
    reveal_strlit("}");
    let fields = json_fields(config);
    lemma_fields_without_comma(config);
    let f1 = fields.drop_last();
    let f2 = f1.drop_last();
    let f3 = f2.drop_last();
    let f4 = f3.drop_last();
    assert(joined_by(f4, ',') == fields[0]);
    assert(joined_by(f3, ',') == fields[0] + seq![','] + fields[1]);
    assert(joined_by(f2, ',') == joined_by(f3, ',') + seq![','] + fields[2]);
    assert(joined_by(f1, ',') == joined_by(f2, ',') + seq![','] + fields[3]);
    assert(joined_by(fields, ',') =~= config.json());
    law_split_finds_pieces(fields, ',');
}

/// A configuration can be told from its JSON: two with the same JSON are the same.
pub proof fn law_json_tells_the_configuration(a: PredictConfig, b: PredictConfig)
    requires
        a.json() == b.json(),
    ensures
        a == b,
{
    law_json_has_a_field_for_each_part(a);
    law_json_has_a_field_for_each_part(b);
    reveal_strlit("{\"type\":");
    reveal_strlit("\"training\":");
    reveal_strlit("true");
    reveal_strlit("false");
    reveal_strlit("\"iteration_begin\":");
    reveal_strlit("\"iteration_end\":");
    reveal_strlit("\"strict_shape\":");
    reveal_strlit("}");
    let f = split(a.json(), ',');
    assert(f[0].skip(8) =~= decimal(a._type.code()));
    assert(f[0].skip(8) =~= decimal(b._type.code()));
    law_decimal_unambiguous(a._type.code() as int, b._type.code() as int);
    assert(a._type == b._type);
    assert(f[1].len() == 15 <==> a.training);
    assert(f[1].len() == 15 <==> b.training);
    assert(f[2].skip(18) =~= signed_decimal(a.iteration_begin as int));
    assert(f[2].skip(18) =~= signed_decimal(b.iteration_begin as int));
    law_decimal_unambiguous(a.iteration_begin as int, b.iteration_begin as int);
    assert(f[3].skip(16) =~= signed_decimal(a.iteration_end as int));
    assert(f[3].skip(16) =~= signed_decimal(b.iteration_end as int));
    law_decimal_unambiguous(a.iteration_end as int, b.iteration_end as int);
    assert(f[4].len() == 20 <==> a.strict_shape);
    assert(f[4].len() == 20 <==> b.strict_shape);
}

/// The prediction types are numbered from 0 in their order.
pub proof fn law_types_are_numbered()
    ensures
        PredictType::Normal.code() == 0,
        PredictType::OutputMargin.code() == 1,
        PredictType::PredictContribitions.code() == 2,
        PredictType::PredictApproximateContributions.code() == 3,
        PredictType::PredictFeatureInteractions.code() == 4,
        PredictType::PredictApproximateFeatureInteractions.code() == 5,
        PredictType::PredictLeafTraining.code() == 6,
{
}

} // verus!
