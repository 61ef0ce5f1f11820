//! Attributes and feature information that a model carries.

use crate::booster::Booster;
use crate::call::{ask_once, asks_once, Call, Request, Step};
use crate::ctext::{has_nul, holds_nul, terminated, with_nul};
use crate::error::{fails_with, XGBError, XGBResult};
use crate::evaluation::name_texts;
use crate::text::views;
use vstd::prelude::*;
use vstd::utf8::{decode_utf8, valid_utf8};

verus! {

broadcast use vstd::string::group_string_axioms;

/// What `Utf8Error` says of bytes that are no text.
pub uninterp spec fn utf8_error_text(bytes: Seq<u8>) -> Seq<char>;

/// `std::str::from_utf8`: the text that the bytes encode, if they are valid UTF-8; otherwise
/// what the error says of them, which depends on the bytes alone.
#[verifier::external_body]
fn text_from_utf8(bytes: &[u8]) -> (r: Result<String, String>)
    ensures
        match r {
            Ok(text) => valid_utf8(bytes@) && text@ == decode_utf8(bytes@),
            Err(message) => !valid_utf8(bytes@) && message@ == utf8_error_text(bytes@),
        },
{
    std::str::from_utf8(bytes).map(str::to_owned).map_err(|e| e.to_string())
}

/// What `{:?}` gives for a text: the text in quotes, with escapes.
pub uninterp spec fn quoted_text(s: Seq<char>) -> Seq<char>;

/// The `Debug` formatting of `str`, which depends on the text alone.
#[verifier::external_body]
fn quoted(s: &str) -> (r: String)
    ensures
        r@ == quoted_text(s@),
{
    format!("{:?}", s)
}

/// The first of the texts that is no valid UTF-8, or their number if all are.
pub open spec fn first_invalid(raw: Seq<Vec<u8>>) -> int
    decreases raw.len(),
{
    if raw.len() == 0 {
        0
    } else if first_invalid(raw.drop_last()) < raw.len() - 1 {
        first_invalid(raw.drop_last())
    } else if !valid_utf8(raw.last()@) {
        raw.len() - 1
    } else {
        raw.len() as int
    }
}

/// What feature information is, as bytes: all of it as text, or the complaint about the first
/// value that is no text.
pub open spec fn decoded(r: XGBResult<Vec<String>>, raw: Seq<Vec<u8>>) -> bool {
    if first_invalid(raw) < raw.len() {
        fails_with(
            r,
            "feature info value is not valid UTF-8: "@ + utf8_error_text(
                raw[first_invalid(raw)]@,
            ),
        )
    } else {
        r matches Ok(texts) && views(texts@) == raw.map_values(|b: Vec<u8>| decode_utf8(b@))
    }
}

proof fn lemma_first_invalid(raw: Seq<Vec<u8>>, k: int)
    requires
        0 <= k < raw.len(),
        forall|i: int| 0 <= i < k ==> valid_utf8((#[trigger] raw[i])@),
        !valid_utf8(raw[k]@),
    ensures
        first_invalid(raw) == k,
    decreases raw.len(),
{
    let rest = raw.drop_last();
    if k < rest.len() {
        assert(rest[k] == raw[k]);
        lemma_first_invalid(rest, k);
    } else {
        lemma_all_valid(rest);
    }
}

proof fn lemma_all_valid(raw: Seq<Vec<u8>>)
    requires
        forall|i: int| 0 <= i < raw.len() ==> valid_utf8((#[trigger] raw[i])@),
    ensures
        first_invalid(raw) == raw.len(),
    decreases raw.len(),
{
    if raw.len() > 0 {
        lemma_all_valid(raw.drop_last());
        assert(raw[raw.len() - 1] == raw.last());
    }
}

/// Turns feature information into texts.
pub fn decode_feature_info(raw: &[Vec<u8>]) -> (r: XGBResult<Vec<String>>)
    ensures
        decoded(r, raw@),
{
    let mut texts: Vec<String> = Vec::new();
    let mut i: usize = 0;
    while i < raw.len()
        invariant
            i <= raw.len(),
            texts@.len() == i,
            forall|k: int| 0 <= k < i ==> valid_utf8((#[trigger] raw@[k])@),
            forall|k: int| 0 <= k < i ==> (#[trigger] texts@[k])@ == decode_utf8(raw@[k]@),
        decreases raw.len() - i,
    {
        match text_from_utf8(raw[i].as_slice()) {
            Ok(text) => {
                texts.push(text);
            },
            Err(e) => {
                let mut message: String = "feature info value is not valid UTF-8: ".to_owned();
                message.append(e.as_str());
                proof {
                    lemma_first_invalid(raw@, i as int);
                }
                return Err(XGBError::new(message));
            },
        }
        i = i + 1;
    }
    proof {
        lemma_all_valid(raw@);
        assert(views(texts@) =~= raw@.map_values(|b: Vec<u8>| decode_utf8(b@)));
    }
    Ok(texts)
}

/// The index of the first of the texts that holds a NUL, or their number if none does.
pub open spec fn first_nul(texts: Seq<Seq<char>>) -> int
    decreases texts.len(),
{
    if texts.len() == 0 {
        0
    } else if first_nul(texts.drop_last()) < texts.len() - 1 {
        first_nul(texts.drop_last())
    } else if holds_nul(texts.last()) {
        texts.len() - 1
    } else {
        texts.len() as int
    }
}

proof fn lemma_first_nul(texts: Seq<Seq<char>>, k: int)
    requires
        0 <= k <= texts.len(),
        forall|i: int| 0 <= i < k ==> !holds_nul(#[trigger] texts[i]),
        k < texts.len() ==> holds_nul(texts[k]),
    ensures
        first_nul(texts) == k,
    decreases texts.len(),
{
    if texts.len() > 0 {
        let rest = texts.drop_last();
        if k < rest.len() {
            assert(rest[k] == texts[k]);
            lemma_first_nul(rest, k);
        } else {
            lemma_first_nul(rest, rest.len() as int);
            assert(texts[texts.len() - 1] == texts.last());
        }
    }
}

/// The texts, each with its terminator; or the complaint about the first that holds a NUL.
fn terminate_features(features: &Vec<&str>) -> (r: XGBResult<Vec<String>>)
    ensures
        ({
            let texts = name_texts(features@);
            if first_nul(texts) < texts.len() {
                fails_with(
                    r,
                    "feature info value contains an interior NUL byte: "@ + quoted_text(
                        texts[first_nul(texts)],
                    ),
                )
            } else {
                r matches Ok(v) && views(v@) == texts.map_values(|t: Seq<char>| terminated(t))
            }
        }),
{
    let ghost texts = name_texts(features@);
    let mut out: Vec<String> = Vec::new();
    let mut i: usize = 0;
    while i < features.len()
        invariant
            i <= features.len(),
            texts == name_texts(features@),
            out@.len() == i,
            forall|k: int| 0 <= k < i ==> !holds_nul(#[trigger] texts[k]),
            forall|k: int| 0 <= k < i ==> (#[trigger] out@[k])@ == terminated(texts[k]),
        decreases features.len() - i,
    {
        let feature: &str = features[i];
        assert(texts[i as int] == feature@);
        if has_nul(feature) {
            let mut message: String =
                "feature info value contains an interior NUL byte: ".to_owned();
            message.append(quoted(feature).as_str());
            proof {
                lemma_first_nul(texts, i as int);
            }
            return Err(XGBError::new(message));
        }
        out.push(with_nul(feature));
        i = i + 1;
    }
    proof {
        lemma_first_nul(texts, i as int);
        assert(views(out@) =~= texts.map_values(|t: Seq<char>| terminated(t)));
    }
    Ok(out)
}

impl Booster {
    /// Gets a text attribute that was set for this model. The reply is a flag, 1 where there
    /// is such an attribute and 0 where there is none, and the attribute's value.
    pub fn get_attribute(&self, key: &str, reply: Option<XGBResult<(i32, String)>>) -> (r: Step<
        'static,
        Option<String>,
    >)
        requires
            !holds_nul(key@),
            reply matches Some(Ok((success, _))) ==> success == 0 || success == 1,
        ensures
            match reply {
                None => r.performs(
                    Request::BoosterGetAttr { booster: self@.handle, key: terminated(key@) },
                ),
                Some(Ok((success, value))) => r == Step::<'static, Option<String>>::Finish(
                    Ok(
                        if success == 0 {
                            None
                        } else {
                            Some(value)
                        },
                    ),
                ),
                Some(Err(e)) => r.gives_error(e),
            },
    {
        match reply {
            None => Step::Perform(
                Call::BoosterGetAttr { booster: self.handle(), key: with_nul(key) },
            ),
            Some(Ok((success, value))) => {
                if success == 0 {
                    Step::Finish(Ok(None))
                } else {
                    Step::Finish(Ok(Some(value)))
                }
            },
            Some(Err(e)) => Step::Finish(Err(e)),
        }
    }

    /// Stores a text attribute in this model under the given key.
    pub fn set_attribute(&self, key: &str, value: &str, reply: Option<XGBResult<()>>) -> (r: Step<
        'static,
        (),
    >)
        requires
            !holds_nul(key@),
            !holds_nul(value@),
        ensures
            asks_once(
                r,
                Request::BoosterSetAttr {
                    booster: self@.handle,
                    key: terminated(key@),
                    value: terminated(value@),
                },
                reply,
            ),
    {
        ask_once(
            Call::BoosterSetAttr {
                booster: self.handle(),
                key: with_nul(key),
                value: with_nul(value),
            },
            reply,
        )
    }

    /// Gets the names of all attributes stored in this model.
    pub fn get_attribute_names(&self, reply: Option<XGBResult<Vec<String>>>) -> (r: Step<
        'static,
        Vec<String>,
    >)
        ensures
            asks_once(r, Request::BoosterGetAttrNames { booster: self@.handle }, reply),
    {
        ask_once(Call::BoosterGetAttrNames { booster: self.handle() }, reply)
    }

    /// Gets the feature names stored in this model.
    pub fn get_feature_names(&self, reply: Option<XGBResult<Vec<Vec<u8>>>>) -> (r: Step<
        'static,
        Vec<String>,
    >)
        ensures
            gets_feature_info(r, self@.handle, "feature_name"@, reply),
    {
        self.get_feature_info("feature_name", reply)
    }

    /// Gets feature information stored in this model.
    pub fn get_feature_info(&self, field: &str, reply: Option<XGBResult<Vec<Vec<u8>>>>) -> (r: Step<
        'static,
        Vec<String>,
    >)
        ensures
            gets_feature_info(r, self@.handle, field@, reply),
    {
        if has_nul(field) {
            return Step::Finish(
                Err(XGBError::new("field contains an interior NUL byte".to_owned())),
            );
        }
        match reply {
            None => Step::Perform(
                Call::BoosterGetStrFeatureInfo { booster: self.handle(), field: with_nul(field) },
            ),
            Some(Ok(raw)) => Step::Finish(decode_feature_info(raw.as_slice())),
            Some(Err(e)) => Step::Finish(Err(e)),
        }
    }

    /// Sets the feature names stored in this model.
    pub fn set_feature_names(&self, features: &Vec<&str>, reply: Option<XGBResult<()>>) -> (r: Step<
        'static,
        (),
    >)
        ensures
            sets_feature_info(
                r,
                self@.handle,
                "feature_name"@,
                name_texts(features@),
                reply,
            ),
    {
        self.set_feature_info("feature_name", features, reply)
    }

    /// Sets feature information stored in this model.
    pub fn set_feature_info(
        &self,
        field: &str,
        features: &Vec<&str>,
        reply: Option<XGBResult<()>>,
    ) -> (r: Step<'static, ()>)
        ensures
            sets_feature_info(r, self@.handle, field@, name_texts(features@), reply),
    {
        if has_nul(field) {
            return Step::Finish(
                Err(XGBError::new("field contains an interior NUL byte".to_owned())),
            );
        }
        let features: Vec<String> = match terminate_features(features) {
            Ok(features) => features,
            Err(e) => {
                return Step::Finish(Err(e));
            },
        };
        ask_once(
            Call::BoosterSetStrFeatureInfo {
                booster: self.handle(),
                field: with_nul(field),
                features,
            },
            reply,
        )
    }
}

/// The step of getting feature information: a field with a NUL is refused; the reply is turned
/// into texts.
pub open spec fn gets_feature_info(
    step: Step<'_, Vec<String>>,
    handle: usize,
    field: Seq<char>,
    reply: Option<XGBResult<Vec<Vec<u8>>>>,
) -> bool {
    if holds_nul(field) {
        step.fails("field contains an interior NUL byte"@)
    } else {
        match reply {
            None => step.performs(
                Request::BoosterGetStrFeatureInfo { booster: handle, field: terminated(field) },
            ),
            Some(Ok(raw)) => step matches Step::Finish(r) && decoded(r, raw@),
            Some(Err(e)) => step.gives_error(e),
        }
    }
}

/// The step of setting feature information: a field with a NUL is refused, then the first value
/// with a NUL.
pub open spec fn sets_feature_info(
    step: Step<'_, ()>,
    handle: usize,
    field: Seq<char>,
    features: Seq<Seq<char>>,
    reply: Option<XGBResult<()>>,
) -> bool {
    if holds_nul(field) {
        step.fails("field contains an interior NUL byte"@)
    } else if first_nul(features) < features.len() {
        step.fails(
            "feature info value contains an interior NUL byte: "@ + quoted_text(
                features[first_nul(features)],
            ),
        )
    } else {
        asks_once(
            step,
            Request::BoosterSetStrFeatureInfo {
                booster: handle,
                field: terminated(field),
                features: features.map_values(|t: Seq<char>| terminated(t)),
            },
            reply,
        )
    }
}

/// Feature information is given whole or not at all: as texts exactly if every value is valid
/// UTF-8, each text in the place of its bytes; otherwise the complaint is about a value that is
/// not, in front of which all are.
pub proof fn law_feature_info_is_read_whole(r: XGBResult<Vec<String>>, raw: Seq<Vec<u8>>)
    requires
        decoded(r, raw),
    ensures
        r is Ok <==> forall|i: int| 0 <= i < raw.len() ==> valid_utf8((#[trigger] raw[i])@),
        r matches Ok(texts) ==> texts@.len() == raw.len() && forall|i: int|
            0 <= i < raw.len() ==> (#[trigger] texts@[i])@ == decode_utf8(raw[i]@),
        r matches Err(e) ==> exists|i: int|
            0 <= i < raw.len() && !valid_utf8((#[trigger] raw[i])@) && (forall|k: int|
                0 <= k < i ==> valid_utf8((#[trigger] raw[k])@)) && e.desc@
                == "feature info value is not valid UTF-8: "@ + utf8_error_text(raw[i]@),
{
    let k = first_invalid(raw);
    lemma_first_invalid_is_first(raw);
    if k < raw.len() {
        assert(!valid_utf8(raw[k]@));
    } else if let Ok(texts) = r {
        assert(views(texts@).len() == raw.len());
        assert forall|i: int| 0 <= i < raw.len() implies (#[trigger] texts@[i])@ == decode_utf8(
            raw[i]@,
        ) by {
            assert(views(texts@)[i] == texts@[i]@);
        }
    }
}

proof fn lemma_first_invalid_is_first(raw: Seq<Vec<u8>>)
    ensures
        0 <= first_invalid(raw) <= raw.len(),
        first_invalid(raw) < raw.len() ==> !valid_utf8(raw[first_invalid(raw)]@),
        forall|i: int| 0 <= i < first_invalid(raw) ==> valid_utf8((#[trigger] raw[i])@),
    decreases raw.len(),
{
    if raw.len() > 0 {
        lemma_first_invalid_is_first(raw.drop_last());
        assert forall|i: int| 0 <= i < first_invalid(raw) implies valid_utf8(
            (#[trigger] raw[i])@,
        ) by {
            if i < raw.len() - 1 {
                assert(raw.drop_last()[i] == raw[i]);
            }
        }
    }
}

proof fn lemma_first_nul_is_first(texts: Seq<Seq<char>>)
    ensures
        0 <= first_nul(texts) <= texts.len(),
        first_nul(texts) < texts.len() ==> holds_nul(texts[first_nul(texts)]),
        forall|i: int| 0 <= i < first_nul(texts) ==> !holds_nul(#[trigger] texts[i]),
    decreases texts.len(),
{
    if texts.len() > 0 {
        lemma_first_nul_is_first(texts.drop_last());
        assert forall|i: int| 0 <= i < first_nul(texts) implies !holds_nul(
            #[trigger] texts[i],
        ) by {
            if i < texts.len() - 1 {
                assert(texts.drop_last()[i] == texts[i]);
            }
        }
    }
}

/// Feature information is set exactly if neither the field nor any value holds a NUL; then all
/// values are handed over, in order, on the booster and under the field that the caller names.
/// A refusal is about the field, or about the first value that holds a NUL.
pub proof fn law_feature_info_is_set_whole(
    step: Step<'_, ()>,
    handle: usize,
    field: Seq<char>,
    features: Seq<Seq<char>>,
)
    requires
        sets_feature_info(step, handle, field, features, None),
    ensures
        step is Perform <==> !field.contains('\0') && forall|i: int|
            0 <= i < features.len() ==> !(#[trigger] features[i]).contains('\0'),
        step matches Step::Perform(call) ==> (call@ matches Request::BoosterSetStrFeatureInfo {
            booster,
            field: name,
            features: values,
        } && booster == handle && name == field + seq!['\0'] && values.len() == features.len()
            && forall|i: int|
            0 <= i < features.len() ==> #[trigger] values[i] == features[i] + seq!['\0']),
        step matches Step::Finish(r) ==> (r matches Err(e) && (if field.contains('\0') {
            e.desc@ == "field contains an interior NUL byte"@
        } else {
            exists|i: int|
                0 <= i < features.len() && (#[trigger] features[i]).contains('\0') && (forall|
                    k: int,
                |
                    0 <= k < i ==> !(#[trigger] features[k]).contains('\0')) && e.desc@
                    == "feature info value contains an interior NUL byte: "@ + quoted_text(
                    features[i],
                )
        })),
{
    lemma_first_nul_is_first(features);
    assert(terminated(field) =~= field + seq!['\0']);
    let k = first_nul(features);
    if k < features.len() {
        assert(features[k].contains('\0'));
    } else {
        assert forall|i: int| 0 <= i < features.len() implies !(#[trigger] features[i]).contains(
            '\0',
        ) by {
            assert(!holds_nul(features[i]));
        }
        let values = features.map_values(|t: Seq<char>| terminated(t));
        assert forall|i: int| 0 <= i < features.len() implies #[trigger] values[i] == features[i]
            + seq!['\0'] by {
            assert(values[i] =~= features[i] + seq!['\0']);
        }
    }
}

/// Getting feature information refuses a field with a NUL before any call; otherwise it asks for
/// the field on the booster, and a failure is handed on.
pub proof fn law_feature_info_is_asked_for(
    step: Step<'_, Vec<String>>,
    handle: usize,
    field: Seq<char>,
    reply: Option<XGBResult<Vec<Vec<u8>>>>,
)
    requires
        gets_feature_info(step, handle, field, reply),
    ensures
        field.contains('\0') ==> step.fails("field contains an interior NUL byte"@),
        !field.contains('\0') ==> match reply {
            None => step.performs(
                Request::BoosterGetStrFeatureInfo { booster: handle, field: field + seq!['\0'] },
            ),
            Some(Err(e)) => step.gives_error(e),
            Some(Ok(raw)) => step is Finish,
        },
{
    assert(terminated(field) =~= field + seq!['\0']);
}

} // verus!
