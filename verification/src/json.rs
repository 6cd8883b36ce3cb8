//! The top level of a JSON document, as far as payload classification reads it.

use vstd::prelude::*;
use crate::text::{eq_ignore_ascii_case, eq_ignore_ascii_case_spec, str_eq};

verus! {

/// One member of a JSON object: its key, and its value where that value is
/// a JSON string (`None` for numbers, arrays, objects, booleans and null).
#[derive(Debug, Clone)]
pub struct JsonField {
    pub key: String,
    pub text: Option<String>,
}

/// The top level of a parsed text.
#[derive(Debug, Clone)]
pub enum JsonDoc {
    /// The text is not a JSON document.
    NotJson,
    /// A JSON object, with its members in the order the parser keeps them.
    Object(Vec<JsonField>),
    /// Any other JSON value: a string, number, array, boolean or null.
    OtherValue,
}

/// The model of a `JsonDoc`: object members as (key, string value) pairs.
pub enum SpecJsonDoc {
    NotJson,
    Object(Seq<(Seq<char>, Option<Seq<char>>)>),
    OtherValue,
}

impl JsonField {
    pub open spec fn model(self) -> (Seq<char>, Option<Seq<char>>) {
        (self.key@, self.text.deep_view())
    }
}

/// The models of a list of members.
pub open spec fn fields_model(fields: Seq<JsonField>) -> Seq<(Seq<char>, Option<Seq<char>>)> {
    fields.map_values(|f: JsonField| f.model())
}

impl View for JsonDoc {
    type V = SpecJsonDoc;

    open spec fn view(&self) -> SpecJsonDoc {
        match self {
            JsonDoc::NotJson => SpecJsonDoc::NotJson,
            JsonDoc::Object(fields) => SpecJsonDoc::Object(fields_model(fields@)),
            JsonDoc::OtherValue => SpecJsonDoc::OtherValue,
        }
    }
}

/// What `serde_json::from_str::<serde_json::Value>` makes of a text, read at
/// the top level.
pub uninterp spec fn json_doc_of(text: Seq<char>) -> SpecJsonDoc;

/// The keys of `fields` are pairwise distinct.
pub open spec fn distinct_keys(fields: Seq<(Seq<char>, Option<Seq<char>>)>) -> bool {
    forall|i: int, j: int| 0 <= i < j < fields.len() ==> #[trigger] fields[i].0 != #[trigger] fields[j].0
}

/// Parses `text` as JSON and reads its top level.
/// Calls `serde_json::from_str::<serde_json::Value>`; an error becomes
/// `NotJson`, an object becomes its members (key and, for string values,
/// the string), anything else `OtherValue`. The result is a function of the
/// text, named `json_doc_of`; serde_json keeps object members in a
/// `BTreeMap`, so the keys are distinct.
#[verifier::external_body]
pub(crate) fn read_json(text: &str) -> (doc: JsonDoc)
    ensures
        doc@ == json_doc_of(text@),
        doc@ matches SpecJsonDoc::Object(fields) ==> distinct_keys(fields),
{
    match serde_json::from_str::<serde_json::Value>(text) {
        Ok(serde_json::Value::Object(map)) => JsonDoc::Object(
            map.into_iter().map(|(key, value)| JsonField {
                key,
                text: match value {
                    serde_json::Value::String(s) => Some(s),
                    _ => None,
                },
            }).collect(),
        ),
        Ok(_) => JsonDoc::OtherValue,
        Err(_) => JsonDoc::NotJson,
    }
}

/// The key `state`.
pub open spec fn state_key() -> Seq<char> {
    seq!['s', 't', 'a', 't', 'e']
}

/// The string value of the first member with key `key`, if that value is a string.
pub open spec fn string_member(fields: Seq<(Seq<char>, Option<Seq<char>>)>, key: Seq<char>) -> Option<Seq<char>>
    decreases fields.len(),
{
    if fields.len() == 0 {
        None
    } else if fields[0].0 == key {
        fields[0].1
    } else {
        string_member(fields.drop_first(), key)
    }
}

/// The string value of the top-level `state` member of a document, if any.
pub open spec fn state_text(doc: SpecJsonDoc) -> Option<Seq<char>> {
    match doc {
        SpecJsonDoc::Object(fields) => string_member(fields, state_key()),
        _ => None,
    }
}

/// The word `unavailable`.
pub open spec fn unavailable_word() -> Seq<char> {
    seq!['u', 'n', 'a', 'v', 'a', 'i', 'l', 'a', 'b', 'l', 'e']
}

/// The string values among the members.
pub open spec fn string_values(fields: Seq<(Seq<char>, Option<Seq<char>>)>) -> Seq<Seq<char>> {
    fields.filter_map(|f: (Seq<char>, Option<Seq<char>>)| f.1)
}

/// The document is an object with at least one string value, and every
/// string value reads `unavailable` up to ASCII case.
pub open spec fn all_strings_unavailable(doc: SpecJsonDoc) -> bool {
    match doc {
        SpecJsonDoc::Object(fields) => {
            let vals = string_values(fields);
            &&& vals.len() > 0
            &&& forall|i: int| 0 <= i < vals.len() ==> eq_ignore_ascii_case_spec(#[trigger] vals[i], unavailable_word())
        },
        _ => false,
    }
}

/// The string value of the top-level `state` member, if the document is an
/// object whose `state` member is a string.
pub fn state_member(doc: &JsonDoc) -> (text: Option<&str>)
    ensures
        text.deep_view() == state_text(doc@),
{
    match doc {
        JsonDoc::Object(fields) => {
            let key = "state";
            proof {
                reveal_strlit("state");
            }
            let ghost model = fields_model(fields@);
            assert(model.skip(0) =~= model);
            let mut i: usize = 0;
            while i < fields.len()
                invariant
                    i <= fields.len(),
                    model == fields_model(fields@),
                    doc@ == SpecJsonDoc::Object(model),
                    key@ == state_key(),
                    string_member(model, state_key()) == string_member(model.skip(i as int), state_key()),
                decreases fields.len() - i,
            {
                proof {
                    assert(model.skip(i as int).drop_first() =~= model.skip(i + 1));
                    assert(model.skip(i as int)[0] == fields@[i as int].model());
                }
                if str_eq(fields[i].key.as_str(), key) {
                    let found = match &fields[i].text {
                        Some(t) => Some(t.as_str()),
                        None => None,
                    };
                    assert(found.deep_view() == fields@[i as int].text.deep_view());
                    assert(model.skip(i as int)[0].0 == state_key());
                    assert(string_member(model.skip(i as int), state_key()) == model.skip(i as int)[0].1);
                    assert(state_text(doc@) == string_member(model, state_key()));
                    return found;
                }
                i = i + 1;
            }
            assert(model.skip(i as int) =~= Seq::<(Seq<char>, Option<Seq<char>>)>::empty());
            None
        },
        _ => None,
    }
}

/// Whether the document is an object with at least one string value, all of
/// which read `unavailable` up to ASCII case.
pub fn strings_all_unavailable(doc: &JsonDoc) -> (all: bool)
    ensures
        all == all_strings_unavailable(doc@),
{
    match doc {
        JsonDoc::Object(fields) => {
            let word = "unavailable";
            proof {
                reveal_strlit("unavailable");
            }
            let ghost model = fields_model(fields@);
            let mut seen: usize = 0;
            let mut i: usize = 0;
            while i < fields.len()
                invariant
                    i <= fields.len(),
                    model == fields_model(fields@),
                    doc@ == SpecJsonDoc::Object(model),
                    word@ == unavailable_word(),
                    seen == string_values(model.take(i as int)).len(),
                    seen <= i,
                    forall|k: int| 0 <= k < seen ==> eq_ignore_ascii_case_spec(
                        #[trigger] string_values(model.take(i as int))[k],
                        unavailable_word(),
                    ),
                decreases fields.len() - i,
            {
                let ghost before = model.take(i as int);
                proof {
                    lemma_string_values_step(model, i as int);
                    assert(model[i as int] == fields@[i as int].model());
                }
                match &fields[i].text {
                    Some(t) => {
                        if !eq_ignore_ascii_case(t.as_str(), word) {
                            proof {
                                lemma_string_values_prefix(model, i as int + 1);
                                assert(string_values(model.take(i + 1))[seen as int] == t@);
                                assert(string_values(model)[seen as int] == t@);
                                assert(!eq_ignore_ascii_case_spec(string_values(model)[seen as int], unavailable_word()));
                                assert(!all_strings_unavailable(doc@));
                            }
                            return false;
                        }
                        seen = seen + 1;
                    },
                    None => {},
                }
                i = i + 1;
            }
            proof {
                assert(model.take(fields.len() as int) =~= model);
            }
            seen > 0
        },
        _ => false,
    }
}

/// One more member: its string value, if any, comes last.
proof fn lemma_string_values_step(fields: Seq<(Seq<char>, Option<Seq<char>>)>, k: int)
    requires
        0 <= k < fields.len(),
    ensures
        string_values(fields.take(k + 1)) == (match fields[k].1 {
            Some(v) => string_values(fields.take(k)).push(v),
            None => string_values(fields.take(k)),
        }),
{
    let t = fields.take(k + 1);
    assert(t.drop_last() =~= fields.take(k));
    assert(t.last() == fields[k]);
    reveal_with_fuel(Seq::filter_map, 1);
    match fields[k].1 {
        Some(v) => {
            assert(string_values(fields.take(k)) + seq![v] =~= string_values(fields.take(k)).push(v));
        },
        None => {},
    }
}

/// The string values of a prefix are a prefix of the string values.
proof fn lemma_string_values_prefix(fields: Seq<(Seq<char>, Option<Seq<char>>)>, k: int)
    requires
        0 <= k <= fields.len(),
    ensures
        string_values(fields.take(k)).len() <= string_values(fields).len(),
        forall|j: int| 0 <= j < string_values(fields.take(k)).len()
            ==> #[trigger] string_values(fields.take(k))[j] == string_values(fields)[j],
    decreases fields.len() - k,
{
    if k < fields.len() {
        lemma_string_values_prefix(fields, k + 1);
        lemma_string_values_step(fields, k);
        assert forall|j: int| 0 <= j < string_values(fields.take(k)).len() implies
            #[trigger] string_values(fields.take(k))[j] == string_values(fields)[j] by {
            assert(string_values(fields.take(k))[j] == string_values(fields.take(k + 1))[j]);
        }
    } else {
        assert(fields.take(k) =~= fields);
    }
}

} // verus!
