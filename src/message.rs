//! Asynchronous message interactions, read from the v3 JSON form of a contract.
use vstd::prelude::*;

use crate::bodies::{BodyV, OptionalBody, body_content_type, decode_utf8, detected_type, is_utf8};
use crate::content_types::{ContentType, ContentTypeV, attrs_view, opt_view, parse_content_type};
use crate::json::{
    JsonV, JsonValue, compact_text, copy_json, json_get, lemma_json_view, obj_get, to_json_text,
    view_entries,
};
use crate::text::{ascii_lower, decimal, decimal_string, join, seq_eq, to_ascii_lower, utf8_bytes, utf8_of};

verus! {

/// A state that the provider must be in for an interaction: a name and parameters.
#[derive(Debug, PartialEq, Eq)]
pub struct ProviderState {
    pub name: String,
    pub params: Vec<(String, JsonValue)>,
}

/// The mathematical form of a [`ProviderState`].
pub type ProviderStateV = (Seq<char>, Seq<(Seq<char>, JsonV)>);

pub open spec fn state_view(p: ProviderState) -> ProviderStateV {
    (p.name@, view_entries(p.params@))
}

pub open spec fn states_view(s: Seq<ProviderState>) -> Seq<ProviderStateV> {
    s.map_values(|p: ProviderState| state_view(p))
}

/// Matching rules, by category (`body`, `header`, ...), each with its JSON definition.
#[derive(Debug, PartialEq, Eq)]
pub struct MatchingRules {
    pub rules: Vec<(String, JsonValue)>,
}

/// Generators, by category, each with its JSON definition.
#[derive(Debug, PartialEq, Eq)]
pub struct Generators {
    pub categories: Vec<(String, JsonValue)>,
}

impl Default for MatchingRules {
    /// No rules.
    fn default() -> (r: MatchingRules)
        ensures
            r.rules@.len() == 0,
    {
        MatchingRules { rules: Vec::new() }
    }
}

impl Default for Generators {
    /// No generators.
    fn default() -> (r: Generators)
        ensures
            r.categories@.len() == 0,
    {
        Generators { categories: Vec::new() }
    }
}

/// The revisions of the contract format.
#[allow(non_camel_case_types)]
#[derive(Clone, Copy, Debug, PartialEq, Eq)]
pub enum PactSpecification {
    Unknown,
    V1,
    V1_1,
    V2,
    V3,
    V4,
}

/// A message interaction.
#[derive(Debug, PartialEq, Eq)]
pub struct Message {
    /// Interaction ID. This will only be set if the Pact file was fetched from a Pact Broker
    pub id: Option<String>,
    /// Description of this message interaction. This needs to be unique in the pact file.
    pub description: String,
    /// States the provider must be in for this message.
    pub provider_states: Vec<ProviderState>,
    /// The contents of the message
    pub contents: OptionalBody,
    /// Metadata associated with this message, in the order it was written. Where two keys name
    /// the content type, the first one counts.
    pub metadata: Vec<(String, String)>,
    /// Matching rules
    pub matching_rules: MatchingRules,
    /// Generators
    pub generators: Generators,
}

/// Whether two messages have the same parts.
pub open spec fn same_message(a: Message, b: Message) -> bool {
    &&& opt_view(a.id) == opt_view(b.id)
    &&& a.description@ == b.description@
    &&& states_view(a.provider_states@) == states_view(b.provider_states@)
    &&& a.contents@ == b.contents@
    &&& attrs_view(a.metadata@) == attrs_view(b.metadata@)
    &&& view_entries(a.matching_rules.rules@) == view_entries(b.matching_rules.rules@)
    &&& view_entries(a.generators.categories@) == view_entries(b.generators.categories@)
}

/// The text of a JSON value: a string as it is, anything else as compact JSON.
pub open spec fn json_text_of(v: JsonV) -> Seq<char> {
    match v {
        JsonV::Str(s) => s,
        _ => compact_text(v),
    }
}

/// The description of the message at `index`: the text of the `description` field, or
/// `Message <index>` where there is none or it is empty.
pub open spec fn description_of(j: JsonV, index: nat) -> Seq<char> {
    let given = match json_get(j, "description"@) {
        Some(v) => json_text_of(v),
        None => Seq::empty(),
    };
    if given.len() > 0 {
        given
    } else {
        "Message "@ + decimal(index)
    }
}

/// A provider state read from `{name, params}`.
pub open spec fn state_of(v: JsonV) -> ProviderStateV {
    (
        match json_get(v, "name"@) {
            Some(n) => json_text_of(n),
            None => Seq::empty(),
        },
        match json_get(v, "params"@) {
            Some(JsonV::Object(es)) => es,
            _ => Seq::empty(),
        },
    )
}

/// The legacy single provider state field.
pub open spec fn legacy_state_field(j: JsonV) -> Option<JsonV> {
    match json_get(j, "providerState"@) {
        Some(v) => Some(v),
        None => json_get(j, "provider_state"@),
    }
}

/// The provider states: each item of a `providerStates` array; without that field, the
/// legacy `providerState` text where it is not empty or null.
pub open spec fn provider_states_of(j: JsonV) -> Seq<ProviderStateV> {
    match json_get(j, "providerStates"@) {
        Some(JsonV::Array(items)) => items.map_values(|i: JsonV| state_of(i)),
        Some(_) => Seq::empty(),
        None => match legacy_state_field(j) {
            Some(JsonV::Null) => Seq::empty(),
            Some(v) => if json_text_of(v).len() == 0 {
                Seq::empty()
            } else {
                seq![(json_text_of(v), Seq::empty())]
            },
            None => Seq::empty(),
        },
    }
}

/// The metadata: each entry of a `metadata` object, values as text.
pub open spec fn metadata_of(j: JsonV) -> Seq<(Seq<char>, Seq<char>)> {
    match json_get(j, "metadata"@) {
        Some(JsonV::Object(es)) => es.map_values(|e: (Seq<char>, JsonV)| (e.0, json_text_of(e.1))),
        _ => Seq::empty(),
    }
}

/// The body held by field `field`: missing, null, empty for an empty string, otherwise the
/// UTF-8 bytes of the string or of the value's compact JSON text.
pub open spec fn body_of(j: JsonV, field: Seq<char>) -> BodyV {
    match json_get(j, field) {
        None => BodyV::Missing,
        Some(JsonV::Null) => BodyV::Null,
        Some(v) => if json_text_of(v).len() == 0 {
            BodyV::Empty
        } else {
            BodyV::Present(utf8_of(json_text_of(v)), None, None)
        },
    }
}

/// The matching rules: each entry of a `matchingRules` object.
pub open spec fn rules_of(j: JsonV) -> Seq<(Seq<char>, JsonV)> {
    match json_get(j, "matchingRules"@) {
        Some(JsonV::Object(es)) => es,
        _ => Seq::empty(),
    }
}

/// The generators: each entry of a `generators` object.
pub open spec fn generators_of(j: JsonV) -> Seq<(Seq<char>, JsonV)> {
    match json_get(j, "generators"@) {
        Some(JsonV::Object(es)) => es,
        _ => Seq::empty(),
    }
}

/// Whether a revision of the format has messages: revision 3 and later.
pub open spec fn has_messages(v: PactSpecification) -> bool {
    v == PactSpecification::V3 || v == PactSpecification::V4
}

/// The error text for a revision that has no messages.
pub open spec fn version_error() -> Seq<char> {
    "Messages require Pact Specification version 3 or later"@
}

/// Whether a metadata key names the content type.
pub open spec fn is_content_type_key(k: Seq<char>) -> bool {
    ascii_lower(k) == "contenttype"@ || ascii_lower(k) == "content-type"@
}

/// The index of the first metadata entry that names the content type, or the length.
pub open spec fn content_type_key_index(m: Seq<(Seq<char>, Seq<char>)>) -> int
    decreases m.len(),
{
    if m.len() == 0 {
        0
    } else if is_content_type_key(m[0].0) {
        0
    } else {
        1 + content_type_key_index(m.drop_first())
    }
}

/// The value of the first metadata entry that names the content type.
pub open spec fn metadata_content_type(m: Seq<(Seq<char>, Seq<char>)>) -> Option<Seq<char>> {
    let i = content_type_key_index(m);
    if 0 <= i < m.len() {
        Some(m[i].1)
    } else {
        None
    }
}

/// Whether at most one metadata entry names the content type.
pub open spec fn one_content_type_key(m: Seq<(Seq<char>, Seq<char>)>) -> bool {
    forall|i: int, j: int|
        0 <= i < m.len() && 0 <= j < m.len() && is_content_type_key(#[trigger] m[i].0) && is_content_type_key(
            #[trigger] m[j].0,
        ) ==> i == j
}

proof fn lemma_content_type_key_index(m: Seq<(Seq<char>, Seq<char>)>)
    ensures
        0 <= content_type_key_index(m) <= m.len(),
        content_type_key_index(m) < m.len() ==> is_content_type_key(m[content_type_key_index(m)].0),
        forall|k: int| 0 <= k < content_type_key_index(m) ==> !is_content_type_key(#[trigger] m[k].0),
    decreases m.len(),
{
    if m.len() > 0 && !is_content_type_key(m[0].0) {
        lemma_content_type_key_index(m.drop_first());
        assert forall|k: int| 0 <= k < content_type_key_index(m) implies !is_content_type_key(#[trigger] m[k].0) by {
            if k > 0 {
                assert(m[k] == m.drop_first()[k - 1]);
            }
        }
    }
}

/// The entry at `i` is the one that names the content type, where only one does.
proof fn lemma_sole_content_type_key(m: Seq<(Seq<char>, Seq<char>)>, i: int)
    requires
        one_content_type_key(m),
        0 <= i < m.len(),
        is_content_type_key(m[i].0),
    ensures
        metadata_content_type(m) == Some(m[i].1),
{
    lemma_content_type_key_index(m);
    let k = content_type_key_index(m);
    if k >= m.len() {
        assert(!is_content_type_key(m[i].0));
    }
    assert(is_content_type_key(m[k].0));
}

/// Where at most one metadata entry names the content type, the metadata's content type does
/// not depend on the order of the entries.
pub proof fn lemma_metadata_order(a: Seq<(Seq<char>, Seq<char>)>, b: Seq<(Seq<char>, Seq<char>)>)
    requires
        a.to_set() == b.to_set(),
        one_content_type_key(a),
        one_content_type_key(b),
    ensures
        metadata_content_type(a) == metadata_content_type(b),
{
    lemma_content_type_key_index(a);
    lemma_content_type_key_index(b);
    let ka = content_type_key_index(a);
    let kb = content_type_key_index(b);
    if ka < a.len() {
        assert(a.to_set().contains(a[ka]));
        let j = choose|j: int| 0 <= j < b.len() && b[j] == a[ka];
        lemma_sole_content_type_key(b, j);
    } else if kb < b.len() {
        assert(b.to_set().contains(b[kb]));
        let j = choose|j: int| 0 <= j < a.len() && a[j] == b[kb];
        lemma_sole_content_type_key(a, j);
    }
}

/// Where at most one metadata entry names the content type, a message's content type does not
/// depend on the order of its metadata.
pub proof fn lemma_content_type_ignores_metadata_order(m1: Message, m2: Message)
    requires
        m1.contents@ == m2.contents@,
        attrs_view(m1.metadata@).to_set() == attrs_view(m2.metadata@).to_set(),
        one_content_type_key(attrs_view(m1.metadata@)),
        one_content_type_key(attrs_view(m2.metadata@)),
    ensures
        message_content_type(m1) == message_content_type(m2),
{
    lemma_metadata_order(attrs_view(m1.metadata@), attrs_view(m2.metadata@));
    assert(body_content_type(m1.contents) == body_content_type(m2.contents));
    assert(detected_type(m1.contents) == detected_type(m2.contents));
}

/// The v3 form of provider states: `{name, params}` for each.
pub open spec fn states_json(sv: Seq<ProviderStateV>) -> Seq<JsonV> {
    sv.map_values(|p: ProviderStateV| JsonV::Object(seq![("name"@, JsonV::Str(p.0)), ("params"@, JsonV::Object(p.1))]))
}

/// The v3 form of metadata: each value as a string.
pub open spec fn metadata_json(m: Seq<(Seq<char>, Seq<char>)>) -> Seq<(Seq<char>, JsonV)> {
    m.map_values(|e: (Seq<char>, Seq<char>)| (e.0, JsonV::Str(e.1)))
}

/// Whether `e` is how a body is written: nothing for a missing body, `null`, an empty string,
/// or the text whose UTF-8 encoding the bytes are (an empty string where they are not UTF-8).
pub open spec fn body_json(b: BodyV, e: Option<JsonV>) -> bool {
    match b {
        BodyV::Missing => e is None,
        BodyV::Null => e == Some(JsonV::Null),
        BodyV::Empty => e == Some(JsonV::Str(Seq::empty())),
        BodyV::Present(bytes, _, _) => if is_utf8(bytes) {
            e matches Some(JsonV::Str(t)) && utf8_of(t) == bytes
        } else {
            e == Some(JsonV::Str(Seq::empty()))
        },
    }
}

/// The v3 form of a message, with `contents` written as `e`.
pub open spec fn message_json(m: Message, e: Option<JsonV>) -> JsonV {
    JsonV::Object(
        seq![
            ("description"@, JsonV::Str(m.description@)),
            ("providerStates"@, JsonV::Array(states_json(states_view(m.provider_states@)))),
        ] + match e {
            Some(x) => seq![("contents"@, x)],
            None => Seq::empty(),
        } + seq![
            ("metadata"@, JsonV::Object(metadata_json(attrs_view(m.metadata@)))),
            ("matchingRules"@, JsonV::Object(view_entries(m.matching_rules.rules@))),
            ("generators"@, JsonV::Object(view_entries(m.generators.categories@))),
        ],
    )
}

/// Whether a body reads back from its written form as it is: not bytes with a content type
/// or a character set, nor bytes that are empty or not UTF-8.
pub open spec fn body_round_trips(b: BodyV) -> bool {
    match b {
        BodyV::Present(bytes, ct, cs) => bytes.len() > 0 && ct is None && cs is None && is_utf8(bytes),
        _ => true,
    }
}

proof fn lemma_obj_get_at(es: Seq<(Seq<char>, JsonV)>, i: int, k: Seq<char>)
    requires
        0 <= i < es.len(),
        es[i].0 == k,
        forall|j: int| 0 <= j < i ==> (#[trigger] es[j]).0 != k,
    ensures
        obj_get(es, k) == Some(es[i].1),
    decreases i,
{
    if i > 0 {
        assert(es[0].0 != k);
        assert forall|j: int| 0 <= j < i - 1 implies (#[trigger] es.drop_first()[j]).0 != k by {
            assert(es.drop_first()[j] == es[j + 1]);
        }
        lemma_obj_get_at(es.drop_first(), i - 1, k);
    }
}

proof fn lemma_obj_get_none(es: Seq<(Seq<char>, JsonV)>, k: Seq<char>)
    requires
        forall|j: int| 0 <= j < es.len() ==> (#[trigger] es[j]).0 != k,
    ensures
        obj_get(es, k) is None,
    decreases es.len(),
{
    if es.len() > 0 {
        assert(es[0].0 != k);
        assert forall|j: int| 0 <= j < es.len() - 1 implies (#[trigger] es.drop_first()[j]).0 != k by {
            assert(es.drop_first()[j] == es[j + 1]);
        }
        lemma_obj_get_none(es.drop_first(), k);
    }
}

proof fn lemma_keys_differ()
    ensures
        "providerStates"@ != "description"@,
        "contents"@ != "description"@ && "contents"@ != "providerStates"@,
        "metadata"@ != "description"@ && "metadata"@ != "providerStates"@ && "metadata"@ != "contents"@,
        "matchingRules"@ != "description"@ && "matchingRules"@ != "providerStates"@ && "matchingRules"@
            != "contents"@ && "matchingRules"@ != "metadata"@,
        "generators"@ != "description"@ && "generators"@ != "providerStates"@ && "generators"@ != "contents"@
            && "generators"@ != "metadata"@ && "generators"@ != "matchingRules"@,
        "params"@ != "name"@,
{
    reveal_strlit("description");
    reveal_strlit("providerStates");
    reveal_strlit("contents");
    reveal_strlit("metadata");
    reveal_strlit("matchingRules");
    reveal_strlit("generators");
    reveal_strlit("name");
    reveal_strlit("params");
    assert("providerStates"@.len() != "description"@.len());
    assert("contents"@.len() != "description"@.len());
    assert("contents"@.len() != "providerStates"@.len());
    assert("metadata"@.len() != "description"@.len());
    assert("metadata"@.len() != "providerStates"@.len());
    assert("metadata"@[0] != "contents"@[0]);
    assert("matchingRules"@.len() != "description"@.len());
    assert("matchingRules"@.len() != "providerStates"@.len());
    assert("matchingRules"@.len() != "contents"@.len());
    assert("matchingRules"@.len() != "metadata"@.len());
    assert("generators"@.len() != "description"@.len());
    assert("generators"@.len() != "providerStates"@.len());
    assert("generators"@.len() != "contents"@.len());
    assert("generators"@.len() != "metadata"@.len());
    assert("generators"@.len() != "matchingRules"@.len());
    assert("params"@.len() != "name"@.len());
}

/// Reading the v3 form of a message gives back its parts: its description, provider states,
/// contents, metadata, matching rules and generators. This holds where the description is not
/// empty and the body reads back as it is.
pub proof fn lemma_round_trip(m: Message, e: Option<JsonV>, index: nat)
    requires
        body_json(m.contents@, e),
        m.description@.len() > 0,
        body_round_trips(m.contents@),
    ensures
        description_of(message_json(m, e), index) == m.description@,
        provider_states_of(message_json(m, e)) == states_view(m.provider_states@),
        body_of(message_json(m, e), "contents"@) == m.contents@,
        metadata_of(message_json(m, e)) == attrs_view(m.metadata@),
        rules_of(message_json(m, e)) == view_entries(m.matching_rules.rules@),
        generators_of(message_json(m, e)) == view_entries(m.generators.categories@),
{
    lemma_keys_differ();
    let j = message_json(m, e);
    let es = j->Object_0;
    let c: int = if e is Some { 1 } else { 0 };
    assert(es.len() == 5 + c);
    assert(es[0].0 == "description"@);
    assert(es[1].0 == "providerStates"@);
    assert(es[2 + c].0 == "metadata"@);
    assert(es[3 + c].0 == "matchingRules"@);
    assert(es[4 + c].0 == "generators"@);
    lemma_obj_get_at(es, 0, "description"@);
    lemma_obj_get_at(es, 1, "providerStates"@);
    lemma_obj_get_at(es, 2 + c, "metadata"@);
    lemma_obj_get_at(es, 3 + c, "matchingRules"@);
    lemma_obj_get_at(es, 4 + c, "generators"@);
    match e {
        Some(x) => {
            assert(es[2] == ("contents"@, x));
            lemma_obj_get_at(es, 2, "contents"@);
            match m.contents@ {
                BodyV::Present(bytes, _, _) => {
                    let t = x->Str_0;
                    if t.len() == 0 {
                        assert(t =~= Seq::<char>::empty());
                        assert(utf8_of(t) =~= Seq::<u8>::empty());
                    }
                },
                _ => {},
            }
        },
        None => {
            assert forall|k: int| 0 <= k < es.len() implies (#[trigger] es[k]).0 != "contents"@ by {
                if k == 0 {
                } else if k == 1 {
                } else if k == 2 {
                } else if k == 3 {
                } else {
                }
            }
            lemma_obj_get_none(es, "contents"@);
        },
    }
    let sv = states_view(m.provider_states@);
    assert forall|i: int| 0 <= i < sv.len() implies state_of(#[trigger] states_json(sv)[i]) == sv[i] by {
        let o = seq![("name"@, JsonV::Str(sv[i].0)), ("params"@, JsonV::Object(sv[i].1))];
        assert(states_json(sv)[i] == JsonV::Object(o));
        lemma_obj_get_at(o, 0, "name"@);
        lemma_obj_get_at(o, 1, "params"@);
    }
    assert(states_json(sv).map_values(|x: JsonV| state_of(x)) =~= sv);
    let md = attrs_view(m.metadata@);
    assert(metadata_json(md).map_values(|e: (Seq<char>, JsonV)| (e.0, json_text_of(e.1))) =~= md);
}

proof fn lemma_utf8_len(t: Seq<char>)
    ensures
        utf8_of(t).len() >= t.len(),
    decreases t.len(),
{
    if t.len() > 0 {
        lemma_utf8_len(t.drop_last());
    }
}

/// A message read from a v3 document, written in its v3 form and read again, gives back the same
/// parts: the description, provider states, contents, metadata, matching rules and generators.
pub proof fn lemma_reread(j: JsonV, index: nat, m: Message, e: Option<JsonV>, index2: nat)
    requires
        m.description@ == description_of(j, index),
        m.contents@ == body_of(j, "contents"@),
        body_json(m.contents@, e),
    ensures
        description_of(message_json(m, e), index2) == m.description@,
        provider_states_of(message_json(m, e)) == states_view(m.provider_states@),
        body_of(message_json(m, e), "contents"@) == m.contents@,
        metadata_of(message_json(m, e)) == attrs_view(m.metadata@),
        rules_of(message_json(m, e)) == view_entries(m.matching_rules.rules@),
        generators_of(message_json(m, e)) == view_entries(m.generators.categories@),
{
    reveal_strlit("Message ");
    assert(m.description@.len() > 0);
    match json_get(j, "contents"@) {
        Some(v) => {
            let t = json_text_of(v);
            if v != JsonV::Null && t.len() > 0 {
                lemma_utf8_len(t);
                assert(is_utf8(utf8_of(t)));
            }
        },
        None => {},
    }
    lemma_round_trip(m, e, index2);
}

/// The content type of a message: the body's own, else the metadata's where there is one
/// (nothing where it does not parse), else what the body looks like.
pub open spec fn message_content_type(m: Message) -> Option<ContentTypeV> {
    match body_content_type(m.contents) {
        Some(c) => Some(c),
        None => match metadata_content_type(attrs_view(m.metadata@)) {
            Some(v) => parse_content_type(v),
            None => detected_type(m.contents),
        },
    }
}

/// The text of a JSON value: a string as it is, anything else as compact JSON.
fn text_of(v: &JsonValue) -> (r: String)
    ensures
        r@ == json_text_of(v@),
{
    match v {
        JsonValue::String(s) => s.clone(),
        _ => to_json_text(v),
    }
}

fn state_from_json(v: &JsonValue) -> (r: ProviderState)
    ensures
        state_view(r) == state_of(v@),
{
    let name = match v.get("name") {
        Some(n) => text_of(n),
        None => String::new(),
    };
    let params = match v.get("params") {
        Some(JsonValue::Object(es)) => {
            proof {
                lemma_json_view(JsonValue::Object(*es));
            }
            copy_entries(es)
        },
        _ => {
            let e: Vec<(String, JsonValue)> = Vec::new();
            proof {
                assert(view_entries(e@) =~= Seq::<(Seq<char>, JsonV)>::empty());
            }
            e
        },
    };
    ProviderState { name, params }
}

fn copy_entries(es: &Vec<(String, JsonValue)>) -> (r: Vec<(String, JsonValue)>)
    ensures
        view_entries(r@) == view_entries(es@),
{
    let mut out: Vec<(String, JsonValue)> = Vec::new();
    let mut i: usize = 0;
    while i < es.len()
        invariant
            i <= es@.len(),
            view_entries(out@) == view_entries(es@.subrange(0, i as int)),
        decreases es@.len() - i,
    {
        let ghost before = view_entries(out@);
        let k = es[i].0.clone();
        let v = copy_json(&es[i].1);
        out.push((k, v));
        proof {
            assert(view_entries(out@) =~= before.push((k@, v@)));
            assert(view_entries(es@.subrange(0, i + 1)) =~= view_entries(es@.subrange(0, i as int)).push((k@, v@)));
        }
        i = i + 1;
    }
    proof {
        assert(es@.subrange(0, i as int) =~= es@);
    }
    out
}

/// Reads the provider states of an interaction.
pub fn provider_states_from_json(j: &JsonValue) -> (r: Vec<ProviderState>)
    ensures
        states_view(r@) == provider_states_of(j@),
{
    let mut out: Vec<ProviderState> = Vec::new();
    match j.get("providerStates") {
        Some(JsonValue::Array(items)) => {
            let ghost iv = crate::json::view_all(items@);
            proof {
                lemma_json_view(JsonValue::Array(*items));
            }
            let mut i: usize = 0;
            while i < items.len()
                invariant
                    i <= items@.len(),
                    iv == crate::json::view_all(items@),
                    states_view(out@) == iv.subrange(0, i as int).map_values(|x: JsonV| state_of(x)),
                decreases items@.len() - i,
            {
                let ghost before = states_view(out@);
                let st = state_from_json(&items[i]);
                out.push(st);
                proof {
                    assert(states_view(out@) =~= before.push(state_view(st)));
                    assert(iv.subrange(0, i + 1).map_values(|x: JsonV| state_of(x)) =~= iv.subrange(0, i as int).map_values(
                        |x: JsonV| state_of(x),
                    ).push(state_of(iv[i as int])));
                }
                i = i + 1;
            }
            proof {
                assert(iv.subrange(0, i as int) =~= iv);
            }
            out
        },
        Some(_) => {
            proof {
                assert(states_view(out@) =~= Seq::<ProviderStateV>::empty());
            }
            out
        },
        None => {
            let legacy = match j.get("providerState") {
                Some(v) => Some(v),
                None => j.get("provider_state"),
            };
            match legacy {
                Some(JsonValue::Null) => {},
                Some(v) => {
                    let name = text_of(v);
                    if name.as_str().unicode_len() > 0 {
                        let params: Vec<(String, JsonValue)> = Vec::new();
                        out.push(ProviderState { name, params });
                        proof {
                            assert(view_entries(params@) =~= Seq::<(Seq<char>, JsonV)>::empty());
                        }
                    }
                },
                None => {},
            }
            proof {
                assert(states_view(out@) =~= provider_states_of(j@));
            }
            out
        },
    }
}

/// Reads the body held by field `field`.
pub fn body_from_json(j: &JsonValue, field: &str) -> (r: OptionalBody)
    ensures
        r@ == body_of(j@, field@),
{
    match j.get(field) {
        None => OptionalBody::Missing,
        Some(JsonValue::Null) => OptionalBody::Null,
        Some(v) => {
            let text = text_of(v);
            if text.as_str().unicode_len() == 0 {
                OptionalBody::Empty
            } else {
                OptionalBody::Present(utf8_bytes(text.as_str()), None, None)
            }
        },
    }
}

fn metadata_from_json(j: &JsonValue) -> (r: Vec<(String, String)>)
    ensures
        attrs_view(r@) == metadata_of(j@),
{
    let mut out: Vec<(String, String)> = Vec::new();
    match j.get("metadata") {
        Some(JsonValue::Object(es)) => {
            let ghost ev = view_entries(es@);
            proof {
                lemma_json_view(JsonValue::Object(*es));
            }
            let mut i: usize = 0;
            while i < es.len()
                invariant
                    i <= es@.len(),
                    ev == view_entries(es@),
                    attrs_view(out@) == ev.subrange(0, i as int).map_values(
                        |e: (Seq<char>, JsonV)| (e.0, json_text_of(e.1)),
                    ),
                decreases es@.len() - i,
            {
                let ghost before = attrs_view(out@);
                let k = es[i].0.clone();
                let v = text_of(&es[i].1);
                out.push((k, v));
                proof {
                    assert(attrs_view(out@) =~= before.push((k@, v@)));
                    assert(ev.subrange(0, i + 1).map_values(|e: (Seq<char>, JsonV)| (e.0, json_text_of(e.1))) =~= ev.subrange(
                        0,
                        i as int,
                    ).map_values(|e: (Seq<char>, JsonV)| (e.0, json_text_of(e.1))).push((k@, v@)));
                }
                i = i + 1;
            }
            proof {
                assert(ev.subrange(0, i as int) =~= ev);
            }
        },
        _ => {
            proof {
                assert(attrs_view(out@) =~= Seq::<(Seq<char>, Seq<char>)>::empty());
            }
        },
    }
    out
}

fn rules_from_json(j: &JsonValue) -> (r: MatchingRules)
    ensures
        view_entries(r.rules@) == rules_of(j@),
{
    match j.get("matchingRules") {
        Some(JsonValue::Object(es)) => {
            proof {
                lemma_json_view(JsonValue::Object(*es));
            }
            MatchingRules { rules: copy_entries(es) }
        },
        _ => {
            let r = MatchingRules::default();
            proof {
                assert(view_entries(r.rules@) =~= Seq::<(Seq<char>, JsonV)>::empty());
            }
            r
        },
    }
}

fn generators_from_json(j: &JsonValue) -> (r: Generators)
    ensures
        view_entries(r.categories@) == generators_of(j@),
{
    match j.get("generators") {
        Some(JsonValue::Object(es)) => {
            proof {
                lemma_json_view(JsonValue::Object(*es));
            }
            Generators { categories: copy_entries(es) }
        },
        _ => {
            let r = Generators::default();
            proof {
                assert(view_entries(r.categories@) =~= Seq::<(Seq<char>, JsonV)>::empty());
            }
            r
        },
    }
}

fn copy_pairs(v: &Vec<(String, String)>) -> (r: Vec<(String, String)>)
    ensures
        attrs_view(r@) == attrs_view(v@),
{
    let mut out: Vec<(String, String)> = Vec::new();
    let mut i: usize = 0;
    while i < v.len()
        invariant
            i <= v@.len(),
            attrs_view(out@) == attrs_view(v@.subrange(0, i as int)),
        decreases v@.len() - i,
    {
        let ghost before = attrs_view(out@);
        let k = v[i].0.clone();
        let x = v[i].1.clone();
        out.push((k, x));
        proof {
            assert(attrs_view(out@) =~= before.push((k@, x@)));
            assert(attrs_view(v@.subrange(0, i + 1)) =~= attrs_view(v@.subrange(0, i as int)).push((k@, x@)));
        }
        i = i + 1;
    }
    proof {
        assert(v@.subrange(0, i as int) =~= v@);
    }
    out
}

fn copy_states(v: &Vec<ProviderState>) -> (r: Vec<ProviderState>)
    ensures
        states_view(r@) == states_view(v@),
{
    let mut out: Vec<ProviderState> = Vec::new();
    let mut i: usize = 0;
    while i < v.len()
        invariant
            i <= v@.len(),
            states_view(out@) == states_view(v@.subrange(0, i as int)),
        decreases v@.len() - i,
    {
        let ghost before = states_view(out@);
        let st = ProviderState { name: v[i].name.clone(), params: copy_entries(&v[i].params) };
        out.push(st);
        proof {
            assert(states_view(out@) =~= before.push(state_view(st)));
            assert(states_view(v@.subrange(0, i + 1)) =~= states_view(v@.subrange(0, i as int)).push(state_view(v@[i as int])));
        }
        i = i + 1;
    }
    proof {
        assert(v@.subrange(0, i as int) =~= v@);
    }
    out
}

fn state_to_json(p: &ProviderState) -> (r: JsonValue)
    ensures
        r@ == JsonV::Object(seq![("name"@, JsonV::Str(p.name@)), ("params"@, JsonV::Object(view_entries(p.params@)))]),
{
    let params = JsonValue::Object(copy_entries(&p.params));
    proof {
        lemma_json_view(params);
    }
    let es = vec![(String::from_str("name"), JsonValue::String(p.name.clone())), (String::from_str("params"), params)];
    let r = JsonValue::Object(es);
    proof {
        lemma_json_view(r);
        assert(view_entries(es@) =~= seq![("name"@, JsonV::Str(p.name@)), ("params"@, JsonV::Object(view_entries(p.params@)))]);
    }
    r
}

fn states_to_json(v: &Vec<ProviderState>) -> (r: Vec<JsonValue>)
    ensures
        crate::json::view_all(r@) == states_json(states_view(v@)),
{
    let mut out: Vec<JsonValue> = Vec::new();
    let mut i: usize = 0;
    while i < v.len()
        invariant
            i <= v@.len(),
            crate::json::view_all(out@) == states_json(states_view(v@.subrange(0, i as int))),
        decreases v@.len() - i,
    {
        let ghost before = crate::json::view_all(out@);
        let x = state_to_json(&v[i]);
        out.push(x);
        proof {
            assert(crate::json::view_all(out@) =~= before.push(x@));
            assert(states_json(states_view(v@.subrange(0, i + 1))) =~= states_json(states_view(v@.subrange(0, i as int))).push(x@));
        }
        i = i + 1;
    }
    proof {
        assert(v@.subrange(0, i as int) =~= v@);
    }
    out
}

fn metadata_to_json(v: &Vec<(String, String)>) -> (r: Vec<(String, JsonValue)>)
    ensures
        view_entries(r@) == metadata_json(attrs_view(v@)),
{
    let mut out: Vec<(String, JsonValue)> = Vec::new();
    let mut i: usize = 0;
    while i < v.len()
        invariant
            i <= v@.len(),
            view_entries(out@) == metadata_json(attrs_view(v@.subrange(0, i as int))),
        decreases v@.len() - i,
    {
        let ghost before = view_entries(out@);
        let k = v[i].0.clone();
        let x = JsonValue::String(v[i].1.clone());
        out.push((k, x));
        proof {
            assert(view_entries(out@) =~= before.push((k@, x@)));
            assert(metadata_json(attrs_view(v@.subrange(0, i + 1))) =~= metadata_json(attrs_view(v@.subrange(0, i as int))).push((k@, x@)));
        }
        i = i + 1;
    }
    proof {
        assert(v@.subrange(0, i as int) =~= v@);
    }
    out
}

pub open spec fn opt_json_view(o: Option<JsonValue>) -> Option<JsonV> {
    match o {
        Some(x) => Some(x@),
        None => None,
    }
}

fn body_to_json(b: &OptionalBody) -> (r: Option<JsonValue>)
    ensures
        body_json(b@, opt_json_view(r)),
{
    match b {
        OptionalBody::Missing => None,
        OptionalBody::Null => Some(JsonValue::Null),
        OptionalBody::Empty => Some(JsonValue::String(String::new())),
        OptionalBody::Present(bytes, _, _) => match decode_utf8(bytes.as_slice()) {
            Some(t) => Some(JsonValue::String(t)),
            None => Some(JsonValue::String(String::new())),
        },
    }
}

impl Message {
    /// A message described as `message`, with no contents and JSON as its content type.
    pub fn default() -> (r: Message)
        ensures
            r.id is None,
            r.description@ == "message"@,
            r.provider_states@.len() == 0,
            r.contents is Missing,
            attrs_view(r.metadata@) == seq![("contentType"@, "application/json"@)],
            r.matching_rules.rules@.len() == 0,
            r.generators.categories@.len() == 0,
    {
        let metadata = vec![(String::from_str("contentType"), String::from_str("application/json"))];
        proof {
            assert(attrs_view(metadata@) =~= seq![("contentType"@, "application/json"@)]);
        }
        Message {
            id: None,
            description: String::from_str("message"),
            provider_states: Vec::new(),
            contents: OptionalBody::Missing,
            metadata,
            matching_rules: MatchingRules::default(),
            generators: Generators::default(),
        }
    }

    /// Reads the message at position `index` of a contract from its JSON form. Revisions 3 and 4
    /// of the format have messages; earlier ones are an error.
    pub fn from_json(index: usize, json: &JsonValue, spec_version: &PactSpecification) -> (r: Result<Message, String>)
        ensures
            match r {
                Ok(m) => {
                    &&& has_messages(*spec_version)
                    &&& m.id is None
                    &&& m.description@ == description_of(json@, index as nat)
                    &&& m.description@.len() > 0
                    &&& states_view(m.provider_states@) == provider_states_of(json@)
                    &&& m.contents@ == body_of(json@, "contents"@)
                    &&& attrs_view(m.metadata@) == metadata_of(json@)
                    &&& view_entries(m.matching_rules.rules@) == rules_of(json@)
                    &&& view_entries(m.generators.categories@) == generators_of(json@)
                },
                Err(e) => !has_messages(*spec_version) && e@ == version_error(),
            },
    {
        match spec_version {
            PactSpecification::V3 | PactSpecification::V4 => {
                let given = match json.get("description") {
                    Some(v) => text_of(v),
                    None => String::new(),
                };
                let description = if given.as_str().unicode_len() > 0 {
                    given
                } else {
                    let n = decimal_string(index);
                    proof {
                        reveal_strlit("Message ");
                    }
                    join("Message ", n.as_str())
                };
                let provider_states = provider_states_from_json(json);
                let metadata = metadata_from_json(json);
                Ok(Message {
                    id: None,
                    description,
                    provider_states,
                    contents: body_from_json(json, "contents"),
                    matching_rules: rules_from_json(json),
                    metadata,
                    generators: generators_from_json(json),
                })
            },
            _ => Err(String::from_str("Messages require Pact Specification version 3 or later")),
        }
    }

    /// The value of the first metadata entry whose key is `contentType` or `content-type`,
    /// in any ASCII case.
    pub fn lookup_content_type(&self) -> (r: Option<String>)
        ensures
            match metadata_content_type(attrs_view(self.metadata@)) {
                Some(v) => r is Some && r->0@ == v,
                None => r is None,
            },
    {
        let n = self.metadata.len();
        let ghost m = attrs_view(self.metadata@);
        let mut i: usize = 0;
        proof {
            assert(m.subrange(0, n as int) =~= m);
        }
        while i < n
            invariant
                i <= n == self.metadata@.len(),
                m == attrs_view(self.metadata@),
                content_type_key_index(m) == i + content_type_key_index(m.subrange(i as int, n as int)),
            decreases n - i,
        {
            proof {
                assert(m.subrange(i as int, n as int).drop_first() =~= m.subrange(i + 1, n as int));
                assert(m.subrange(i as int, n as int)[0] == m[i as int]);
                assert(m[i as int] == (self.metadata@[i as int].0@, self.metadata@[i as int].1@));
            }
            let key = to_ascii_lower(self.metadata[i].0.as_str());
            if seq_eq(key.as_str(), "contenttype") || seq_eq(key.as_str(), "content-type") {
                return Some(self.metadata[i].1.clone());
            }
            i = i + 1;
        }
        None
    }

    /// The content type: the body's own, else the metadata's where there is one (nothing where
    /// it does not parse), else what the body looks like.
    pub fn content_type(&self) -> (r: Option<ContentType>)
        ensures
            match message_content_type(*self) {
                Some(c) => r is Some && r->0@ == c,
                None => r is None,
            },
    {
        if self.contents.has_content_type() {
            self.contents.content_type()
        } else {
            match self.lookup_content_type() {
                Some(v) => match ContentType::parse(v.as_str()) {
                    Ok(c) => Some(c),
                    Err(_) => None,
                },
                None => self.contents.detect_content_type(),
            }
        }
    }

    /// This interaction as a message: a copy of it.
    pub fn as_message(&self) -> (r: Option<Message>)
        ensures
            r is Some && same_message(r->0, *self),
    {
        let id = match &self.id {
            Some(x) => Some(x.clone()),
            None => None,
        };
        Some(
            Message {
                id,
                description: self.description.clone(),
                provider_states: copy_states(&self.provider_states),
                contents: self.contents.duplicate(),
                metadata: copy_pairs(&self.metadata),
                matching_rules: MatchingRules { rules: copy_entries(&self.matching_rules.rules) },
                generators: Generators { categories: copy_entries(&self.generators.categories) },
            },
        )
    }

    /// Writes the message in its v3 form: description, provider states, contents (left out
    /// where missing), metadata, matching rules and generators.
    pub fn to_json(&self) -> (r: JsonValue)
        ensures
            exists|e: Option<JsonV>| body_json(self.contents@, e) && r@ == message_json(*self, e),
    {
        let states = JsonValue::Array(states_to_json(&self.provider_states));
        let metadata = JsonValue::Object(metadata_to_json(&self.metadata));
        let rules = JsonValue::Object(copy_entries(&self.matching_rules.rules));
        let generators = JsonValue::Object(copy_entries(&self.generators.categories));
        let contents = body_to_json(&self.contents);
        let ghost ev = opt_json_view(contents);
        proof {
            lemma_json_view(states);
            lemma_json_view(metadata);
            lemma_json_view(rules);
            lemma_json_view(generators);
        }
        let mut es: Vec<(String, JsonValue)> = Vec::new();
        es.push((String::from_str("description"), JsonValue::String(self.description.clone())));
        es.push((String::from_str("providerStates"), states));
        match contents {
            Some(x) => {
                es.push((String::from_str("contents"), x));
            },
            None => {},
        }
        es.push((String::from_str("metadata"), metadata));
        es.push((String::from_str("matchingRules"), rules));
        es.push((String::from_str("generators"), generators));
        let r = JsonValue::Object(es);
        proof {
            lemma_json_view(r);
            assert(view_entries(es@) =~= message_json(*self, ev)->Object_0);
        }
        r
    }

    /// A message is not a request/response interaction.
    pub fn is_request_response(&self) -> (r: bool)
        ensures
            !r,
    {
        false
    }

    /// A message is a message interaction.
    pub fn is_message(&self) -> (r: bool)
        ensures
            r,
    {
        true
    }

    /// The interaction ID.
    pub fn id(&self) -> (r: &Option<String>)
        ensures
            *r == self.id,
    {
        &self.id
    }

    /// The description.
    pub fn description(&self) -> (r: &String)
        ensures
            *r == self.description,
    {
        &self.description
    }

    /// The provider states.
    pub fn provider_states(&self) -> (r: &Vec<ProviderState>)
        ensures
            *r == self.provider_states,
    {
        &self.provider_states
    }

    /// The contents.
    pub fn contents(&self) -> (r: &OptionalBody)
        ensures
            *r == self.contents,
    {
        &self.contents
    }

    /// The body, which for a message is its contents.
    pub fn body(&self) -> (r: &OptionalBody)
        ensures
            *r == self.contents,
    {
        &self.contents
    }

    /// The matching rules.
    pub fn matching_rules(&self) -> (r: &MatchingRules)
        ensures
            *r == self.matching_rules,
    {
        &self.matching_rules
    }

    /// The generators.
    pub fn generators(&self) -> (r: &Generators)
        ensures
            *r == self.generators,
    {
        &self.generators
    }
}

} // verus!
