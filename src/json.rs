//! JSON documents as plain values, and selecting their parts by a path expression.
use vstd::prelude::*;

use crate::path_exp::{PathToken, TokenSpec, tokens_view};

verus! {

#[verifier::external_type_specification]
#[verifier::external_body]
pub struct ExSerdeJsonValue(serde_json::Value);

broadcast use vstd::std_specs::vec::group_vec_axioms;

/// Whether `serde_json` reads a text as a number (`serde_json::Number`'s `FromStr`).
pub uninterp spec fn serde_reads_number(s: Seq<char>) -> bool;

/// Relies on `serde_json::Number`'s `FromStr`: whether the text reads as a number depends on
/// the text alone.
#[verifier::external_body]
fn reads_as_number(s: &str) -> (r: bool)
    ensures
        r == serde_reads_number(s@),
{
    s.parse::<serde_json::Number>().is_ok()
}

/// A JSON number, held as its text; `serde_json` reads the text as a number.
#[derive(Debug, PartialEq, Eq)]
pub struct JsonNumber {
    text: String,
}

impl View for JsonNumber {
    type V = Seq<char>;

    closed spec fn view(&self) -> Seq<char> {
        self.text@
    }
}

impl JsonNumber {
    #[verifier::type_invariant]
    spec fn reads_as_number(&self) -> bool {
        serde_reads_number(self.text@)
    }

    /// The number written by `s`, where `serde_json` reads it as one.
    pub fn parse(s: &str) -> (r: Option<JsonNumber>)
        ensures
            r is Some <==> serde_reads_number(s@),
            r is Some ==> r->0@ == s@,
    {
        if reads_as_number(s) {
            Some(JsonNumber { text: String::from_str(s) })
        } else {
            None
        }
    }

    /// The text of the number.
    pub fn as_str(&self) -> (r: &str)
        ensures
            r@ == self@,
            serde_reads_number(r@),
    {
        proof {
            use_type_invariant(self);
        }
        self.text.as_str()
    }

    /// A copy of the number.
    pub fn copy(&self) -> (r: JsonNumber)
        ensures
            r@ == self@,
    {
        proof {
            use_type_invariant(self);
        }
        JsonNumber { text: self.text.clone() }
    }
}

/// A JSON document.
#[derive(Debug, PartialEq, Eq)]
pub enum JsonValue {
    Null,
    Bool(bool),
    Number(JsonNumber),
    String(String),
    Array(Vec<JsonValue>),
    Object(Vec<(String, JsonValue)>),
}

/// The mathematical form of a [`JsonValue`].
pub enum JsonV {
    Null,
    Bool(bool),
    Number(Seq<char>),
    Str(Seq<char>),
    Array(Seq<JsonV>),
    Object(Seq<(Seq<char>, JsonV)>),
}

pub open spec fn json_view(v: JsonValue) -> JsonV
    decreases v, 0nat,
{
    match v {
        JsonValue::Null => JsonV::Null,
        JsonValue::Bool(b) => JsonV::Bool(b),
        JsonValue::Number(n) => JsonV::Number(n@),
        JsonValue::String(s) => JsonV::Str(s@),
        JsonValue::Array(items) => JsonV::Array(items_view(items, items@.len() as int)),
        JsonValue::Object(entries) => JsonV::Object(entries_view(entries, entries@.len() as int)),
    }
}

/// The views of the first `n` items.
pub open spec fn items_view(items: Vec<JsonValue>, n: int) -> Seq<JsonV>
    decreases items, n,
{
    if n <= 0 || n > items@.len() {
        Seq::empty()
    } else {
        items_view(items, n - 1).push(json_view(items@[n - 1]))
    }
}

/// The views of the first `n` entries.
pub open spec fn entries_view(entries: Vec<(String, JsonValue)>, n: int) -> Seq<(Seq<char>, JsonV)>
    decreases entries, n,
{
    if n <= 0 || n > entries@.len() {
        Seq::empty()
    } else {
        entries_view(entries, n - 1).push((entries@[n - 1].0@, json_view(entries@[n - 1].1)))
    }
}

impl View for JsonValue {
    type V = JsonV;

    open spec fn view(&self) -> JsonV {
        json_view(*self)
    }
}


pub open spec fn view_all(s: Seq<JsonValue>) -> Seq<JsonV> {
    s.map_values(|x: JsonValue| json_view(x))
}

pub open spec fn view_entries(s: Seq<(String, JsonValue)>) -> Seq<(Seq<char>, JsonV)> {
    s.map_values(|e: (String, JsonValue)| (e.0@, json_view(e.1)))
}

pub proof fn lemma_items_view(items: Vec<JsonValue>, n: int)
    requires
        0 <= n <= items@.len(),
    ensures
        items_view(items, n) == view_all(items@.subrange(0, n)),
    decreases n,
{
    if n > 0 {
        lemma_items_view(items, n - 1);
        assert(view_all(items@.subrange(0, n)) =~= view_all(items@.subrange(0, n - 1)).push(json_view(items@[n - 1])));
    } else {
        assert(view_all(items@.subrange(0, n)) =~= Seq::<JsonV>::empty());
    }
}

pub proof fn lemma_entries_view(entries: Vec<(String, JsonValue)>, n: int)
    requires
        0 <= n <= entries@.len(),
    ensures
        entries_view(entries, n) == view_entries(entries@.subrange(0, n)),
    decreases n,
{
    if n > 0 {
        lemma_entries_view(entries, n - 1);
        assert(view_entries(entries@.subrange(0, n)) =~= view_entries(entries@.subrange(0, n - 1)).push(
            (entries@[n - 1].0@, json_view(entries@[n - 1].1)),
        ));
    } else {
        assert(view_entries(entries@.subrange(0, n)) =~= Seq::<(Seq<char>, JsonV)>::empty());
    }
}

/// The view of an array is the views of its items; that of an object, the views of its entries.
pub proof fn lemma_json_view(v: JsonValue)
    ensures
        v matches JsonValue::Array(items) ==> v@ == JsonV::Array(view_all(items@)),
        v matches JsonValue::Object(es) ==> v@ == JsonV::Object(view_entries(es@)),
{
    match v {
        JsonValue::Array(items) => {
            lemma_items_view(items, items@.len() as int);
            assert(items@.subrange(0, items@.len() as int) =~= items@);
        },
        JsonValue::Object(es) => {
            lemma_entries_view(es, es@.len() as int);
            assert(es@.subrange(0, es@.len() as int) =~= es@);
        },
        _ => {},
    }
}

/// A copy of a document, with the same view.
pub fn copy_json(v: &JsonValue) -> (r: JsonValue)
    ensures
        r@ == v@,
    decreases *v,
{
    proof {
        lemma_json_view(*v);
    }
    match v {
        JsonValue::Null => JsonValue::Null,
        JsonValue::Bool(b) => JsonValue::Bool(*b),
        JsonValue::Number(n) => JsonValue::Number(n.copy()),
        JsonValue::String(s) => JsonValue::String(s.clone()),
        JsonValue::Array(items) => {
            let mut out: Vec<JsonValue> = Vec::new();
            let mut i: usize = 0;
            while i < items.len()
                invariant
                    i <= items@.len(),
                    *v == JsonValue::Array(*items),
                    view_all(out@) == view_all(items@.subrange(0, i as int)),
                decreases items@.len() - i,
            {
                proof {
                    assert(decreases_to!(*v => (*v)->Array_0));
                    assert(decreases_to!((*v)->Array_0 => (*v)->Array_0[i as int]));
                }
                let c = copy_json(&items[i]);
                out.push(c);
                proof {
                    assert(view_all(items@.subrange(0, i + 1)) =~= view_all(items@.subrange(0, i as int)).push(json_view(items@[i as int])));
                    assert(view_all(out@) =~= view_all(items@.subrange(0, i as int)).push(json_view(items@[i as int])));
                }
                i = i + 1;
            }
            let r = JsonValue::Array(out);
            proof {
                lemma_json_view(r);
                assert(items@.subrange(0, i as int) =~= items@);
            }
            r
        },
        JsonValue::Object(es) => {
            let mut out: Vec<(String, JsonValue)> = Vec::new();
            let mut i: usize = 0;
            while i < es.len()
                invariant
                    i <= es@.len(),
                    *v == JsonValue::Object(*es),
                    view_entries(out@) == view_entries(es@.subrange(0, i as int)),
                decreases es@.len() - i,
            {
                let k = es[i].0.clone();
                proof {
                    assert(decreases_to!(*v => (*v)->Object_0));
                    assert(decreases_to!((*v)->Object_0 => (*v)->Object_0[i as int]));
                    assert(decreases_to!((*v)->Object_0[i as int] => (*v)->Object_0[i as int].1));
                }
                let c = copy_json(&es[i].1);
                out.push((k, c));
                proof {
                    assert(view_entries(es@.subrange(0, i + 1)) =~= view_entries(es@.subrange(0, i as int)).push((es@[i as int].0@, json_view(es@[i as int].1))));
                    assert(view_entries(out@) =~= view_entries(es@.subrange(0, i as int)).push((es@[i as int].0@, json_view(es@[i as int].1))));
                }
                i = i + 1;
            }
            let r = JsonValue::Object(out);
            proof {
                lemma_json_view(r);
                assert(es@.subrange(0, i as int) =~= es@);
            }
            r
        },
    }
}

/// The value of the first entry named `k`.
pub open spec fn obj_get(es: Seq<(Seq<char>, JsonV)>, k: Seq<char>) -> Option<JsonV>
    decreases es.len(),
{
    if es.len() == 0 {
        None
    } else if es[0].0 == k {
        Some(es[0].1)
    } else {
        obj_get(es.drop_first(), k)
    }
}

/// The value of field `k` of an object; `None` for other values.
pub open spec fn json_get(v: JsonV, k: Seq<char>) -> Option<JsonV> {
    match v {
        JsonV::Object(es) => obj_get(es, k),
        _ => None,
    }
}

impl JsonValue {
    /// The value of the first field named `key`, where this is an object.
    pub fn get(&self, key: &str) -> (r: Option<&JsonValue>)
        ensures
            match json_get(self@, key@) {
                Some(x) => r is Some && r->0@ == x,
                None => r is None,
            },
    {
        proof {
            lemma_json_view(*self);
        }
        match self {
            JsonValue::Object(es) => {
                let n = es.len();
                let mut i: usize = 0;
                proof {
                    assert(view_entries(es@).subrange(0, n as int) =~= view_entries(es@));
                }
                while i < n
                    invariant
                        i <= n == es@.len(),
                        self@ == JsonV::Object(view_entries(es@)),
                        obj_get(view_entries(es@), key@) == obj_get(view_entries(es@).subrange(i as int, n as int), key@),
                    decreases n - i,
                {
                    proof {
                        assert(view_entries(es@).subrange(i as int, n as int).drop_first() =~= view_entries(es@).subrange(i + 1, n as int));
                    }
                    if crate::text::seq_eq(es[i].0.as_str(), key) {
                        proof {
                            assert(view_entries(es@)[i as int] == (es@[i as int].0@, json_view(es@[i as int].1)));
                            assert(view_entries(es@).subrange(i as int, n as int)[0] == view_entries(es@)[i as int]);
                            assert(obj_get(view_entries(es@).subrange(i as int, n as int), key@) == Some(json_view(es@[i as int].1)));
                            assert(json_get(self@, key@) == Some(json_view(es@[i as int].1)));
                        }
                        return Some(&es[i].1);
                    }
                    i = i + 1;
                }
                None
            },
            _ => None,
        }
    }
}

/// The values of an object's entries, in order.
pub open spec fn values_of(es: Seq<(Seq<char>, JsonV)>) -> Seq<JsonV> {
    es.map_values(|e: (Seq<char>, JsonV)| e.1)
}

/// The parts of `v` that the tokens address, in document order.
pub open spec fn select(v: JsonV, toks: Seq<TokenSpec>) -> Seq<JsonV>
    decreases toks.len(), 0nat,
{
    if toks.len() == 0 {
        seq![v]
    } else {
        let rest = toks.drop_first();
        match toks[0] {
            TokenSpec::Root => select(v, rest),
            TokenSpec::Field(n) => match json_get(v, n) {
                Some(c) => select(c, rest),
                None => Seq::empty(),
            },
            TokenSpec::Index(i) => match v {
                JsonV::Array(items) => if i < items.len() {
                    select(items[i as int], rest)
                } else {
                    Seq::empty()
                },
                _ => Seq::empty(),
            },
            TokenSpec::Star => match v {
                JsonV::Array(items) => select_all(items, rest),
                JsonV::Object(es) => select_all(values_of(es), rest),
                _ => Seq::empty(),
            },
        }
    }
}

/// The parts that the tokens address in each of `cs`, one after the other.
pub open spec fn select_all(cs: Seq<JsonV>, toks: Seq<TokenSpec>) -> Seq<JsonV>
    decreases toks.len(), cs.len() + 1,
{
    if cs.len() == 0 {
        Seq::empty()
    } else {
        select_all(cs.drop_last(), toks) + select(cs.last(), toks)
    }
}

proof fn lemma_select_all_concat(a: Seq<JsonV>, b: Seq<JsonV>, r: Seq<TokenSpec>)
    ensures
        select_all(a + b, r) == select_all(a, r) + select_all(b, r),
    decreases b.len(),
{
    if b.len() == 0 {
        assert(a + b =~= a);
        assert(select_all(a, r) + Seq::<JsonV>::empty() =~= select_all(a, r));
    } else {
        assert((a + b).drop_last() =~= a + b.drop_last());
        assert((a + b).last() == b.last());
        lemma_select_all_concat(a, b.drop_last(), r);
        assert(select_all(a, r) + select_all(b.drop_last(), r) + select(b.last(), r) =~= select_all(a, r) + (
        select_all(b.drop_last(), r) + select(b.last(), r)));
    }
}

/// Selecting by `q` then `r` is selecting by `r` in each part that `q` reaches.
pub proof fn lemma_select_compose(v: JsonV, q: Seq<TokenSpec>, r: Seq<TokenSpec>)
    ensures
        select(v, q + r) == select_all(select(v, q), r),
    decreases q.len(), 0nat,
{
    if q.len() == 0 {
        assert(q + r =~= r);
        assert(select(v, q) == seq![v]);
        assert(seq![v].drop_last() =~= Seq::<JsonV>::empty());
        assert(seq![v].last() == v);
        assert(select_all(Seq::<JsonV>::empty(), r) == Seq::<JsonV>::empty());
        assert(Seq::<JsonV>::empty() + select(v, r) =~= select(v, r));
    } else {
        let q1 = q.drop_first();
        assert((q + r)[0] == q[0]);
        assert((q + r).drop_first() =~= q1 + r);
        match q[0] {
            TokenSpec::Root => {
                lemma_select_compose(v, q1, r);
            },
            TokenSpec::Field(n) => {
                match json_get(v, n) {
                    Some(c) => {
                        lemma_select_compose(c, q1, r);
                    },
                    None => {
                        assert(select_all(Seq::<JsonV>::empty(), r) == Seq::<JsonV>::empty());
                    },
                }
            },
            TokenSpec::Index(i) => {
                assert(select_all(Seq::<JsonV>::empty(), r) == Seq::<JsonV>::empty());
                match v {
                    JsonV::Array(items) => {
                        if i < items.len() {
                            lemma_select_compose(items[i as int], q1, r);
                        }
                    },
                    _ => {},
                }
            },
            TokenSpec::Star => {
                match v {
                    JsonV::Array(items) => {
                        lemma_select_all_compose(items, q1, r);
                    },
                    JsonV::Object(es) => {
                        lemma_select_all_compose(values_of(es), q1, r);
                    },
                    _ => {
                        assert(select_all(Seq::<JsonV>::empty(), r) == Seq::<JsonV>::empty());
                    },
                }
            },
        }
    }
}

proof fn lemma_select_all_compose(cs: Seq<JsonV>, q: Seq<TokenSpec>, r: Seq<TokenSpec>)
    ensures
        select_all(cs, q + r) == select_all(select_all(cs, q), r),
    decreases q.len(), cs.len() + 1,
{
    if cs.len() > 0 {
        lemma_select_all_compose(cs.drop_last(), q, r);
        lemma_select_compose(cs.last(), q, r);
        lemma_select_all_concat(select_all(cs.drop_last(), q), select(cs.last(), q), r);
    }
}

proof fn lemma_select_all_empty(cs: Seq<JsonV>)
    ensures
        select_all(cs, Seq::empty()) == cs,
    decreases cs.len(),
{
    if cs.len() > 0 {
        lemma_select_all_empty(cs.drop_last());
        assert(select(cs.last(), Seq::<TokenSpec>::empty()) == seq![cs.last()]);
        assert(cs.drop_last() + seq![cs.last()] =~= cs);
    }
}

/// A trailing wildcard gives one value for each child, in order: where `q` reaches exactly one
/// array or object, `q` followed by `*` reaches its items, or its entries' values.
pub proof fn lemma_trailing_wildcard(v: JsonV, q: Seq<TokenSpec>, o: JsonV)
    requires
        select(v, q) == seq![o],
    ensures
        o matches JsonV::Array(items) ==> select(v, q.push(TokenSpec::Star)) == items,
        o matches JsonV::Object(es) ==> select(v, q.push(TokenSpec::Star)) == values_of(es),
{
    let star = seq![TokenSpec::Star];
    assert(q.push(TokenSpec::Star) =~= q + star);
    lemma_select_compose(v, q, star);
    assert(seq![o].drop_last() =~= Seq::<JsonV>::empty());
    assert(seq![o].last() == o);
    assert(select_all(Seq::<JsonV>::empty(), star) == Seq::<JsonV>::empty());
    assert(select_all(seq![o], star) =~= select(o, star));
    assert(star.drop_first() =~= Seq::<TokenSpec>::empty());
    match o {
        JsonV::Array(items) => {
            lemma_select_all_empty(items);
        },
        JsonV::Object(es) => {
            lemma_select_all_empty(values_of(es));
        },
        _ => {},
    }
}

/// Appends to `out` the parts of `v` that `path[from..]` addresses.
fn collect_at(v: &JsonValue, path: &Vec<PathToken>, from: usize, out: &mut Vec<JsonValue>)
    requires
        from <= path@.len(),
    ensures
        view_all(final(out)@) == view_all(old(out)@) + select(v@, tokens_view(path@).subrange(from as int, path@.len() as int)),
    decreases path@.len() - from, 0nat,
{
    let ghost toks = tokens_view(path@).subrange(from as int, path@.len() as int);
    let ghost start = view_all(out@);
    proof {
        lemma_json_view(*v);
    }
    if from == path.len() {
        let c = copy_json(v);
        out.push(c);
        proof {
            assert(view_all(out@) =~= start + seq![v@]);
        }
        return;
    }
    proof {
        assert(toks.drop_first() =~= tokens_view(path@).subrange(from + 1, path@.len() as int));
        assert(toks[0] == path@[from as int]@);
    }
    match &path[from] {
        PathToken::Root => {
            collect_at(v, path, from + 1, out);
        },
        PathToken::Field(name) => {
            match v.get(name.as_str()) {
                Some(c) => {
                    collect_at(c, path, from + 1, out);
                },
                None => {
                    proof {
                        assert(view_all(out@) =~= start + Seq::<JsonV>::empty());
                    }
                },
            }
        },
        PathToken::Index(i) => {
            match v {
                JsonValue::Array(items) => {
                    if *i < items.len() {
                        collect_at(&items[*i], path, from + 1, out);
                    } else {
                        proof {
                            assert(view_all(out@) =~= start + Seq::<JsonV>::empty());
                        }
                    }
                },
                _ => {
                    proof {
                        assert(view_all(out@) =~= start + Seq::<JsonV>::empty());
                    }
                },
            }
        },
        PathToken::Star => {
            let next = from + 1;
            match v {
                JsonValue::Array(items) => {
                    let mut k: usize = 0;
                    proof {
                        assert(view_all(items@).subrange(0, 0) =~= Seq::<JsonV>::empty());
                        assert(view_all(out@) =~= start + Seq::<JsonV>::empty());
                    }
                    while k < items.len()
                        invariant
                            k <= items@.len(),
                            from < path@.len(),
                            next == from + 1,
                            toks.len() > 0,
                            toks.drop_first() == tokens_view(path@).subrange(from + 1, path@.len() as int),
                            view_all(out@) == start + select_all(view_all(items@).subrange(0, k as int), toks.drop_first()),
                        decreases items@.len() - k,
                    {
                        collect_at(&items[k], path, next, out);
                        proof {
                            let cs = view_all(items@).subrange(0, k + 1);
                            assert(cs.drop_last() =~= view_all(items@).subrange(0, k as int));
                        }
                        k = k + 1;
                    }
                    proof {
                        assert(view_all(items@).subrange(0, k as int) =~= view_all(items@));
                    }
                },
                JsonValue::Object(es) => {
                    let mut k: usize = 0;
                    proof {
                        assert(values_of(view_entries(es@)).subrange(0, 0) =~= Seq::<JsonV>::empty());
                        assert(view_all(out@) =~= start + Seq::<JsonV>::empty());
                    }
                    while k < es.len()
                        invariant
                            k <= es@.len(),
                            from < path@.len(),
                            next == from + 1,
                            toks.len() > 0,
                            toks.drop_first() == tokens_view(path@).subrange(from + 1, path@.len() as int),
                            view_all(out@) == start + select_all(values_of(view_entries(es@)).subrange(0, k as int), toks.drop_first()),
                        decreases es@.len() - k,
                    {
                        collect_at(&es[k].1, path, next, out);
                        proof {
                            let cs = values_of(view_entries(es@)).subrange(0, k + 1);
                            assert(cs.drop_last() =~= values_of(view_entries(es@)).subrange(0, k as int));
                        }
                        k = k + 1;
                    }
                    proof {
                        assert(values_of(view_entries(es@)).subrange(0, k as int) =~= values_of(view_entries(es@)));
                    }
                },
                _ => {
                    proof {
                        assert(view_all(out@) =~= start + Seq::<JsonV>::empty());
                    }
                },
            }
        },
    }
}

/// The parts of `v` that the tokens of `path` after the first address, in document order.
pub fn select_values(v: &JsonValue, path: &Vec<PathToken>) -> (r: Vec<JsonValue>)
    requires
        path@.len() >= 1,
    ensures
        view_all(r@) == select(v@, tokens_view(path@).drop_first()),
{
    let mut out: Vec<JsonValue> = Vec::new();
    collect_at(v, path, 1, &mut out);
    proof {
        assert(tokens_view(path@).subrange(1, path@.len() as int) =~= tokens_view(path@).drop_first());
        assert(view_all(Seq::<JsonValue>::empty()) + select(v@, tokens_view(path@).drop_first()) =~= select(v@, tokens_view(path@).drop_first()));
    }
    out
}

/// The compact JSON text that `serde_json` writes for a document.
pub uninterp spec fn compact_text(v: JsonV) -> Seq<char>;

/// Relies on `serde_json::Value`'s `Display`, which writes a document as compact JSON text;
/// the text depends on the document alone.
#[verifier::external_body]
pub(crate) fn to_json_text(v: &JsonValue) -> (r: String)
    ensures
        r@ == compact_text(v@),
{
    to_serde(v).to_string()
}

/// The `serde_json` form of a document, variant for variant.
#[verifier::external_body]
fn to_serde(v: &JsonValue) -> serde_json::Value {
    match v {
        JsonValue::Null => serde_json::Value::Null,
        JsonValue::Bool(b) => serde_json::Value::Bool(*b),
        // A `JsonNumber` holds only texts that serde_json reads as numbers.
        JsonValue::Number(n) => match n.text.parse::<serde_json::Number>() {
            Ok(num) => serde_json::Value::Number(num),
            Err(_) => serde_json::Value::Null,
        },
        JsonValue::String(s) => serde_json::Value::String(s.clone()),
        JsonValue::Array(items) => serde_json::Value::Array(items.iter().map(to_serde).collect()),
        JsonValue::Object(es) => serde_json::Value::Object(
            es.iter().map(|e| (e.0.clone(), to_serde(&e.1))).collect(),
        ),
    }
}

} // verus!
