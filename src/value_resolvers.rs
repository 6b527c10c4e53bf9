//! Resolvers that give the value at a path expression: in a live HTTP request, or in the
//! value on top of the plan interpreter's stack.
use vstd::prelude::*;

use crate::bodies::{OptionalBody, copy_bytes};
use crate::content_types::content_type_text;
use crate::engine::{
    NodeResult, NodeValue, NodeView, PlanMatchingContext, lemma_list_view, top_of, view_nodes,
};
use crate::json::{
    JsonV, JsonValue, copy_json, lemma_json_view, lemma_trailing_wildcard, select, select_values, view_all,
};
use crate::xml::{XmlElement, copy_element, refs_view, select_elements, xml_select};
use crate::http::{
    HttpRequest, MultiMap, content_type_header, copy_strings, find_key, headers_view, lemma_key_index,
    lower_key_index, lowered, mmap_get, mmap_view, put, query_view, request_content_type, strs_view,
};
use crate::path_exp::{DocPath, PathToken, TokenSpec, first_field_of, last_field_of};
use crate::text::{join, lower_of, seq_eq, to_lowercase};

verus! {

/// The view of a resolution outcome.
pub open spec fn result_view(r: Result<NodeValue, String>) -> Result<NodeView, Seq<char>> {
    match r {
        Ok(v) => Ok(v@),
        Err(e) => Err(e@),
    }
}

/// Resolves a path expression to a value.
pub trait ValueResolver {
    /// What resolving `path` against `context` gives: a value, or an error text.
    spec fn resolution(&self, path: DocPath, context: PlanMatchingContext) -> Result<NodeView, Seq<char>>;

    /// Resolves `path` against `context`.
    fn resolve(&self, path: &DocPath, context: &PlanMatchingContext) -> (r: Result<NodeValue, String>)
        ensures
            result_view(r) == self.resolution(*path, *context),
    ;
}

/// Resolves paths against an HTTP request.
#[derive(Clone, Debug, Default, PartialEq, Eq)]
pub struct HttpRequestValueResolver {
    /// Request to resolve values against
    pub request: HttpRequest,
}

/// One value as a string; any other number of values as a list.
pub open spec fn single_or_list(vs: Seq<Seq<char>>) -> NodeView {
    if vs.len() == 1 {
        NodeView::STRING(vs[0])
    } else {
        NodeView::SLIST(vs)
    }
}

/// The error text for a path that a request has no value for.
pub open spec fn not_valid(path: DocPath, tail: Seq<char>) -> Seq<char> {
    path.expr@ + tail
}

/// What a path gives in a request. The first field picks the part: `method` and `path` give
/// their string; `query` and `headers` give all the entries at depth 2 or for a wildcard at
/// depth 3, and the values of one name at depth 3 (header names compared in lower case);
/// `headers` also takes a position at depth 4; `content-type` gives the request's content
/// type; `body` at depth 2 gives its bytes. Any other path is an error.
pub open spec fn http_resolution(req: HttpRequest, path: DocPath) -> Result<NodeView, Seq<char>> {
    let t = path.tokens();
    let n = t.len();
    let whole = n == 2 || (n == 3 && t.last() is Star);
    let name = match last_field_of(t) {
        Some(f) => f,
        None => Seq::empty(),
    };
    match first_field_of(t) {
        None => Err(not_valid(path, " is not valid for a HTTP request"@)),
        Some(f) => if f == "method"@ {
            Ok(NodeView::STRING(req.method@))
        } else if f == "path"@ {
            Ok(NodeView::STRING(req.path@))
        } else if f == "query"@ {
            let q = query_view(req.query);
            if whole {
                Ok(NodeView::MMAP(q))
            } else if n == 3 {
                Ok(
                    match mmap_get(q, name) {
                        Some(vs) => single_or_list(vs),
                        None => NodeView::NULL,
                    },
                )
            } else {
                Err(not_valid(path, " is not valid for a HTTP request query parameters"@))
            }
        } else if f == "headers"@ {
            let h = lowered(headers_view(req.headers));
            let key = lower_of(name);
            if whole {
                Ok(NodeView::MMAP(h))
            } else if n == 3 {
                Ok(
                    match mmap_get(h, key) {
                        Some(vs) => single_or_list(vs),
                        None => NodeView::NULL,
                    },
                )
            } else if n == 4 && t.last() is Index {
                Ok(
                    match mmap_get(h, key) {
                        Some(vs) => if t.last()->Index_0 < vs.len() {
                            NodeView::STRING(vs[t.last()->Index_0 as int])
                        } else {
                            NodeView::NULL
                        },
                        None => NodeView::NULL,
                    },
                )
            } else {
                Err(not_valid(path, " is not valid for HTTP request headers"@))
            }
        } else if f == "content-type"@ {
            Ok(
                match request_content_type(req) {
                    Some(c) => NodeView::STRING(content_type_text(c)),
                    None => NodeView::NULL,
                },
            )
        } else if f == "body"@ && n == 2 {
            Ok(
                match req.body {
                    OptionalBody::Present(b, _, _) => NodeView::BARRAY(b@),
                    _ => NodeView::NULL,
                },
            )
        } else {
            Err(not_valid(path, " is not valid for a HTTP request"@))
        },
    }
}

fn not_valid_message(path: &DocPath, tail: &str) -> (r: String)
    ensures
        r@ == not_valid(*path, tail@),
{
    join(path.expr.as_str(), tail)
}

/// The values at position `i` of `m`, as a string where there is one and a list otherwise.
fn single_or_list_at(m: &Vec<(String, Vec<String>)>, i: usize) -> (r: NodeValue)
    requires
        i < m@.len(),
    ensures
        r@ == single_or_list(strs_view(m@[i as int].1@)),
{
    let vals = &m[i].1;
    if vals.len() == 1 {
        NodeValue::STRING(vals[0].clone())
    } else {
        NodeValue::SLIST(copy_strings(vals))
    }
}

impl ValueResolver for HttpRequestValueResolver {
    open spec fn resolution(&self, path: DocPath, context: PlanMatchingContext) -> Result<NodeView, Seq<char>> {
        http_resolution(self.request, path)
    }

    fn resolve(&self, path: &DocPath, _context: &PlanMatchingContext) -> (r: Result<NodeValue, String>) {
        let n = path.len();
        let whole = n == 2 || (n == 3 && path.is_wildcard());
        match path.first_field() {
            Some(field) => {
                if seq_eq(field, "method") {
                    Ok(NodeValue::STRING(self.request.method.clone()))
                } else if seq_eq(field, "path") {
                    Ok(NodeValue::STRING(self.request.path.clone()))
                } else if seq_eq(field, "query") {
                    let qp = self.request.query_map();
                    if whole {
                        Ok(NodeValue::MMAP(qp))
                    } else if n == 3 {
                        let name = match path.last_field() {
                            Some(f) => f,
                            None => "",
                        };
                        proof {
                            reveal_strlit("");
                            assert(""@ =~= Seq::<char>::empty());
                        }
                        let idx = find_key(&qp, name);
                        proof {
                            lemma_key_index(query_view(self.request.query), name@);
                            if idx < qp@.len() {
                                assert(mmap_view(qp@)[idx as int].1 == strs_view(qp@[idx as int].1@));
                            }
                        }
                        if idx < qp.len() {
                            Ok(single_or_list_at(&qp, idx))
                        } else {
                            Ok(NodeValue::NULL)
                        }
                    } else {
                        Err(not_valid_message(path, " is not valid for a HTTP request query parameters"))
                    }
                } else if seq_eq(field, "headers") {
                    let headers = self.request.lowered_headers();
                    if whole {
                        return Ok(NodeValue::MMAP(headers));
                    }
                    let name = match path.last_field() {
                        Some(f) => f,
                        None => "",
                    };
                    proof {
                        reveal_strlit("");
                        assert(""@ =~= Seq::<char>::empty());
                    }
                    let key = to_lowercase(name);
                    let idx = find_key(&headers, key.as_str());
                    proof {
                        lemma_key_index(lowered(headers_view(self.request.headers)), key@);
                        if idx < headers@.len() {
                            assert(mmap_view(headers@)[idx as int].1 == strs_view(headers@[idx as int].1@));
                        }
                    }
                    let last_is_index = match path.last() {
                        Some(t) => t.is_index(),
                        None => false,
                    };
                    if n == 3 {
                        if idx < headers.len() {
                            Ok(single_or_list_at(&headers, idx))
                        } else {
                            Ok(NodeValue::NULL)
                        }
                    } else if n == 4 && last_is_index {
                        if idx < headers.len() {
                            match path.last() {
                                Some(PathToken::Index(i)) => {
                                    if *i < headers[idx].1.len() {
                                        proof {
                                            assert(strs_view(headers@[idx as int].1@)[*i as int] == headers@[idx as int].1@[*i as int]@);
                                        }
                                        Ok(NodeValue::STRING(headers[idx].1[*i].clone()))
                                    } else {
                                        Ok(NodeValue::NULL)
                                    }
                                },
                                _ => Ok(NodeValue::NULL),
                            }
                        } else {
                            Ok(NodeValue::NULL)
                        }
                    } else {
                        Err(not_valid_message(path, " is not valid for HTTP request headers"))
                    }
                } else if seq_eq(field, "content-type") {
                    match self.request.content_type() {
                        Some(ct) => Ok(NodeValue::STRING(ct.to_string())),
                        None => Ok(NodeValue::NULL),
                    }
                } else if seq_eq(field, "body") && n == 2 {
                    match &self.request.body {
                        OptionalBody::Present(bytes, _, _) => Ok(NodeValue::BARRAY(copy_bytes(bytes))),
                        _ => Ok(NodeValue::NULL),
                    }
                } else {
                    Err(not_valid_message(path, " is not valid for a HTTP request"))
                }
            },
            None => Err(not_valid_message(path, " is not valid for a HTTP request")),
        }
    }
}

/// Resolves paths against the value on top of the plan interpreter's stack.
#[derive(Clone, Debug, Default, PartialEq, Eq)]
pub struct CurrentStackValueResolver {}

/// The error text for a path that the stack value cannot give.
pub open spec fn cannot_resolve(path: DocPath, reason: Seq<char>) -> Seq<char> {
    "Can not resolve '"@ + path.expr@ + "', "@ + reason
}

/// The tokens after the root marker.
pub open spec fn below_root(t: Seq<TokenSpec>) -> Seq<TokenSpec> {
    if t.len() == 0 {
        t
    } else {
        t.drop_first()
    }
}

/// What the parts found in a JSON document give: nothing is `NULL`, one part is itself,
/// several are an array of them.
pub open spec fn json_found(found: Seq<JsonV>) -> NodeView {
    if found.len() == 0 {
        NodeView::NULL
    } else if found.len() == 1 {
        NodeView::JSON(found[0])
    } else {
        NodeView::JSON(JsonV::Array(found))
    }
}

/// What the elements found in an XML document give: nothing is `NULL`, one element is itself,
/// several are a list of them.
pub open spec fn xml_found(found: Seq<crate::xml::XmlV>) -> NodeView {
    if found.len() == 0 {
        NodeView::NULL
    } else if found.len() == 1 {
        NodeView::XML(found[0])
    } else {
        NodeView::LIST(found.map_values(|x: crate::xml::XmlV| NodeView::XML(x)))
    }
}

/// What a path gives against the stack: an error where the stack is empty or its top holds no
/// value, where the value is `NULL`, or where it is a value that has no parts; the document itself for the root path; otherwise
/// the parts that the path addresses in the JSON or XML document on top.
pub open spec fn stack_resolution(path: DocPath, context: PlanMatchingContext) -> Result<NodeView, Seq<char>> {
    let t = path.tokens();
    let is_root = t == seq![TokenSpec::Root];
    match top_of(context.value_stack@) {
        None => Err(cannot_resolve(path, "current value stack is either empty or contains an empty value"@)),
        Some(NodeResult::VALUE(v)) => match v {
            NodeValue::NULL => Err(cannot_resolve(path, "current stack value does not contain a value (is NULL)"@)),
            NodeValue::JSON(j) => if is_root {
                Ok(NodeView::JSON(j@))
            } else {
                Ok(json_found(select(j@, below_root(t))))
            },
            NodeValue::XML(x) => if is_root {
                Ok(NodeView::XML(x@))
            } else {
                Ok(xml_found(xml_select(x@, below_root(t))))
            },
            _ => Err(cannot_resolve(path, "current stack value does not contain a value that is resolvable"@)),
        },
        Some(_) => Err(cannot_resolve(path, "current value stack is either empty or contains an empty value"@)),
    }
}

fn cannot_resolve_message(path: &DocPath, reason: &str) -> (r: String)
    ensures
        r@ == cannot_resolve(*path, reason@),
{
    let a = join("Can not resolve '", path.expr.as_str());
    let b = join(a.as_str(), "', ");
    join(b.as_str(), reason)
}

fn resolve_json(j: &JsonValue, path: &DocPath) -> (r: NodeValue)
    ensures
        r@ == json_found(select(j@, below_root(path.tokens()))),
{
    if path.path_tokens.len() == 0 {
        return NodeValue::JSON(copy_json(j));
    }
    let mut found = select_values(j, &path.path_tokens);
    if found.len() == 0 {
        NodeValue::NULL
    } else if found.len() == 1 {
        let x = found.pop();
        match x {
            Some(v) => NodeValue::JSON(v),
            None => NodeValue::NULL,
        }
    } else {
        let a = JsonValue::Array(found);
        proof {
            lemma_json_view(a);
        }
        NodeValue::JSON(a)
    }
}

fn resolve_xml(x: &XmlElement, path: &DocPath) -> (r: NodeValue)
    ensures
        r@ == xml_found(xml_select(x@, below_root(path.tokens()))),
{
    if path.path_tokens.len() == 0 {
        return NodeValue::XML(copy_element(x));
    }
    let found = select_elements(x, &path.path_tokens);
    if found.len() == 0 {
        NodeValue::NULL
    } else if found.len() == 1 {
        NodeValue::XML(copy_element(found[0]))
    } else {
        let mut items: Vec<NodeValue> = Vec::new();
        let mut i: usize = 0;
        while i < found.len()
            invariant
                i <= found@.len(),
                view_nodes(items@) == refs_view(found@).subrange(0, i as int).map_values(|y: crate::xml::XmlV| NodeView::XML(y)),
            decreases found@.len() - i,
        {
            let ghost before = view_nodes(items@);
            let c = copy_element(found[i]);
            items.push(NodeValue::XML(c));
            proof {
                assert(view_nodes(items@) =~= before.push(NodeView::XML(c@)));
                assert(refs_view(found@).subrange(0, i + 1).map_values(|y: crate::xml::XmlV| NodeView::XML(y)) =~= refs_view(
                    found@,
                ).subrange(0, i as int).map_values(|y: crate::xml::XmlV| NodeView::XML(y)).push(NodeView::XML(c@)));
            }
            i = i + 1;
        }
        proof {
            lemma_list_view(items);
            assert(refs_view(found@).subrange(0, i as int) =~= refs_view(found@));
        }
        NodeValue::LIST(items)
    }
}

impl ValueResolver for CurrentStackValueResolver {
    open spec fn resolution(&self, path: DocPath, context: PlanMatchingContext) -> Result<NodeView, Seq<char>> {
        stack_resolution(path, context)
    }

    fn resolve(&self, path: &DocPath, context: &PlanMatchingContext) -> (r: Result<NodeValue, String>) {
        match context.stack_value() {
            Some(NodeResult::VALUE(value)) => match value {
                NodeValue::NULL => Err(
                    cannot_resolve_message(path, "current stack value does not contain a value (is NULL)"),
                ),
                NodeValue::JSON(json) => {
                    if path.is_root() {
                        Ok(NodeValue::JSON(copy_json(json)))
                    } else {
                        Ok(resolve_json(json, path))
                    }
                },
                NodeValue::XML(element) => {
                    if path.is_root() {
                        Ok(NodeValue::XML(copy_element(element)))
                    } else {
                        Ok(resolve_xml(element, path))
                    }
                },
                _ => Err(
                    cannot_resolve_message(
                        path,
                        "current stack value does not contain a value that is resolvable",
                    ),
                ),
            },
            Some(_) => Err(
                cannot_resolve_message(path, "current value stack is either empty or contains an empty value"),
            ),
            None => Err(
                cannot_resolve_message(path, "current value stack is either empty or contains an empty value"),
            ),
        }
    }
}

/// The names of the parts of a request are distinct.
proof fn lemma_field_names_differ()
    ensures
        "path"@ != "method"@,
        "query"@ != "method"@ && "query"@ != "path"@,
        "headers"@ != "method"@ && "headers"@ != "path"@ && "headers"@ != "query"@,
        "content-type"@ != "method"@ && "content-type"@ != "path"@ && "content-type"@ != "query"@
            && "content-type"@ != "headers"@,
        "body"@ != "method"@ && "body"@ != "path"@ && "body"@ != "query"@ && "body"@ != "headers"@
            && "body"@ != "content-type"@,
{
    reveal_strlit("query");
    reveal_strlit("method");
    reveal_strlit("path");
    reveal_strlit("headers");
    reveal_strlit("content-type");
    reveal_strlit("body");
    assert("path"@.len() != "method"@.len());
    assert("query"@.len() != "method"@.len());
    assert("query"@[0] != "path"@[0]);
    assert("headers"@.len() != "method"@.len());
    assert("headers"@[0] != "path"@[0]);
    assert("headers"@[0] != "query"@[0]);
    assert("content-type"@[0] != "method"@[0]);
    assert("content-type"@[0] != "path"@[0]);
    assert("content-type"@[0] != "query"@[0]);
    assert("content-type"@[0] != "headers"@[0]);
    assert("body"@[0] != "method"@[0]);
    assert("body"@[0] != "path"@[0]);
    assert("body"@[0] != "query"@[0]);
    assert("body"@[0] != "headers"@[0]);
    assert("body"@[0] != "content-type"@[0]);
}

/// Whether two header lists differ at most in the case of their names.
pub open spec fn same_but_name_case(a: MultiMap, b: MultiMap) -> bool {
    &&& a.len() == b.len()
    &&& forall|i: int| 0 <= i < a.len() ==> lower_of(#[trigger] a[i].0) == lower_of(b[i].0) && a[i].1 == b[i].1
}

proof fn lemma_lowered_same(a: MultiMap, b: MultiMap)
    requires
        same_but_name_case(a, b),
    ensures
        lowered(a) == lowered(b),
    decreases a.len(),
{
    if a.len() > 0 {
        assert(same_but_name_case(a.drop_last(), b.drop_last())) by {
            assert forall|i: int| 0 <= i < a.drop_last().len() implies lower_of(#[trigger] a.drop_last()[i].0) == lower_of(
                b.drop_last()[i].0,
            ) && a.drop_last()[i].1 == b.drop_last()[i].1 by {
                assert(a.drop_last()[i] == a[i]);
                assert(b.drop_last()[i] == b[i]);
            }
        }
        lemma_lowered_same(a.drop_last(), b.drop_last());
        assert(lower_of(a[a.len() - 1].0) == lower_of(b[b.len() - 1].0));
    }
}

proof fn lemma_lower_key_index_same(a: MultiMap, b: MultiMap, k: Seq<char>)
    requires
        same_but_name_case(a, b),
    ensures
        lower_key_index(a, k) == lower_key_index(b, k),
    decreases a.len(),
{
    if a.len() > 0 {
        assert(lower_of(a[0].0) == lower_of(b[0].0));
        assert(same_but_name_case(a.drop_first(), b.drop_first())) by {
            assert forall|i: int| 0 <= i < a.drop_first().len() implies lower_of(#[trigger] a.drop_first()[i].0)
                == lower_of(b.drop_first()[i].0) && a.drop_first()[i].1 == b.drop_first()[i].1 by {
                assert(a.drop_first()[i] == a[i + 1]);
                assert(b.drop_first()[i] == b[i + 1]);
            }
        }
        lemma_lower_key_index_same(a.drop_first(), b.drop_first(), k);
    }
}

/// Header names are matched without regard to case: two requests that differ only in the case
/// of their header names resolve every path to the same outcome.
pub proof fn lemma_header_name_case_in_request(r1: HttpRequest, r2: HttpRequest, path: DocPath)
    requires
        r1.method == r2.method,
        r1.path == r2.path,
        r1.query == r2.query,
        r1.body == r2.body,
        same_but_name_case(headers_view(r1.headers), headers_view(r2.headers)),
    ensures
        http_resolution(r1, path) == http_resolution(r2, path),
{
    let a = headers_view(r1.headers);
    let b = headers_view(r2.headers);
    lemma_lowered_same(a, b);
    lemma_lower_key_index_same(a, b, "content-type"@);
    let i = lower_key_index(a, "content-type"@);
    if 0 <= i < a.len() {
        assert(lower_of(a[i].0) == lower_of(b[i].0));
        assert(a[i].1 == b[i].1);
    }
    assert(content_type_header(a) == content_type_header(b));
    assert(request_content_type(r1) == request_content_type(r2));
}

/// Header names in a path are matched without regard to case: `$.headers.<name>` and
/// `$.headers.<name>[n]` resolve to the same outcome for two names with the same lower case.
pub proof fn lemma_header_name_case_in_path(req: HttpRequest, path_a: DocPath, path_b: DocPath, n1: Seq<char>, n2: Seq<char>, rest: Seq<TokenSpec>)
    requires
        lower_of(n1) == lower_of(n2),
        rest == Seq::<TokenSpec>::empty() || (rest.len() == 1 && rest[0] is Index),
        path_a.tokens() == seq![TokenSpec::Root, TokenSpec::Field("headers"@), TokenSpec::Field(n1)] + rest,
        path_b.tokens() == seq![TokenSpec::Root, TokenSpec::Field("headers"@), TokenSpec::Field(n2)] + rest,
    ensures
        http_resolution(req, path_a) == http_resolution(req, path_b),
{
    let t1 = path_a.tokens();
    let t2 = path_b.tokens();
    assert(first_field_of(t1) == Some("headers"@)) by {
        assert(t1[0] == TokenSpec::Root);
        assert(t1.drop_first()[0] == TokenSpec::Field("headers"@));
        assert(first_field_of(t1.drop_first()) == Some("headers"@));
    }
    assert(first_field_of(t2) == Some("headers"@)) by {
        assert(t2[0] == TokenSpec::Root);
        assert(t2.drop_first()[0] == TokenSpec::Field("headers"@));
        assert(first_field_of(t2.drop_first()) == Some("headers"@));
    }
    lemma_field_names_differ();
    if rest.len() == 0 {
        assert(t1 =~= seq![TokenSpec::Root, TokenSpec::Field("headers"@), TokenSpec::Field(n1)]);
        assert(t2 =~= seq![TokenSpec::Root, TokenSpec::Field("headers"@), TokenSpec::Field(n2)]);
        assert(t1.last() == TokenSpec::Field(n1));
        assert(t2.last() == TokenSpec::Field(n2));
        assert(last_field_of(t1) == Some(n1));
        assert(last_field_of(t2) == Some(n2));
    } else {
        assert(t1.drop_last() =~= seq![TokenSpec::Root, TokenSpec::Field("headers"@), TokenSpec::Field(n1)]);
        assert(t2.drop_last() =~= seq![TokenSpec::Root, TokenSpec::Field("headers"@), TokenSpec::Field(n2)]);
        assert(t1.last() == rest[0]);
        assert(t2.last() == rest[0]);
        assert(last_field_of(t1.drop_last()) == Some(n1));
        assert(last_field_of(t2.drop_last()) == Some(n2));
        assert(last_field_of(t1) == Some(n1));
        assert(last_field_of(t2) == Some(n2));
    }
}

/// Every path has the stated outcome in a request: the documented shapes give their value, and
/// every other path gives the error text for its part of the request.
pub proof fn lemma_http_path_shapes(req: HttpRequest, path: DocPath)
    ensures
        ({
            let t = path.tokens();
            let n = t.len();
            let r = http_resolution(req, path);
            &&& first_field_of(t) is None ==> r == Err::<NodeView, Seq<char>>(path.expr@ + " is not valid for a HTTP request"@)
            &&& first_field_of(t) == Some("method"@) ==> r == Ok::<NodeView, Seq<char>>(NodeView::STRING(req.method@))
            &&& first_field_of(t) == Some("path"@) ==> r == Ok::<NodeView, Seq<char>>(NodeView::STRING(req.path@))
            &&& first_field_of(t) == Some("query"@) ==> (r is Ok <==> 2 <= n <= 3)
            &&& first_field_of(t) == Some("query"@) && n != 2 && n != 3 ==> r == Err::<NodeView, Seq<char>>(
                path.expr@ + " is not valid for a HTTP request query parameters"@,
            )
            &&& first_field_of(t) == Some("query"@) && n == 2 ==> r == Ok::<NodeView, Seq<char>>(
                NodeView::MMAP(query_view(req.query)),
            )
            &&& first_field_of(t) == Some("headers"@) ==> (r is Ok <==> (2 <= n <= 3 || (n == 4 && t.last() is Index)))
            &&& first_field_of(t) == Some("headers"@) && !(2 <= n <= 3 || (n == 4 && t.last() is Index)) ==> r == Err::<
                NodeView,
                Seq<char>,
            >(path.expr@ + " is not valid for HTTP request headers"@)
            &&& first_field_of(t) == Some("headers"@) && n == 2 ==> r == Ok::<NodeView, Seq<char>>(
                NodeView::MMAP(lowered(headers_view(req.headers))),
            )
            &&& first_field_of(t) == Some("content-type"@) ==> r is Ok && (r->Ok_0 is STRING || r->Ok_0 is NULL)
            &&& first_field_of(t) == Some("body"@) && n == 2 ==> r is Ok && (r->Ok_0 is BARRAY || r->Ok_0 is NULL)
            &&& (match first_field_of(t) {
                Some(f) => f != "method"@ && f != "path"@ && f != "query"@ && f != "headers"@ && f != "content-type"@
                    && (f != "body"@ || n != 2),
                None => false,
            }) ==> r == Err::<NodeView, Seq<char>>(path.expr@ + " is not valid for a HTTP request"@)
        }),
{
    lemma_field_names_differ();
}

/// A trailing wildcard on the stack's JSON document gives one value for each child: where the
/// path before `*` reaches exactly one array of at least two items, the result is an array of
/// those items, in order.
pub proof fn lemma_stack_trailing_wildcard(
    path: DocPath,
    context: PlanMatchingContext,
    j: JsonValue,
    q: Seq<TokenSpec>,
    items: Seq<JsonV>,
)
    requires
        top_of(context.value_stack@) == Some(NodeResult::VALUE(NodeValue::JSON(j))),
        path.tokens() == seq![TokenSpec::Root] + q.push(TokenSpec::Star),
        select(j@, q) == seq![JsonV::Array(items)],
        items.len() >= 2,
    ensures
        stack_resolution(path, context) == Ok::<NodeView, Seq<char>>(NodeView::JSON(JsonV::Array(items))),
{
    let t = path.tokens();
    assert(t.drop_first() =~= q.push(TokenSpec::Star));
    assert(t.len() >= 2);
    assert(t != seq![TokenSpec::Root]);
    lemma_trailing_wildcard(j@, q, JsonV::Array(items));
}

} // verus!
