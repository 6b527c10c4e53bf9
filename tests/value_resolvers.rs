use pact_matching::bodies::OptionalBody;
use pact_matching::content_types::ContentType;
use pact_matching::engine::{NodeResult, NodeValue, PlanMatchingContext};
use pact_matching::http::HttpRequest;
use pact_matching::json::{JsonNumber, JsonValue};
use pact_matching::path_exp::DocPath;
use pact_matching::value_resolvers::{CurrentStackValueResolver, HttpRequestValueResolver, ValueResolver};
use pact_matching::xml::XmlElement;

fn resolve(resolver: &HttpRequestValueResolver, path: &str) -> Result<NodeValue, String> {
    let path = DocPath::new(path).unwrap();
    resolver.resolve(&path, &PlanMatchingContext::default())
}

fn sample_request() -> HttpRequestValueResolver {
    HttpRequestValueResolver {
        request: HttpRequest {
            method: "POST".to_string(),
            path: "/items".to_string(),
            query: Some(vec![
                ("a".to_string(), vec![Some("1".to_string())]),
                ("b".to_string(), vec![Some("2".to_string()), None]),
            ]),
            headers: Some(vec![
                ("X-Token".to_string(), vec!["abc".to_string()]),
                ("Accept".to_string(), vec!["text/html".to_string(), "application/json".to_string()]),
            ]),
            body: OptionalBody::Present(b"{\"n\":1}".to_vec(), None, None),
        },
    }
}

#[test]
fn http_request_resolve_values() {
    let resolver = HttpRequestValueResolver::default();
    assert_eq!(resolve(&resolver, "$.method").unwrap(), NodeValue::STRING("GET".to_string()));
    assert_eq!(resolve(&resolver, "$.path").unwrap(), NodeValue::STRING("/".to_string()));
    assert_eq!(resolve(&resolver, "$.query").unwrap(), NodeValue::MMAP(vec![]));
    assert_eq!(resolve(&resolver, "$.headers").unwrap(), NodeValue::MMAP(vec![]));
}

#[test]
fn http_request_resolve_failures() {
    let resolver = HttpRequestValueResolver::default();
    let context = PlanMatchingContext::default();

    let path = DocPath::root();
    assert_eq!(resolver.resolve(&path, &context).unwrap_err(), "$ is not valid for a HTTP request");

    let path = DocPath::new("$.blah").unwrap();
    assert_eq!(resolver.resolve(&path, &context).unwrap_err(), "$.blah is not valid for a HTTP request");
}

#[test]
fn http_request_query_shapes() {
    let r = sample_request();
    assert_eq!(resolve(&r, "$.query.a").unwrap(), NodeValue::STRING("1".to_string()));
    assert_eq!(resolve(&r, "$.query.b").unwrap(), NodeValue::SLIST(vec!["2".to_string(), "".to_string()]));
    assert_eq!(resolve(&r, "$.query.c").unwrap(), NodeValue::NULL);
    assert_eq!(resolve(&r, "$.query.*").unwrap(), NodeValue::MMAP(vec![
        ("a".to_string(), vec!["1".to_string()]),
        ("b".to_string(), vec!["2".to_string(), "".to_string()]),
    ]));
    assert_eq!(resolve(&r, "$.query.a.b").unwrap_err(), "$.query.a.b is not valid for a HTTP request query parameters");
}

#[test]
fn http_request_header_shapes() {
    let r = sample_request();
    assert_eq!(resolve(&r, "$.headers.x-token").unwrap(), NodeValue::STRING("abc".to_string()));
    assert_eq!(resolve(&r, "$.headers.accept").unwrap(), NodeValue::SLIST(vec![
        "text/html".to_string(), "application/json".to_string(),
    ]));
    assert_eq!(resolve(&r, "$.headers.accept[1]").unwrap(), NodeValue::STRING("application/json".to_string()));
    assert_eq!(resolve(&r, "$.headers.accept[5]").unwrap(), NodeValue::NULL);
    assert_eq!(resolve(&r, "$.headers.missing").unwrap(), NodeValue::NULL);
    assert_eq!(resolve(&r, "$.headers[*]").unwrap(), NodeValue::MMAP(vec![
        ("x-token".to_string(), vec!["abc".to_string()]),
        ("accept".to_string(), vec!["text/html".to_string(), "application/json".to_string()]),
    ]));
    assert_eq!(resolve(&r, "$.headers.a.b.c").unwrap_err(), "$.headers.a.b.c is not valid for HTTP request headers");
}

#[test]
fn http_request_header_names_ignore_case() {
    let r = sample_request();
    let upper = resolve(&r, "$.headers.X-TOKEN").unwrap();
    let mixed = resolve(&r, "$.headers['x-Token']").unwrap();
    assert_eq!(upper, mixed);
    assert_eq!(upper, NodeValue::STRING("abc".to_string()));
}

#[test]
fn http_request_duplicate_header_names_later_wins() {
    let r = HttpRequestValueResolver {
        request: HttpRequest {
            headers: Some(vec![
                ("Accept".to_string(), vec!["a".to_string()]),
                ("ACCEPT".to_string(), vec!["b".to_string()]),
            ]),
            ..HttpRequest::default()
        },
    };
    assert_eq!(resolve(&r, "$.headers").unwrap(), NodeValue::MMAP(vec![("accept".to_string(), vec!["b".to_string()])]));
}

#[test]
fn http_request_content_type_and_body() {
    let r = sample_request();
    assert_eq!(resolve(&r, "$.content-type").unwrap(), NodeValue::STRING("application/json".to_string()));
    assert_eq!(resolve(&r, "$.body").unwrap(), NodeValue::BARRAY(b"{\"n\":1}".to_vec()));
    assert_eq!(resolve(&r, "$.body.n").unwrap_err(), "$.body.n is not valid for a HTTP request");
    let plain = HttpRequestValueResolver::default();
    assert_eq!(resolve(&plain, "$.content-type").unwrap(), NodeValue::NULL);
    assert_eq!(resolve(&plain, "$.body").unwrap(), NodeValue::NULL);
    let with_header = HttpRequestValueResolver {
        request: HttpRequest {
            headers: Some(vec![("Content-Type".to_string(), vec!["text/plain; charset=utf-8".to_string()])]),
            body: OptionalBody::Present(b"{}".to_vec(), None, None),
            ..HttpRequest::default()
        },
    };
    assert_eq!(resolve(&with_header, "$.content-type").unwrap(), NodeValue::STRING("text/plain;charset=utf-8".to_string()));
    let explicit = HttpRequestValueResolver {
        request: HttpRequest {
            body: OptionalBody::Present(b"{}".to_vec(), Some(ContentType::xml()), None),
            ..HttpRequest::default()
        },
    };
    assert_eq!(resolve(&explicit, "$.content-type").unwrap(), NodeValue::STRING("application/xml".to_string()));
}

fn context_with(v: Option<NodeResult>) -> PlanMatchingContext {
    let mut c = PlanMatchingContext::default();
    c.push_value(v);
    c
}

fn num(text: &str) -> JsonValue {
    JsonValue::Number(JsonNumber::parse(text).unwrap())
}

fn doc() -> JsonValue {
    JsonValue::Object(vec![
        ("a".to_string(), JsonValue::Array(vec![num("1"), num("2")])),
        ("b".to_string(), JsonValue::String("x".to_string())),
    ])
}

#[test]
fn current_stack_errors() {
    let resolver = CurrentStackValueResolver::default();
    let path = DocPath::new("$.a").unwrap();
    assert_eq!(
        resolver.resolve(&path, &PlanMatchingContext::default()).unwrap_err(),
        "Can not resolve '$.a', current value stack is either empty or contains an empty value"
    );
    assert_eq!(
        resolver.resolve(&path, &context_with(None)).unwrap_err(),
        "Can not resolve '$.a', current value stack is either empty or contains an empty value"
    );
    assert_eq!(
        resolver.resolve(&path, &context_with(Some(NodeResult::OK))).unwrap_err(),
        "Can not resolve '$.a', current value stack is either empty or contains an empty value"
    );
    assert_eq!(
        resolver.resolve(&path, &context_with(Some(NodeResult::VALUE(NodeValue::NULL)))).unwrap_err(),
        "Can not resolve '$.a', current stack value does not contain a value (is NULL)"
    );
    assert_eq!(
        resolver.resolve(&path, &context_with(Some(NodeResult::VALUE(NodeValue::STRING("s".to_string()))))).unwrap_err(),
        "Can not resolve '$.a', current stack value does not contain a value that is resolvable"
    );
}

#[test]
fn json_number_accepts_only_numbers() {
    assert_eq!(JsonNumber::parse("-1.5e3").unwrap().as_str(), "-1.5e3");
    assert!(JsonNumber::parse("1.2.3").is_none());
    assert!(JsonNumber::parse("abc").is_none());
}

#[test]
fn current_stack_error_outcome_on_top() {
    let resolver = CurrentStackValueResolver::default();
    let path = DocPath::new("$").unwrap();
    assert_eq!(
        resolver.resolve(&path, &context_with(Some(NodeResult::ERROR("boom".to_string())))).unwrap_err(),
        "Can not resolve '$', current value stack is either empty or contains an empty value"
    );
}

#[test]
fn current_stack_json_paths() {
    let resolver = CurrentStackValueResolver::default();
    let ctx = context_with(Some(NodeResult::VALUE(NodeValue::JSON(doc()))));
    let r = |p: &str| resolver.resolve(&DocPath::new(p).unwrap(), &ctx).unwrap();
    assert_eq!(r("$"), NodeValue::JSON(doc()));
    assert_eq!(r("$.b"), NodeValue::JSON(JsonValue::String("x".to_string())));
    assert_eq!(r("$.a[1]"), NodeValue::JSON(num("2")));
    assert_eq!(r("$.a[*]"), NodeValue::JSON(JsonValue::Array(vec![
        num("1"), num("2"),
    ])));
    assert_eq!(r("$.c"), NodeValue::NULL);
    assert_eq!(r("$.a[7]"), NodeValue::NULL);
}

fn element(name: &str, children: Vec<XmlElement>) -> XmlElement {
    XmlElement { name: name.to_string(), attributes: vec![], children, text: String::new() }
}

#[test]
fn current_stack_xml_paths() {
    let resolver = CurrentStackValueResolver::default();
    let root = || element("root", vec![element("item", vec![]), element("other", vec![]), element("item", vec![element("leaf", vec![])])]);
    let ctx = context_with(Some(NodeResult::VALUE(NodeValue::XML(root()))));
    let r = |p: &str| resolver.resolve(&DocPath::new(p).unwrap(), &ctx).unwrap();
    assert_eq!(r("$"), NodeValue::XML(root()));
    assert_eq!(r("$.root"), NodeValue::XML(root()));
    assert_eq!(r("$.root.other"), NodeValue::XML(element("other", vec![])));
    assert_eq!(r("$.root.item"), NodeValue::LIST(vec![
        NodeValue::XML(element("item", vec![])),
        NodeValue::XML(element("item", vec![element("leaf", vec![])])),
    ]));
    assert_eq!(r("$.root.item[1].leaf"), NodeValue::XML(element("leaf", vec![])));
    assert_eq!(r("$.root.item[1]"), NodeValue::XML(element("item", vec![element("leaf", vec![])])));
    match r("$.root.*") {
        NodeValue::LIST(items) => assert_eq!(items.len(), 3),
        other => panic!("unexpected {:?}", other),
    }
    assert_eq!(r("$.nope"), NodeValue::NULL);
}

#[test]
fn current_stack_xml_position_is_per_parent() {
    let resolver = CurrentStackValueResolver::default();
    let a = |t: &str| element("a", vec![element("b", vec![]), element(t, vec![])]);
    let root = element("root", vec![a("x"), a("y")]);
    let ctx = context_with(Some(NodeResult::VALUE(NodeValue::XML(root))));
    let r = |p: &str| resolver.resolve(&DocPath::new(p).unwrap(), &ctx).unwrap();
    assert_eq!(r("$.root.a.*[1]"), NodeValue::LIST(vec![
        NodeValue::XML(element("x", vec![])),
        NodeValue::XML(element("y", vec![])),
    ]));
    assert_eq!(r("$.root.a[1].y"), NodeValue::XML(element("y", vec![])));
    assert_eq!(r("$.root.a.*.b"), NodeValue::NULL);
}
