use pact_matching::content_types::ContentType;
use pact_matching::path_exp::{DocPath, PathToken};

#[test]
fn doc_path_parses_all_token_kinds() {
    let p = DocPath::new("$.a['b c'][2].*[*]").unwrap();
    assert_eq!(p.path_tokens, vec![
        PathToken::Root,
        PathToken::Field("a".to_string()),
        PathToken::Field("b c".to_string()),
        PathToken::Index(2),
        PathToken::Star,
        PathToken::Star,
    ]);
    assert_eq!(p.expr, "$.a['b c'][2].*[*]");
    assert_eq!(p.len(), 6);
    assert!(p.is_wildcard());
    assert_eq!(p.first_field(), Some("a"));
    assert_eq!(p.last_field(), Some("b c"));
    assert!(DocPath::root().is_root());
    assert!(!p.is_root());
}

#[test]
fn doc_path_rejects_bad_expressions() {
    for bad in ["", "a.b", "$.", "$[x]", "$['a'", "$[1", "$a", "$[99999999999999999999999]"] {
        assert_eq!(DocPath::new(bad).unwrap_err(), format!("\"{}\" is not a valid path expression", bad));
    }
}

#[test]
fn content_type_parses_parts() {
    let c = ContentType::parse(" Application/VND.api+JSON ; Charset = UTF-8 ;; q=1").unwrap();
    assert_eq!(c.main_type, "application");
    assert_eq!(c.sub_type, "vnd.api");
    assert_eq!(c.suffix, Some("json".to_string()));
    assert_eq!(c.attributes, vec![("charset".to_string(), "UTF-8".to_string()), ("q".to_string(), "1".to_string())]);
    assert_eq!(c.to_string(), "application/vnd.api+json;charset=UTF-8;q=1");
}

#[test]
fn content_type_rejects_bad_text() {
    for bad in ["", "text", "/plain", "text/", "a/b/c", "text/plain; novalue"] {
        assert_eq!(ContentType::parse(bad).unwrap_err(), format!("'{}' is not a valid content type", bad));
    }
}

#[test]
fn content_type_sniffing() {
    assert_eq!(ContentType::sniff(&b" \n[1]".to_vec()).to_string(), "application/json");
    assert_eq!(ContentType::sniff(&b"{}".to_vec()).to_string(), "application/json");
    assert_eq!(ContentType::sniff(&b"<a/>".to_vec()).to_string(), "application/xml");
    assert_eq!(ContentType::sniff(&b"hello".to_vec()).to_string(), "text/plain");
    assert_eq!(ContentType::sniff(&vec![]).to_string(), "text/plain");
}
