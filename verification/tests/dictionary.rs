use typst_mathjax::{dictionary_or_empty, load_dict, SymbolDictionary};

#[test]
fn literal_lookup_finds_strings_only() {
    let dict = load_dict(r#"{"alpha": "\\alpha", "vec": {"main": "\\mathbf"}, "n": 1, "e": ""}"#);
    assert_eq!(dict.literal("alpha"), Some("\\alpha".to_string()));
    assert_eq!(dict.literal("e"), Some(String::new()));
    assert_eq!(dict.literal("vec"), None);
    assert_eq!(dict.literal("n"), None);
    assert_eq!(dict.literal("beta"), None);
    assert_eq!(dict.literal("\\alpha"), None);
}

#[test]
fn variant_lookup_reads_nested_objects() {
    let dict = load_dict(
        r#"{"vec": {"arrow": "\\vec", "main": "\\mathbf", "deep": {"x": "y"}, "n": null}, "alpha": "a"}"#,
    );
    assert_eq!(dict.variant("vec", "arrow"), Some("\\vec".to_string()));
    assert_eq!(dict.variant("vec", "main"), Some("\\mathbf".to_string()));
    assert_eq!(dict.variant("vec", "deep"), None);
    assert_eq!(dict.variant("vec", "n"), None);
    assert_eq!(dict.variant("vec", "missing"), None);
    assert_eq!(dict.variant("alpha", "main"), None);
    assert_eq!(dict.variant("arrow", "vec"), None);
    assert_eq!(dict.variant("missing", "main"), None);
}

#[test]
fn malformed_dictionary_is_empty() {
    let dict = load_dict("{\"alpha\": ");
    assert_eq!(dict.literal("alpha"), None);
    assert_eq!(dict.variant("alpha", "main"), None);
    let dict = load_dict("");
    assert_eq!(dict.literal(""), None);
}

#[test]
fn document_that_is_no_object_binds_nothing() {
    let dict = load_dict(r#"["alpha", "beta"]"#);
    assert_eq!(dict.literal("alpha"), None);
    assert_eq!(dict.literal("0"), None);
    let dict = load_dict("\"alpha\"");
    assert_eq!(dict.literal("alpha"), None);
}

#[test]
fn empty_dictionary_binds_nothing() {
    let dict = SymbolDictionary::empty();
    assert_eq!(dict.literal("alpha"), None);
    assert_eq!(dict.variant("vec", "main"), None);
    let dict = dictionary_or_empty(None);
    assert_eq!(dict.literal("alpha"), None);
}

#[test]
fn dictionary_from_a_parsed_value() {
    let value: serde_json::Value = serde_json::from_str(r#"{"pi": "\\pi"}"#).unwrap();
    let dict = dictionary_or_empty(Some(value.clone()));
    assert_eq!(dict.literal("pi"), Some("\\pi".to_string()));
    let dict = SymbolDictionary::from_value(value);
    assert_eq!(dict.literal("pi"), Some("\\pi".to_string()));
}

#[test]
fn later_duplicate_key_wins() {
    let dict = load_dict(r#"{"a": "first", "a": "second"}"#);
    assert_eq!(dict.literal("a"), Some("second".to_string()));
}
