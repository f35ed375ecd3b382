use cdp_client::json::Json;
use cdp_client::load::{parse_decl, parse_decls};

fn obj(fields: Vec<(&str, Json)>) -> Json {
    Json::Obj(
        fields
            .into_iter()
            .map(|(k, v)| (k.to_string(), v))
            .collect(),
    )
}

#[test]
fn loads_a_scalar_parameter_declaration() {
    let d = parse_decl(obj(vec![
        ("name", Json::Str("x".to_string())),
        ("type", Json::Str("integer".to_string())),
        ("optional", Json::Bool(true)),
    ]))
    .unwrap();
    assert_eq!(d.name.as_deref(), Some("x"));
    assert_eq!(d.kind.as_deref(), Some("integer"));
    assert_eq!(d.optional, Some(true));
    assert_eq!(d.reference, None);
    assert!(d.items.is_none());
    assert!(d.properties.is_none());
}

#[test]
fn loads_nested_items_and_properties() {
    let d = parse_decl(obj(vec![
        ("id", Json::Str("Node".to_string())),
        (
            "properties",
            Json::Arr(vec![obj(vec![
                ("name", Json::Str("children".to_string())),
                ("type", Json::Str("array".to_string())),
                (
                    "items",
                    obj(vec![("$ref", Json::Str("Node".to_string()))]),
                ),
            ])]),
        ),
    ]))
    .unwrap();
    let props = d.properties.unwrap();
    assert_eq!(props.len(), 1);
    let child = &props[0];
    assert_eq!(child.name.as_deref(), Some("children"));
    let items = child.items.as_ref().unwrap();
    assert_eq!(items.reference.as_deref(), Some("Node"));
}

#[test]
fn loads_enumeration_values() {
    let d = parse_decl(obj(vec![
        ("id", Json::Str("Mode".to_string())),
        (
            "enum",
            Json::Arr(vec![
                Json::Str("top-level".to_string()),
                Json::Str("plain".to_string()),
            ]),
        ),
    ]))
    .unwrap();
    assert_eq!(d.enum_values, Some(vec!["top-level".to_string(), "plain".to_string()]));
}

#[test]
fn null_members_mean_not_declared() {
    let d = parse_decl(obj(vec![
        ("name", Json::Str("x".to_string())),
        ("type", Json::Null),
        ("optional", Json::Null),
        ("items", Json::Null),
    ]))
    .unwrap();
    assert_eq!(d.kind, None);
    assert_eq!(d.optional, None);
    assert!(d.items.is_none());
}

#[test]
fn mistyped_members_refuse_to_load() {
    // A numeric name.
    assert!(parse_decl(obj(vec![("name", Json::Int(5))])).is_err());
    // A string where a boolean belongs.
    assert!(parse_decl(obj(vec![("optional", Json::Str("yes".to_string()))])).is_err());
    // A non-string enumeration value.
    assert!(parse_decl(obj(vec![("enum", Json::Arr(vec![Json::Int(1)]))])).is_err());
    // A non-object declaration.
    assert!(parse_decl(Json::Str("Node".to_string())).is_err());
}

#[test]
fn a_bad_element_fails_the_whole_list() {
    let good = obj(vec![("name", Json::Str("a".to_string()))]);
    let bad = obj(vec![("name", Json::Int(1))]);
    assert!(parse_decls(vec![good, bad]).is_err());
    let good1 = obj(vec![("name", Json::Str("a".to_string()))]);
    let good2 = obj(vec![("name", Json::Str("b".to_string()))]);
    let ds = parse_decls(vec![good1, good2]).unwrap();
    assert_eq!(ds.len(), 2);
    assert_eq!(ds[1].name.as_deref(), Some("b"));
}

#[test]
fn loads_a_whole_schema_document() {
    let doc = cdp_client::load::parse_document(obj(vec![(
        "domains",
        Json::Arr(vec![obj(vec![
            ("domain", Json::Str("Foo".to_string())),
            (
                "commands",
                Json::Arr(vec![obj(vec![
                    ("name", Json::Str("bar".to_string())),
                    (
                        "parameters",
                        Json::Arr(vec![obj(vec![
                            ("name", Json::Str("x".to_string())),
                            ("type", Json::Str("integer".to_string())),
                            ("optional", Json::Bool(true)),
                        ])]),
                    ),
                ])]),
            ),
            (
                "events",
                Json::Arr(vec![obj(vec![("name", Json::Str("baz".to_string()))])]),
            ),
        ])]),
    )]))
    .unwrap();
    assert_eq!(doc.domains.len(), 1);
    let d = &doc.domains[0];
    assert_eq!(d.name, "Foo");
    assert_eq!(d.commands.len(), 1);
    assert_eq!(d.commands[0].name, "bar");
    let ps = d.commands[0].parameters.as_ref().unwrap();
    assert_eq!(ps[0].name.as_deref(), Some("x"));
    assert_eq!(ps[0].optional, Some(true));
    let evs = d.events.as_ref().unwrap();
    assert_eq!(evs[0].name, "baz");
    assert!(evs[0].parameters.is_none());
}

#[test]
fn document_without_domains_refuses_to_load() {
    assert!(cdp_client::load::parse_document(obj(vec![])).is_err());
    assert!(cdp_client::load::parse_document(Json::Arr(vec![])).is_err());
    // A domain without a command list is malformed.
    assert!(cdp_client::load::parse_document(obj(vec![(
        "domains",
        Json::Arr(vec![obj(vec![("domain", Json::Str("Foo".to_string()))])])
    )]))
    .is_err());
}
