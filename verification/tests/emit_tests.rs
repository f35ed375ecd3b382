use cdp_client::emit::{emit_protocol, event_tags};
use cdp_client::json::to_text;
use cdp_client::json::Json;
use cdp_client::schema::{Command, Domain, Event, SchemaDocument, TypeDecl};

fn bare_decl() -> TypeDecl {
    TypeDecl {
        id: None,
        kind: None,
        optional: None,
        reference: None,
        items: None,
        enum_values: None,
        description: None,
        name: None,
        properties: None,
    }
}

fn scalar_param(name: &str, kind: &str, optional: bool) -> TypeDecl {
    TypeDecl {
        name: Some(name.to_string()),
        kind: Some(kind.to_string()),
        optional: if optional { Some(true) } else { None },
        ..bare_decl()
    }
}

/// Domain `Foo` with command `bar` (one optional integer parameter `x`, no
/// returns) and the payload-less event `baz`.
fn foo_domain() -> Domain {
    Domain {
        name: "Foo".to_string(),
        commands: vec![Command {
            name: "bar".to_string(),
            description: Some("Does the thing.".to_string()),
            parameters: Some(vec![scalar_param("x", "integer", true)]),
            returns: None,
        }],
        events: Some(vec![Event {
            name: "baz".to_string(),
            description: None,
            parameters: None,
        }]),
        types: None,
    }
}

fn doc(domains: Vec<Domain>) -> SchemaDocument {
    SchemaDocument { domains }
}

#[test]
fn generation_is_deterministic() {
    let a = emit_protocol(&doc(vec![foo_domain()])).unwrap();
    let b = emit_protocol(&doc(vec![foo_domain()])).unwrap();
    assert_eq!(a, b);
}

#[test]
fn recursive_named_type_is_boxed() {
    let node = TypeDecl {
        id: Some("Node".to_string()),
        properties: Some(vec![
            TypeDecl {
                name: Some("parent".to_string()),
                reference: Some("Node".to_string()),
                optional: Some(true),
                ..bare_decl()
            },
            TypeDecl {
                name: Some("children".to_string()),
                kind: Some("array".to_string()),
                items: Some(Box::new(TypeDecl {
                    reference: Some("Node".to_string()),
                    ..bare_decl()
                })),
                optional: Some(true),
                ..bare_decl()
            },
        ]),
        ..bare_decl()
    };
    let d = Domain {
        name: "DOM".to_string(),
        commands: vec![],
        events: None,
        types: Some(vec![node]),
    };
    let out = emit_protocol(&doc(vec![d])).unwrap();
    // The direct self-reference is heap-boxed; the one through an optional
    // array is already finite.
    assert!(out.contains("pub _parent: Option<Box<Node>>,"));
    assert!(out.contains("pub _children: Option<Vec<Node>>,"));
    assert!(!out.contains("pub _parent: Option<Node>,"));
}

#[test]
fn optional_parameter_gets_skip_attribute() {
    let out = emit_protocol(&doc(vec![foo_domain()])).unwrap();
    assert!(out.contains("#[serde(rename = \"x\")]"));
    assert!(out.contains("#[serde(skip_serializing_if = \"Option::is_none\")]"));
    assert!(out.contains("_x: Option<i64>,"));
}

#[test]
fn required_parameter_has_no_skip_attribute() {
    let mut d = foo_domain();
    d.commands[0].parameters = Some(vec![scalar_param("x", "integer", false)]);
    let out = emit_protocol(&doc(vec![d])).unwrap();
    assert!(!out.contains("skip_serializing_if"));
    assert!(out.contains("_x: i64,"));
}

#[test]
fn paramless_event_uses_permissive_decode_path() {
    let out = emit_protocol(&doc(vec![foo_domain()])).unwrap();
    assert!(out.contains("#[serde(rename = \"Foo.baz\")]"));
    assert!(out.contains("#[serde(deserialize_with=\"deserialize_unit_enum\")]"));
    assert!(out.contains("    Foo_baz,"));
}

#[test]
fn enumeration_keeps_exact_wire_strings() {
    let palette = TypeDecl {
        id: Some("Mode".to_string()),
        enum_values: Some(vec!["top-level".to_string(), "plain".to_string()]),
        ..bare_decl()
    };
    let d = Domain {
        name: "Foo".to_string(),
        commands: vec![],
        events: None,
        types: Some(vec![palette]),
    };
    let out = emit_protocol(&doc(vec![d])).unwrap();
    assert!(out.contains("pub enum Mode {"));
    // The wire string is preserved exactly, the identifier is mangled.
    assert!(out.contains("#[serde(rename = \"top-level\")]"));
    assert!(out.contains("_top_level,"));
    assert!(out.contains("#[serde(rename = \"plain\")]"));
    assert!(out.contains("_plain,"));
}

#[test]
fn alias_resolves_or_falls_back_to_opaque_json() {
    let loose = TypeDecl {
        id: Some("Loose".to_string()),
        ..bare_decl()
    };
    let exact = TypeDecl {
        id: Some("Count".to_string()),
        kind: Some("integer".to_string()),
        ..bare_decl()
    };
    let d = Domain {
        name: "Foo".to_string(),
        commands: vec![],
        events: None,
        types: Some(vec![loose, exact]),
    };
    let out = emit_protocol(&doc(vec![d])).unwrap();
    assert!(out.contains("pub type Loose = JsonValue;"));
    assert!(out.contains("pub type Count = i64;"));
}

#[test]
fn absolute_reference_is_qualified_across_domains() {
    let holder = TypeDecl {
        id: Some("Holder".to_string()),
        properties: Some(vec![TypeDecl {
            name: Some("node".to_string()),
            reference: Some("DOM.Node".to_string()),
            ..bare_decl()
        }]),
        ..bare_decl()
    };
    let d = Domain {
        name: "Page".to_string(),
        commands: vec![],
        events: None,
        types: Some(vec![holder]),
    };
    let out = emit_protocol(&doc(vec![d])).unwrap();
    assert!(out.contains("pub _node: super::DOM::Node,"));
}

#[test]
fn command_with_returns_gets_wrapper_type() {
    let mut d = foo_domain();
    d.commands[0].returns = Some(vec![scalar_param("root", "string", false)]);
    let out = emit_protocol(&doc(vec![d])).unwrap();
    assert!(out.contains("pub struct ReturnType_bar {"));
    assert!(out.contains("pub root: String,"));
    assert!(out.contains(") -> Result<ReturnType_bar, ClientError>"));
}

#[test]
fn command_without_returns_uses_nothing_sentinel() {
    let out = emit_protocol(&doc(vec![foo_domain()])).unwrap();
    assert!(out.contains(") -> Result<Nothing, ClientError>"));
    assert!(out.contains("self.call(\"Foo.bar\", Request_bar {_x})"));
}

#[test]
fn type_without_identifier_is_fatal() {
    let anon = TypeDecl {
        enum_values: Some(vec!["a".to_string()]),
        ..bare_decl()
    };
    let d = Domain {
        name: "Foo".to_string(),
        commands: vec![],
        events: None,
        types: Some(vec![anon]),
    };
    assert!(emit_protocol(&doc(vec![d])).is_err());
}

#[test]
fn nameless_parameter_is_fatal() {
    let mut d = foo_domain();
    d.commands[0].parameters = Some(vec![TypeDecl {
        kind: Some("integer".to_string()),
        ..bare_decl()
    }]);
    assert!(emit_protocol(&doc(vec![d])).is_err());
}

#[test]
fn unresolvable_return_type_is_fatal() {
    let mut d = foo_domain();
    d.commands[0].returns = Some(vec![TypeDecl {
        name: Some("root".to_string()),
        kind: Some("mystery".to_string()),
        ..bare_decl()
    }]);
    assert!(emit_protocol(&doc(vec![d])).is_err());
}

#[test]
fn unresolvable_property_is_silently_dropped() {
    let holder = TypeDecl {
        id: Some("Holder".to_string()),
        properties: Some(vec![
            TypeDecl {
                name: Some("ghostly".to_string()),
                kind: Some("mystery".to_string()),
                ..bare_decl()
            },
            scalar_param("solid", "boolean", false),
        ]),
        ..bare_decl()
    };
    let d = Domain {
        name: "Foo".to_string(),
        commands: vec![],
        events: None,
        types: Some(vec![holder]),
    };
    let out = emit_protocol(&doc(vec![d])).unwrap();
    assert!(!out.contains("ghostly"));
    assert!(out.contains("pub _solid: bool,"));
}

#[test]
fn event_parameter_named_type_is_renamed() {
    let mut d = foo_domain();
    d.events = Some(vec![Event {
        name: "shadow".to_string(),
        description: None,
        parameters: Some(vec![scalar_param("type", "string", false)]),
    }]);
    let out = emit_protocol(&doc(vec![d])).unwrap();
    assert!(out.contains("#[serde(rename = \"type\")]"));
    assert!(out.contains("        _type: String,"));
}

#[test]
fn event_relative_reference_resolves_in_its_own_domain() {
    let mut d = foo_domain();
    d.types = Some(vec![TypeDecl {
        id: Some("Frame".to_string()),
        kind: Some("string".to_string()),
        ..bare_decl()
    }]);
    d.events = Some(vec![Event {
        name: "moved".to_string(),
        description: None,
        parameters: Some(vec![TypeDecl {
            name: Some("frame".to_string()),
            reference: Some("Frame".to_string()),
            ..bare_decl()
        }]),
    }]);
    let out = emit_protocol(&doc(vec![d])).unwrap();
    assert!(out.contains("frame: Foo::Frame,"));
}

#[test]
fn event_tag_table_spans_all_domains_in_order() {
    let mut other = foo_domain();
    other.name = "Net".to_string();
    other.events = Some(vec![
        Event {
            name: "sent".to_string(),
            description: None,
            parameters: None,
        },
        Event {
            name: "done".to_string(),
            description: None,
            parameters: None,
        },
    ]);
    let tags = event_tags(&doc(vec![foo_domain(), other]));
    assert_eq!(tags, vec!["Foo.baz", "Net.sent", "Net.done"]);
}

#[test]
fn serializer_renders_nested_values_exactly() {
    let v = Json::Obj(vec![
        ("a".to_string(), Json::Arr(vec![Json::Int(-3), Json::Null, Json::Bool(true)])),
        ("b \"q\"".to_string(), Json::Str("line\nbreak\u{1}".to_string())),
    ]);
    assert_eq!(
        to_text(&v),
        "{\"a\":[-3,null,true],\"b \\\"q\\\"\":\"line\\nbreak\\u0001\"}"
    );
}
