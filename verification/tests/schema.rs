//! Schema-model tests: document validation and the parse/serialize round
//! trip for interfaces, manifests and error files.

use everestrs::error_list::parse_error_list;
use everestrs::interface::Interface;
use everestrs::interface::parse_interface;
use everestrs::interface::serialize_interface;
use everestrs::manifest::ConfigEnum;
use everestrs::manifest::MutabilityEnum;
use everestrs::manifest::parse_config_entry;
use everestrs::manifest::parse_manifest;
use everestrs::types::NumberDefault;
use everestrs::types::SchemaErrorKind;
use everestrs::types::Type;
use everestrs::value::JsonValue;

fn s(text: &str) -> JsonValue {
    JsonValue::Str(text.to_string())
}

fn obj(entries: Vec<(&str, JsonValue)>) -> JsonValue {
    JsonValue::Obj(entries.into_iter().map(|(k, v)| (k.to_string(), v)).collect())
}

fn arr(items: Vec<JsonValue>) -> JsonValue {
    JsonValue::Arr(items)
}

fn type_doc(name: &str) -> JsonValue {
    obj(vec![("type", s(name))])
}

fn reference(r: &str) -> JsonValue {
    obj(vec![("reference", s(r))])
}

fn value_eq(a: &JsonValue, b: &JsonValue) -> bool {
    match (a, b) {
        (JsonValue::Null, JsonValue::Null) => true,
        (JsonValue::Bool(x), JsonValue::Bool(y)) => x == y,
        (JsonValue::Int(x), JsonValue::Int(y)) => x == y,
        (JsonValue::Str(x), JsonValue::Str(y)) => x == y,
        (JsonValue::Arr(x), JsonValue::Arr(y)) => {
            x.len() == y.len() && x.iter().zip(y.iter()).all(|(p, q)| value_eq(p, q))
        }
        (JsonValue::Obj(x), JsonValue::Obj(y)) => {
            x.len() == y.len()
                && x.iter().zip(y.iter()).all(|(p, q)| p.0 == q.0 && value_eq(&p.1, &q.1))
        }
        _ => false,
    }
}

fn interface_eq(a: &Interface, b: &Interface) -> bool {
    value_eq(&serialize_interface(a), &serialize_interface(b))
}

#[test]
fn test_deserialization() {
    let with_errors = obj(vec![
        (
            "description",
            s("This is an example interface used for the error framework example modules."),
        ),
        (
            "errors",
            arr(vec![
                reference("/errors/example#/ExampleErrorA"),
                reference("/errors/example#/ExampleErrorB"),
                reference("/errors/example#/ExampleErrorC"),
                reference("/errors/example#/ExampleErrorD"),
            ]),
        ),
    ]);
    let parsed = parse_interface(&with_errors).unwrap();
    assert_eq!(parsed.errors.len(), 4);
    assert_eq!(parsed.errors[0].reference, "/errors/example#/ExampleErrorA");

    let minimal = obj(vec![("description", s("Nothing here."))]);
    let parsed = parse_interface(&minimal).unwrap();
    assert_eq!(parsed.description, "Nothing here.");
    assert!(parsed.cmds.is_empty());
    assert!(parsed.vars.is_empty());
    assert!(parsed.errors.is_empty());
}

#[test]
fn interface_round_trip() {
    let doc = obj(vec![
        ("description", s("power meter")),
        (
            "cmds",
            obj(vec![
                (
                    "start_transaction",
                    obj(vec![
                        ("description", s("begin a transaction")),
                        ("arguments", obj(vec![("id", type_doc("string"))])),
                        ("result", type_doc("boolean")),
                    ]),
                ),
                (
                    "stop_transaction",
                    obj(vec![("description", s("end a transaction")), ("result", JsonValue::Null)]),
                ),
            ]),
        ),
        ("vars", obj(vec![("powermeter", type_doc("object"))])),
        ("errors", arr(vec![reference("/errors/powermeter#/CommunicationFault")])),
    ]);
    let first = parse_interface(&doc).unwrap();
    let serialized = serialize_interface(&first);
    let second = parse_interface(&serialized).unwrap();
    assert!(interface_eq(&first, &second));
    assert_eq!(second.cmds.len(), 2);
    assert_eq!(second.cmds[0].0, "start_transaction");
    assert_eq!(second.cmds[0].1.arguments[0].1, Type::String);
    assert_eq!(second.cmds[0].1.result, Some(Type::Boolean));
    assert_eq!(second.cmds[1].1.result, None);
}

#[test]
fn interface_rejects_unknown_and_duplicate() {
    let unknown = obj(vec![("description", s("x")), ("commands", obj(vec![]))]);
    let e = parse_interface(&unknown).unwrap_err();
    assert_eq!(e.kind, SchemaErrorKind::UnknownField);
    assert_eq!(e.path, "commands");

    let missing = obj(vec![("cmds", obj(vec![]))]);
    let e = parse_interface(&missing).unwrap_err();
    assert_eq!(e.kind, SchemaErrorKind::MissingField);
    assert_eq!(e.path, "description");

    let dup = obj(vec![
        ("description", s("x")),
        (
            "vars",
            obj(vec![("v", type_doc("integer")), ("v", type_doc("string"))]),
        ),
    ]);
    let e = parse_interface(&dup).unwrap_err();
    assert_eq!(e.kind, SchemaErrorKind::DuplicateName);
    assert_eq!(e.path, "v");
}

fn minimal_manifest_entries() -> Vec<(&'static str, JsonValue)> {
    vec![
        (
            "metadata",
            obj(vec![("license", s("Apache-2.0")), ("authors", arr(vec![s("somebody")]))]),
        ),
        (
            "provides",
            obj(vec![(
                "main",
                obj(vec![("interface", s("example")), ("description", s("the implementation"))]),
            )]),
        ),
        ("enable_external_mqtt", JsonValue::Bool(false)),
    ]
}

#[test]
fn manifest_minimal_defaults() {
    let doc = obj(minimal_manifest_entries());
    let m = parse_manifest(&doc).unwrap();
    assert_eq!(m.description, "");
    assert_eq!(m.metadata.license, "Apache-2.0");
    assert_eq!(m.metadata.authors, vec!["somebody".to_string()]);
    assert_eq!(m.provides.len(), 1);
    assert_eq!(m.provides[0].0, "main");
    assert_eq!(m.provides[0].1.interface, "example");
    assert!(m.requires.is_empty());
    assert!(!m.enable_telemetry);
    assert!(m.config.is_empty());
    assert!(m.capabilities.is_empty());
    assert!(!m.enable_global_errors);
}

#[test]
fn manifest_full_document() {
    let mut entries = minimal_manifest_entries();
    entries.push(("description", s("an example module")));
    entries.push((
        "requires",
        obj(vec![(
            "their_example",
            obj(vec![
                ("interface", s("example")),
                ("min_connections", JsonValue::Int(1)),
                ("max_connections", JsonValue::Int(2)),
                (
                    "ignore",
                    obj(vec![
                        ("vars", arr(vec![s("max_current"), s("max_current")])),
                        ("errors", JsonValue::Bool(true)),
                    ]),
                ),
            ]),
        )]),
    ));
    entries.push((
        "config",
        obj(vec![(
            "current",
            obj(vec![("type", s("integer")), ("default", JsonValue::Int(7))]),
        )]),
    ));
    entries.push(("capabilities", arr(vec![s("CAP_NET_ADMIN")])));
    entries.push(("enable_telemetry", JsonValue::Bool(true)));
    entries.push(("enable_global_errors", JsonValue::Bool(true)));
    let m = parse_manifest(&obj(entries)).unwrap();
    assert_eq!(m.description, "an example module");
    assert_eq!(m.requires.len(), 1);
    let req = &m.requires[0].1;
    assert_eq!(req.interface, "example");
    assert_eq!(req.min_connections, Some(1));
    assert_eq!(req.max_connections, Some(2));
    // the ignore variable set keeps one copy of a repeated name
    assert_eq!(req.ignore.vars, vec!["max_current".to_string()]);
    assert!(req.ignore.errors);
    assert_eq!(m.config.len(), 1);
    match &m.config[0].1.value {
        ConfigEnum::Integer(o) => assert_eq!(o.default, Some(7)),
        _ => panic!("expected an integer config value"),
    }
    assert_eq!(m.capabilities, vec!["CAP_NET_ADMIN".to_string()]);
    assert!(m.enable_telemetry);
    assert!(m.enable_global_errors);
}

#[test]
fn manifest_rejects_bad_documents() {
    // unknown field
    let mut entries = minimal_manifest_entries();
    entries.push(("unknown_flag", JsonValue::Bool(true)));
    let e = parse_manifest(&obj(entries)).unwrap_err();
    assert_eq!(e.kind, SchemaErrorKind::UnknownField);
    assert_eq!(e.path, "unknown_flag");

    // missing metadata
    let doc = obj(vec![
        (
            "provides",
            obj(vec![(
                "main",
                obj(vec![("interface", s("example")), ("description", s("x"))]),
            )]),
        ),
        ("enable_external_mqtt", JsonValue::Bool(false)),
    ]);
    let e = parse_manifest(&doc).unwrap_err();
    assert_eq!(e.kind, SchemaErrorKind::MissingField);
    assert_eq!(e.path, "metadata");

    // a provides entry without its interface names the missing field
    let doc = obj(vec![
        (
            "metadata",
            obj(vec![("license", s("MIT")), ("authors", arr(vec![s("a")]))]),
        ),
        ("provides", obj(vec![("main", obj(vec![("description", s("x"))]))])),
        ("enable_external_mqtt", JsonValue::Bool(false)),
    ]);
    let e = parse_manifest(&doc).unwrap_err();
    assert_eq!(e.kind, SchemaErrorKind::MissingField);
    assert_eq!(e.path, "interface");

    // connection bounds out of order
    let mut entries = minimal_manifest_entries();
    entries.push((
        "requires",
        obj(vec![(
            "r",
            obj(vec![
                ("interface", s("example")),
                ("min_connections", JsonValue::Int(3)),
                ("max_connections", JsonValue::Int(1)),
            ]),
        )]),
    ));
    let e = parse_manifest(&obj(entries)).unwrap_err();
    assert_eq!(e.kind, SchemaErrorKind::InvalidBounds);

    // duplicate implementation id
    let doc = obj(vec![
        (
            "metadata",
            obj(vec![("license", s("MIT")), ("authors", arr(vec![s("a")]))]),
        ),
        (
            "provides",
            obj(vec![
                ("main", obj(vec![("interface", s("example")), ("description", s("x"))])),
                ("main", obj(vec![("interface", s("other")), ("description", s("y"))])),
            ]),
        ),
        ("enable_external_mqtt", JsonValue::Bool(false)),
    ]);
    let e = parse_manifest(&doc).unwrap_err();
    assert_eq!(e.kind, SchemaErrorKind::DuplicateName);
}

#[test]
fn config_entry_kinds() {
    let b = parse_config_entry(&obj(vec![
        ("type", s("boolean")),
        ("default", JsonValue::Bool(true)),
        ("mutability", s("ReadWrite")),
    ]))
    .unwrap();
    match b.value {
        ConfigEnum::Boolean(o) => assert_eq!(o.default, Some(true)),
        _ => panic!("expected a boolean config value"),
    }
    assert_eq!(b.mutability, MutabilityEnum::ReadWrite);

    let st = parse_config_entry(&obj(vec![
        ("type", s("string")),
        ("default", s("on")),
        ("description", s("a mode")),
    ]))
    .unwrap();
    match st.value {
        ConfigEnum::String(o) => assert_eq!(o.default, Some("on".to_string())),
        _ => panic!("expected a string config value"),
    }
    assert_eq!(st.mutability, MutabilityEnum::ReadOnly);
    assert_eq!(st.description, Some("a mode".to_string()));

    let n = parse_config_entry(&obj(vec![("type", s("number"))])).unwrap();
    match n.value {
        ConfigEnum::Number(o) => assert!(o.default.is_none()),
        _ => panic!("expected a number config value"),
    }

    // a numeric default is carried as the document held it
    let n = parse_config_entry(&obj(vec![("type", s("number")), ("default", JsonValue::Int(1))]))
        .unwrap();
    match n.value {
        ConfigEnum::Number(o) => assert!(matches!(o.default, Some(NumberDefault::Integer(1)))),
        _ => panic!("expected a number config value"),
    }
    let n = parse_config_entry(&obj(vec![
        ("type", s("number")),
        ("default", JsonValue::Num("3.14".to_string())),
    ]))
    .unwrap();
    match n.value {
        ConfigEnum::Number(o) => {
            assert!(matches!(o.default, Some(NumberDefault::Literal(ref x)) if x == "3.14"))
        }
        _ => panic!("expected a number config value"),
    }
    let e = parse_config_entry(&obj(vec![("type", s("number")), ("default", s("fast"))]))
        .unwrap_err();
    assert_eq!(e.kind, SchemaErrorKind::InvalidField);

    let e = parse_config_entry(&obj(vec![("type", s("boolean")), ("mutability", s("Fixed"))]))
        .unwrap_err();
    assert_eq!(e.kind, SchemaErrorKind::InvalidField);
}

#[test]
fn interface_rejects_a_malformed_reference() {
    let doc = obj(vec![("description", s("x")), ("errors", arr(vec![reference("X")]))]);
    let e = parse_interface(&doc).unwrap_err();
    assert_eq!(e.kind, SchemaErrorKind::MalformedReference);
    assert_eq!(e.path, "X");

    // a separator without a file path, or without a name, is as malformed
    let e = parse_interface(&obj(vec![
        ("description", s("x")),
        ("errors", arr(vec![reference("#/Name")])),
    ]))
    .unwrap_err();
    assert_eq!(e.kind, SchemaErrorKind::MalformedReference);
    let e = parse_interface(&obj(vec![
        ("description", s("x")),
        ("errors", arr(vec![reference("/errors/example#/")])),
    ]))
    .unwrap_err();
    assert_eq!(e.kind, SchemaErrorKind::MalformedReference);
}

#[test]
fn error_file_documents() {
    let doc = obj(vec![
        ("description", s("example errors")),
        (
            "errors",
            arr(vec![
                obj(vec![("name", s("ExampleErrorA")), ("description", s("the first"))]),
                obj(vec![("name", s("ExampleErrorB")), ("description", s("the second"))]),
            ]),
        ),
    ]);
    let el = parse_error_list(&doc).unwrap();
    assert_eq!(el.description, "example errors");
    assert_eq!(el.errors.len(), 2);
    assert_eq!(el.errors[0].name, "ExampleErrorA");

    let dup = obj(vec![(
        "errors",
        arr(vec![
            obj(vec![("name", s("E")), ("description", s("one"))]),
            obj(vec![("name", s("E")), ("description", s("two"))]),
        ]),
    )]);
    let e = parse_error_list(&dup).unwrap_err();
    assert_eq!(e.kind, SchemaErrorKind::DuplicateName);
}
