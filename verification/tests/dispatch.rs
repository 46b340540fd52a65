//! Dispatcher tests: the command registry, the registration-before-readiness
//! discipline, argument demarshaling and call routing.

use everestrs::Error;
use everestrs::JsonBlob;
use everestrs::dispatch::GenericModule;
use everestrs::dispatch::RegistrationTracker;
use everestrs::dispatch::demarshal_arguments;
use everestrs::dispatch::dispatch_call;
use everestrs::interface::parse_interface;
use everestrs::manifest::MutabilityEnum;
use everestrs::manifest::parse_manifest;
use everestrs::registry::Registration;
use everestrs::registry::build_registry;
use everestrs::types::SchemaErrorKind;
use everestrs::types::Type;
use everestrs::value::JsonValue;

fn s(text: &str) -> JsonValue {
    JsonValue::Str(text.to_string())
}

fn obj(entries: Vec<(&str, JsonValue)>) -> JsonValue {
    JsonValue::Obj(entries.into_iter().map(|(k, v)| (k.to_string(), v)).collect())
}

fn arr(items: Vec<JsonValue>) -> JsonValue {
    JsonValue::Arr(items)
}

fn type_doc(name: &str) -> JsonValue {
    obj(vec![("type", s(name))])
}

fn example_interface(cmds: Vec<(&str, JsonValue)>) -> everestrs::interface::Interface {
    parse_interface(&obj(vec![("description", s("test interface")), ("cmds", obj(cmds))])).unwrap()
}

fn example_manifest(provides: Vec<(&str, &str)>) -> everestrs::manifest::Manifest {
    let entries = provides
        .into_iter()
        .map(|(id, itf)| {
            (id, obj(vec![("interface", s(itf)), ("description", s("an implementation"))]))
        })
        .collect();
    parse_manifest(&obj(vec![
        (
            "metadata",
            obj(vec![("license", s("MIT")), ("authors", arr(vec![s("a")]))]),
        ),
        ("provides", obj(entries)),
        ("enable_external_mqtt", JsonValue::Bool(false)),
    ]))
    .unwrap()
}

fn two_implementation_registry() -> Vec<Registration> {
    let power = example_interface(vec![(
        "uses_something",
        obj(vec![
            ("description", s("query")),
            ("arguments", obj(vec![("key", type_doc("string"))])),
            ("result", type_doc("boolean")),
        ]),
    )]);
    let meter = example_interface(vec![
        (
            "start",
            obj(vec![
                ("description", s("begin")),
                ("arguments", obj(vec![("id", type_doc("string"))])),
                ("result", type_doc("object")),
            ]),
        ),
        ("stop", obj(vec![("description", s("end")), ("result", JsonValue::Null)])),
    ]);
    let interfaces = vec![("power".to_string(), power), ("meter".to_string(), meter)];
    let manifest = example_manifest(vec![("main", "power"), ("aux", "meter")]);
    build_registry(&manifest, &interfaces).unwrap()
}

#[test]
fn registry_covers_every_provided_command() {
    let regs = two_implementation_registry();
    let keys: Vec<(String, String)> =
        regs.iter().map(|r| (r.implementation_id.clone(), r.name.clone())).collect();
    assert_eq!(
        keys,
        vec![
            ("main".to_string(), "uses_something".to_string()),
            ("aux".to_string(), "start".to_string()),
            ("aux".to_string(), "stop".to_string()),
        ]
    );
    assert_eq!(regs[0].arguments, vec![("key".to_string(), Type::String)]);
    assert_eq!(regs[0].result, Some(Type::Boolean));
    assert_eq!(regs[2].result, None);
}

#[test]
fn registry_fails_on_an_unknown_interface() {
    let interfaces = vec![("power".to_string(), example_interface(vec![]))];
    let manifest = example_manifest(vec![("main", "missing")]);
    let e = build_registry(&manifest, &interfaces).unwrap_err();
    assert_eq!(e.kind, SchemaErrorKind::UnresolvedReference);
    assert_eq!(e.path, "missing");
}

#[test]
fn registration_completes_before_readiness() {
    let regs = two_implementation_registry();
    let total = regs.len();
    let mut tracker = RegistrationTracker::new(regs);

    // nothing may be delivered before its own registration returns
    assert!(!tracker.may_deliver("main", "uses_something"));
    assert!(!tracker.may_deliver("aux", "stop"));

    let mut observed: usize = 0;
    while let Some(next) = tracker.pending() {
        let implementation_id = next.implementation_id.clone();
        let name = next.name.clone();
        assert!(!tracker.may_deliver(&implementation_id, &name));
        tracker.mark_registered();
        observed += 1;
        assert!(tracker.may_deliver(&implementation_id, &name));
    }
    // all registrations are observed to complete before readiness
    assert_eq!(observed, total);
    tracker.signal_ready();
    assert!(tracker.ready);
    assert!(tracker.may_deliver("main", "uses_something"));
    assert!(tracker.may_deliver("aux", "start"));
    assert!(tracker.may_deliver("aux", "stop"));
    assert!(!tracker.may_deliver("main", "stop"));
}

#[test]
fn demarshal_checks_presence_and_shape() {
    let decl = vec![("key".to_string(), Type::String), ("count".to_string(), Type::Integer)];

    let good = vec![
        ("count".to_string(), JsonValue::Int(3)),
        ("key".to_string(), s("abc")),
        ("extra".to_string(), JsonValue::Bool(true)),
    ];
    let args = demarshal_arguments(&decl, &good).unwrap();
    assert_eq!(args.len(), 2);
    assert_eq!(args[0].0, "key");
    assert!(matches!(args[0].1, JsonValue::Str(ref x) if x == "abc"));
    assert_eq!(args[1].0, "count");
    assert!(matches!(args[1].1, JsonValue::Int(3)));

    let missing = vec![("count".to_string(), JsonValue::Int(3))];
    match demarshal_arguments(&decl, &missing).unwrap_err() {
        Error::MissingArgument(n) => assert_eq!(n, "key"),
        other => panic!("expected a missing argument, got {other:?}"),
    }

    let invalid = vec![
        ("key".to_string(), JsonValue::Int(9)),
        ("count".to_string(), JsonValue::Int(3)),
    ];
    match demarshal_arguments(&decl, &invalid).unwrap_err() {
        Error::InvalidArgument(n) => assert_eq!(n, "key"),
        other => panic!("expected an invalid argument, got {other:?}"),
    }
}

#[test]
fn number_arguments_take_integers_and_literals() {
    let decl = vec![("level".to_string(), Type::Number)];
    let as_int = vec![("level".to_string(), JsonValue::Int(12))];
    assert!(demarshal_arguments(&decl, &as_int).is_ok());
    let as_literal = vec![("level".to_string(), JsonValue::Num("12.3".to_string()))];
    let args = demarshal_arguments(&decl, &as_literal).unwrap();
    assert!(matches!(args[0].1, JsonValue::Num(ref x) if x == "12.3"));

    // a non-integer literal is not an integer
    let int_decl = vec![("level".to_string(), Type::Integer)];
    match demarshal_arguments(&int_decl, &as_literal).unwrap_err() {
        Error::InvalidArgument(n) => assert_eq!(n, "level"),
        other => panic!("expected an invalid argument, got {other:?}"),
    }
}

struct EchoModule;

impl GenericModule for EchoModule {
    fn handle_command(
        &self,
        implementation_id: &str,
        name: &str,
        parameters: Vec<(String, JsonValue)>,
    ) -> Result<JsonValue, Error> {
        assert_eq!(implementation_id, "main");
        assert_eq!(name, "uses_something");
        let (_, value) = parameters.into_iter().next().unwrap();
        Ok(value)
    }
}

#[test]
fn dispatch_routes_to_the_handler() {
    let reg = Registration {
        implementation_id: "main".to_string(),
        name: "uses_something".to_string(),
        arguments: vec![("key".to_string(), Type::String)],
        result: Some(Type::String),
    };
    let fields = vec![("key".to_string(), s("hello"))];
    let out = dispatch_call(&EchoModule, &reg, &fields).unwrap();
    assert!(matches!(out, JsonValue::Str(ref x) if x == "hello"));

    let bad = vec![("key".to_string(), JsonValue::Null)];
    assert!(dispatch_call(&EchoModule, &reg, &bad).is_err());
}

#[test]
fn blob_round_trip() {
    let blob = JsonBlob::from_vec(vec![123, 125]);
    assert_eq!(blob.as_bytes(), &[123, 125]);
}

#[test]
fn error_names_its_argument() {
    let e = Error::MissingArgument("key".to_string());
    assert_eq!(e.argument_name(), "key");
    let e = Error::InvalidArgument("count".to_string());
    assert_eq!(e.argument_name(), "count");
}

#[test]
fn mutability_defaults_to_read_only() {
    assert_eq!(MutabilityEnum::default(), MutabilityEnum::ReadOnly);
}
