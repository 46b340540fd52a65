//! Error-taxonomy tests: the three combination policies, wire-form
//! decoding, and the raise/clear observation flow.

use everestrs::error_list::ErrorDef;
use everestrs::error_list::ErrorList;
use everestrs::interface::ErrorReference;
use everestrs::session::ErrorSession;
use everestrs::taxonomy::CombinationPolicy;
use everestrs::taxonomy::ErrorVariant;
use everestrs::taxonomy::compile;
use everestrs::taxonomy::compile_multiple;
use everestrs::taxonomy::compile_union;
use everestrs::taxonomy::decode_wire;
use everestrs::taxonomy::resolve_reference;
use everestrs::types::SchemaErrorKind;

fn error_file(names: &[&str]) -> ErrorList {
    ErrorList {
        description: String::new(),
        errors: names
            .iter()
            .map(|n| ErrorDef { name: n.to_string(), description: format!("error {n}") })
            .collect(),
    }
}

fn refs(targets: &[&str]) -> Vec<ErrorReference> {
    targets.iter().map(|t| ErrorReference { reference: t.to_string() }).collect()
}

fn pairs(u: &[ErrorVariant]) -> Vec<(String, String)> {
    u.iter().map(|v| (v.source.clone(), v.name.clone())).collect()
}

#[test]
fn duplicate_policy_merges_repeated_references() {
    let files = vec![("/errors/example".to_string(), error_file(&["A", "B"]))];
    let union = compile_union(
        &files,
        &refs(&["/errors/example#/A", "/errors/example#/A", "/errors/example#/B"]),
    )
    .unwrap();
    assert_eq!(
        pairs(&union.variants),
        vec![
            ("/errors/example".to_string(), "A".to_string()),
            ("/errors/example".to_string(), "B".to_string()),
        ]
    );
}

#[test]
fn selected_policy_decodes_only_the_selection() {
    let files = vec![("/errors/example".to_string(), error_file(&["A", "B", "C", "D"]))];
    let union =
        compile_union(&files, &refs(&["/errors/example#/A", "/errors/example#/B"])).unwrap();
    assert_eq!(union.variants.len(), 2);

    let a = decode_wire(&union, "/errors/example#/A").unwrap();
    assert_eq!(a.name, "A");
    let b = decode_wire(&union, "/errors/example#/B").unwrap();
    assert_eq!(b.name, "B");

    let e = decode_wire(&union, "/errors/example#/C").unwrap_err();
    assert_eq!(e.kind, SchemaErrorKind::UnresolvedReference);
    assert_eq!(e.path, "/errors/example#/C");
    assert!(decode_wire(&union, "/errors/example#/D").is_err());
}

#[test]
fn selected_policy_rejects_unselected_references_at_load_time() {
    // a module that selected {A, B} out of a four-error file
    let files = vec![("/errors/example".to_string(), error_file(&["A", "B", "C", "D"]))];
    let selection =
        compile_union(&files, &refs(&["/errors/example#/A", "/errors/example#/B"])).unwrap();

    // a consuming combination that reaches for C through that selection is
    // rejected when it is loaded
    let selected_file = ErrorList {
        description: String::new(),
        errors: selection
            .variants
            .iter()
            .map(|v| ErrorDef { name: v.name.clone(), description: String::new() })
            .collect(),
    };
    let selected_table = vec![("/errors/example".to_string(), selected_file)];
    let e = compile_union(&selected_table, &refs(&["/errors/example#/C"])).unwrap_err();
    assert_eq!(e.kind, SchemaErrorKind::UnresolvedReference);
    assert_eq!(e.path, "/errors/example#/C");
    assert!(compile_union(&selected_table, &refs(&["/errors/example#/A"])).is_ok());
}

#[test]
fn unresolved_reference_fails_with_the_reference_string() {
    let files = vec![("/errors/example".to_string(), error_file(&["A"]))];
    let e = compile_union(&files, &refs(&["/errors/other#/A"])).unwrap_err();
    assert_eq!(e.kind, SchemaErrorKind::UnresolvedReference);
    assert_eq!(e.path, "/errors/other#/A");
}

#[test]
fn multiple_policy_keeps_same_named_errors_distinct() {
    let files = vec![
        ("/errors/first".to_string(), error_file(&["A", "B"])),
        ("/errors/second".to_string(), error_file(&["A"])),
    ];
    let union = compile_multiple(&files);
    assert_eq!(
        pairs(&union.variants),
        vec![
            ("/errors/first".to_string(), "A".to_string()),
            ("/errors/first".to_string(), "B".to_string()),
            ("/errors/second".to_string(), "A".to_string()),
        ]
    );
    // the two errors literally named A stay distinguishable by source
    let first_a = decode_wire(&union, "/errors/first#/A").unwrap();
    let second_a = decode_wire(&union, "/errors/second#/A").unwrap();
    assert_eq!(first_a.source, "/errors/first");
    assert_eq!(second_a.source, "/errors/second");

    // combining within one file never duplicates a name
    let one = compile_multiple(&vec![("/errors/first".to_string(), error_file(&["A", "B"]))]);
    let ps = pairs(&one.variants);
    for i in 0..ps.len() {
        for j in 0..ps.len() {
            if i != j {
                assert_ne!(ps[i], ps[j]);
            }
        }
    }
}

#[test]
fn compile_dispatches_on_the_policy() {
    let files = vec![
        ("/errors/first".to_string(), error_file(&["A"])),
        ("/errors/second".to_string(), error_file(&["A"])),
    ];
    let selection = refs(&["/errors/first#/A", "/errors/first#/A"]);

    let dup = compile(&files, &selection, CombinationPolicy::Duplicate).unwrap();
    assert_eq!(pairs(&dup.variants), vec![("/errors/first".to_string(), "A".to_string())]);

    let sel = compile(&files, &selection, CombinationPolicy::Selected).unwrap();
    assert_eq!(pairs(&sel.variants), pairs(&dup.variants));

    let all = compile(&files, &refs(&[]), CombinationPolicy::Multiple).unwrap();
    assert_eq!(
        pairs(&all.variants),
        vec![
            ("/errors/first".to_string(), "A".to_string()),
            ("/errors/second".to_string(), "A".to_string()),
        ]
    );
}

#[test]
fn reference_resolution_order() {
    let files = vec![
        ("/errors/first".to_string(), error_file(&["A"])),
        ("/errors/second".to_string(), error_file(&["A"])),
    ];
    let (f, n) = resolve_reference(&files, "/errors/second#/A").unwrap();
    assert_eq!(f, "/errors/second");
    assert_eq!(n, "A");
    assert!(resolve_reference(&files, "/errors/second#/B").is_none());
}

fn variant(source: &str, name: &str) -> ErrorVariant {
    ErrorVariant { source: source.to_string(), name: name.to_string() }
}

fn as_set(v: &[ErrorVariant]) -> Vec<(String, String)> {
    let mut out: Vec<(String, String)> = Vec::new();
    for x in v {
        let p = (x.source.clone(), x.name.clone());
        if !out.contains(&p) {
            out.push(p);
        }
    }
    out.sort();
    out
}

#[test]
fn raise_then_clear_all_observes_equal_sets() {
    let src = "/errors/example";
    let mut session = ErrorSession::new();
    session.raise(variant(src, "ExampleErrorA"));
    session.raise(variant(src, "ExampleErrorB"));
    session.raise(variant(src, "ExampleErrorC"));
    session.clear(src, "ExampleErrorA");
    session.clear_all();

    let raised = as_set(&session.raised);
    let cleared = as_set(&session.cleared);
    assert_eq!(raised, cleared);
    assert_eq!(
        raised,
        vec![
            (src.to_string(), "ExampleErrorA".to_string()),
            (src.to_string(), "ExampleErrorB".to_string()),
            (src.to_string(), "ExampleErrorC".to_string()),
        ]
    );
    assert!(session.active.is_empty());
}

#[test]
fn raising_twice_keeps_one_active_entry() {
    let mut session = ErrorSession::new();
    session.raise(variant("f", "A"));
    session.raise(variant("f", "A"));
    assert_eq!(session.active.len(), 1);
    assert_eq!(session.raised.len(), 1);
    session.clear("f", "A");
    assert!(session.active.is_empty());
    assert_eq!(as_set(&session.cleared), vec![("f".to_string(), "A".to_string())]);
    // clearing an error that is not active changes nothing
    session.clear("f", "B");
    assert_eq!(session.cleared.len(), 1);
}
