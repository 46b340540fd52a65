//! Error-definition files: a named collection of error definitions, one
//! collection per referenced file.

use vstd::prelude::*;

use crate::types::SchemaError;
use crate::types::SchemaErrorKind;
use crate::value::JsonValue;
use crate::value::ValueSpec;
use crate::value::first_unknown_key;
use crate::value::get_field;
use crate::value::spec_has_key;
use crate::value::spec_keys_among;
use crate::value::spec_lookup;
use crate::value::strs_view;
use crate::value::value_view;
use crate::value::values_view;

verus! {

/// One named error definition.
#[derive(Debug)]
pub struct ErrorDef {
    pub name: String,
    pub description: String,
}

/// Mathematical model of an error definition.
#[verifier::ext_equal]
pub struct ErrorDefSpec {
    pub name: Seq<char>,
    pub description: Seq<char>,
}

impl View for ErrorDef {
    type V = ErrorDefSpec;

    open spec fn view(&self) -> ErrorDefSpec {
        ErrorDefSpec { name: self.name@, description: self.description@ }
    }
}

/// A named collection of error definitions, as one error file declares it.
#[derive(Debug)]
pub struct ErrorList {
    pub description: String,
    pub errors: Vec<ErrorDef>,
}

/// Mathematical model of an error file.
#[verifier::ext_equal]
pub struct ErrorListSpec {
    pub description: Seq<char>,
    pub errors: Seq<ErrorDefSpec>,
}

/// The models of a list of error definitions.
pub open spec fn defs_view(s: Seq<ErrorDef>) -> Seq<ErrorDefSpec> {
    Seq::new(s.len(), |i: int| s[i]@)
}

impl View for ErrorList {
    type V = ErrorListSpec;

    open spec fn view(&self) -> ErrorListSpec {
        ErrorListSpec { description: self.description@, errors: defs_view(self.errors@) }
    }
}

impl ErrorListSpec {
    /// Error names are unique within a file.
    pub open spec fn wf(self) -> bool {
        forall|i: int, j: int|
            0 <= i < j < self.errors.len() ==> (#[trigger] self.errors[i]).name
                != (#[trigger] self.errors[j]).name
    }

    /// The declared error names, in declaration order.
    pub open spec fn names(self) -> Seq<Seq<char>> {
        Seq::new(self.errors.len(), |i: int| self.errors[i].name)
    }
}

/// Does the name occur in the definitions?
pub open spec fn spec_defs_contain(defs: Seq<ErrorDefSpec>, name: Seq<char>) -> bool {
    exists|i: int| 0 <= i < defs.len() && (#[trigger] defs[i]).name == name
}

/// A definition list in document form: each element an object holding
/// exactly `name` and `description`, names unique.
pub open spec fn spec_parse_defs(vs: Seq<ValueSpec>) -> Option<Seq<ErrorDefSpec>>
    decreases vs.len(),
{
    if vs.len() == 0 {
        Some(Seq::empty())
    } else {
        match spec_parse_defs(vs.drop_last()) {
            None => None,
            Some(pre) => {
                match vs.last() {
                    ValueSpec::Obj(fs) => {
                        if !spec_keys_among(fs, seq!["name"@, "description"@]) {
                            None
                        } else {
                            match (spec_lookup(fs, "name"@), spec_lookup(fs, "description"@)) {
                                (Some(ValueSpec::Str(n)), Some(ValueSpec::Str(d))) => {
                                    if spec_defs_contain(pre, n) {
                                        None
                                    } else {
                                        Some(pre.push(ErrorDefSpec { name: n, description: d }))
                                    }
                                },
                                _ => None,
                            }
                        }
                    },
                    _ => None,
                }
            },
        }
    }
}

/// An error file in document form: an optional description and a required
/// list of definitions.
pub open spec fn spec_parse_error_list(v: ValueSpec) -> Option<ErrorListSpec> {
    match v {
        ValueSpec::Obj(fs) => {
            if !spec_keys_among(fs, seq!["description"@, "errors"@]) {
                None
            } else {
                let desc = match spec_lookup(fs, "description"@) {
                    None => Some(Seq::<char>::empty()),
                    Some(ValueSpec::Str(s)) => Some(s),
                    Some(_) => None,
                };
                match desc {
                    None => None,
                    Some(d) => match spec_lookup(fs, "errors"@) {
                        Some(ValueSpec::Arr(a)) => match spec_parse_defs(a) {
                            Some(defs) => Some(ErrorListSpec { description: d, errors: defs }),
                            None => None,
                        },
                        _ => None,
                    },
                }
            }
        },
        _ => None,
    }
}

/// A definition list that fails on some prefix fails as a whole.
proof fn lemma_defs_extends_none(vs: Seq<ValueSpec>, i: int)
    requires
        0 <= i <= vs.len(),
        spec_parse_defs(vs.take(i)) is None,
    ensures
        spec_parse_defs(vs) is None,
    decreases vs.len() - i,
{
    if i < vs.len() {
        assert(vs.take(i + 1).drop_last() =~= vs.take(i));
        lemma_defs_extends_none(vs, i + 1);
    } else {
        assert(vs.take(i) =~= vs);
    }
}

/// An accepted definition list has unique names.
pub proof fn lemma_parse_defs_unique(vs: Seq<ValueSpec>, defs: Seq<ErrorDefSpec>)
    requires
        spec_parse_defs(vs) == Some(defs),
    ensures
        forall|i: int, j: int|
            0 <= i < j < defs.len() ==> (#[trigger] defs[i]).name != (#[trigger] defs[j]).name,
    decreases vs.len(),
{
    if vs.len() == 0 {
    } else {
        match spec_parse_defs(vs.drop_last()) {
            Some(pre) => {
                lemma_parse_defs_unique(vs.drop_last(), pre);
                assert forall|i: int, j: int| 0 <= i < j < defs.len() implies (#[trigger] defs[i]).name
                    != (#[trigger] defs[j]).name by {
                    if j < defs.len() - 1 {
                        assert(pre[i] == defs[i] && pre[j] == defs[j]);
                    } else {
                        assert(defs[i] == pre[i]);
                        if defs[i].name == defs[j].name {
                            assert(spec_defs_contain(pre, defs[j].name));
                        }
                    }
                }
            },
            None => {
                assert(false);
            },
        }
    }
}

/// Does an error definition with the given name stand in the list?
fn defs_contain(defs: &Vec<ErrorDef>, name: &str) -> (r: bool)
    ensures
        r == spec_defs_contain(defs_view(defs@), name@),
{
    let mut i: usize = 0;
    while i < defs.len()
        invariant
            0 <= i <= defs.len(),
            forall|j: int| 0 <= j < i ==> #[trigger] defs@[j].name@ != name@,
        decreases defs.len() - i,
    {
        if crate::value::str_eq(defs[i].name.as_str(), name) {
            proof {
                assert(defs_view(defs@)[i as int].name == name@);
            }
            return true;
        }
        i += 1;
    }
    proof {
        if spec_defs_contain(defs_view(defs@), name@) {
            let j = choose|j: int|
                0 <= j < defs_view(defs@).len() && (#[trigger] defs_view(defs@)[j]).name == name@;
            assert(defs@[j].name@ == name@);
        }
    }
    false
}

/// Validates a list of error definitions.
pub fn parse_defs(a: &Vec<JsonValue>) -> (r: Result<Vec<ErrorDef>, SchemaError>)
    ensures
        match r {
            Ok(out) => spec_parse_defs(values_view(a@)) == Some(defs_view(out@)),
            Err(_) => spec_parse_defs(values_view(a@)) is None,
        },
{
    let ghost all = values_view(a@);
    proof {
        crate::value::lemma_values_view(a@);
        assert(all.take(0) =~= Seq::<ValueSpec>::empty());
        assert(defs_view(Seq::<ErrorDef>::empty()) =~= Seq::<ErrorDefSpec>::empty());
    }
    let mut out: Vec<ErrorDef> = Vec::new();
    let mut i: usize = 0;
    while i < a.len()
        invariant
            0 <= i <= a.len(),
            all == values_view(a@),
            all.len() == a@.len(),
            forall|k: int| 0 <= k < a@.len() ==> #[trigger] all[k] == value_view(a@[k]),
            spec_parse_defs(all.take(i as int)) == Some(defs_view(out@)),
        decreases a.len() - i,
    {
        let ghost pre = defs_view(out@);
        proof {
            assert(all.take(i as int + 1).drop_last() =~= all.take(i as int));
            assert(all.take(i as int + 1).last() == all[i as int]);
        }
        match &a[i] {
            JsonValue::Obj(fs) => {
                let allowed: Vec<&str> = vec!["name", "description"];
                proof {
                    assert(strs_view(allowed@) =~= seq!["name"@, "description"@]);
                }
                match first_unknown_key(fs, &allowed) {
                    Some(k) => {
                        proof {
                            lemma_defs_extends_none(all, i as int + 1);
                        }
                        return Err(SchemaError::at(k.as_str(), SchemaErrorKind::UnknownField));
                    },
                    None => {},
                }
                let name: String = match get_field(fs, "name") {
                    Some(JsonValue::Str(s)) => s.clone(),
                    _ => {
                        proof {
                            lemma_defs_extends_none(all, i as int + 1);
                        }
                        return Err(SchemaError::at("name", SchemaErrorKind::InvalidField));
                    },
                };
                let description: String = match get_field(fs, "description") {
                    Some(JsonValue::Str(s)) => s.clone(),
                    _ => {
                        proof {
                            lemma_defs_extends_none(all, i as int + 1);
                        }
                        return Err(SchemaError::at("description", SchemaErrorKind::InvalidField));
                    },
                };
                if defs_contain(&out, name.as_str()) {
                    proof {
                        lemma_defs_extends_none(all, i as int + 1);
                    }
                    return Err(SchemaError::at(name.as_str(), SchemaErrorKind::DuplicateName));
                }
                out.push(ErrorDef { name, description });
                proof {
                    assert(defs_view(out@) =~= pre.push(
                        ErrorDefSpec {
                            name: out@.last().name@,
                            description: out@.last().description@,
                        },
                    ));
                }
            },
            _ => {
                proof {
                    lemma_defs_extends_none(all, i as int + 1);
                }
                return Err(SchemaError::at("errors", SchemaErrorKind::InvalidField));
            },
        }
        i += 1;
    }
    proof {
        assert(all.take(i as int) =~= all);
    }
    Ok(out)
}

/// Validates an error-file document.
pub fn parse_error_list(v: &JsonValue) -> (r: Result<ErrorList, SchemaError>)
    ensures
        match r {
            Ok(el) => spec_parse_error_list(v@) == Some(el@),
            Err(e) => {
                &&& spec_parse_error_list(v@) is None
                &&& match v@ {
                    ValueSpec::Obj(fs) => {
                        &&& !spec_keys_among(fs, seq!["description"@, "errors"@])
                            ==> e.kind == SchemaErrorKind::UnknownField && spec_has_key(
                            fs,
                            e.path@,
                        ) && !seq!["description"@, "errors"@].contains(e.path@)
                        &&& (spec_keys_among(fs, seq!["description"@, "errors"@])
                            && (match spec_lookup(fs, "description"@) {
                                None => true,
                                Some(ValueSpec::Str(_)) => true,
                                Some(_) => false,
                            })
                            && spec_lookup(fs, "errors"@) is None) ==> e.kind
                            == SchemaErrorKind::MissingField && e.path@ == "errors"@
                    },
                    _ => e.kind == SchemaErrorKind::InvalidField,
                }
            },
        },
{
    match v {
        JsonValue::Obj(fs) => {
            let allowed: Vec<&str> = vec!["description", "errors"];
            proof {
                assert(strs_view(allowed@) =~= seq!["description"@, "errors"@]);
            }
            match first_unknown_key(fs, &allowed) {
                Some(k) => {
                    return Err(SchemaError::at(k.as_str(), SchemaErrorKind::UnknownField));
                },
                None => {},
            }
            let description: String = match get_field(fs, "description") {
                None => String::new(),
                Some(JsonValue::Str(s)) => s.clone(),
                Some(_) => {
                    return Err(SchemaError::at("description", SchemaErrorKind::InvalidField));
                },
            };
            let errors: Vec<ErrorDef> = match get_field(fs, "errors") {
                Some(JsonValue::Arr(a)) => {
                    match parse_defs(a) {
                        Ok(ds) => ds,
                        Err(e) => { return Err(e) },
                    }
                },
                Some(_) => { return Err(SchemaError::at("errors", SchemaErrorKind::InvalidField))
                },
                None => { return Err(SchemaError::at("errors", SchemaErrorKind::MissingField)) },
            };
            Ok(ErrorList { description, errors })
        },
        _ => Err(SchemaError::at("errors", SchemaErrorKind::InvalidField)),
    }
}

} // verus!
