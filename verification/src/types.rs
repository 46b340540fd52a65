//! Primitive declared types of the schema model, the option records that
//! configuration values carry, and the structured error that document
//! validation reports.

use vstd::prelude::*;

use crate::value::JsonValue;
use crate::value::ValueSpec;
use crate::value::entries_view;
use crate::value::first_unknown_key;
use crate::value::get_field;
use crate::value::spec_has_key;
use crate::value::spec_keys_among;
use crate::value::spec_lookup;
use crate::value::str_eq;
use crate::value::strs_view;
use crate::value::value_view;

verus! {

/// The declared type of a variable, command argument or command result.
#[derive(Clone, Copy, Debug, PartialEq, Eq, Structural)]
pub enum Type {
    Boolean,
    String,
    Integer,
    Number,
    Object,
    Array,
    Null,
}

/// What went wrong while validating a document, with the offending field.
#[derive(Clone, Copy, Debug, PartialEq, Eq, Structural)]
pub enum SchemaErrorKind {
    /// A field that the document kind does not know.
    UnknownField,
    /// A required field is absent.
    MissingField,
    /// A field holds a value of the wrong shape.
    InvalidField,
    /// Two entries of one map share a name.
    DuplicateName,
    /// An error reference is not of the `<file-path>#/<ErrorName>` form.
    MalformedReference,
    /// An error reference does not resolve to exactly one definition.
    UnresolvedReference,
    /// Declared connection bounds with minimum above maximum.
    InvalidBounds,
}

/// Structured description of a rejected document: the offending field path
/// and the kind of fault found there.
#[derive(Debug)]
pub struct SchemaError {
    pub path: String,
    pub kind: SchemaErrorKind,
}

impl SchemaError {
    /// A schema error at the given field path.
    pub fn at(path: &str, kind: SchemaErrorKind) -> (r: SchemaError)
        ensures
            r.path@ == path@,
            r.kind == kind,
    {
        SchemaError { path: path.to_owned(), kind }
    }
}

/// The type name used in document form for each declared type.
pub open spec fn spec_type_of_name(s: Seq<char>) -> Option<Type> {
    if s == "boolean"@ {
        Some(Type::Boolean)
    } else if s == "string"@ {
        Some(Type::String)
    } else if s == "integer"@ {
        Some(Type::Integer)
    } else if s == "number"@ {
        Some(Type::Number)
    } else if s == "object"@ {
        Some(Type::Object)
    } else if s == "array"@ {
        Some(Type::Array)
    } else if s == "null"@ {
        Some(Type::Null)
    } else {
        None
    }
}

/// The document name of a declared type.
pub open spec fn spec_name_of_type(t: Type) -> Seq<char> {
    match t {
        Type::Boolean => "boolean"@,
        Type::String => "string"@,
        Type::Integer => "integer"@,
        Type::Number => "number"@,
        Type::Object => "object"@,
        Type::Array => "array"@,
        Type::Null => "null"@,
    }
}

/// A declared type in document form: an object holding exactly the field
/// `type` with the type's name.
pub open spec fn spec_serialize_type(t: Type) -> ValueSpec {
    ValueSpec::Obj(seq![("type"@, ValueSpec::Str(spec_name_of_type(t)))])
}

/// What a type document means: `Some` exactly on the documents that
/// `parse_type` accepts.
pub open spec fn spec_parse_type(v: ValueSpec) -> Option<Type> {
    match v {
        ValueSpec::Obj(fs) => {
            if !spec_keys_among(fs, seq!["type"@]) {
                None
            } else {
                match spec_lookup(fs, "type"@) {
                    Some(ValueSpec::Str(s)) => spec_type_of_name(s),
                    _ => None,
                }
            }
        },
        _ => None,
    }
}

/// The document names of the declared types round-trip: parsing a name
/// obtained from a type gives that type back.
pub proof fn lemma_type_name_round_trip(t: Type)
    ensures
        spec_type_of_name(spec_name_of_type(t)) == Some(t),
{
    reveal_strlit("boolean");
    reveal_strlit("string");
    reveal_strlit("integer");
    reveal_strlit("number");
    reveal_strlit("object");
    reveal_strlit("array");
    reveal_strlit("null");
    assert("boolean"@.len() == 7);
    assert("string"@.len() == 6);
    assert("integer"@.len() == 7);
    assert("number"@.len() == 6);
    assert("object"@.len() == 6);
    assert("array"@.len() == 5);
    assert("null"@.len() == 4);
    assert("boolean"@[0] == 'b');
    assert("integer"@[0] == 'i');
    assert("string"@[0] == 's');
    assert("number"@[0] == 'n');
    assert("object"@[0] == 'o');
}

/// A serialized type document parses back to the type it came from.
pub proof fn lemma_type_round_trip(t: Type)
    ensures
        spec_parse_type(spec_serialize_type(t)) == Some(t),
{
    lemma_type_name_round_trip(t);
    let fs = seq![("type"@, ValueSpec::Str(spec_name_of_type(t)))];
    assert(spec_keys_among(fs, seq!["type"@])) by {
        assert forall|i: int| 0 <= i < fs.len() implies seq!["type"@].contains(
            #[trigger] fs[i].0,
        ) by {
            assert(seq!["type"@][0] == fs[i].0);
        }
    }
    assert(spec_lookup(fs, "type"@) == Some(ValueSpec::Str(spec_name_of_type(t))));
}

/// Parses a type name.
pub fn parse_type_name(s: &str) -> (r: Option<Type>)
    ensures
        r == spec_type_of_name(s@),
{
    if str_eq(s, "boolean") {
        Some(Type::Boolean)
    } else if str_eq(s, "string") {
        Some(Type::String)
    } else if str_eq(s, "integer") {
        Some(Type::Integer)
    } else if str_eq(s, "number") {
        Some(Type::Number)
    } else if str_eq(s, "object") {
        Some(Type::Object)
    } else if str_eq(s, "array") {
        Some(Type::Array)
    } else if str_eq(s, "null") {
        Some(Type::Null)
    } else {
        None
    }
}

/// Validates a type document.
pub fn parse_type(v: &JsonValue) -> (r: Result<Type, SchemaError>)
    ensures
        match r {
            Ok(t) => spec_parse_type(v@) == Some(t),
            Err(e) => {
                &&& spec_parse_type(v@) is None
                &&& match v@ {
                    ValueSpec::Obj(fs) => {
                        &&& !spec_keys_among(fs, seq!["type"@])
                            ==> e.kind == SchemaErrorKind::UnknownField && spec_has_key(
                            fs,
                            e.path@,
                        ) && !seq!["type"@].contains(e.path@)
                        &&& (spec_keys_among(fs, seq!["type"@])
                            && spec_lookup(fs, "type"@) is None) ==> e.kind
                            == SchemaErrorKind::MissingField && e.path@ == "type"@
                    },
                    _ => e.kind == SchemaErrorKind::InvalidField,
                }
            },
        },
{
    match v {
        JsonValue::Obj(fs) => {
            let allowed: Vec<&str> = vec!["type"];
            proof {
                assert(strs_view(allowed@) =~= seq!["type"@]);
            }
            match first_unknown_key(fs, &allowed) {
                Some(k) => {
                    return Err(SchemaError::at(k.as_str(), SchemaErrorKind::UnknownField));
                },
                None => {},
            }
            match get_field(fs, "type") {
                Some(JsonValue::Str(s)) => {
                    match parse_type_name(s.as_str()) {
                        Some(t) => Ok(t),
                        None => Err(SchemaError::at("type", SchemaErrorKind::InvalidField)),
                    }
                },
                Some(_) => Err(SchemaError::at("type", SchemaErrorKind::InvalidField)),
                None => Err(SchemaError::at("type", SchemaErrorKind::MissingField)),
            }
        },
        _ => Err(SchemaError::at("type", SchemaErrorKind::InvalidField)),
    }
}

/// Serializes a type back to document form.
pub fn serialize_type(t: &Type) -> (r: JsonValue)
    ensures
        value_view(r) == spec_serialize_type(*t),
{
    let name: &str = match t {
        Type::Boolean => "boolean",
        Type::String => "string",
        Type::Integer => "integer",
        Type::Number => "number",
        Type::Object => "object",
        Type::Array => "array",
        Type::Null => "null",
    };
    let mut fs: Vec<(String, JsonValue)> = Vec::new();
    fs.push(("type".to_owned(), JsonValue::Str(name.to_owned())));
    proof {
        crate::value::lemma_entries_view(fs@);
        assert(entries_view(fs@) =~= seq![("type"@, ValueSpec::Str(spec_name_of_type(*t)))]);
    }
    JsonValue::Obj(fs)
}

/// Options of a boolean configuration value.
#[derive(Debug)]
pub struct BooleanOptions {
    pub default: Option<bool>,
}

/// Options of a string configuration value.
#[derive(Debug)]
pub struct StringOptions {
    pub default: Option<String>,
}

/// Options of an integer configuration value.
#[derive(Debug)]
pub struct IntegerOptions {
    pub default: Option<i64>,
}

/// A numeric default, as the document carried it: an integer node, or the
/// opaque literal text of a non-integer number. The embedding process
/// converts the literal losslessly; no floating-point value enters the
/// library.
#[derive(Debug)]
pub enum NumberDefault {
    Integer(i64),
    Literal(String),
}

/// Mathematical model of a numeric default.
pub enum NumberDefaultSpec {
    Integer(i64),
    Literal(Seq<char>),
}

impl View for NumberDefault {
    type V = NumberDefaultSpec;

    open spec fn view(&self) -> NumberDefaultSpec {
        match self {
            NumberDefault::Integer(n) => NumberDefaultSpec::Integer(*n),
            NumberDefault::Literal(s) => NumberDefaultSpec::Literal(s@),
        }
    }
}

/// Options of a floating-point configuration value.
#[derive(Debug)]
pub struct NumberOptions {
    pub default: Option<NumberDefault>,
}

} // verus!
