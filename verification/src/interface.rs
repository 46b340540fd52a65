//! The interface side of the schema model: a named contract of commands,
//! variables and error references, validated from and serialized back to
//! document form.

use vstd::prelude::*;

use crate::types::SchemaError;
use crate::types::SchemaErrorKind;
use crate::types::Type;
use crate::types::parse_type;
use crate::types::serialize_type;
use crate::types::spec_parse_type;
use crate::types::spec_serialize_type;
use crate::value::JsonValue;
use crate::value::ValueSpec;
use crate::value::entries_view;
use crate::value::first_unknown_key;
use crate::value::get_field;
use crate::value::has_key;
use crate::value::spec_has_key;
use crate::value::spec_keys_among;
use crate::value::spec_lookup;
use crate::value::str_eq;
use crate::value::strs_view;
use crate::value::unique_keys;
use crate::value::value_view;
use crate::value::values_view;

verus! {

/// A pointer into an external error-definition file, of the form
/// `<file-path>#/<ErrorName>`.
#[derive(Debug)]
pub struct ErrorReference {
    pub reference: String,
}

impl View for ErrorReference {
    type V = Seq<char>;

    open spec fn view(&self) -> Seq<char> {
        self.reference@
    }
}

/// One command exposed by an interface.
#[derive(Debug)]
pub struct Command {
    pub description: String,
    pub arguments: Vec<(String, Type)>,
    pub result: Option<Type>,
}

/// Mathematical model of a command.
#[verifier::ext_equal]
pub struct CommandSpec {
    pub description: Seq<char>,
    pub arguments: Seq<(Seq<char>, Type)>,
    pub result: Option<Type>,
}

impl CommandSpec {
    /// Argument names are unique within a command.
    pub open spec fn wf(self) -> bool {
        unique_keys(self.arguments)
    }
}

/// The model of a name-to-type map held as an entry list.
pub open spec fn typemap_view(s: Seq<(String, Type)>) -> Seq<(Seq<char>, Type)> {
    Seq::new(s.len(), |i: int| (s[i].0@, s[i].1))
}

impl View for Command {
    type V = CommandSpec;

    open spec fn view(&self) -> CommandSpec {
        CommandSpec {
            description: self.description@,
            arguments: typemap_view(self.arguments@),
            result: self.result,
        }
    }
}

/// A named contract of commands, variables and error references.
#[derive(Debug)]
pub struct Interface {
    pub description: String,
    pub cmds: Vec<(String, Command)>,
    pub vars: Vec<(String, Type)>,
    pub errors: Vec<ErrorReference>,
}

/// Mathematical model of an interface.
#[verifier::ext_equal]
pub struct InterfaceSpec {
    pub description: Seq<char>,
    pub cmds: Seq<(Seq<char>, CommandSpec)>,
    pub vars: Seq<(Seq<char>, Type)>,
    pub errors: Seq<Seq<char>>,
}

impl InterfaceSpec {
    /// Command and variable names are unique, and each command is itself
    /// well formed.
    pub open spec fn wf(self) -> bool {
        &&& unique_keys(self.cmds)
        &&& unique_keys(self.vars)
        &&& forall|i: int| 0 <= i < self.cmds.len() ==> (#[trigger] self.cmds[i]).1.wf()
        &&& forall|i: int|
            0 <= i < self.errors.len() ==> spec_wellformed_reference(#[trigger] self.errors[i])
    }
}

/// The model of the command map of an interface.
pub open spec fn cmds_view(s: Seq<(String, Command)>) -> Seq<(Seq<char>, CommandSpec)> {
    Seq::new(s.len(), |i: int| (s[i].0@, s[i].1@))
}

/// The model of an error-reference list.
pub open spec fn refs_view(s: Seq<ErrorReference>) -> Seq<Seq<char>> {
    Seq::new(s.len(), |i: int| s[i]@)
}

impl View for Interface {
    type V = InterfaceSpec;

    open spec fn view(&self) -> InterfaceSpec {
        InterfaceSpec {
            description: self.description@,
            cmds: cmds_view(self.cmds@),
            vars: typemap_view(self.vars@),
            errors: refs_view(self.errors@),
        }
    }
}

// ---------------------------------------------------------------------------
// What documents mean: parsing, stated as total spec functions. A document is
// accepted exactly where these return `Some`.
// ---------------------------------------------------------------------------
/// A name-to-type map in document form: every entry a type document, names
/// unique, document order kept.
pub open spec fn spec_parse_typemap(es: Seq<(Seq<char>, ValueSpec)>) -> Option<
    Seq<(Seq<char>, Type)>,
>
    decreases es.len(),
{
    if es.len() == 0 {
        Some(Seq::empty())
    } else {
        match spec_parse_typemap(es.drop_last()) {
            None => None,
            Some(pre) => {
                if spec_has_key(pre, es.last().0) {
                    None
                } else {
                    match spec_parse_type(es.last().1) {
                        Some(t) => Some(pre.push((es.last().0, t))),
                        None => None,
                    }
                }
            },
        }
    }
}

/// A command in document form: `description` required, `arguments` an
/// optional name-to-type map, `result` an optional type (a null stands for
/// no result), nothing else.
pub open spec fn spec_parse_command(v: ValueSpec) -> Option<CommandSpec> {
    match v {
        ValueSpec::Obj(fs) => {
            if !spec_keys_among(fs, seq!["description"@, "arguments"@, "result"@]) {
                None
            } else {
                match spec_lookup(fs, "description"@) {
                    Some(ValueSpec::Str(d)) => {
                        let args = match spec_lookup(fs, "arguments"@) {
                            None => Some(Seq::<(Seq<char>, Type)>::empty()),
                            Some(ValueSpec::Obj(es)) => spec_parse_typemap(es),
                            Some(_) => None,
                        };
                        match args {
                            None => None,
                            Some(a) => {
                                let res = match spec_lookup(fs, "result"@) {
                                    None => Some(None),
                                    Some(ValueSpec::Null) => Some(None),
                                    Some(rv) => match spec_parse_type(rv) {
                                        Some(t) => Some(Some(t)),
                                        None => None,
                                    },
                                };
                                match res {
                                    None => None,
                                    Some(r) => Some(
                                        CommandSpec { description: d, arguments: a, result: r },
                                    ),
                                }
                            },
                        }
                    },
                    _ => None,
                }
            }
        },
        _ => None,
    }
}

/// A command map in document form: every entry a command document, names
/// unique, document order kept.
pub open spec fn spec_parse_cmds(es: Seq<(Seq<char>, ValueSpec)>) -> Option<
    Seq<(Seq<char>, CommandSpec)>,
>
    decreases es.len(),
{
    if es.len() == 0 {
        Some(Seq::empty())
    } else {
        match spec_parse_cmds(es.drop_last()) {
            None => None,
            Some(pre) => {
                if spec_has_key(pre, es.last().0) {
                    None
                } else {
                    match spec_parse_command(es.last().1) {
                        Some(c) => Some(pre.push((es.last().0, c))),
                        None => None,
                    }
                }
            },
        }
    }
}

/// A reference string is well formed when it splits as a nonempty file
/// path, the separator `#/`, and a nonempty error name.
pub open spec fn spec_wellformed_reference(s: Seq<char>) -> bool {
    exists|k: int| #![trigger s[k]] 0 < k && k + 2 < s.len() && s[k] == '#' && s[k + 1] == '/'
}

/// Checks the `<file-path>#/<ErrorName>` form of a reference string.
pub fn reference_wellformed(s: &str) -> (r: bool)
    ensures
        r == spec_wellformed_reference(s@),
{
    let n = s.unicode_len();
    if n < 4 {
        proof {
            if spec_wellformed_reference(s@) {
                let k = choose|k: int|
                    0 < k && k + 2 < s@.len() && #[trigger] s@[k] == '#' && s@[k + 1] == '/';
            }
        }
        return false;
    }
    let mut i: usize = 1;
    while i + 2 < n
        invariant
            n == s@.len(),
            4 <= n,
            1 <= i,
            i + 2 <= n,
            forall|k: int| 1 <= k < i ==> !(#[trigger] s@[k] == '#' && s@[k + 1] == '/'),
        decreases n - i,
    {
        if s.get_char(i) == '#' && s.get_char(i + 1) == '/' {
            return true;
        }
        i += 1;
    }
    proof {
        if spec_wellformed_reference(s@) {
            let k = choose|k: int|
                0 < k && k + 2 < s@.len() && #[trigger] s@[k] == '#' && s@[k + 1] == '/';
            assert(1 <= k < i);
        }
    }
    false
}

/// An error-reference list in document form: every element an object holding
/// exactly the field `reference` with a string of the well-formed
/// `<file-path>#/<ErrorName>` shape. Repeated references are kept; merging
/// them is the error-taxonomy compiler's concern.
pub open spec fn spec_parse_refs(vs: Seq<ValueSpec>) -> Option<Seq<Seq<char>>>
    decreases vs.len(),
{
    if vs.len() == 0 {
        Some(Seq::empty())
    } else {
        match spec_parse_refs(vs.drop_last()) {
            None => None,
            Some(pre) => {
                match vs.last() {
                    ValueSpec::Obj(fs) => {
                        if !spec_keys_among(fs, seq!["reference"@]) {
                            None
                        } else {
                            match spec_lookup(fs, "reference"@) {
                                Some(ValueSpec::Str(s)) => if spec_wellformed_reference(s) {
                                    Some(pre.push(s))
                                } else {
                                    None
                                },
                                _ => None,
                            }
                        }
                    },
                    _ => None,
                }
            },
        }
    }
}

/// An interface in document form: `description` required, `cmds` and `vars`
/// optional name-keyed maps, `errors` an optional reference list, nothing
/// else.
pub open spec fn spec_parse_interface(v: ValueSpec) -> Option<InterfaceSpec> {
    match v {
        ValueSpec::Obj(fs) => {
            if !spec_keys_among(fs, seq!["description"@, "cmds"@, "vars"@, "errors"@]) {
                None
            } else {
                match spec_lookup(fs, "description"@) {
                    Some(ValueSpec::Str(d)) => {
                        let cmds = match spec_lookup(fs, "cmds"@) {
                            None => Some(Seq::<(Seq<char>, CommandSpec)>::empty()),
                            Some(ValueSpec::Obj(es)) => spec_parse_cmds(es),
                            Some(_) => None,
                        };
                        match cmds {
                            None => None,
                            Some(cs) => {
                                let vars = match spec_lookup(fs, "vars"@) {
                                    None => Some(Seq::<(Seq<char>, Type)>::empty()),
                                    Some(ValueSpec::Obj(es)) => spec_parse_typemap(es),
                                    Some(_) => None,
                                };
                                match vars {
                                    None => None,
                                    Some(vsm) => {
                                        let errs = match spec_lookup(fs, "errors"@) {
                                            None => Some(Seq::<Seq<char>>::empty()),
                                            Some(ValueSpec::Arr(a)) => spec_parse_refs(a),
                                            Some(_) => None,
                                        };
                                        match errs {
                                            None => None,
                                            Some(es) => Some(
                                                InterfaceSpec {
                                                    description: d,
                                                    cmds: cs,
                                                    vars: vsm,
                                                    errors: es,
                                                },
                                            ),
                                        }
                                    },
                                }
                            },
                        }
                    },
                    _ => None,
                }
            }
        },
        _ => None,
    }
}

// ---------------------------------------------------------------------------
// Serialization back to document form.
// ---------------------------------------------------------------------------
/// A name-to-type map serialized entry by entry.
pub open spec fn spec_serialize_typemap(s: Seq<(Seq<char>, Type)>) -> Seq<
    (Seq<char>, ValueSpec),
> {
    Seq::new(s.len(), |i: int| (s[i].0, spec_serialize_type(s[i].1)))
}

/// A command serialized to document form; an absent result is written as a
/// null.
pub open spec fn spec_serialize_command(c: CommandSpec) -> ValueSpec {
    ValueSpec::Obj(
        seq![
            ("description"@, ValueSpec::Str(c.description)),
            ("arguments"@, ValueSpec::Obj(spec_serialize_typemap(c.arguments))),
            (
                "result"@,
                match c.result {
                    None => ValueSpec::Null,
                    Some(t) => spec_serialize_type(t),
                },
            ),
        ],
    )
}

/// A command map serialized entry by entry.
pub open spec fn spec_serialize_cmds(s: Seq<(Seq<char>, CommandSpec)>) -> Seq<
    (Seq<char>, ValueSpec),
> {
    Seq::new(s.len(), |i: int| (s[i].0, spec_serialize_command(s[i].1)))
}

/// An error-reference list serialized element by element.
pub open spec fn spec_serialize_refs(s: Seq<Seq<char>>) -> Seq<ValueSpec> {
    Seq::new(s.len(), |i: int| ValueSpec::Obj(seq![("reference"@, ValueSpec::Str(s[i]))]))
}

/// An interface serialized to document form.
pub open spec fn spec_serialize_interface(i: InterfaceSpec) -> ValueSpec {
    ValueSpec::Obj(
        seq![
            ("description"@, ValueSpec::Str(i.description)),
            ("cmds"@, ValueSpec::Obj(spec_serialize_cmds(i.cmds))),
            ("vars"@, ValueSpec::Obj(spec_serialize_typemap(i.vars))),
            ("errors"@, ValueSpec::Arr(spec_serialize_refs(i.errors))),
        ],
    )
}

// ---------------------------------------------------------------------------
// Executable serialization.
// ---------------------------------------------------------------------------
/// Serializes a name-to-type map to an object's entry list.
pub fn serialize_typemap(tm: &Vec<(String, Type)>) -> (r: Vec<(String, JsonValue)>)
    ensures
        entries_view(r@) == spec_serialize_typemap(typemap_view(tm@)),
{
    let mut out: Vec<(String, JsonValue)> = Vec::new();
    let mut i: usize = 0;
    while i < tm.len()
        invariant
            0 <= i <= tm.len(),
            out@.len() == i,
            forall|k: int|
                0 <= k < i ==> (#[trigger] out@[k]).0@ == tm@[k].0@ && value_view(out@[k].1)
                    == spec_serialize_type(tm@[k].1),
        decreases tm.len() - i,
    {
        out.push((tm[i].0.clone(), serialize_type(&tm[i].1)));
        i += 1;
    }
    proof {
        crate::value::lemma_entries_view(out@);
        assert(entries_view(out@) =~= spec_serialize_typemap(typemap_view(tm@)));
    }
    out
}

/// Serializes one command to document form.
pub fn serialize_command(c: &Command) -> (r: JsonValue)
    ensures
        value_view(r) == spec_serialize_command(c@),
{
    let mut fs: Vec<(String, JsonValue)> = Vec::new();
    fs.push(("description".to_owned(), JsonValue::Str(c.description.clone())));
    fs.push(("arguments".to_owned(), JsonValue::Obj(serialize_typemap(&c.arguments))));
    let res: JsonValue = match &c.result {
        None => JsonValue::Null,
        Some(t) => serialize_type(t),
    };
    fs.push(("result".to_owned(), res));
    proof {
        crate::value::lemma_entries_view(fs@);
        assert(entries_view(fs@) =~= match spec_serialize_command(c@) {
            ValueSpec::Obj(es) => es,
            _ => Seq::empty(),
        });
    }
    JsonValue::Obj(fs)
}

/// Serializes a command map to an object's entry list.
pub fn serialize_cmds(cs: &Vec<(String, Command)>) -> (r: Vec<(String, JsonValue)>)
    ensures
        entries_view(r@) == spec_serialize_cmds(cmds_view(cs@)),
{
    let mut out: Vec<(String, JsonValue)> = Vec::new();
    let mut i: usize = 0;
    while i < cs.len()
        invariant
            0 <= i <= cs.len(),
            out@.len() == i,
            forall|k: int|
                0 <= k < i ==> (#[trigger] out@[k]).0@ == cs@[k].0@ && value_view(out@[k].1)
                    == spec_serialize_command(cs@[k].1@),
        decreases cs.len() - i,
    {
        out.push((cs[i].0.clone(), serialize_command(&cs[i].1)));
        i += 1;
    }
    proof {
        crate::value::lemma_entries_view(out@);
        assert(entries_view(out@) =~= spec_serialize_cmds(cmds_view(cs@)));
    }
    out
}

/// Serializes an error-reference list to an array's elements.
pub fn serialize_refs(es: &Vec<ErrorReference>) -> (r: Vec<JsonValue>)
    ensures
        values_view(r@) == spec_serialize_refs(refs_view(es@)),
{
    let mut out: Vec<JsonValue> = Vec::new();
    let mut i: usize = 0;
    while i < es.len()
        invariant
            0 <= i <= es.len(),
            out@.len() == i,
            forall|k: int|
                0 <= k < i ==> value_view(#[trigger] out@[k]) == ValueSpec::Obj(
                    seq![("reference"@, ValueSpec::Str(es@[k].reference@))],
                ),
        decreases es.len() - i,
    {
        let mut fs: Vec<(String, JsonValue)> = Vec::new();
        fs.push(("reference".to_owned(), JsonValue::Str(es[i].reference.clone())));
        proof {
            crate::value::lemma_entries_view(fs@);
            assert(entries_view(fs@) =~= seq![
                ("reference"@, ValueSpec::Str(es@[i as int].reference@)),
            ]);
        }
        out.push(JsonValue::Obj(fs));
        i += 1;
    }
    proof {
        crate::value::lemma_values_view(out@);
        assert(values_view(out@) =~= spec_serialize_refs(refs_view(es@)));
    }
    out
}

/// Serializes an interface back to document form.
pub fn serialize_interface(i: &Interface) -> (r: JsonValue)
    ensures
        value_view(r) == spec_serialize_interface(i@),
{
    let mut fs: Vec<(String, JsonValue)> = Vec::new();
    fs.push(("description".to_owned(), JsonValue::Str(i.description.clone())));
    fs.push(("cmds".to_owned(), JsonValue::Obj(serialize_cmds(&i.cmds))));
    fs.push(("vars".to_owned(), JsonValue::Obj(serialize_typemap(&i.vars))));
    fs.push(("errors".to_owned(), JsonValue::Arr(serialize_refs(&i.errors))));
    proof {
        crate::value::lemma_entries_view(fs@);
        assert(entries_view(fs@) =~= match spec_serialize_interface(i@) {
            ValueSpec::Obj(es) => es,
            _ => Seq::empty(),
        });
    }
    JsonValue::Obj(fs)
}

// ---------------------------------------------------------------------------
// Validating parsers.
// ---------------------------------------------------------------------------
/// A name-to-type map that fails on some prefix fails as a whole.
proof fn lemma_typemap_extends_none(es: Seq<(Seq<char>, ValueSpec)>, i: int)
    requires
        0 <= i <= es.len(),
        spec_parse_typemap(es.take(i)) is None,
    ensures
        spec_parse_typemap(es) is None,
    decreases es.len() - i,
{
    if i < es.len() {
        assert(es.take(i + 1).drop_last() =~= es.take(i));
        lemma_typemap_extends_none(es, i + 1);
    } else {
        assert(es.take(i) =~= es);
    }
}

/// A command map that fails on some prefix fails as a whole.
proof fn lemma_cmds_extends_none(es: Seq<(Seq<char>, ValueSpec)>, i: int)
    requires
        0 <= i <= es.len(),
        spec_parse_cmds(es.take(i)) is None,
    ensures
        spec_parse_cmds(es) is None,
    decreases es.len() - i,
{
    if i < es.len() {
        assert(es.take(i + 1).drop_last() =~= es.take(i));
        lemma_cmds_extends_none(es, i + 1);
    } else {
        assert(es.take(i) =~= es);
    }
}

/// A reference list that fails on some prefix fails as a whole.
proof fn lemma_refs_extends_none(vs: Seq<ValueSpec>, i: int)
    requires
        0 <= i <= vs.len(),
        spec_parse_refs(vs.take(i)) is None,
    ensures
        spec_parse_refs(vs) is None,
    decreases vs.len() - i,
{
    if i < vs.len() {
        assert(vs.take(i + 1).drop_last() =~= vs.take(i));
        lemma_refs_extends_none(vs, i + 1);
    } else {
        assert(vs.take(i) =~= vs);
    }
}

/// Validates a name-to-type map held as an object's entry list.
pub fn parse_typemap(fs: &Vec<(String, JsonValue)>) -> (r: Result<
    Vec<(String, Type)>,
    SchemaError,
>)
    ensures
        match r {
            Ok(tm) => spec_parse_typemap(entries_view(fs@)) == Some(typemap_view(tm@)),
            Err(_) => spec_parse_typemap(entries_view(fs@)) is None,
        },
{
    let ghost all = entries_view(fs@);
    proof {
        crate::value::lemma_entries_view(fs@);
        assert(all.take(0) =~= Seq::<(Seq<char>, ValueSpec)>::empty());
        assert(typemap_view(Seq::<(String, Type)>::empty()) =~= Seq::<(Seq<char>, Type)>::empty());
    }
    let mut out: Vec<(String, Type)> = Vec::new();
    let mut i: usize = 0;
    while i < fs.len()
        invariant
            0 <= i <= fs.len(),
            all == entries_view(fs@),
            all.len() == fs@.len(),
            forall|k: int|
                0 <= k < fs@.len() ==> #[trigger] all[k] == (fs@[k].0@, value_view(fs@[k].1)),
            spec_parse_typemap(all.take(i as int)) == Some(typemap_view(out@)),
        decreases fs.len() - i,
    {
        let ghost pre = typemap_view(out@);
        proof {
            assert(all.take(i as int + 1).drop_last() =~= all.take(i as int));
            assert(all.take(i as int + 1).last() == all[i as int]);
        }
        if has_key(&out, fs[i].0.as_str()) {
            proof {
                let j = choose|j: int| 0 <= j < out@.len() && out@[j].0@ == fs@[i as int].0@;
                assert(pre[j].0 == all[i as int].0);
                assert(spec_has_key(pre, all[i as int].0));
                lemma_typemap_extends_none(all, i as int + 1);
            }
            return Err(SchemaError::at(fs[i].0.as_str(), SchemaErrorKind::DuplicateName));
        }
        proof {
            if spec_has_key(pre, all[i as int].0) {
                let j = choose|j: int| 0 <= j < pre.len() && pre[j].0 == all[i as int].0;
                assert(out@[j].0@ == fs@[i as int].0@);
            }
        }
        match parse_type(&fs[i].1) {
            Ok(t) => {
                let key = fs[i].0.clone();
                out.push((key, t));
                proof {
                    assert(typemap_view(out@) =~= pre.push((all[i as int].0, t)));
                }
            },
            Err(e) => {
                proof {
                    lemma_typemap_extends_none(all, i as int + 1);
                }
                return Err(e);
            },
        }
        i += 1;
    }
    proof {
        assert(all.take(i as int) =~= all);
    }
    Ok(out)
}

/// Validates a command document.
pub fn parse_command(v: &JsonValue) -> (r: Result<Command, SchemaError>)
    ensures
        match r {
            Ok(c) => spec_parse_command(v@) == Some(c@),
            Err(e) => {
                &&& spec_parse_command(v@) is None
                &&& match v@ {
                    ValueSpec::Obj(fs) => {
                        &&& !spec_keys_among(fs, seq!["description"@, "arguments"@, "result"@])
                            ==> e.kind == SchemaErrorKind::UnknownField && spec_has_key(
                            fs,
                            e.path@,
                        ) && !seq!["description"@, "arguments"@, "result"@].contains(e.path@)
                        &&& (spec_keys_among(fs, seq!["description"@, "arguments"@, "result"@])
                            && spec_lookup(fs, "description"@) is None) ==> e.kind
                            == SchemaErrorKind::MissingField && e.path@ == "description"@
                    },
                    _ => e.kind == SchemaErrorKind::InvalidField,
                }
            },
        },
{
    match v {
        JsonValue::Obj(fs) => {
            let allowed: Vec<&str> = vec!["description", "arguments", "result"];
            proof {
                assert(strs_view(allowed@) =~= seq!["description"@, "arguments"@, "result"@]);
            }
            match first_unknown_key(fs, &allowed) {
                Some(k) => {
                    return Err(SchemaError::at(k.as_str(), SchemaErrorKind::UnknownField));
                },
                None => {},
            }
            let description: String = match get_field(fs, "description") {
                Some(JsonValue::Str(s)) => s.clone(),
                Some(_) => {
                    return Err(SchemaError::at("description", SchemaErrorKind::InvalidField));
                },
                None => { return Err(SchemaError::at("description", SchemaErrorKind::MissingField))
                },
            };
            let arguments: Vec<(String, Type)> = match get_field(fs, "arguments") {
                None => Vec::new(),
                Some(JsonValue::Obj(es)) => {
                    match parse_typemap(es) {
                        Ok(tm) => tm,
                        Err(e) => { return Err(e) },
                    }
                },
                Some(_) => {
                    return Err(SchemaError::at("arguments", SchemaErrorKind::InvalidField));
                },
            };
            let result: Option<Type> = match get_field(fs, "result") {
                None => None,
                Some(rv) => {
                    match rv {
                        JsonValue::Null => None,
                        _ => {
                            match parse_type(rv) {
                                Ok(t) => Some(t),
                                Err(e) => { return Err(e) },
                            }
                        },
                    }
                },
            };
            proof {
                assert(typemap_view(Seq::<(String, Type)>::empty()) =~= Seq::<
                    (Seq<char>, Type),
                >::empty());
            }
            Ok(Command { description, arguments, result })
        },
        _ => Err(SchemaError::at("cmds", SchemaErrorKind::InvalidField)),
    }
}

/// Validates a command map held as an object's entry list.
pub fn parse_cmds(fs: &Vec<(String, JsonValue)>) -> (r: Result<Vec<(String, Command)>, SchemaError>)
    ensures
        match r {
            Ok(cs) => spec_parse_cmds(entries_view(fs@)) == Some(cmds_view(cs@)),
            Err(_) => spec_parse_cmds(entries_view(fs@)) is None,
        },
{
    let ghost all = entries_view(fs@);
    proof {
        crate::value::lemma_entries_view(fs@);
        assert(all.take(0) =~= Seq::<(Seq<char>, ValueSpec)>::empty());
        assert(cmds_view(Seq::<(String, Command)>::empty()) =~= Seq::<
            (Seq<char>, CommandSpec),
        >::empty());
    }
    let mut out: Vec<(String, Command)> = Vec::new();
    let mut i: usize = 0;
    while i < fs.len()
        invariant
            0 <= i <= fs.len(),
            all == entries_view(fs@),
            all.len() == fs@.len(),
            forall|k: int|
                0 <= k < fs@.len() ==> #[trigger] all[k] == (fs@[k].0@, value_view(fs@[k].1)),
            spec_parse_cmds(all.take(i as int)) == Some(cmds_view(out@)),
        decreases fs.len() - i,
    {
        let ghost pre = cmds_view(out@);
        proof {
            assert(all.take(i as int + 1).drop_last() =~= all.take(i as int));
            assert(all.take(i as int + 1).last() == all[i as int]);
        }
        if has_key(&out, fs[i].0.as_str()) {
            proof {
                let j = choose|j: int| 0 <= j < out@.len() && out@[j].0@ == fs@[i as int].0@;
                assert(pre[j].0 == all[i as int].0);
                assert(spec_has_key(pre, all[i as int].0));
                lemma_cmds_extends_none(all, i as int + 1);
            }
            return Err(SchemaError::at(fs[i].0.as_str(), SchemaErrorKind::DuplicateName));
        }
        proof {
            if spec_has_key(pre, all[i as int].0) {
                let j = choose|j: int| 0 <= j < pre.len() && pre[j].0 == all[i as int].0;
                assert(out@[j].0@ == fs@[i as int].0@);
            }
        }
        match parse_command(&fs[i].1) {
            Ok(c) => {
                let key = fs[i].0.clone();
                out.push((key, c));
                proof {
                    assert(cmds_view(out@) =~= pre.push((all[i as int].0, c@)));
                }
            },
            Err(e) => {
                proof {
                    lemma_cmds_extends_none(all, i as int + 1);
                }
                return Err(e);
            },
        }
        i += 1;
    }
    proof {
        assert(all.take(i as int) =~= all);
    }
    Ok(out)
}

/// Validates an error-reference list held as an array's elements.
pub fn parse_refs(a: &Vec<JsonValue>) -> (r: Result<Vec<ErrorReference>, SchemaError>)
    ensures
        match r {
            Ok(es) => spec_parse_refs(values_view(a@)) == Some(refs_view(es@)),
            Err(_) => spec_parse_refs(values_view(a@)) is None,
        },
{
    let ghost all = values_view(a@);
    proof {
        crate::value::lemma_values_view(a@);
        assert(all.take(0) =~= Seq::<ValueSpec>::empty());
        assert(refs_view(Seq::<ErrorReference>::empty()) =~= Seq::<Seq<char>>::empty());
    }
    let mut out: Vec<ErrorReference> = Vec::new();
    let mut i: usize = 0;
    while i < a.len()
        invariant
            0 <= i <= a.len(),
            all == values_view(a@),
            all.len() == a@.len(),
            forall|k: int| 0 <= k < a@.len() ==> #[trigger] all[k] == value_view(a@[k]),
            spec_parse_refs(all.take(i as int)) == Some(refs_view(out@)),
        decreases a.len() - i,
    {
        let ghost pre = refs_view(out@);
        proof {
            assert(all.take(i as int + 1).drop_last() =~= all.take(i as int));
            assert(all.take(i as int + 1).last() == all[i as int]);
        }
        match &a[i] {
            JsonValue::Obj(fs) => {
                let allowed: Vec<&str> = vec!["reference"];
                proof {
                    assert(strs_view(allowed@) =~= seq!["reference"@]);
                }
                match first_unknown_key(fs, &allowed) {
                    Some(k) => {
                        proof {
                            lemma_refs_extends_none(all, i as int + 1);
                        }
                        return Err(SchemaError::at(k.as_str(), SchemaErrorKind::UnknownField));
                    },
                    None => {},
                }
                match get_field(fs, "reference") {
                    Some(JsonValue::Str(s)) => {
                        if !reference_wellformed(s.as_str()) {
                            proof {
                                lemma_refs_extends_none(all, i as int + 1);
                            }
                            return Err(
                                SchemaError::at(s.as_str(), SchemaErrorKind::MalformedReference),
                            );
                        }
                        out.push(ErrorReference { reference: s.clone() });
                        proof {
                            assert(refs_view(out@) =~= pre.push(s@));
                        }
                    },
                    Some(_) => {
                        proof {
                            lemma_refs_extends_none(all, i as int + 1);
                        }
                        return Err(SchemaError::at("reference", SchemaErrorKind::InvalidField));
                    },
                    None => {
                        proof {
                            lemma_refs_extends_none(all, i as int + 1);
                        }
                        return Err(SchemaError::at("reference", SchemaErrorKind::MissingField));
                    },
                }
            },
            _ => {
                proof {
                    lemma_refs_extends_none(all, i as int + 1);
                }
                return Err(SchemaError::at("errors", SchemaErrorKind::InvalidField));
            },
        }
        i += 1;
    }
    proof {
        assert(all.take(i as int) =~= all);
    }
    Ok(out)
}

/// Validates an interface document: the entry point of the interface side of
/// the schema model. Accepts a document exactly where the meaning function
/// `spec_parse_interface` is defined, and returns the model it gives.
pub fn parse_interface(v: &JsonValue) -> (r: Result<Interface, SchemaError>)
    ensures
        match r {
            Ok(i) => spec_parse_interface(v@) == Some(i@),
            Err(e) => {
                &&& spec_parse_interface(v@) is None
                &&& match v@ {
                    ValueSpec::Obj(fs) => {
                        &&& !spec_keys_among(fs, seq!["description"@, "cmds"@, "vars"@, "errors"@])
                            ==> e.kind == SchemaErrorKind::UnknownField && spec_has_key(
                            fs,
                            e.path@,
                        ) && !seq!["description"@, "cmds"@, "vars"@, "errors"@].contains(e.path@)
                        &&& (spec_keys_among(fs, seq!["description"@, "cmds"@, "vars"@, "errors"@])
                            && spec_lookup(fs, "description"@) is None) ==> e.kind
                            == SchemaErrorKind::MissingField && e.path@ == "description"@
                    },
                    _ => e.kind == SchemaErrorKind::InvalidField,
                }
            },
        },
{
    match v {
        JsonValue::Obj(fs) => {
            let allowed: Vec<&str> = vec!["description", "cmds", "vars", "errors"];
            proof {
                assert(strs_view(allowed@) =~= seq!["description"@, "cmds"@, "vars"@, "errors"@]);
            }
            match first_unknown_key(fs, &allowed) {
                Some(k) => {
                    return Err(SchemaError::at(k.as_str(), SchemaErrorKind::UnknownField));
                },
                None => {},
            }
            let description: String = match get_field(fs, "description") {
                Some(JsonValue::Str(s)) => s.clone(),
                Some(_) => {
                    return Err(SchemaError::at("description", SchemaErrorKind::InvalidField));
                },
                None => { return Err(SchemaError::at("description", SchemaErrorKind::MissingField))
                },
            };
            let cmds: Vec<(String, Command)> = match get_field(fs, "cmds") {
                None => Vec::new(),
                Some(JsonValue::Obj(es)) => {
                    match parse_cmds(es) {
                        Ok(cs) => cs,
                        Err(e) => { return Err(e) },
                    }
                },
                Some(_) => { return Err(SchemaError::at("cmds", SchemaErrorKind::InvalidField)) },
            };
            let vars: Vec<(String, Type)> = match get_field(fs, "vars") {
                None => Vec::new(),
                Some(JsonValue::Obj(es)) => {
                    match parse_typemap(es) {
                        Ok(tm) => tm,
                        Err(e) => { return Err(e) },
                    }
                },
                Some(_) => { return Err(SchemaError::at("vars", SchemaErrorKind::InvalidField)) },
            };
            let errors: Vec<ErrorReference> = match get_field(fs, "errors") {
                None => Vec::new(),
                Some(JsonValue::Arr(a)) => {
                    match parse_refs(a) {
                        Ok(es) => es,
                        Err(e) => { return Err(e) },
                    }
                },
                Some(_) => { return Err(SchemaError::at("errors", SchemaErrorKind::InvalidField)) },
            };
            proof {
                assert(cmds_view(Seq::<(String, Command)>::empty()) =~= Seq::<
                    (Seq<char>, CommandSpec),
                >::empty());
                assert(typemap_view(Seq::<(String, Type)>::empty()) =~= Seq::<
                    (Seq<char>, Type),
                >::empty());
                assert(refs_view(Seq::<ErrorReference>::empty()) =~= Seq::<Seq<char>>::empty());
            }
            Ok(Interface { description, cmds, vars, errors })
        },
        _ => Err(SchemaError::at("interface", SchemaErrorKind::InvalidField)),
    }
}

// ---------------------------------------------------------------------------
// The round trip of the schema model.
// ---------------------------------------------------------------------------
/// An accepted name-to-type map has unique names.
proof fn lemma_parse_typemap_unique(es: Seq<(Seq<char>, ValueSpec)>, tm: Seq<(Seq<char>, Type)>)
    requires
        spec_parse_typemap(es) == Some(tm),
    ensures
        unique_keys(tm),
    decreases es.len(),
{
    if es.len() == 0 {
    } else {
        match spec_parse_typemap(es.drop_last()) {
            Some(pre) => {
                lemma_parse_typemap_unique(es.drop_last(), pre);
                assert forall|i: int, j: int| 0 <= i < j < tm.len() implies (#[trigger] tm[i]).0
                    != (#[trigger] tm[j]).0 by {
                    if j < tm.len() - 1 {
                        assert(pre[i] == tm[i] && pre[j] == tm[j]);
                    } else {
                        assert(tm[i] == pre[i]);
                        if tm[i].0 == tm[j].0 {
                            assert(spec_has_key(pre, es.last().0));
                        }
                    }
                }
            },
            None => {
                assert(false);
            },
        }
    }
}

/// An accepted command is well formed.
proof fn lemma_parse_command_wf(v: ValueSpec, c: CommandSpec)
    requires
        spec_parse_command(v) == Some(c),
    ensures
        c.wf(),
{
    match v {
        ValueSpec::Obj(fs) => {
            match spec_lookup(fs, "arguments"@) {
                None => {},
                Some(av) => {
                    match av {
                        ValueSpec::Obj(es) => {
                            lemma_parse_typemap_unique(es, c.arguments);
                        },
                        _ => {
                            assert(false);
                        },
                    }
                },
            }
        },
        _ => {
            assert(false);
        },
    }
}

/// An accepted command map has unique names and well-formed commands.
proof fn lemma_parse_cmds_wf(es: Seq<(Seq<char>, ValueSpec)>, cs: Seq<(Seq<char>, CommandSpec)>)
    requires
        spec_parse_cmds(es) == Some(cs),
    ensures
        unique_keys(cs),
        forall|i: int| 0 <= i < cs.len() ==> (#[trigger] cs[i]).1.wf(),
    decreases es.len(),
{
    if es.len() == 0 {
    } else {
        match spec_parse_cmds(es.drop_last()) {
            Some(pre) => {
                lemma_parse_cmds_wf(es.drop_last(), pre);
                match spec_parse_command(es.last().1) {
                    Some(c) => {
                        lemma_parse_command_wf(es.last().1, c);
                    },
                    None => {
                        assert(false);
                    },
                }
                assert forall|i: int, j: int| 0 <= i < j < cs.len() implies (#[trigger] cs[i]).0
                    != (#[trigger] cs[j]).0 by {
                    if j < cs.len() - 1 {
                        assert(pre[i] == cs[i] && pre[j] == cs[j]);
                    } else {
                        assert(cs[i] == pre[i]);
                        if cs[i].0 == cs[j].0 {
                            assert(spec_has_key(pre, es.last().0));
                        }
                    }
                }
                assert forall|i: int| 0 <= i < cs.len() implies (#[trigger] cs[i]).1.wf() by {
                    if i < cs.len() - 1 {
                        assert(cs[i] == pre[i]);
                    }
                }
            },
            None => {
                assert(false);
            },
        }
    }
}

/// An accepted error-reference list holds only well-formed references.
proof fn lemma_parse_refs_wellformed(vs: Seq<ValueSpec>, es: Seq<Seq<char>>)
    requires
        spec_parse_refs(vs) == Some(es),
    ensures
        forall|i: int| 0 <= i < es.len() ==> spec_wellformed_reference(#[trigger] es[i]),
    decreases vs.len(),
{
    if vs.len() == 0 {
    } else {
        match spec_parse_refs(vs.drop_last()) {
            Some(pre) => {
                lemma_parse_refs_wellformed(vs.drop_last(), pre);
                assert forall|i: int|
                    0 <= i < es.len() implies spec_wellformed_reference(#[trigger] es[i]) by {
                    if i < es.len() - 1 {
                        assert(es[i] == pre[i]);
                    }
                }
            },
            None => {
                assert(false);
            },
        }
    }
}

/// An accepted interface document yields a well-formed model.
pub proof fn lemma_parse_interface_wf(d: ValueSpec, m: InterfaceSpec)
    requires
        spec_parse_interface(d) == Some(m),
    ensures
        m.wf(),
{
    match d {
        ValueSpec::Obj(fs) => {
            match spec_lookup(fs, "cmds"@) {
                None => {},
                Some(cv) => {
                    match cv {
                        ValueSpec::Obj(es) => {
                            lemma_parse_cmds_wf(es, m.cmds);
                        },
                        _ => {
                            assert(false);
                        },
                    }
                },
            }
            match spec_lookup(fs, "vars"@) {
                None => {},
                Some(vv) => {
                    match vv {
                        ValueSpec::Obj(es) => {
                            lemma_parse_typemap_unique(es, m.vars);
                        },
                        _ => {
                            assert(false);
                        },
                    }
                },
            }
            match spec_lookup(fs, "errors"@) {
                None => {},
                Some(ev) => {
                    match ev {
                        ValueSpec::Arr(a) => {
                            lemma_parse_refs_wellformed(a, m.errors);
                        },
                        _ => {
                            assert(false);
                        },
                    }
                },
            }
        },
        _ => {
            assert(false);
        },
    }
}

/// A serialized name-to-type map with unique names parses back to itself.
proof fn lemma_round_trip_typemap(tm: Seq<(Seq<char>, Type)>)
    requires
        unique_keys(tm),
    ensures
        spec_parse_typemap(spec_serialize_typemap(tm)) == Some(tm),
    decreases tm.len(),
{
    reveal_strlit("type");
    let ser = spec_serialize_typemap(tm);
    if tm.len() == 0 {
        assert(ser =~= Seq::<(Seq<char>, ValueSpec)>::empty());
        assert(tm =~= Seq::<(Seq<char>, Type)>::empty());
    } else {
        assert(unique_keys(tm.drop_last())) by {
            assert forall|i: int, j: int|
                0 <= i < j < tm.drop_last().len() implies (#[trigger] tm.drop_last()[i]).0
                != (#[trigger] tm.drop_last()[j]).0 by {
                assert(tm.drop_last()[i] == tm[i] && tm.drop_last()[j] == tm[j]);
            }
        }
        lemma_round_trip_typemap(tm.drop_last());
        assert(ser.drop_last() =~= spec_serialize_typemap(tm.drop_last()));
        assert(ser.last() == (tm.last().0, spec_serialize_type(tm.last().1)));
        if spec_has_key(tm.drop_last(), tm.last().0) {
            let j = choose|j: int|
                0 <= j < tm.drop_last().len() && (#[trigger] tm.drop_last()[j]).0 == tm.last().0;
            assert(tm[j].0 == tm[tm.len() - 1].0);
            assert(false);
        }
        crate::types::lemma_type_round_trip(tm.last().1);
        assert(tm.drop_last().push(tm.last()) =~= tm);
    }
}

/// The field names of a command document, pairwise distinct.
proof fn lemma_command_field_names()
    ensures
        "description"@ != "arguments"@,
        "description"@ != "result"@,
        "arguments"@ != "result"@,
        "description"@.len() == 11,
        "arguments"@.len() == 9,
        "result"@.len() == 6,
{
    reveal_strlit("description");
    reveal_strlit("arguments");
    reveal_strlit("result");
    assert("description"@.len() == 11);
    assert("arguments"@.len() == 9);
    assert("result"@.len() == 6);
}

/// A serialized well-formed command parses back to itself.
proof fn lemma_round_trip_command(c: CommandSpec)
    requires
        c.wf(),
    ensures
        spec_parse_command(spec_serialize_command(c)) == Some(c),
{
    lemma_command_field_names();
    reveal_with_fuel(spec_lookup, 4);
    let ser = spec_serialize_command(c);
    let fs = match ser {
        ValueSpec::Obj(es) => es,
        _ => Seq::empty(),
    };
    let allowed = seq!["description"@, "arguments"@, "result"@];
    assert(spec_keys_among(fs, allowed)) by {
        assert forall|i: int| 0 <= i < fs.len() implies allowed.contains(#[trigger] fs[i].0) by {
            if i == 0 {
                assert(allowed[0] == fs[i].0);
            } else if i == 1 {
                assert(allowed[1] == fs[i].0);
            } else {
                assert(allowed[2] == fs[i].0);
            }
        }
    }
    assert(spec_lookup(fs, "description"@) == Some(ValueSpec::Str(c.description)));
    assert(fs.drop_first() =~= seq![
        ("arguments"@, ValueSpec::Obj(spec_serialize_typemap(c.arguments))),
        (
            "result"@,
            match c.result {
                None => ValueSpec::Null,
                Some(t) => spec_serialize_type(t),
            },
        ),
    ]);
    assert(spec_lookup(fs, "arguments"@) == Some(
        ValueSpec::Obj(spec_serialize_typemap(c.arguments)),
    ));
    assert(fs.drop_first().drop_first() =~= seq![
        (
            "result"@,
            match c.result {
                None => ValueSpec::Null,
                Some(t) => spec_serialize_type(t),
            },
        ),
    ]);
    lemma_round_trip_typemap(c.arguments);
    match c.result {
        None => {
            assert(spec_lookup(fs, "result"@) == Some(ValueSpec::Null));
        },
        Some(t) => {
            assert(spec_lookup(fs, "result"@) == Some(spec_serialize_type(t)));
            crate::types::lemma_type_round_trip(t);
        },
    }
    assert(spec_parse_command(ser) == Some(c)) by {
        match spec_parse_command(ser) {
            Some(c2) => {
                assert(c2 =~= c);
            },
            None => {},
        }
    }
}

/// A serialized command map with unique names and well-formed commands
/// parses back to itself.
proof fn lemma_round_trip_cmds(cs: Seq<(Seq<char>, CommandSpec)>)
    requires
        unique_keys(cs),
        forall|i: int| 0 <= i < cs.len() ==> (#[trigger] cs[i]).1.wf(),
    ensures
        spec_parse_cmds(spec_serialize_cmds(cs)) == Some(cs),
    decreases cs.len(),
{
    let ser = spec_serialize_cmds(cs);
    if cs.len() == 0 {
        assert(ser =~= Seq::<(Seq<char>, ValueSpec)>::empty());
        assert(cs =~= Seq::<(Seq<char>, CommandSpec)>::empty());
    } else {
        assert(unique_keys(cs.drop_last())) by {
            assert forall|i: int, j: int|
                0 <= i < j < cs.drop_last().len() implies (#[trigger] cs.drop_last()[i]).0
                != (#[trigger] cs.drop_last()[j]).0 by {
                assert(cs.drop_last()[i] == cs[i] && cs.drop_last()[j] == cs[j]);
            }
        }
        assert(forall|i: int|
            0 <= i < cs.drop_last().len() ==> (#[trigger] cs.drop_last()[i]).1.wf());
        lemma_round_trip_cmds(cs.drop_last());
        assert(ser.drop_last() =~= spec_serialize_cmds(cs.drop_last()));
        assert(ser.last() == (cs.last().0, spec_serialize_command(cs.last().1)));
        if spec_has_key(cs.drop_last(), cs.last().0) {
            let j = choose|j: int|
                0 <= j < cs.drop_last().len() && (#[trigger] cs.drop_last()[j]).0 == cs.last().0;
            assert(cs[j].0 == cs[cs.len() - 1].0);
            assert(false);
        }
        assert(cs.last().1.wf());
        lemma_round_trip_command(cs.last().1);
        assert(cs.drop_last().push(cs.last()) =~= cs);
    }
}

/// A serialized list of well-formed error references parses back to
/// itself.
proof fn lemma_round_trip_refs(es: Seq<Seq<char>>)
    requires
        forall|i: int| 0 <= i < es.len() ==> spec_wellformed_reference(#[trigger] es[i]),
    ensures
        spec_parse_refs(spec_serialize_refs(es)) == Some(es),
    decreases es.len(),
{
    let ser = spec_serialize_refs(es);
    if es.len() == 0 {
        assert(ser =~= Seq::<ValueSpec>::empty());
        assert(es =~= Seq::<Seq<char>>::empty());
    } else {
        assert forall|i: int|
            0 <= i < es.drop_last().len() implies spec_wellformed_reference(
            #[trigger] es.drop_last()[i],
        ) by {
            assert(es.drop_last()[i] == es[i]);
        }
        lemma_round_trip_refs(es.drop_last());
        assert(spec_wellformed_reference(es.last()));
        assert(ser.drop_last() =~= spec_serialize_refs(es.drop_last()));
        assert(ser.last() == ValueSpec::Obj(seq![("reference"@, ValueSpec::Str(es.last()))]));
        let fs = seq![("reference"@, ValueSpec::Str(es.last()))];
        assert(spec_keys_among(fs, seq!["reference"@])) by {
            assert forall|i: int| 0 <= i < fs.len() implies seq!["reference"@].contains(
                #[trigger] fs[i].0,
            ) by {
                assert(seq!["reference"@][0] == fs[i].0);
            }
        }
        assert(spec_lookup(fs, "reference"@) == Some(ValueSpec::Str(es.last())));
        assert(es.drop_last().push(es.last()) =~= es);
    }
}

/// The field names of an interface document, pairwise distinct.
proof fn lemma_interface_field_names()
    ensures
        "description"@ != "cmds"@,
        "description"@ != "vars"@,
        "description"@ != "errors"@,
        "cmds"@ != "vars"@,
        "cmds"@ != "errors"@,
        "vars"@ != "errors"@,
{
    reveal_strlit("description");
    reveal_strlit("cmds");
    reveal_strlit("vars");
    reveal_strlit("errors");
    assert("description"@.len() == 11);
    assert("cmds"@.len() == 4);
    assert("vars"@.len() == 4);
    assert("errors"@.len() == 6);
    assert("cmds"@[0] == 'c');
    assert("vars"@[0] == 'v');
}

/// Serializing a well-formed interface model and parsing the result gives
/// the model back.
pub proof fn lemma_serialize_parse_interface(m: InterfaceSpec)
    requires
        m.wf(),
    ensures
        spec_parse_interface(spec_serialize_interface(m)) == Some(m),
{
    lemma_interface_field_names();
    reveal_with_fuel(spec_lookup, 5);
    let ser = spec_serialize_interface(m);
    let fs = match ser {
        ValueSpec::Obj(es) => es,
        _ => Seq::empty(),
    };
    let allowed = seq!["description"@, "cmds"@, "vars"@, "errors"@];
    assert(spec_keys_among(fs, allowed)) by {
        assert forall|i: int| 0 <= i < fs.len() implies allowed.contains(#[trigger] fs[i].0) by {
            if i == 0 {
                assert(allowed[0] == fs[i].0);
            } else if i == 1 {
                assert(allowed[1] == fs[i].0);
            } else if i == 2 {
                assert(allowed[2] == fs[i].0);
            } else {
                assert(allowed[3] == fs[i].0);
            }
        }
    }
    assert(spec_lookup(fs, "description"@) == Some(ValueSpec::Str(m.description)));
    assert(fs.drop_first() =~= seq![
        ("cmds"@, ValueSpec::Obj(spec_serialize_cmds(m.cmds))),
        ("vars"@, ValueSpec::Obj(spec_serialize_typemap(m.vars))),
        ("errors"@, ValueSpec::Arr(spec_serialize_refs(m.errors))),
    ]);
    assert(spec_lookup(fs, "cmds"@) == Some(ValueSpec::Obj(spec_serialize_cmds(m.cmds))));
    assert(fs.drop_first().drop_first() =~= seq![
        ("vars"@, ValueSpec::Obj(spec_serialize_typemap(m.vars))),
        ("errors"@, ValueSpec::Arr(spec_serialize_refs(m.errors))),
    ]);
    assert(spec_lookup(fs, "vars"@) == Some(ValueSpec::Obj(spec_serialize_typemap(m.vars))));
    assert(fs.drop_first().drop_first().drop_first() =~= seq![
        ("errors"@, ValueSpec::Arr(spec_serialize_refs(m.errors))),
    ]);
    assert(spec_lookup(fs, "errors"@) == Some(ValueSpec::Arr(spec_serialize_refs(m.errors))));
    lemma_round_trip_cmds(m.cmds);
    lemma_round_trip_typemap(m.vars);
    lemma_round_trip_refs(m.errors);
    assert(spec_parse_interface(ser) == Some(m)) by {
        match spec_parse_interface(ser) {
            Some(m2) => {
                assert(m2 =~= m);
            },
            None => {},
        }
    }
}

/// The round trip of the schema model: parsing a valid interface document,
/// serializing the model and parsing again yields an equal structural model.
pub proof fn lemma_interface_round_trip(d: ValueSpec, m: InterfaceSpec)
    requires
        spec_parse_interface(d) == Some(m),
    ensures
        m.wf(),
        spec_parse_interface(spec_serialize_interface(m)) == Some(m),
{
    lemma_parse_interface_wf(d, m);
    lemma_serialize_parse_interface(m);
}

} // verus!
