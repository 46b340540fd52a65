//! The manifest side of the schema model: what a module provides and
//! requires, its configuration entries, capabilities and feature flags,
//! validated from document form.

use vstd::prelude::*;

use crate::types::BooleanOptions;
use crate::types::IntegerOptions;
use crate::types::NumberDefault;
use crate::types::NumberDefaultSpec;
use crate::types::NumberOptions;
use crate::types::SchemaError;
use crate::types::SchemaErrorKind;
use crate::types::StringOptions;
use crate::value::JsonValue;
use crate::value::ValueSpec;
use crate::value::entries_view;
use crate::value::first_unknown_key;
use crate::value::get_field;
use crate::value::has_key;
use crate::value::spec_has_key;
use crate::value::spec_keys_among;
use crate::value::spec_lookup;
use crate::value::str_eq;
use crate::value::strs_view;
use crate::value::value_view;
use crate::value::values_view;

verus! {

/// Licensing and authorship of a module.
#[derive(Debug)]
pub struct Metadata {
    pub license: String,
    pub authors: Vec<String>,
}

/// Mathematical model of the metadata block.
#[verifier::ext_equal]
pub struct MetadataSpec {
    pub license: Seq<char>,
    pub authors: Seq<Seq<char>>,
}

impl View for Metadata {
    type V = MetadataSpec;

    open spec fn view(&self) -> MetadataSpec {
        MetadataSpec {
            license: self.license@,
            authors: Seq::new(self.authors@.len(), |i: int| self.authors@[i]@),
        }
    }
}

/// Which parts of a required interface a module chooses not to consume.
#[derive(Debug)]
pub struct Ignore {
    pub vars: Vec<String>,
    pub errors: bool,
}

/// Mathematical model of an ignore block. The variable names form a set:
/// parsing keeps the first occurrence of a repeated name.
#[verifier::ext_equal]
pub struct IgnoreSpec {
    pub vars: Seq<Seq<char>>,
    pub errors: bool,
}

impl View for Ignore {
    type V = IgnoreSpec;

    open spec fn view(&self) -> IgnoreSpec {
        IgnoreSpec { vars: Seq::new(self.vars@.len(), |i: int| self.vars@[i]@), errors: self.errors }
    }
}

/// One interface a module depends on.
#[derive(Debug)]
pub struct RequiresEntry {
    pub interface: String,
    pub min_connections: Option<i64>,
    pub max_connections: Option<i64>,
    pub ignore: Ignore,
}

/// Mathematical model of a requirement.
#[verifier::ext_equal]
pub struct RequiresEntrySpec {
    pub interface: Seq<char>,
    pub min_connections: Option<i64>,
    pub max_connections: Option<i64>,
    pub ignore: IgnoreSpec,
}

impl View for RequiresEntry {
    type V = RequiresEntrySpec;

    open spec fn view(&self) -> RequiresEntrySpec {
        RequiresEntrySpec {
            interface: self.interface@,
            min_connections: self.min_connections,
            max_connections: self.max_connections,
            ignore: self.ignore@,
        }
    }
}

/// Read/write discipline of a configuration value; read-only where the
/// document says nothing.
#[derive(Clone, Copy, Debug, PartialEq, Eq, Structural)]
pub enum MutabilityEnum {
    ReadOnly,
    ReadWrite,
    WriteOnly,
}

impl MutabilityEnum {
    /// The mutability a configuration entry has where its document does not
    /// name one.
    pub fn default() -> (r: Self)
        ensures
            r == MutabilityEnum::ReadOnly,
    {
        MutabilityEnum::ReadOnly
    }
}

/// The typed value of a configuration entry.
#[derive(Debug)]
pub enum ConfigEnum {
    Boolean(BooleanOptions),
    String(StringOptions),
    Integer(IntegerOptions),
    Number(NumberOptions),
}

/// Mathematical model of a configuration value: the declared type with its
/// optional default. A numeric default is kept as the document carried it,
/// an integer or an opaque literal.
pub enum ConfigValueSpec {
    Boolean(Option<bool>),
    Str(Option<Seq<char>>),
    Integer(Option<i64>),
    Number(Option<NumberDefaultSpec>),
}

impl View for ConfigEnum {
    type V = ConfigValueSpec;

    open spec fn view(&self) -> ConfigValueSpec {
        match self {
            ConfigEnum::Boolean(o) => ConfigValueSpec::Boolean(o.default),
            ConfigEnum::String(o) => ConfigValueSpec::Str(
                match o.default {
                    Some(d) => Some(d@),
                    None => None,
                },
            ),
            ConfigEnum::Integer(o) => ConfigValueSpec::Integer(o.default),
            ConfigEnum::Number(o) => ConfigValueSpec::Number(
                match &o.default {
                    Some(d) => Some(d@),
                    None => None,
                },
            ),
        }
    }
}

/// One configuration value with its description and mutability.
#[derive(Debug)]
pub struct ConfigEntry {
    pub description: Option<String>,
    pub value: ConfigEnum,
    pub mutability: MutabilityEnum,
}

/// Mathematical model of a configuration entry.
#[verifier::ext_equal]
pub struct ConfigEntrySpec {
    pub description: Option<Seq<char>>,
    pub value: ConfigValueSpec,
    pub mutability: MutabilityEnum,
}

impl View for ConfigEntry {
    type V = ConfigEntrySpec;

    open spec fn view(&self) -> ConfigEntrySpec {
        ConfigEntrySpec {
            description: match self.description {
                Some(d) => Some(d@),
                None => None,
            },
            value: self.value@,
            mutability: self.mutability,
        }
    }
}

/// One implementation a module offers.
#[derive(Debug)]
pub struct ProvidesEntry {
    pub interface: String,
    pub description: String,
    pub config: Vec<(String, ConfigEntry)>,
}

/// Mathematical model of a provided implementation.
#[verifier::ext_equal]
pub struct ProvidesEntrySpec {
    pub interface: Seq<char>,
    pub description: Seq<char>,
    pub config: Seq<(Seq<char>, ConfigEntrySpec)>,
}

/// The model of a configuration map held as an entry list.
pub open spec fn config_view(s: Seq<(String, ConfigEntry)>) -> Seq<(Seq<char>, ConfigEntrySpec)> {
    Seq::new(s.len(), |i: int| (s[i].0@, s[i].1@))
}

impl View for ProvidesEntry {
    type V = ProvidesEntrySpec;

    open spec fn view(&self) -> ProvidesEntrySpec {
        ProvidesEntrySpec {
            interface: self.interface@,
            description: self.description@,
            config: config_view(self.config@),
        }
    }
}

/// What a module provides and requires, with its configuration,
/// capabilities and feature flags.
#[derive(Debug)]
pub struct Manifest {
    pub description: String,
    pub metadata: Metadata,
    pub provides: Vec<(String, ProvidesEntry)>,
    pub requires: Vec<(String, RequiresEntry)>,
    pub enable_telemetry: bool,
    pub config: Vec<(String, ConfigEntry)>,
    pub capabilities: Vec<String>,
    pub enable_global_errors: bool,
}

/// Mathematical model of a manifest.
#[verifier::ext_equal]
pub struct ManifestSpec {
    pub description: Seq<char>,
    pub metadata: MetadataSpec,
    pub provides: Seq<(Seq<char>, ProvidesEntrySpec)>,
    pub requires: Seq<(Seq<char>, RequiresEntrySpec)>,
    pub enable_telemetry: bool,
    pub config: Seq<(Seq<char>, ConfigEntrySpec)>,
    pub capabilities: Seq<Seq<char>>,
    pub enable_global_errors: bool,
}

/// The model of the provides map.
pub open spec fn provides_view(s: Seq<(String, ProvidesEntry)>) -> Seq<
    (Seq<char>, ProvidesEntrySpec),
> {
    Seq::new(s.len(), |i: int| (s[i].0@, s[i].1@))
}

/// The model of the requires map.
pub open spec fn requires_view(s: Seq<(String, RequiresEntry)>) -> Seq<
    (Seq<char>, RequiresEntrySpec),
> {
    Seq::new(s.len(), |i: int| (s[i].0@, s[i].1@))
}

/// The models of a list of strings.
pub open spec fn strings_view(s: Seq<String>) -> Seq<Seq<char>> {
    Seq::new(s.len(), |i: int| s[i]@)
}

impl View for Manifest {
    type V = ManifestSpec;

    open spec fn view(&self) -> ManifestSpec {
        ManifestSpec {
            description: self.description@,
            metadata: self.metadata@,
            provides: provides_view(self.provides@),
            requires: requires_view(self.requires@),
            enable_telemetry: self.enable_telemetry,
            config: config_view(self.config@),
            capabilities: strings_view(self.capabilities@),
            enable_global_errors: self.enable_global_errors,
        }
    }
}

// ---------------------------------------------------------------------------
// What manifest documents mean.
// ---------------------------------------------------------------------------
/// A list of strings in document form, order and repetitions kept.
pub open spec fn spec_parse_strings(vs: Seq<ValueSpec>) -> Option<Seq<Seq<char>>>
    decreases vs.len(),
{
    if vs.len() == 0 {
        Some(Seq::empty())
    } else {
        match spec_parse_strings(vs.drop_last()) {
            None => None,
            Some(pre) => match vs.last() {
                ValueSpec::Str(s) => Some(pre.push(s)),
                _ => None,
            },
        }
    }
}

/// A set of strings in document form: the first occurrence of a repeated
/// name is kept, later ones are dropped.
pub open spec fn spec_parse_string_set(vs: Seq<ValueSpec>) -> Option<Seq<Seq<char>>>
    decreases vs.len(),
{
    if vs.len() == 0 {
        Some(Seq::empty())
    } else {
        match spec_parse_string_set(vs.drop_last()) {
            None => None,
            Some(pre) => match vs.last() {
                ValueSpec::Str(s) => if pre.contains(s) {
                    Some(pre)
                } else {
                    Some(pre.push(s))
                },
                _ => None,
            },
        }
    }
}

/// The document name of each mutability.
pub open spec fn spec_parse_mutability(s: Seq<char>) -> Option<MutabilityEnum> {
    if s == "ReadOnly"@ {
        Some(MutabilityEnum::ReadOnly)
    } else if s == "ReadWrite"@ {
        Some(MutabilityEnum::ReadWrite)
    } else if s == "WriteOnly"@ {
        Some(MutabilityEnum::WriteOnly)
    } else {
        None
    }
}

/// A configuration entry in document form: a required `type` tag naming one
/// of the four value kinds, an optional typed `default`, an optional
/// `description` and an optional `mutability`. A numeric default is kept as
/// the document carried it, an integer node or an opaque numeric literal.
pub open spec fn spec_parse_config_entry(v: ValueSpec) -> Option<ConfigEntrySpec> {
    match v {
        ValueSpec::Obj(fs) => {
            if !spec_keys_among(fs, seq!["description"@, "type"@, "default"@, "mutability"@]) {
                None
            } else {
                let desc = match spec_lookup(fs, "description"@) {
                    None => Some(None),
                    Some(ValueSpec::Str(s)) => Some(Some(s)),
                    Some(_) => None,
                };
                match desc {
                    None => None,
                    Some(d) => {
                        let mutb = match spec_lookup(fs, "mutability"@) {
                            None => Some(MutabilityEnum::ReadOnly),
                            Some(ValueSpec::Str(s)) => spec_parse_mutability(s),
                            Some(_) => None,
                        };
                        match mutb {
                            None => None,
                            Some(m) => {
                                let value = match spec_lookup(fs, "type"@) {
                                    Some(ValueSpec::Str(tag)) => if tag == "boolean"@ {
                                        match spec_lookup(fs, "default"@) {
                                            None => Some(ConfigValueSpec::Boolean(None)),
                                            Some(ValueSpec::Bool(b)) => Some(
                                                ConfigValueSpec::Boolean(Some(b)),
                                            ),
                                            Some(_) => None,
                                        }
                                    } else if tag == "string"@ {
                                        match spec_lookup(fs, "default"@) {
                                            None => Some(ConfigValueSpec::Str(None)),
                                            Some(ValueSpec::Str(s)) => Some(
                                                ConfigValueSpec::Str(Some(s)),
                                            ),
                                            Some(_) => None,
                                        }
                                    } else if tag == "integer"@ {
                                        match spec_lookup(fs, "default"@) {
                                            None => Some(ConfigValueSpec::Integer(None)),
                                            Some(ValueSpec::Int(n)) => Some(
                                                ConfigValueSpec::Integer(
                                                    Some(n as i64),
                                                ),
                                            ),
                                            Some(_) => None,
                                        }
                                    } else if tag == "number"@ {
                                        match spec_lookup(fs, "default"@) {
                                            None => Some(ConfigValueSpec::Number(None)),
                                            Some(ValueSpec::Int(n)) => Some(
                                                ConfigValueSpec::Number(
                                                    Some(NumberDefaultSpec::Integer(n as i64)),
                                                ),
                                            ),
                                            Some(ValueSpec::Num(x)) => Some(
                                                ConfigValueSpec::Number(
                                                    Some(NumberDefaultSpec::Literal(x)),
                                                ),
                                            ),
                                            Some(_) => None,
                                        }
                                    } else {
                                        None
                                    },
                                    _ => None,
                                };
                                match value {
                                    None => None,
                                    Some(val) => Some(
                                        ConfigEntrySpec { description: d, value: val, mutability: m },
                                    ),
                                }
                            },
                        }
                    },
                }
            }
        },
        _ => None,
    }
}

/// A configuration map in document form: names unique, document order kept.
pub open spec fn spec_parse_config_map(es: Seq<(Seq<char>, ValueSpec)>) -> Option<
    Seq<(Seq<char>, ConfigEntrySpec)>,
>
    decreases es.len(),
{
    if es.len() == 0 {
        Some(Seq::empty())
    } else {
        match spec_parse_config_map(es.drop_last()) {
            None => None,
            Some(pre) => {
                if spec_has_key(pre, es.last().0) {
                    None
                } else {
                    match spec_parse_config_entry(es.last().1) {
                        Some(c) => Some(pre.push((es.last().0, c))),
                        None => None,
                    }
                }
            },
        }
    }
}

/// A metadata block in document form: a required license and a required
/// author list.
pub open spec fn spec_parse_metadata(v: ValueSpec) -> Option<MetadataSpec> {
    match v {
        ValueSpec::Obj(fs) => {
            if !spec_keys_among(fs, seq!["license"@, "authors"@]) {
                None
            } else {
                match spec_lookup(fs, "license"@) {
                    Some(ValueSpec::Str(l)) => {
                        match spec_lookup(fs, "authors"@) {
                            Some(ValueSpec::Arr(a)) => match spec_parse_strings(a) {
                                Some(au) => Some(MetadataSpec { license: l, authors: au }),
                                None => None,
                            },
                            _ => None,
                        }
                    },
                    _ => None,
                }
            }
        },
        _ => None,
    }
}

/// An ignore block in document form: an optional variable-name set and an
/// optional error-suppression flag.
pub open spec fn spec_parse_ignore(v: ValueSpec) -> Option<IgnoreSpec> {
    match v {
        ValueSpec::Obj(fs) => {
            if !spec_keys_among(fs, seq!["vars"@, "errors"@]) {
                None
            } else {
                let vars = match spec_lookup(fs, "vars"@) {
                    None => Some(Seq::<Seq<char>>::empty()),
                    Some(ValueSpec::Arr(a)) => spec_parse_string_set(a),
                    Some(_) => None,
                };
                match vars {
                    None => None,
                    Some(vs) => match spec_lookup(fs, "errors"@) {
                        None => Some(IgnoreSpec { vars: vs, errors: false }),
                        Some(ValueSpec::Bool(b)) => Some(IgnoreSpec { vars: vs, errors: b }),
                        Some(_) => None,
                    },
                }
            }
        },
        _ => None,
    }
}

/// A requirement in document form: a required interface name, optional
/// connection bounds with the minimum not above the maximum, and an
/// optional ignore block.
pub open spec fn spec_parse_requires_entry(v: ValueSpec) -> Option<RequiresEntrySpec> {
    match v {
        ValueSpec::Obj(fs) => {
            if !spec_keys_among(
                fs,
                seq!["interface"@, "min_connections"@, "max_connections"@, "ignore"@],
            ) {
                None
            } else {
                match spec_lookup(fs, "interface"@) {
                    Some(ValueSpec::Str(itf)) => {
                        let mn = match spec_lookup(fs, "min_connections"@) {
                            None => Some(None),
                            Some(ValueSpec::Int(n)) => Some(Some(n)),
                            Some(_) => None,
                        };
                        match mn {
                            None => None,
                            Some(mno) => {
                                let mx = match spec_lookup(fs, "max_connections"@) {
                                    None => Some(None),
                                    Some(ValueSpec::Int(n)) => Some(Some(n)),
                                    Some(_) => None,
                                };
                                match mx {
                                    None => None,
                                    Some(mxo) => {
                                        if match (mno, mxo) {
                                            (Some(a), Some(b)) => a > b,
                                            _ => false,
                                        } {
                                            None
                                        } else {
                                            let ign = match spec_lookup(fs, "ignore"@) {
                                                None => Some(
                                                    IgnoreSpec { vars: Seq::empty(), errors: false },
                                                ),
                                                Some(iv) => spec_parse_ignore(iv),
                                            };
                                            match ign {
                                                None => None,
                                                Some(ig) => Some(
                                                    RequiresEntrySpec {
                                                        interface: itf,
                                                        min_connections: match mno {
                                                            Some(a) => Some(a as i64),
                                                            None => None,
                                                        },
                                                        max_connections: match mxo {
                                                            Some(b) => Some(b as i64),
                                                            None => None,
                                                        },
                                                        ignore: ig,
                                                    },
                                                ),
                                            }
                                        }
                                    },
                                }
                            },
                        }
                    },
                    _ => None,
                }
            }
        },
        _ => None,
    }
}

/// A provided implementation in document form: a required interface name, a
/// required description and an optional configuration map.
pub open spec fn spec_parse_provides_entry(v: ValueSpec) -> Option<ProvidesEntrySpec> {
    match v {
        ValueSpec::Obj(fs) => {
            if !spec_keys_among(fs, seq!["interface"@, "description"@, "config"@]) {
                None
            } else {
                match spec_lookup(fs, "interface"@) {
                    Some(ValueSpec::Str(itf)) => {
                        match spec_lookup(fs, "description"@) {
                            Some(ValueSpec::Str(d)) => {
                                let cfg = match spec_lookup(fs, "config"@) {
                                    None => Some(Seq::<(Seq<char>, ConfigEntrySpec)>::empty()),
                                    Some(ValueSpec::Obj(es)) => spec_parse_config_map(es),
                                    Some(_) => None,
                                };
                                match cfg {
                                    None => None,
                                    Some(c) => Some(
                                        ProvidesEntrySpec {
                                            interface: itf,
                                            description: d,
                                            config: c,
                                        },
                                    ),
                                }
                            },
                            _ => None,
                        }
                    },
                    _ => None,
                }
            }
        },
        _ => None,
    }
}

/// The provides map in document form: implementation ids unique.
pub open spec fn spec_parse_provides_map(es: Seq<(Seq<char>, ValueSpec)>) -> Option<
    Seq<(Seq<char>, ProvidesEntrySpec)>,
>
    decreases es.len(),
{
    if es.len() == 0 {
        Some(Seq::empty())
    } else {
        match spec_parse_provides_map(es.drop_last()) {
            None => None,
            Some(pre) => {
                if spec_has_key(pre, es.last().0) {
                    None
                } else {
                    match spec_parse_provides_entry(es.last().1) {
                        Some(p) => Some(pre.push((es.last().0, p))),
                        None => None,
                    }
                }
            },
        }
    }
}

/// The requires map in document form: requirement ids unique.
pub open spec fn spec_parse_requires_map(es: Seq<(Seq<char>, ValueSpec)>) -> Option<
    Seq<(Seq<char>, RequiresEntrySpec)>,
>
    decreases es.len(),
{
    if es.len() == 0 {
        Some(Seq::empty())
    } else {
        match spec_parse_requires_map(es.drop_last()) {
            None => None,
            Some(pre) => {
                if spec_has_key(pre, es.last().0) {
                    None
                } else {
                    match spec_parse_requires_entry(es.last().1) {
                        Some(r) => Some(pre.push((es.last().0, r))),
                        None => None,
                    }
                }
            },
        }
    }
}

/// A manifest in document form. `metadata` and `provides` are required, as
/// is the externally-consumed `enable_external_mqtt` flag, which is checked
/// and then dropped; everything else is optional with its default.
pub open spec fn spec_parse_manifest(v: ValueSpec) -> Option<ManifestSpec> {
    match v {
        ValueSpec::Obj(fs) => {
            if !spec_keys_among(
                fs,
                seq![
                    "description"@,
                    "metadata"@,
                    "provides"@,
                    "requires"@,
                    "enable_telemetry"@,
                    "enable_external_mqtt"@,
                    "config"@,
                    "capabilities"@,
                    "enable_global_errors"@,
                ],
            ) {
                None
            } else {
                let desc = match spec_lookup(fs, "description"@) {
                    None => Some(Seq::<char>::empty()),
                    Some(ValueSpec::Str(s)) => Some(s),
                    Some(_) => None,
                };
                match desc {
                    None => None,
                    Some(d) => {
                        let md = match spec_lookup(fs, "metadata"@) {
                            Some(mv) => spec_parse_metadata(mv),
                            None => None,
                        };
                        match md {
                            None => None,
                            Some(meta) => {
                                let pv = match spec_lookup(fs, "provides"@) {
                                    Some(ValueSpec::Obj(es)) => spec_parse_provides_map(es),
                                    _ => None,
                                };
                                match pv {
                                    None => None,
                                    Some(provides) => {
                                        let rq = match spec_lookup(fs, "requires"@) {
                                            None => Some(
                                                Seq::<(Seq<char>, RequiresEntrySpec)>::empty(),
                                            ),
                                            Some(ValueSpec::Obj(es)) => spec_parse_requires_map(es),
                                            Some(_) => None,
                                        };
                                        match rq {
                                            None => None,
                                            Some(reqs) => {
                                                let tel = match spec_lookup(
                                                    fs,
                                                    "enable_telemetry"@,
                                                ) {
                                                    None => Some(false),
                                                    Some(ValueSpec::Bool(b)) => Some(b),
                                                    Some(_) => None,
                                                };
                                                match tel {
                                                    None => None,
                                                    Some(telemetry) => {
                                                        let mqtt = match spec_lookup(
                                                            fs,
                                                            "enable_external_mqtt"@,
                                                        ) {
                                                            Some(ValueSpec::Bool(_)) => Some(true),
                                                            _ => None,
                                                        };
                                                        match mqtt {
                                                            None => None,
                                                            Some(_) => {
                                                                let cfg = match spec_lookup(
                                                                    fs,
                                                                    "config"@,
                                                                ) {
                                                                    None => Some(
                                                                        Seq::<
                                                                            (
                                                                                Seq<char>,
                                                                                ConfigEntrySpec,
                                                                            ),
                                                                        >::empty(),
                                                                    ),
                                                                    Some(ValueSpec::Obj(es)) => spec_parse_config_map(
                                                                        es,
                                                                    ),
                                                                    Some(_) => None,
                                                                };
                                                                match cfg {
                                                                    None => None,
                                                                    Some(config) => {
                                                                        let cap = match spec_lookup(
                                                                            fs,
                                                                            "capabilities"@,
                                                                        ) {
                                                                            None => Some(
                                                                                Seq::<
                                                                                    Seq<char>,
                                                                                >::empty(),
                                                                            ),
                                                                            Some(
                                                                                ValueSpec::Arr(a),
                                                                            ) => spec_parse_strings(
                                                                                a,
                                                                            ),
                                                                            Some(_) => None,
                                                                        };
                                                                        match cap {
                                                                            None => None,
                                                                            Some(capabilities) => {
                                                                                let ge =
                                                                                    match spec_lookup(
                                                                                    fs,
                                                                                    "enable_global_errors"@,
                                                                                ) {
                                                                                    None => Some(
                                                                                        false,
                                                                                    ),
                                                                                    Some(
                                                                                        ValueSpec::Bool(b),
                                                                                    ) => Some(b),
                                                                                    Some(_) => None,
                                                                                };
                                                                                match ge {
                                                                                    None => None,
                                                                                    Some(globals) => Some(
                                                                                        ManifestSpec {
                                                                                            description: d,
                                                                                            metadata: meta,
                                                                                            provides,
                                                                                            requires: reqs,
                                                                                            enable_telemetry: telemetry,
                                                                                            config,
                                                                                            capabilities,
                                                                                            enable_global_errors: globals,
                                                                                        },
                                                                                    ),
                                                                                }
                                                                            },
                                                                        }
                                                                    },
                                                                }
                                                            },
                                                        }
                                                    },
                                                }
                                            },
                                        }
                                    },
                                }
                            },
                        }
                    },
                }
            }
        },
        _ => None,
    }
}

// ---------------------------------------------------------------------------
// Validating parsers.
// ---------------------------------------------------------------------------
/// A string list that fails on some prefix fails as a whole.
proof fn lemma_strings_extends_none(vs: Seq<ValueSpec>, i: int)
    requires
        0 <= i <= vs.len(),
        spec_parse_strings(vs.take(i)) is None,
    ensures
        spec_parse_strings(vs) is None,
    decreases vs.len() - i,
{
    if i < vs.len() {
        assert(vs.take(i + 1).drop_last() =~= vs.take(i));
        lemma_strings_extends_none(vs, i + 1);
    } else {
        assert(vs.take(i) =~= vs);
    }
}

/// A string set that fails on some prefix fails as a whole.
proof fn lemma_string_set_extends_none(vs: Seq<ValueSpec>, i: int)
    requires
        0 <= i <= vs.len(),
        spec_parse_string_set(vs.take(i)) is None,
    ensures
        spec_parse_string_set(vs) is None,
    decreases vs.len() - i,
{
    if i < vs.len() {
        assert(vs.take(i + 1).drop_last() =~= vs.take(i));
        lemma_string_set_extends_none(vs, i + 1);
    } else {
        assert(vs.take(i) =~= vs);
    }
}

/// A configuration map that fails on some prefix fails as a whole.
proof fn lemma_config_map_extends_none(es: Seq<(Seq<char>, ValueSpec)>, i: int)
    requires
        0 <= i <= es.len(),
        spec_parse_config_map(es.take(i)) is None,
    ensures
        spec_parse_config_map(es) is None,
    decreases es.len() - i,
{
    if i < es.len() {
        assert(es.take(i + 1).drop_last() =~= es.take(i));
        lemma_config_map_extends_none(es, i + 1);
    } else {
        assert(es.take(i) =~= es);
    }
}

/// A provides map that fails on some prefix fails as a whole.
proof fn lemma_provides_map_extends_none(es: Seq<(Seq<char>, ValueSpec)>, i: int)
    requires
        0 <= i <= es.len(),
        spec_parse_provides_map(es.take(i)) is None,
    ensures
        spec_parse_provides_map(es) is None,
    decreases es.len() - i,
{
    if i < es.len() {
        assert(es.take(i + 1).drop_last() =~= es.take(i));
        lemma_provides_map_extends_none(es, i + 1);
    } else {
        assert(es.take(i) =~= es);
    }
}

/// A requires map that fails on some prefix fails as a whole.
proof fn lemma_requires_map_extends_none(es: Seq<(Seq<char>, ValueSpec)>, i: int)
    requires
        0 <= i <= es.len(),
        spec_parse_requires_map(es.take(i)) is None,
    ensures
        spec_parse_requires_map(es) is None,
    decreases es.len() - i,
{
    if i < es.len() {
        assert(es.take(i + 1).drop_last() =~= es.take(i));
        lemma_requires_map_extends_none(es, i + 1);
    } else {
        assert(es.take(i) =~= es);
    }
}

/// Is `s` one of the strings of `v`?
fn string_in(v: &Vec<String>, s: &str) -> (r: bool)
    ensures
        r == (exists|i: int| 0 <= i < v@.len() && #[trigger] v@[i]@ == s@),
{
    let mut i: usize = 0;
    while i < v.len()
        invariant
            0 <= i <= v.len(),
            forall|j: int| 0 <= j < i ==> #[trigger] v@[j]@ != s@,
        decreases v.len() - i,
    {
        if str_eq(v[i].as_str(), s) {
            return true;
        }
        i += 1;
    }
    false
}

/// Validates a list of strings, order and repetitions kept.
pub fn parse_strings(a: &Vec<JsonValue>) -> (r: Result<Vec<String>, SchemaError>)
    ensures
        match r {
            Ok(out) => spec_parse_strings(values_view(a@)) == Some(strings_view(out@)),
            Err(_) => spec_parse_strings(values_view(a@)) is None,
        },
{
    let ghost all = values_view(a@);
    proof {
        crate::value::lemma_values_view(a@);
        assert(all.take(0) =~= Seq::<ValueSpec>::empty());
        assert(strings_view(Seq::<String>::empty()) =~= Seq::<Seq<char>>::empty());
    }
    let mut out: Vec<String> = Vec::new();
    let mut i: usize = 0;
    while i < a.len()
        invariant
            0 <= i <= a.len(),
            all == values_view(a@),
            all.len() == a@.len(),
            forall|k: int| 0 <= k < a@.len() ==> #[trigger] all[k] == value_view(a@[k]),
            spec_parse_strings(all.take(i as int)) == Some(strings_view(out@)),
        decreases a.len() - i,
    {
        let ghost pre = strings_view(out@);
        proof {
            assert(all.take(i as int + 1).drop_last() =~= all.take(i as int));
            assert(all.take(i as int + 1).last() == all[i as int]);
        }
        match &a[i] {
            JsonValue::Str(s) => {
                out.push(s.clone());
                proof {
                    assert(strings_view(out@) =~= pre.push(s@));
                }
            },
            _ => {
                proof {
                    lemma_strings_extends_none(all, i as int + 1);
                }
                return Err(SchemaError::at("authors", SchemaErrorKind::InvalidField));
            },
        }
        i += 1;
    }
    proof {
        assert(all.take(i as int) =~= all);
    }
    Ok(out)
}

/// Validates a set of strings: the first occurrence of a repeated name is
/// kept, later ones are dropped.
pub fn parse_string_set(a: &Vec<JsonValue>) -> (r: Result<Vec<String>, SchemaError>)
    ensures
        match r {
            Ok(out) => spec_parse_string_set(values_view(a@)) == Some(strings_view(out@)),
            Err(_) => spec_parse_string_set(values_view(a@)) is None,
        },
{
    let ghost all = values_view(a@);
    proof {
        crate::value::lemma_values_view(a@);
        assert(all.take(0) =~= Seq::<ValueSpec>::empty());
        assert(strings_view(Seq::<String>::empty()) =~= Seq::<Seq<char>>::empty());
    }
    let mut out: Vec<String> = Vec::new();
    let mut i: usize = 0;
    while i < a.len()
        invariant
            0 <= i <= a.len(),
            all == values_view(a@),
            all.len() == a@.len(),
            forall|k: int| 0 <= k < a@.len() ==> #[trigger] all[k] == value_view(a@[k]),
            spec_parse_string_set(all.take(i as int)) == Some(strings_view(out@)),
        decreases a.len() - i,
    {
        let ghost pre = strings_view(out@);
        proof {
            assert(all.take(i as int + 1).drop_last() =~= all.take(i as int));
            assert(all.take(i as int + 1).last() == all[i as int]);
        }
        match &a[i] {
            JsonValue::Str(s) => {
                if string_in(&out, s.as_str()) {
                    proof {
                        let j = choose|j: int| 0 <= j < out@.len() && out@[j]@ == s@;
                        assert(pre[j] == s@);
                        assert(pre.contains(s@));
                    }
                } else {
                    proof {
                        if pre.contains(s@) {
                            let j = choose|j: int| 0 <= j < pre.len() && pre[j] == s@;
                            assert(out@[j]@ == s@);
                        }
                    }
                    out.push(s.clone());
                    proof {
                        assert(strings_view(out@) =~= pre.push(s@));
                    }
                }
            },
            _ => {
                proof {
                    lemma_string_set_extends_none(all, i as int + 1);
                }
                return Err(SchemaError::at("vars", SchemaErrorKind::InvalidField));
            },
        }
        i += 1;
    }
    proof {
        assert(all.take(i as int) =~= all);
    }
    Ok(out)
}

/// Parses a mutability name.
pub fn parse_mutability(s: &str) -> (r: Option<MutabilityEnum>)
    ensures
        r == spec_parse_mutability(s@),
{
    if str_eq(s, "ReadOnly") {
        Some(MutabilityEnum::ReadOnly)
    } else if str_eq(s, "ReadWrite") {
        Some(MutabilityEnum::ReadWrite)
    } else if str_eq(s, "WriteOnly") {
        Some(MutabilityEnum::WriteOnly)
    } else {
        None
    }
}

/// Validates one configuration entry document.
pub fn parse_config_entry(v: &JsonValue) -> (r: Result<ConfigEntry, SchemaError>)
    ensures
        match r {
            Ok(c) => spec_parse_config_entry(v@) == Some(c@),
            Err(e) => {
                &&& spec_parse_config_entry(v@) is None
                &&& match v@ {
                    ValueSpec::Obj(fs) => {
                        &&& !spec_keys_among(fs, seq!["description"@, "type"@, "default"@, "mutability"@])
                            ==> e.kind == SchemaErrorKind::UnknownField && spec_has_key(
                            fs,
                            e.path@,
                        ) && !seq!["description"@, "type"@, "default"@, "mutability"@].contains(e.path@)
                        &&& (spec_keys_among(fs, seq!["description"@, "type"@, "default"@, "mutability"@])
                            && (match spec_lookup(fs, "description"@) {
                                None => true,
                                Some(ValueSpec::Str(_)) => true,
                                Some(_) => false,
                            })
                            && (match spec_lookup(fs, "mutability"@) {
                                None => true,
                                Some(ValueSpec::Str(ms)) => spec_parse_mutability(ms) is Some,
                                Some(_) => false,
                            })
                            && spec_lookup(fs, "type"@) is None) ==> e.kind
                            == SchemaErrorKind::MissingField && e.path@ == "type"@
                    },
                    _ => e.kind == SchemaErrorKind::InvalidField,
                }
            },
        },
{
    match v {
        JsonValue::Obj(fs) => {
            let allowed: Vec<&str> = vec!["description", "type", "default", "mutability"];
            proof {
                assert(strs_view(allowed@) =~= seq![
                    "description"@,
                    "type"@,
                    "default"@,
                    "mutability"@,
                ]);
            }
            match first_unknown_key(fs, &allowed) {
                Some(k) => {
                    return Err(SchemaError::at(k.as_str(), SchemaErrorKind::UnknownField));
                },
                None => {},
            }
            let description: Option<String> = match get_field(fs, "description") {
                None => None,
                Some(JsonValue::Str(s)) => Some(s.clone()),
                Some(_) => {
                    return Err(SchemaError::at("description", SchemaErrorKind::InvalidField));
                },
            };
            let mutability: MutabilityEnum = match get_field(fs, "mutability") {
                None => MutabilityEnum::default(),
                Some(JsonValue::Str(s)) => {
                    match parse_mutability(s.as_str()) {
                        Some(m) => m,
                        None => {
                            return Err(
                                SchemaError::at("mutability", SchemaErrorKind::InvalidField),
                            );
                        },
                    }
                },
                Some(_) => {
                    return Err(SchemaError::at("mutability", SchemaErrorKind::InvalidField));
                },
            };
            let tag: String = match get_field(fs, "type") {
                Some(JsonValue::Str(s)) => s.clone(),
                Some(_) => { return Err(SchemaError::at("type", SchemaErrorKind::InvalidField)) },
                None => { return Err(SchemaError::at("type", SchemaErrorKind::MissingField)) },
            };
            let value: ConfigEnum = if str_eq(tag.as_str(), "boolean") {
                match get_field(fs, "default") {
                    None => ConfigEnum::Boolean(BooleanOptions { default: None }),
                    Some(JsonValue::Bool(b)) => ConfigEnum::Boolean(
                        BooleanOptions { default: Some(*b) },
                    ),
                    Some(_) => {
                        return Err(SchemaError::at("default", SchemaErrorKind::InvalidField));
                    },
                }
            } else if str_eq(tag.as_str(), "string") {
                match get_field(fs, "default") {
                    None => ConfigEnum::String(StringOptions { default: None }),
                    Some(JsonValue::Str(s)) => ConfigEnum::String(
                        StringOptions { default: Some(s.clone()) },
                    ),
                    Some(_) => {
                        return Err(SchemaError::at("default", SchemaErrorKind::InvalidField));
                    },
                }
            } else if str_eq(tag.as_str(), "integer") {
                match get_field(fs, "default") {
                    None => ConfigEnum::Integer(IntegerOptions { default: None }),
                    Some(JsonValue::Int(n)) => ConfigEnum::Integer(
                        IntegerOptions { default: Some(*n) },
                    ),
                    Some(_) => {
                        return Err(SchemaError::at("default", SchemaErrorKind::InvalidField));
                    },
                }
            } else if str_eq(tag.as_str(), "number") {
                match get_field(fs, "default") {
                    None => ConfigEnum::Number(NumberOptions { default: None }),
                    Some(JsonValue::Int(n)) => ConfigEnum::Number(
                        NumberOptions { default: Some(NumberDefault::Integer(*n)) },
                    ),
                    Some(JsonValue::Num(x)) => ConfigEnum::Number(
                        NumberOptions { default: Some(NumberDefault::Literal(x.clone())) },
                    ),
                    Some(_) => {
                        return Err(SchemaError::at("default", SchemaErrorKind::InvalidField));
                    },
                }
            } else {
                return Err(SchemaError::at("type", SchemaErrorKind::InvalidField));
            };
            Ok(ConfigEntry { description, value, mutability })
        },
        _ => Err(SchemaError::at("config", SchemaErrorKind::InvalidField)),
    }
}

/// Validates a configuration map held as an object's entry list.
pub fn parse_config_map(fs: &Vec<(String, JsonValue)>) -> (r: Result<
    Vec<(String, ConfigEntry)>,
    SchemaError,
>)
    ensures
        match r {
            Ok(cm) => spec_parse_config_map(entries_view(fs@)) == Some(config_view(cm@)),
            Err(_) => spec_parse_config_map(entries_view(fs@)) is None,
        },
{
    let ghost all = entries_view(fs@);
    proof {
        crate::value::lemma_entries_view(fs@);
        assert(all.take(0) =~= Seq::<(Seq<char>, ValueSpec)>::empty());
        assert(config_view(Seq::<(String, ConfigEntry)>::empty()) =~= Seq::<
            (Seq<char>, ConfigEntrySpec),
        >::empty());
    }
    let mut out: Vec<(String, ConfigEntry)> = Vec::new();
    let mut i: usize = 0;
    while i < fs.len()
        invariant
            0 <= i <= fs.len(),
            all == entries_view(fs@),
            all.len() == fs@.len(),
            forall|k: int|
                0 <= k < fs@.len() ==> #[trigger] all[k] == (fs@[k].0@, value_view(fs@[k].1)),
            spec_parse_config_map(all.take(i as int)) == Some(config_view(out@)),
        decreases fs.len() - i,
    {
        let ghost pre = config_view(out@);
        proof {
            assert(all.take(i as int + 1).drop_last() =~= all.take(i as int));
            assert(all.take(i as int + 1).last() == all[i as int]);
        }
        if has_key(&out, fs[i].0.as_str()) {
            proof {
                let j = choose|j: int| 0 <= j < out@.len() && out@[j].0@ == fs@[i as int].0@;
                assert(pre[j].0 == all[i as int].0);
                assert(spec_has_key(pre, all[i as int].0));
                lemma_config_map_extends_none(all, i as int + 1);
            }
            return Err(SchemaError::at(fs[i].0.as_str(), SchemaErrorKind::DuplicateName));
        }
        proof {
            if spec_has_key(pre, all[i as int].0) {
                let j = choose|j: int| 0 <= j < pre.len() && pre[j].0 == all[i as int].0;
                assert(out@[j].0@ == fs@[i as int].0@);
            }
        }
        match parse_config_entry(&fs[i].1) {
            Ok(c) => {
                let key = fs[i].0.clone();
                out.push((key, c));
                proof {
                    assert(config_view(out@) =~= pre.push((all[i as int].0, c@)));
                }
            },
            Err(e) => {
                proof {
                    lemma_config_map_extends_none(all, i as int + 1);
                }
                return Err(e);
            },
        }
        i += 1;
    }
    proof {
        assert(all.take(i as int) =~= all);
    }
    Ok(out)
}

/// Validates a metadata block.
pub fn parse_metadata(v: &JsonValue) -> (r: Result<Metadata, SchemaError>)
    ensures
        match r {
            Ok(m) => spec_parse_metadata(v@) == Some(m@),
            Err(e) => {
                &&& spec_parse_metadata(v@) is None
                &&& match v@ {
                    ValueSpec::Obj(fs) => {
                        &&& !spec_keys_among(fs, seq!["license"@, "authors"@])
                            ==> e.kind == SchemaErrorKind::UnknownField && spec_has_key(
                            fs,
                            e.path@,
                        ) && !seq!["license"@, "authors"@].contains(e.path@)
                        &&& (spec_keys_among(fs, seq!["license"@, "authors"@])
                            && spec_lookup(fs, "license"@) is None) ==> e.kind
                            == SchemaErrorKind::MissingField && e.path@ == "license"@
                    },
                    _ => e.kind == SchemaErrorKind::InvalidField,
                }
            },
        },
{
    match v {
        JsonValue::Obj(fs) => {
            let allowed: Vec<&str> = vec!["license", "authors"];
            proof {
                assert(strs_view(allowed@) =~= seq!["license"@, "authors"@]);
            }
            match first_unknown_key(fs, &allowed) {
                Some(k) => {
                    return Err(SchemaError::at(k.as_str(), SchemaErrorKind::UnknownField));
                },
                None => {},
            }
            let license: String = match get_field(fs, "license") {
                Some(JsonValue::Str(s)) => s.clone(),
                Some(_) => { return Err(SchemaError::at("license", SchemaErrorKind::InvalidField))
                },
                None => { return Err(SchemaError::at("license", SchemaErrorKind::MissingField)) },
            };
            let authors: Vec<String> = match get_field(fs, "authors") {
                Some(JsonValue::Arr(a)) => {
                    match parse_strings(a) {
                        Ok(au) => au,
                        Err(e) => { return Err(e) },
                    }
                },
                Some(_) => { return Err(SchemaError::at("authors", SchemaErrorKind::InvalidField))
                },
                None => { return Err(SchemaError::at("authors", SchemaErrorKind::MissingField)) },
            };
            Ok(Metadata { license, authors })
        },
        _ => Err(SchemaError::at("metadata", SchemaErrorKind::InvalidField)),
    }
}

/// Validates an ignore block.
pub fn parse_ignore(v: &JsonValue) -> (r: Result<Ignore, SchemaError>)
    ensures
        match r {
            Ok(ig) => spec_parse_ignore(v@) == Some(ig@),
            Err(e) => {
                &&& spec_parse_ignore(v@) is None
                &&& match v@ {
                    ValueSpec::Obj(fs) => !spec_keys_among(
                        fs,
                        seq!["vars"@, "errors"@],
                    ) ==> e.kind == SchemaErrorKind::UnknownField && spec_has_key(fs, e.path@)
                        && !seq!["vars"@, "errors"@].contains(e.path@),
                    _ => e.kind == SchemaErrorKind::InvalidField,
                }
            },
        },
{
    match v {
        JsonValue::Obj(fs) => {
            let allowed: Vec<&str> = vec!["vars", "errors"];
            proof {
                assert(strs_view(allowed@) =~= seq!["vars"@, "errors"@]);
            }
            match first_unknown_key(fs, &allowed) {
                Some(k) => {
                    return Err(SchemaError::at(k.as_str(), SchemaErrorKind::UnknownField));
                },
                None => {},
            }
            let vars: Vec<String> = match get_field(fs, "vars") {
                None => Vec::new(),
                Some(JsonValue::Arr(a)) => {
                    match parse_string_set(a) {
                        Ok(vs) => vs,
                        Err(e) => { return Err(e) },
                    }
                },
                Some(_) => { return Err(SchemaError::at("vars", SchemaErrorKind::InvalidField)) },
            };
            let errors: bool = match get_field(fs, "errors") {
                None => false,
                Some(JsonValue::Bool(b)) => *b,
                Some(_) => { return Err(SchemaError::at("errors", SchemaErrorKind::InvalidField))
                },
            };
            proof {
                assert(strings_view(Seq::<String>::empty()) =~= Seq::<Seq<char>>::empty());
            }
            Ok(Ignore { vars, errors })
        },
        _ => Err(SchemaError::at("ignore", SchemaErrorKind::InvalidField)),
    }
}

/// Validates one requirement document.
pub fn parse_requires_entry(v: &JsonValue) -> (r: Result<RequiresEntry, SchemaError>)
    ensures
        match r {
            Ok(re) => spec_parse_requires_entry(v@) == Some(re@),
            Err(e) => {
                &&& spec_parse_requires_entry(v@) is None
                &&& match v@ {
                    ValueSpec::Obj(fs) => {
                        &&& !spec_keys_among(fs, seq!["interface"@, "min_connections"@, "max_connections"@, "ignore"@])
                            ==> e.kind == SchemaErrorKind::UnknownField && spec_has_key(
                            fs,
                            e.path@,
                        ) && !seq!["interface"@, "min_connections"@, "max_connections"@, "ignore"@].contains(e.path@)
                        &&& (spec_keys_among(fs, seq!["interface"@, "min_connections"@, "max_connections"@, "ignore"@])
                            && spec_lookup(fs, "interface"@) is None) ==> e.kind
                            == SchemaErrorKind::MissingField && e.path@ == "interface"@
                    },
                    _ => e.kind == SchemaErrorKind::InvalidField,
                }
            },
        },
{
    match v {
        JsonValue::Obj(fs) => {
            let allowed: Vec<&str> = vec![
                "interface",
                "min_connections",
                "max_connections",
                "ignore",
            ];
            proof {
                assert(strs_view(allowed@) =~= seq![
                    "interface"@,
                    "min_connections"@,
                    "max_connections"@,
                    "ignore"@,
                ]);
            }
            match first_unknown_key(fs, &allowed) {
                Some(k) => {
                    return Err(SchemaError::at(k.as_str(), SchemaErrorKind::UnknownField));
                },
                None => {},
            }
            let interface: String = match get_field(fs, "interface") {
                Some(JsonValue::Str(s)) => s.clone(),
                Some(_) => {
                    return Err(SchemaError::at("interface", SchemaErrorKind::InvalidField));
                },
                None => { return Err(SchemaError::at("interface", SchemaErrorKind::MissingField))
                },
            };
            let min_connections: Option<i64> = match get_field(fs, "min_connections") {
                None => None,
                Some(JsonValue::Int(n)) => Some(*n),
                Some(_) => {
                    return Err(SchemaError::at("min_connections", SchemaErrorKind::InvalidField));
                },
            };
            let max_connections: Option<i64> = match get_field(fs, "max_connections") {
                None => None,
                Some(JsonValue::Int(n)) => Some(*n),
                Some(_) => {
                    return Err(SchemaError::at("max_connections", SchemaErrorKind::InvalidField));
                },
            };
            match (min_connections, max_connections) {
                (Some(mn), Some(mx)) => {
                    if mn > mx {
                        return Err(
                            SchemaError::at("min_connections", SchemaErrorKind::InvalidBounds),
                        );
                    }
                },
                _ => {},
            }
            let ignore: Ignore = match get_field(fs, "ignore") {
                None => Ignore { vars: Vec::new(), errors: false },
                Some(iv) => {
                    match parse_ignore(iv) {
                        Ok(ig) => ig,
                        Err(e) => { return Err(e) },
                    }
                },
            };
            proof {
                assert(strings_view(Seq::<String>::empty()) =~= Seq::<Seq<char>>::empty());
            }
            Ok(RequiresEntry { interface, min_connections, max_connections, ignore })
        },
        _ => Err(SchemaError::at("requires", SchemaErrorKind::InvalidField)),
    }
}

/// Validates one provided-implementation document.
pub fn parse_provides_entry(v: &JsonValue) -> (r: Result<ProvidesEntry, SchemaError>)
    ensures
        match r {
            Ok(pe) => spec_parse_provides_entry(v@) == Some(pe@),
            Err(e) => {
                &&& spec_parse_provides_entry(v@) is None
                &&& match v@ {
                    ValueSpec::Obj(fs) => {
                        &&& !spec_keys_among(fs, seq!["interface"@, "description"@, "config"@])
                            ==> e.kind == SchemaErrorKind::UnknownField && spec_has_key(
                            fs,
                            e.path@,
                        ) && !seq!["interface"@, "description"@, "config"@].contains(e.path@)
                        &&& (spec_keys_among(fs, seq!["interface"@, "description"@, "config"@])
                            && spec_lookup(fs, "interface"@) is None) ==> e.kind
                            == SchemaErrorKind::MissingField && e.path@ == "interface"@
                    },
                    _ => e.kind == SchemaErrorKind::InvalidField,
                }
            },
        },
{
    match v {
        JsonValue::Obj(fs) => {
            let allowed: Vec<&str> = vec!["interface", "description", "config"];
            proof {
                assert(strs_view(allowed@) =~= seq!["interface"@, "description"@, "config"@]);
            }
            match first_unknown_key(fs, &allowed) {
                Some(k) => {
                    return Err(SchemaError::at(k.as_str(), SchemaErrorKind::UnknownField));
                },
                None => {},
            }
            let interface: String = match get_field(fs, "interface") {
                Some(JsonValue::Str(s)) => s.clone(),
                Some(_) => {
                    return Err(SchemaError::at("interface", SchemaErrorKind::InvalidField));
                },
                None => { return Err(SchemaError::at("interface", SchemaErrorKind::MissingField))
                },
            };
            let description: String = match get_field(fs, "description") {
                Some(JsonValue::Str(s)) => s.clone(),
                Some(_) => {
                    return Err(SchemaError::at("description", SchemaErrorKind::InvalidField));
                },
                None => { return Err(SchemaError::at("description", SchemaErrorKind::MissingField))
                },
            };
            let config: Vec<(String, ConfigEntry)> = match get_field(fs, "config") {
                None => Vec::new(),
                Some(JsonValue::Obj(es)) => {
                    match parse_config_map(es) {
                        Ok(cm) => cm,
                        Err(e) => { return Err(e) },
                    }
                },
                Some(_) => { return Err(SchemaError::at("config", SchemaErrorKind::InvalidField))
                },
            };
            proof {
                assert(config_view(Seq::<(String, ConfigEntry)>::empty()) =~= Seq::<
                    (Seq<char>, ConfigEntrySpec),
                >::empty());
            }
            Ok(ProvidesEntry { interface, description, config })
        },
        _ => Err(SchemaError::at("provides", SchemaErrorKind::InvalidField)),
    }
}

/// Validates the provides map held as an object's entry list.
pub fn parse_provides_map(fs: &Vec<(String, JsonValue)>) -> (r: Result<
    Vec<(String, ProvidesEntry)>,
    SchemaError,
>)
    ensures
        match r {
            Ok(pm) => spec_parse_provides_map(entries_view(fs@)) == Some(provides_view(pm@)),
            Err(_) => spec_parse_provides_map(entries_view(fs@)) is None,
        },
{
    let ghost all = entries_view(fs@);
    proof {
        crate::value::lemma_entries_view(fs@);
        assert(all.take(0) =~= Seq::<(Seq<char>, ValueSpec)>::empty());
        assert(provides_view(Seq::<(String, ProvidesEntry)>::empty()) =~= Seq::<
            (Seq<char>, ProvidesEntrySpec),
        >::empty());
    }
    let mut out: Vec<(String, ProvidesEntry)> = Vec::new();
    let mut i: usize = 0;
    while i < fs.len()
        invariant
            0 <= i <= fs.len(),
            all == entries_view(fs@),
            all.len() == fs@.len(),
            forall|k: int|
                0 <= k < fs@.len() ==> #[trigger] all[k] == (fs@[k].0@, value_view(fs@[k].1)),
            spec_parse_provides_map(all.take(i as int)) == Some(provides_view(out@)),
        decreases fs.len() - i,
    {
        let ghost pre = provides_view(out@);
        proof {
            assert(all.take(i as int + 1).drop_last() =~= all.take(i as int));
            assert(all.take(i as int + 1).last() == all[i as int]);
        }
        if has_key(&out, fs[i].0.as_str()) {
            proof {
                let j = choose|j: int| 0 <= j < out@.len() && out@[j].0@ == fs@[i as int].0@;
                assert(pre[j].0 == all[i as int].0);
                assert(spec_has_key(pre, all[i as int].0));
                lemma_provides_map_extends_none(all, i as int + 1);
            }
            return Err(SchemaError::at(fs[i].0.as_str(), SchemaErrorKind::DuplicateName));
        }
        proof {
            if spec_has_key(pre, all[i as int].0) {
                let j = choose|j: int| 0 <= j < pre.len() && pre[j].0 == all[i as int].0;
                assert(out@[j].0@ == fs@[i as int].0@);
            }
        }
        match parse_provides_entry(&fs[i].1) {
            Ok(p) => {
                let key = fs[i].0.clone();
                out.push((key, p));
                proof {
                    assert(provides_view(out@) =~= pre.push((all[i as int].0, p@)));
                }
            },
            Err(e) => {
                proof {
                    lemma_provides_map_extends_none(all, i as int + 1);
                }
                return Err(e);
            },
        }
        i += 1;
    }
    proof {
        assert(all.take(i as int) =~= all);
    }
    Ok(out)
}

/// Validates the requires map held as an object's entry list.
pub fn parse_requires_map(fs: &Vec<(String, JsonValue)>) -> (r: Result<
    Vec<(String, RequiresEntry)>,
    SchemaError,
>)
    ensures
        match r {
            Ok(rm) => spec_parse_requires_map(entries_view(fs@)) == Some(requires_view(rm@)),
            Err(_) => spec_parse_requires_map(entries_view(fs@)) is None,
        },
{
    let ghost all = entries_view(fs@);
    proof {
        crate::value::lemma_entries_view(fs@);
        assert(all.take(0) =~= Seq::<(Seq<char>, ValueSpec)>::empty());
        assert(requires_view(Seq::<(String, RequiresEntry)>::empty()) =~= Seq::<
            (Seq<char>, RequiresEntrySpec),
        >::empty());
    }
    let mut out: Vec<(String, RequiresEntry)> = Vec::new();
    let mut i: usize = 0;
    while i < fs.len()
        invariant
            0 <= i <= fs.len(),
            all == entries_view(fs@),
            all.len() == fs@.len(),
            forall|k: int|
                0 <= k < fs@.len() ==> #[trigger] all[k] == (fs@[k].0@, value_view(fs@[k].1)),
            spec_parse_requires_map(all.take(i as int)) == Some(requires_view(out@)),
        decreases fs.len() - i,
    {
        let ghost pre = requires_view(out@);
        proof {
            assert(all.take(i as int + 1).drop_last() =~= all.take(i as int));
            assert(all.take(i as int + 1).last() == all[i as int]);
        }
        if has_key(&out, fs[i].0.as_str()) {
            proof {
                let j = choose|j: int| 0 <= j < out@.len() && out@[j].0@ == fs@[i as int].0@;
                assert(pre[j].0 == all[i as int].0);
                assert(spec_has_key(pre, all[i as int].0));
                lemma_requires_map_extends_none(all, i as int + 1);
            }
            return Err(SchemaError::at(fs[i].0.as_str(), SchemaErrorKind::DuplicateName));
        }
        proof {
            if spec_has_key(pre, all[i as int].0) {
                let j = choose|j: int| 0 <= j < pre.len() && pre[j].0 == all[i as int].0;
                assert(out@[j].0@ == fs@[i as int].0@);
            }
        }
        match parse_requires_entry(&fs[i].1) {
            Ok(re) => {
                let key = fs[i].0.clone();
                out.push((key, re));
                proof {
                    assert(requires_view(out@) =~= pre.push((all[i as int].0, re@)));
                }
            },
            Err(e) => {
                proof {
                    lemma_requires_map_extends_none(all, i as int + 1);
                }
                return Err(e);
            },
        }
        i += 1;
    }
    proof {
        assert(all.take(i as int) =~= all);
    }
    Ok(out)
}

/// Validates a manifest document: the entry point of the manifest side of
/// the schema model. Accepts a document exactly where the meaning function
/// `spec_parse_manifest` is defined, and returns the model it gives.
pub fn parse_manifest(v: &JsonValue) -> (r: Result<Manifest, SchemaError>)
    ensures
        match r {
            Ok(m) => spec_parse_manifest(v@) == Some(m@),
            Err(e) => {
                &&& spec_parse_manifest(v@) is None
                &&& match v@ {
                    ValueSpec::Obj(fs) => {
                        &&& !spec_keys_among(fs, seq!["description"@, "metadata"@, "provides"@, "requires"@, "enable_telemetry"@, "enable_external_mqtt"@, "config"@, "capabilities"@, "enable_global_errors"@])
                            ==> e.kind == SchemaErrorKind::UnknownField && spec_has_key(
                            fs,
                            e.path@,
                        ) && !seq!["description"@, "metadata"@, "provides"@, "requires"@, "enable_telemetry"@, "enable_external_mqtt"@, "config"@, "capabilities"@, "enable_global_errors"@].contains(e.path@)
                        &&& (spec_keys_among(fs, seq!["description"@, "metadata"@, "provides"@, "requires"@, "enable_telemetry"@, "enable_external_mqtt"@, "config"@, "capabilities"@, "enable_global_errors"@])
                            && (match spec_lookup(fs, "description"@) {
                                None => true,
                                Some(ValueSpec::Str(_)) => true,
                                Some(_) => false,
                            })
                            && spec_lookup(fs, "metadata"@) is None) ==> e.kind
                            == SchemaErrorKind::MissingField && e.path@ == "metadata"@
                    },
                    _ => e.kind == SchemaErrorKind::InvalidField,
                }
            },
        },
{
    match v {
        JsonValue::Obj(fs) => {
            let allowed: Vec<&str> = vec![
                "description",
                "metadata",
                "provides",
                "requires",
                "enable_telemetry",
                "enable_external_mqtt",
                "config",
                "capabilities",
                "enable_global_errors",
            ];
            proof {
                assert(strs_view(allowed@) =~= seq![
                    "description"@,
                    "metadata"@,
                    "provides"@,
                    "requires"@,
                    "enable_telemetry"@,
                    "enable_external_mqtt"@,
                    "config"@,
                    "capabilities"@,
                    "enable_global_errors"@,
                ]);
            }
            match first_unknown_key(fs, &allowed) {
                Some(k) => {
                    return Err(SchemaError::at(k.as_str(), SchemaErrorKind::UnknownField));
                },
                None => {},
            }
            let description: String = match get_field(fs, "description") {
                None => String::new(),
                Some(JsonValue::Str(s)) => s.clone(),
                Some(_) => {
                    return Err(SchemaError::at("description", SchemaErrorKind::InvalidField));
                },
            };
            let metadata: Metadata = match get_field(fs, "metadata") {
                Some(mv) => {
                    match parse_metadata(mv) {
                        Ok(m) => m,
                        Err(e) => { return Err(e) },
                    }
                },
                None => { return Err(SchemaError::at("metadata", SchemaErrorKind::MissingField)) },
            };
            let provides: Vec<(String, ProvidesEntry)> = match get_field(fs, "provides") {
                Some(JsonValue::Obj(es)) => {
                    match parse_provides_map(es) {
                        Ok(pm) => pm,
                        Err(e) => { return Err(e) },
                    }
                },
                Some(_) => { return Err(SchemaError::at("provides", SchemaErrorKind::InvalidField))
                },
                None => { return Err(SchemaError::at("provides", SchemaErrorKind::MissingField)) },
            };
            let required: Vec<(String, RequiresEntry)> = match get_field(fs, "requires") {
                None => Vec::new(),
                Some(JsonValue::Obj(es)) => {
                    match parse_requires_map(es) {
                        Ok(rm) => rm,
                        Err(e) => { return Err(e) },
                    }
                },
                Some(_) => { return Err(SchemaError::at("requires", SchemaErrorKind::InvalidField))
                },
            };
            let enable_telemetry: bool = match get_field(fs, "enable_telemetry") {
                None => false,
                Some(JsonValue::Bool(b)) => *b,
                Some(_) => {
                    return Err(SchemaError::at("enable_telemetry", SchemaErrorKind::InvalidField));
                },
            };
            match get_field(fs, "enable_external_mqtt") {
                Some(JsonValue::Bool(_)) => {},
                Some(_) => {
                    return Err(
                        SchemaError::at("enable_external_mqtt", SchemaErrorKind::InvalidField),
                    );
                },
                None => {
                    return Err(
                        SchemaError::at("enable_external_mqtt", SchemaErrorKind::MissingField),
                    );
                },
            }
            let config: Vec<(String, ConfigEntry)> = match get_field(fs, "config") {
                None => Vec::new(),
                Some(JsonValue::Obj(es)) => {
                    match parse_config_map(es) {
                        Ok(cm) => cm,
                        Err(e) => { return Err(e) },
                    }
                },
                Some(_) => { return Err(SchemaError::at("config", SchemaErrorKind::InvalidField))
                },
            };
            let capabilities: Vec<String> = match get_field(fs, "capabilities") {
                None => Vec::new(),
                Some(JsonValue::Arr(a)) => {
                    match parse_strings(a) {
                        Ok(cs) => cs,
                        Err(e) => { return Err(e) },
                    }
                },
                Some(_) => {
                    return Err(SchemaError::at("capabilities", SchemaErrorKind::InvalidField));
                },
            };
            let enable_global_errors: bool = match get_field(fs, "enable_global_errors") {
                None => false,
                Some(JsonValue::Bool(b)) => *b,
                Some(_) => {
                    return Err(
                        SchemaError::at("enable_global_errors", SchemaErrorKind::InvalidField),
                    );
                },
            };
            proof {
                assert(requires_view(Seq::<(String, RequiresEntry)>::empty()) =~= Seq::<
                    (Seq<char>, RequiresEntrySpec),
                >::empty());
                assert(config_view(Seq::<(String, ConfigEntry)>::empty()) =~= Seq::<
                    (Seq<char>, ConfigEntrySpec),
                >::empty());
                assert(strings_view(Seq::<String>::empty()) =~= Seq::<Seq<char>>::empty());
            }
            Ok(
                Manifest {
                    description,
                    metadata,
                    provides,
                    requires: required,
                    enable_telemetry,
                    config,
                    capabilities,
                    enable_global_errors,
                },
            )
        },
        _ => Err(SchemaError::at("manifest", SchemaErrorKind::InvalidField)),
    }
}

} // verus!
