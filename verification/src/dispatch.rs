//! The decision core of the generic dispatcher: demarshaling inbound calls
//! into a command-agnostic argument mapping, routing them to the one shared
//! type-erased handler, and the registration-before-readiness discipline of
//! the initialization protocol. The broker connection itself, with its
//! pointer-lifetime obligations, lives with the embedding process.

use vstd::prelude::*;

use crate::Error;
use crate::ErrorSpec;
use crate::registry::Registration;
use crate::types::Type;
use crate::value::JsonValue;
use crate::value::ValueSpec;
use crate::value::clone_value;
use crate::value::entries_view;
use crate::value::get_field;
use crate::value::spec_lookup;
use crate::value::value_view;

verus! {

/// Does a document value have the declared shape? An integer node is also
/// a number; a non-integer number arrives as an opaque numeric literal,
/// which only the number type accepts.
pub open spec fn spec_matches_type(v: ValueSpec, t: Type) -> bool {
    match t {
        Type::Boolean => v is Bool,
        Type::String => v is Str,
        Type::Integer => v is Int,
        Type::Number => v is Int || v is Num,
        Type::Object => v is Obj,
        Type::Array => v is Arr,
        Type::Null => v is Null,
    }
}

/// Checks a document value against a declared type.
pub fn matches_type(v: &JsonValue, t: &Type) -> (r: bool)
    ensures
        r == spec_matches_type(v@, *t),
{
    match t {
        Type::Boolean => matches!(v, JsonValue::Bool(_)),
        Type::String => matches!(v, JsonValue::Str(_)),
        Type::Integer => matches!(v, JsonValue::Int(_)),
        Type::Number => match v {
            JsonValue::Int(_) => true,
            JsonValue::Num(_) => true,
            _ => false,
        },
        Type::Object => matches!(v, JsonValue::Obj(_)),
        Type::Array => matches!(v, JsonValue::Arr(_)),
        Type::Null => matches!(v, JsonValue::Null),
    }
}

/// The first `k` declared arguments are present in the payload with the
/// declared shape.
pub open spec fn spec_args_ok_upto(
    decl: Seq<(Seq<char>, Type)>,
    fs: Seq<(Seq<char>, ValueSpec)>,
    k: int,
) -> bool {
    forall|j: int|
        0 <= j < k ==> spec_lookup(fs, (#[trigger] decl[j]).0) is Some && spec_matches_type(
            spec_lookup(fs, decl[j].0)->Some_0,
            decl[j].1,
        )
}

/// Every declared argument is present in the payload with the declared
/// shape.
pub open spec fn spec_args_valid(decl: Seq<(Seq<char>, Type)>, fs: Seq<(Seq<char>, ValueSpec)>) -> bool {
    spec_args_ok_upto(decl, fs, decl.len() as int)
}

/// The fault demarshaling reports: the first declared argument that is
/// absent or of the wrong shape, named in the error, with everything
/// declared before it present and well shaped.
pub open spec fn spec_demarshal_fault(
    decl: Seq<(Seq<char>, Type)>,
    fs: Seq<(Seq<char>, ValueSpec)>,
    e: ErrorSpec,
) -> bool {
    exists|k: int|
        #![trigger decl[k]]
        {
            &&& 0 <= k < decl.len()
            &&& spec_args_ok_upto(decl, fs, k)
            &&& match e {
                ErrorSpec::MissingArgument(n) => n == decl[k].0 && spec_lookup(fs, decl[k].0)
                    is None,
                ErrorSpec::InvalidArgument(n) => n == decl[k].0 && spec_lookup(fs, decl[k].0)
                    is Some && !spec_matches_type(spec_lookup(fs, decl[k].0)->Some_0, decl[k].1),
            }
        }
}

/// Demarshals an inbound payload into the command-agnostic argument mapping
/// of one declared command: one (name, value) pair per declared argument,
/// in declaration order. Fails on the first declared argument that is
/// absent (`MissingArgument`) or of the wrong shape (`InvalidArgument`),
/// naming it.
pub fn demarshal_arguments(decl: &Vec<(String, Type)>, fs: &Vec<(String, JsonValue)>) -> (r: Result<
    Vec<(String, JsonValue)>,
    Error,
>)
    ensures
        match r {
            Ok(args) => {
                &&& spec_args_valid(crate::interface::typemap_view(decl@), entries_view(fs@))
                &&& args@.len() == decl@.len()
                &&& forall|k: int|
                    0 <= k < decl@.len() ==> (#[trigger] args@[k]).0@ == decl@[k].0@ && Some(
                        value_view(args@[k].1),
                    ) == spec_lookup(entries_view(fs@), decl@[k].0@)
            },
            Err(e) => {
                &&& !spec_args_valid(crate::interface::typemap_view(decl@), entries_view(fs@))
                &&& spec_demarshal_fault(
                    crate::interface::typemap_view(decl@),
                    entries_view(fs@),
                    e@,
                )
            },
        },
{
    let ghost dv = crate::interface::typemap_view(decl@);
    let ghost fv = entries_view(fs@);
    let mut out: Vec<(String, JsonValue)> = Vec::new();
    let mut i: usize = 0;
    while i < decl.len()
        invariant
            0 <= i <= decl.len(),
            dv == crate::interface::typemap_view(decl@),
            fv == entries_view(fs@),
            dv.len() == decl@.len(),
            forall|k: int| 0 <= k < decl@.len() ==> #[trigger] dv[k] == (decl@[k].0@, decl@[k].1),
            spec_args_ok_upto(dv, fv, i as int),
            out@.len() == i,
            forall|k: int|
                0 <= k < i ==> (#[trigger] out@[k]).0@ == decl@[k].0@ && Some(
                    value_view(out@[k].1),
                ) == spec_lookup(fv, decl@[k].0@),
        decreases decl.len() - i,
    {
        match get_field(fs, decl[i].0.as_str()) {
            None => {
                proof {
                    assert(spec_lookup(fv, dv[i as int].0) is None);
                }
                return Err(Error::MissingArgument(decl[i].0.clone()));
            },
            Some(v) => {
                if !matches_type(v, &decl[i].1) {
                    proof {
                        assert(spec_lookup(fv, dv[i as int].0) is Some);
                    }
                    return Err(Error::InvalidArgument(decl[i].0.clone()));
                }
                let key = decl[i].0.clone();
                let copied = clone_value(v);
                out.push((key, copied));
            },
        }
        i += 1;
    }
    Ok(out)
}

/// The type-erased handler of a module: it deals with command names and
/// dynamically-typed argument mappings, with no knowledge of the concrete
/// module. The broker delivers calls and the readiness notification from
/// threads it owns, so implementations must be callable concurrently.
pub trait GenericModule: Sync {
    /// Handles the command `name` on `implementation_id` with the given
    /// arguments; what it returns is handed back to the broker as the
    /// result of the call.
    fn handle_command(
        &self,
        implementation_id: &str,
        name: &str,
        parameters: Vec<(String, JsonValue)>,
    ) -> Result<JsonValue, Error>;

    /// Fires once the module is live: only after every command registration
    /// has completed.
    fn on_ready(&self) {
    }
}

/// Routes one inbound call: demarshals the payload's entries against the
/// registration's declared arguments and invokes the shared handler. A
/// demarshaling fault is returned without the handler ever being called; a
/// handler fault is returned as it came, and the embedding process treats
/// it as fatal, because the broker has no representation of a failed typed
/// call.
pub fn dispatch_call<M: GenericModule>(
    module: &M,
    reg: &Registration,
    fields: &Vec<(String, JsonValue)>,
) -> (r: Result<JsonValue, Error>)
    ensures
        r is Ok ==> spec_args_valid(reg@.arguments, entries_view(fields@)),
        !spec_args_valid(reg@.arguments, entries_view(fields@)) ==> r is Err
            && spec_demarshal_fault(reg@.arguments, entries_view(fields@), r->Err_0@),
{
    let args = match demarshal_arguments(&reg.arguments, fields) {
        Ok(args) => args,
        Err(e) => { return Err(e) },
    };
    module.handle_command(reg.implementation_id.as_str(), reg.name.as_str(), args)
}

/// The initialization discipline of the dispatcher: every registration of
/// the computed registry is handed to the broker, in order, and readiness
/// can be signalled only once all of them have completed. A command may be
/// delivered only after its own registration has returned.
pub struct RegistrationTracker {
    pub registry: Vec<Registration>,
    pub registered: usize,
    pub ready: bool,
}

impl RegistrationTracker {
    /// The tracker's invariant: completed registrations form a prefix of
    /// the registry, and readiness implies the prefix is the whole set.
    pub open spec fn wf(self) -> bool {
        &&& self.registered <= self.registry@.len()
        &&& (self.ready ==> self.registered == self.registry@.len())
    }

    /// A fresh tracker over a computed registry: nothing registered, not
    /// ready.
    pub fn new(registry: Vec<Registration>) -> (r: Self)
        ensures
            r.wf(),
            r.registered == 0,
            !r.ready,
            r.registry@ == registry@,
    {
        RegistrationTracker { registry, registered: 0, ready: false }
    }

    /// The next registration to hand to the broker, if any is left.
    pub fn pending(&self) -> (r: Option<&Registration>)
        requires
            self.wf(),
        ensures
            match r {
                Some(x) => {
                    let n = self.registered as int;
                    self.registered < self.registry@.len() && *x == self.registry@[n]
                },
                None => self.registered == self.registry@.len(),
            },
    {
        if self.registered < self.registry.len() {
            Some(&self.registry[self.registered])
        } else {
            None
        }
    }

    /// Records that the registration call for the next command returned.
    pub fn mark_registered(&mut self)
        requires
            old(self).wf(),
            !old(self).ready,
            old(self).registered < old(self).registry@.len(),
        ensures
            final(self).wf(),
            final(self).registered == old(self).registered + 1,
            final(self).registry@ == old(self).registry@,
            final(self).ready == old(self).ready,
    {
        let limit = self.registry.len();
        proof {
            assert(self.registered < limit);
        }
        self.registered = self.registered + 1;
    }

    /// Signals readiness. The precondition is the ordering guarantee of the
    /// initialization protocol: readiness cannot be signalled, and so the
    /// ready notification cannot fire, before every registration of the
    /// registry has completed.
    pub fn signal_ready(&mut self)
        requires
            old(self).wf(),
            old(self).registered == old(self).registry@.len(),
        ensures
            final(self).wf(),
            final(self).ready,
            final(self).registry@ == old(self).registry@,
            final(self).registered == old(self).registered,
    {
        self.ready = true;
    }

    /// Some registration of the list names this implementation and command.
    pub open spec fn spec_registry_has(
        rs: Seq<Registration>,
        implementation_id: Seq<char>,
        name: Seq<char>,
    ) -> bool {
        exists|k: int|
            0 <= k < rs.len() && (#[trigger] rs[k]).implementation_id@ == implementation_id
                && rs[k].name@ == name
    }

    /// The command's own registration has returned.
    pub open spec fn spec_may_deliver(
        self,
        implementation_id: Seq<char>,
        name: Seq<char>,
    ) -> bool {
        exists|k: int|
            0 <= k < self.registered && (#[trigger] self.registry@[k]).implementation_id@
                == implementation_id && self.registry@[k].name@ == name
    }

    /// May a call for this implementation and command be delivered? Only
    /// once its own registration has returned: a callback can never fire
    /// for a command whose registration is still pending.
    pub fn may_deliver(&self, implementation_id: &str, name: &str) -> (r: bool)
        requires
            self.wf(),
        ensures
            r == self.spec_may_deliver(implementation_id@, name@),
    {
        let mut i: usize = 0;
        while i < self.registered
            invariant
                self.wf(),
                0 <= i <= self.registered,
                forall|j: int|
                    0 <= j < i ==> !((#[trigger] self.registry@[j]).implementation_id@
                        == implementation_id@ && self.registry@[j].name@ == name@),
            decreases self.registered - i,
        {
            if crate::value::str_eq(self.registry[i].implementation_id.as_str(), implementation_id)
                && crate::value::str_eq(self.registry[i].name.as_str(), name) {
                return true;
            }
            i += 1;
        }
        false
    }
}

/// Registration-before-readiness: once a well-formed tracker is ready,
/// every one of the registry's registrations has been observed to complete,
/// and every command the registry names may be delivered.
pub proof fn lemma_ready_implies_all_registered(t: RegistrationTracker)
    requires
        t.wf(),
        t.ready,
    ensures
        t.registered == t.registry@.len(),
        forall|a: Seq<char>, b: Seq<char>|
            RegistrationTracker::spec_registry_has(t.registry@, a, b) ==> #[trigger] t.spec_may_deliver(
                a,
                b,
            ),
{
    assert forall|a: Seq<char>, b: Seq<char>|
        RegistrationTracker::spec_registry_has(t.registry@, a, b) implies #[trigger] t.spec_may_deliver(
        a,
        b,
    ) by {
        let k = choose|k: int|
            0 <= k < t.registry@.len() && (#[trigger] t.registry@[k]).implementation_id@ == a
                && t.registry@[k].name@ == b;
        assert(0 <= k < t.registered && t.registry@[k].implementation_id@ == a && t.registry@[k].name@
            == b);
    }
}

} // verus!
