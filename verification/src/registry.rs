//! The command-registry builder: derives, from a manifest and the
//! interfaces it provides, every (implementation id, command name) pair the
//! process must register with the broker, together with the argument and
//! result types used for demarshaling.

use vstd::prelude::*;

use crate::interface::CommandSpec;
use crate::interface::Interface;
use crate::interface::InterfaceSpec;
use crate::manifest::Manifest;
use crate::manifest::ProvidesEntrySpec;
use crate::types::SchemaError;
use crate::types::SchemaErrorKind;
use crate::types::Type;
use crate::value::str_eq;

verus! {

/// One command the process must register with the broker. The
/// implementation id scopes the command name: two implementations of one
/// module may expose same-named commands, and the broker tells them apart
/// by the id.
#[derive(Debug)]
pub struct Registration {
    pub implementation_id: String,
    pub name: String,
    pub arguments: Vec<(String, Type)>,
    pub result: Option<Type>,
}

/// Mathematical model of a registration.
#[verifier::ext_equal]
pub struct RegistrationSpec {
    pub implementation_id: Seq<char>,
    pub name: Seq<char>,
    pub arguments: Seq<(Seq<char>, Type)>,
    pub result: Option<Type>,
}

impl View for Registration {
    type V = RegistrationSpec;

    open spec fn view(&self) -> RegistrationSpec {
        RegistrationSpec {
            implementation_id: self.implementation_id@,
            name: self.name@,
            arguments: crate::interface::typemap_view(self.arguments@),
            result: self.result,
        }
    }
}

/// The model of a registration list.
pub open spec fn regs_view(s: Seq<Registration>) -> Seq<RegistrationSpec> {
    Seq::new(s.len(), |i: int| s[i]@)
}

/// The model of the interface table the builder resolves against.
pub open spec fn interfaces_view(s: Seq<(String, Interface)>) -> Seq<(Seq<char>, InterfaceSpec)> {
    Seq::new(s.len(), |i: int| (s[i].0@, s[i].1@))
}

/// The first interface of the table under the given name.
pub open spec fn spec_find_interface(
    tbl: Seq<(Seq<char>, InterfaceSpec)>,
    name: Seq<char>,
) -> Option<InterfaceSpec>
    decreases tbl.len(),
{
    if tbl.len() == 0 {
        None
    } else if tbl[0].0 == name {
        Some(tbl[0].1)
    } else {
        spec_find_interface(tbl.drop_first(), name)
    }
}

/// The registrations one provided implementation adds: one per
/// command of its interface, in declaration order.
pub open spec fn spec_regs_of(impl_id: Seq<char>, cmds: Seq<(Seq<char>, CommandSpec)>) -> Seq<
    RegistrationSpec,
> {
    Seq::new(
        cmds.len(),
        |i: int|
            RegistrationSpec {
                implementation_id: impl_id,
                name: cmds[i].0,
                arguments: cmds[i].1.arguments,
                result: cmds[i].1.result,
            },
    )
}

/// The full registration set of a manifest: for every provided
/// implementation, in manifest order, one registration per command of its
/// interface. Fails where a provided interface name is not in the table.
pub open spec fn spec_build_registry(
    provides: Seq<(Seq<char>, ProvidesEntrySpec)>,
    tbl: Seq<(Seq<char>, InterfaceSpec)>,
) -> Option<Seq<RegistrationSpec>>
    decreases provides.len(),
{
    if provides.len() == 0 {
        Some(Seq::empty())
    } else {
        match spec_build_registry(provides.drop_last(), tbl) {
            None => None,
            Some(pre) => {
                match spec_find_interface(tbl, provides.last().1.interface) {
                    None => None,
                    Some(itf) => Some(pre + spec_regs_of(provides.last().0, itf.cmds)),
                }
            },
        }
    }
}

/// A provides map whose prefix fails to resolve fails as a whole.
proof fn lemma_registry_extends_none(
    provides: Seq<(Seq<char>, ProvidesEntrySpec)>,
    tbl: Seq<(Seq<char>, InterfaceSpec)>,
    i: int,
)
    requires
        0 <= i <= provides.len(),
        spec_build_registry(provides.take(i), tbl) is None,
    ensures
        spec_build_registry(provides, tbl) is None,
    decreases provides.len() - i,
{
    if i < provides.len() {
        assert(provides.take(i + 1).drop_last() =~= provides.take(i));
        lemma_registry_extends_none(provides, tbl, i + 1);
    } else {
        assert(provides.take(i) =~= provides);
    }
}

/// Finds the first interface of the table under the given name.
pub fn find_interface<'a>(tbl: &'a Vec<(String, Interface)>, name: &str) -> (r: Option<
    &'a Interface,
>)
    ensures
        match r {
            Some(itf) => spec_find_interface(interfaces_view(tbl@), name@) == Some(itf@),
            None => spec_find_interface(interfaces_view(tbl@), name@) is None,
        },
{
    let ghost all = interfaces_view(tbl@);
    proof {
        assert(all.skip(0) =~= all);
    }
    let mut i: usize = 0;
    while i < tbl.len()
        invariant
            0 <= i <= tbl.len(),
            all == interfaces_view(tbl@),
            all.len() == tbl@.len(),
            forall|k: int| 0 <= k < tbl@.len() ==> #[trigger] all[k] == (tbl@[k].0@, tbl@[k].1@),
            spec_find_interface(all, name@) == spec_find_interface(all.skip(i as int), name@),
        decreases tbl.len() - i,
    {
        proof {
            assert(all.skip(i as int)[0] == all[i as int]);
        }
        if str_eq(tbl[i].0.as_str(), name) {
            return Some(&tbl[i].1);
        }
        proof {
            assert(all.skip(i as int).drop_first() =~= all.skip(i as int + 1));
        }
        i += 1;
    }
    proof {
        assert(all.skip(i as int) =~= Seq::<(Seq<char>, InterfaceSpec)>::empty());
    }
    None
}

/// Builds the full registration set of a manifest against an interface
/// table: for every provided implementation, one registration per command
/// of its interface, scoped by the implementation id. Fails, naming the
/// interface, where a provided interface cannot be resolved.
pub fn build_registry(manifest: &Manifest, interfaces: &Vec<(String, Interface)>) -> (r: Result<
    Vec<Registration>,
    SchemaError,
>)
    ensures
        match r {
            Ok(rs) => spec_build_registry(
                crate::manifest::provides_view(manifest.provides@),
                interfaces_view(interfaces@),
            ) == Some(regs_view(rs@)),
            Err(e) => {
                &&& spec_build_registry(
                    crate::manifest::provides_view(manifest.provides@),
                    interfaces_view(interfaces@),
                ) is None
                &&& e.kind == SchemaErrorKind::UnresolvedReference
                &&& exists|k: int|
                    #![trigger crate::manifest::provides_view(manifest.provides@)[k]]
                    {
                        &&& 0 <= k < manifest.provides@.len()
                        &&& spec_find_interface(
                            interfaces_view(interfaces@),
                            crate::manifest::provides_view(manifest.provides@)[k].1.interface,
                        ) is None
                        &&& e.path@ == crate::manifest::provides_view(
                            manifest.provides@,
                        )[k].1.interface
                    }
            },
        },
{
    let ghost pv = crate::manifest::provides_view(manifest.provides@);
    let ghost tv = interfaces_view(interfaces@);
    proof {
        assert(pv.take(0) =~= Seq::<(Seq<char>, ProvidesEntrySpec)>::empty());
        assert(regs_view(Seq::<Registration>::empty()) =~= Seq::<RegistrationSpec>::empty());
    }
    let mut out: Vec<Registration> = Vec::new();
    let mut i: usize = 0;
    while i < manifest.provides.len()
        invariant
            0 <= i <= manifest.provides.len(),
            pv == crate::manifest::provides_view(manifest.provides@),
            tv == interfaces_view(interfaces@),
            pv.len() == manifest.provides@.len(),
            forall|k: int|
                0 <= k < manifest.provides@.len() ==> #[trigger] pv[k] == (
                    manifest.provides@[k].0@,
                    manifest.provides@[k].1@,
                ),
            spec_build_registry(pv.take(i as int), tv) == Some(regs_view(out@)),
        decreases manifest.provides.len() - i,
    {
        let ghost outer_pre = regs_view(out@);
        proof {
            assert(pv.take(i as int + 1).drop_last() =~= pv.take(i as int));
            assert(pv.take(i as int + 1).last() == pv[i as int]);
        }
        let impl_id: &String = &manifest.provides[i].0;
        let entry_interface: &String = &manifest.provides[i].1.interface;
        match find_interface(interfaces, entry_interface.as_str()) {
            None => {
                proof {
                    lemma_registry_extends_none(pv, tv, i as int + 1);
                    assert(spec_find_interface(tv, pv[i as int].1.interface) is None);
                }
                return Err(
                    SchemaError::at(entry_interface.as_str(), SchemaErrorKind::UnresolvedReference),
                );
            },
            Some(itf) => {
                let ghost emitted = spec_regs_of(impl_id@, itf@.cmds);
                proof {
                    assert(emitted.take(0) =~= Seq::<RegistrationSpec>::empty());
                    assert(regs_view(out@) + emitted.take(0) =~= regs_view(out@));
                }
                let mut j: usize = 0;
                while j < itf.cmds.len()
                    invariant
                        0 <= j <= itf.cmds.len(),
                        emitted == spec_regs_of(impl_id@, itf@.cmds),
                        emitted.len() == itf.cmds@.len(),
                        itf@.cmds.len() == itf.cmds@.len(),
                        forall|k: int|
                            0 <= k < itf.cmds@.len() ==> #[trigger] itf@.cmds[k] == (
                                itf.cmds@[k].0@,
                                itf.cmds@[k].1@,
                            ),
                        regs_view(out@) =~= outer_pre + emitted.take(j as int),
                    decreases itf.cmds.len() - j,
                {
                    let ghost prev = regs_view(out@);
                    let cmd_name: String = itf.cmds[j].0.clone();
                    let arguments: Vec<(String, Type)> = copy_typemap(&itf.cmds[j].1.arguments);
                    let result: Option<Type> = match &itf.cmds[j].1.result {
                        Some(t) => Some(*t),
                        None => None,
                    };
                    out.push(
                        Registration {
                            implementation_id: impl_id.clone(),
                            name: cmd_name,
                            arguments,
                            result,
                        },
                    );
                    proof {
                        assert(emitted[j as int] == RegistrationSpec {
                            implementation_id: impl_id@,
                            name: itf.cmds@[j as int].0@,
                            arguments: itf.cmds@[j as int].1@.arguments,
                            result: itf.cmds@[j as int].1@.result,
                        });
                        assert(out@.last()@ =~= emitted[j as int]);
                        assert(emitted.take(j as int + 1) =~= emitted.take(j as int).push(
                            emitted[j as int],
                        ));
                        assert(regs_view(out@) =~= prev.push(emitted[j as int]));
                        assert((outer_pre + emitted.take(j as int)).push(emitted[j as int]) =~= outer_pre
                            + emitted.take(j as int + 1));
                    }
                    j += 1;
                }
                proof {
                    assert(emitted.take(j as int) =~= emitted);
                    assert(regs_view(out@) =~= outer_pre + emitted);
                    assert(spec_build_registry(pv.take(i as int + 1), tv) == Some(
                        regs_view(out@),
                    ));
                }
            },
        }
        i += 1;
    }
    proof {
        assert(pv.take(i as int) =~= pv);
    }
    Ok(out)
}

/// Copies a name-to-type map, preserving the model.
fn copy_typemap(tm: &Vec<(String, Type)>) -> (r: Vec<(String, Type)>)
    ensures
        crate::interface::typemap_view(r@) == crate::interface::typemap_view(tm@),
{
    let mut out: Vec<(String, Type)> = Vec::new();
    let mut i: usize = 0;
    while i < tm.len()
        invariant
            0 <= i <= tm.len(),
            out@.len() == i,
            forall|k: int|
                0 <= k < i ==> (#[trigger] out@[k]).0@ == tm@[k].0@ && out@[k].1 == tm@[k].1,
        decreases tm.len() - i,
    {
        out.push((tm[i].0.clone(), tm[i].1));
        i += 1;
    }
    proof {
        assert(crate::interface::typemap_view(out@) =~= crate::interface::typemap_view(tm@));
    }
    out
}

} // verus!
