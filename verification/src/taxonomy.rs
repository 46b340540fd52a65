//! The error-taxonomy compiler: expands the error references of a consuming
//! interface into concrete (source-file, error-name) pairs and merges them
//! into one discriminated union under a combination policy. Pure build-time
//! computation, free of I/O.

use vstd::prelude::*;

use crate::error_list::ErrorDef;
use crate::error_list::ErrorDefSpec;
use crate::error_list::ErrorList;
use crate::error_list::ErrorListSpec;
use crate::types::SchemaError;
use crate::types::SchemaErrorKind;
use crate::value::str_eq;

verus! {

/// How error references are merged into a union: repeated references to one
/// definition collapse (`Duplicate`), a reference list may select a strict
/// subset of a file (`Selected`), or the whole contents of several files
/// are folded into one domain (`Multiple`).
#[derive(Clone, Copy, Debug, PartialEq, Eq, Structural)]
pub enum CombinationPolicy {
    Duplicate,
    Selected,
    Multiple,
}

/// One variant of a compiled union: an error name namespaced by the file
/// that defines it, so same-named errors of different files stay distinct.
#[derive(Debug)]
pub struct ErrorVariant {
    pub source: String,
    pub name: String,
}

impl View for ErrorVariant {
    type V = (Seq<char>, Seq<char>);

    open spec fn view(&self) -> (Seq<char>, Seq<char>) {
        (self.source@, self.name@)
    }
}

/// A compiled discriminated union: every error a consuming context can
/// raise or observe, each distinct definition exactly once.
#[derive(Debug)]
pub struct ErrorUnion {
    pub variants: Vec<ErrorVariant>,
}

/// The model of a variant list.
pub open spec fn variants_view(s: Seq<ErrorVariant>) -> Seq<(Seq<char>, Seq<char>)> {
    Seq::new(s.len(), |i: int| s[i]@)
}

impl View for ErrorUnion {
    type V = Seq<(Seq<char>, Seq<char>)>;

    open spec fn view(&self) -> Seq<(Seq<char>, Seq<char>)> {
        variants_view(self.variants@)
    }
}

/// The model of the file table the compiler resolves against.
pub open spec fn files_view(s: Seq<(String, ErrorList)>) -> Seq<(Seq<char>, ErrorListSpec)> {
    Seq::new(s.len(), |i: int| (s[i].0@, s[i].1@))
}

/// The reference string that points at `name` inside `file`.
pub open spec fn ref_target(file: Seq<char>, name: Seq<char>) -> Seq<char> {
    file + "#/"@ + name
}

/// The first definition of `file` whose reference form is `r`.
pub open spec fn spec_resolve_in(file: Seq<char>, defs: Seq<ErrorDefSpec>, r: Seq<char>) -> Option<
    Seq<char>,
>
    decreases defs.len(),
{
    if defs.len() == 0 {
        None
    } else if ref_target(file, defs[0].name) == r {
        Some(defs[0].name)
    } else {
        spec_resolve_in(file, defs.drop_first(), r)
    }
}

/// The first (file, name) pair of the table whose reference form is `r`.
pub open spec fn spec_resolve(files: Seq<(Seq<char>, ErrorListSpec)>, r: Seq<char>) -> Option<
    (Seq<char>, Seq<char>),
>
    decreases files.len(),
{
    if files.len() == 0 {
        None
    } else {
        match spec_resolve_in(files[0].0, files[0].1.errors, r) {
            Some(n) => Some((files[0].0, n)),
            None => spec_resolve(files.drop_first(), r),
        }
    }
}

/// Does the pair list hold this (source, name) pair?
pub open spec fn spec_pairs_contain(
    ps: Seq<(Seq<char>, Seq<char>)>,
    p: (Seq<char>, Seq<char>),
) -> bool {
    exists|i: int| 0 <= i < ps.len() && #[trigger] ps[i] == p
}

/// Resolving and merging a reference list: every reference must resolve, and
/// a definition referenced more than once appears exactly once, at its first
/// position.
pub open spec fn spec_compile_refs(
    files: Seq<(Seq<char>, ErrorListSpec)>,
    refs: Seq<Seq<char>>,
) -> Option<Seq<(Seq<char>, Seq<char>)>>
    decreases refs.len(),
{
    if refs.len() == 0 {
        Some(Seq::empty())
    } else {
        match spec_compile_refs(files, refs.drop_last()) {
            None => None,
            Some(pre) => {
                match spec_resolve(files, refs.last()) {
                    None => None,
                    Some(p) => if spec_pairs_contain(pre, p) {
                        Some(pre)
                    } else {
                        Some(pre.push(p))
                    },
                }
            },
        }
    }
}

/// The (file, name) pairs of one whole file.
pub open spec fn spec_file_pairs(file: (Seq<char>, ErrorListSpec)) -> Seq<
    (Seq<char>, Seq<char>),
> {
    Seq::new(file.1.errors.len(), |i: int| (file.0, file.1.errors[i].name))
}

/// The whole contents of several files folded into one domain, names
/// namespaced by their source file.
pub open spec fn spec_multiple(files: Seq<(Seq<char>, ErrorListSpec)>) -> Seq<
    (Seq<char>, Seq<char>),
>
    decreases files.len(),
{
    if files.len() == 0 {
        Seq::empty()
    } else {
        spec_multiple(files.drop_last()) + spec_file_pairs(files.last())
    }
}

/// The first variant of the union whose reference form is `w`.
pub open spec fn spec_decode(u: Seq<(Seq<char>, Seq<char>)>, w: Seq<char>) -> Option<
    (Seq<char>, Seq<char>),
>
    decreases u.len(),
{
    if u.len() == 0 {
        None
    } else if ref_target(u[0].0, u[0].1) == w {
        Some(u[0])
    } else {
        spec_decode(u.drop_first(), w)
    }
}

/// The merge law of the `Duplicate` and `Selected` policies: a compiled
/// union holds each distinct resolved definition exactly once, however many
/// times the reference list names it — every variant is pairwise distinct,
/// every reference's resolution stands in the union, and every variant is
/// the resolution of some reference.
pub proof fn lemma_compile_refs_distinct(
    files: Seq<(Seq<char>, ErrorListSpec)>,
    refs: Seq<Seq<char>>,
    ps: Seq<(Seq<char>, Seq<char>)>,
)
    requires
        spec_compile_refs(files, refs) == Some(ps),
    ensures
        forall|i: int, j: int| 0 <= i < j < ps.len() ==> #[trigger] ps[i] != #[trigger] ps[j],
        forall|k: int|
            0 <= k < refs.len() ==> spec_resolve(files, #[trigger] refs[k]) is Some
                && spec_pairs_contain(ps, spec_resolve(files, refs[k])->Some_0),
        forall|i: int|
            #![trigger ps[i]]
            0 <= i < ps.len() ==> exists|k: int|
                0 <= k < refs.len() && spec_resolve(files, #[trigger] refs[k]) == Some(ps[i]),
    decreases refs.len(),
{
    if refs.len() == 0 {
    } else {
        match spec_compile_refs(files, refs.drop_last()) {
            Some(pre) => {
                lemma_compile_refs_distinct(files, refs.drop_last(), pre);
                let last_p = spec_resolve(files, refs.last())->Some_0;
                assert forall|k: int|
                    0 <= k < refs.len() implies spec_resolve(files, #[trigger] refs[k]) is Some
                    && spec_pairs_contain(ps, spec_resolve(files, refs[k])->Some_0) by {
                    if k < refs.len() - 1 {
                        assert(refs.drop_last()[k] == refs[k]);
                        let q = spec_resolve(files, refs[k])->Some_0;
                        let w = choose|w: int| 0 <= w < pre.len() && #[trigger] pre[w] == q;
                        assert(ps[w] == q);
                    } else {
                        if spec_pairs_contain(pre, last_p) {
                            let w = choose|w: int|
                                0 <= w < pre.len() && #[trigger] pre[w] == last_p;
                            assert(ps[w] == last_p);
                        } else {
                            assert(ps[ps.len() - 1] == last_p);
                        }
                    }
                }
                assert forall|i: int, j: int| 0 <= i < j < ps.len() implies #[trigger] ps[i]
                    != #[trigger] ps[j] by {
                    if j < pre.len() {
                        assert(pre[i] == ps[i] && pre[j] == ps[j]);
                    } else if !spec_pairs_contain(pre, last_p) {
                        assert(ps[i] == pre[i]);
                        if ps[i] == ps[j] {
                            assert(spec_pairs_contain(pre, last_p));
                        }
                    }
                }
                assert forall|i: int| #![trigger ps[i]] 0 <= i < ps.len() implies exists|k: int|
                    0 <= k < refs.len() && spec_resolve(files, #[trigger] refs[k]) == Some(
                        ps[i],
                    ) by {
                    if i < pre.len() {
                        let k = choose|k: int|
                            0 <= k < refs.drop_last().len() && spec_resolve(
                                files,
                                #[trigger] refs.drop_last()[k],
                            ) == Some(pre[i]);
                        assert(refs[k] == refs.drop_last()[k]);
                        assert(spec_resolve(files, refs[k]) == Some(ps[i]));
                    } else {
                        assert(spec_resolve(files, refs[refs.len() - 1]) == Some(ps[i]));
                    }
                }
            },
            None => {
                assert(false);
            },
        }
    }
}

/// The merge law of the `Multiple` policy: with distinct file names and
/// well-formed files, every definition of every file stands in the combined
/// domain, namespaced by its source, and no two variants coincide — two
/// files defining the same literal name yield two variants distinguishable
/// by source, while one file never yields duplicate variants for one name.
pub proof fn lemma_multiple_distinct(files: Seq<(Seq<char>, ErrorListSpec)>)
    requires
        forall|i: int, j: int|
            0 <= i < j < files.len() ==> (#[trigger] files[i]).0 != (#[trigger] files[j]).0,
        forall|i: int| 0 <= i < files.len() ==> (#[trigger] files[i]).1.wf(),
    ensures
        spec_multiple(files).len() == spec_multiple_len(files),
        forall|f: int, e: int|
            0 <= f < files.len() && 0 <= e < files[f].1.errors.len() ==> spec_pairs_contain(
                spec_multiple(files),
                ((#[trigger] files[f]).0, (#[trigger] files[f].1.errors[e]).name),
            ),
        forall|i: int, j: int|
            0 <= i < j < spec_multiple(files).len() ==> #[trigger] spec_multiple(files)[i]
                != #[trigger] spec_multiple(files)[j],
        forall|i: int|
            #![trigger spec_multiple(files)[i]]
            0 <= i < spec_multiple(files).len() ==> exists|f: int|
                0 <= f < files.len() && spec_multiple(files)[i].0 == (#[trigger] files[f]).0
                    && spec_defs_contain_name(files[f].1.errors, spec_multiple(files)[i].1),
    decreases files.len(),
{
    if files.len() == 0 {
    } else {
        let pre_files = files.drop_last();
        assert forall|i: int, j: int| 0 <= i < j < pre_files.len() implies (
        #[trigger] pre_files[i]).0 != (#[trigger] pre_files[j]).0 by {
            assert(pre_files[i] == files[i] && pre_files[j] == files[j]);
        }
        assert forall|i: int| 0 <= i < pre_files.len() implies (#[trigger] pre_files[i]).1.wf() by {
            assert(pre_files[i] == files[i]);
        }
        lemma_multiple_distinct(pre_files);
        let pre = spec_multiple(pre_files);
        let fp = spec_file_pairs(files.last());
        let all = spec_multiple(files);
        assert(all == pre + fp);
        // every pair of the whole table stands in the fold
        assert forall|f: int, e: int|
            0 <= f < files.len() && 0 <= e < files[f].1.errors.len() implies spec_pairs_contain(
            all,
            ((#[trigger] files[f]).0, (#[trigger] files[f].1.errors[e]).name),
        ) by {
            if f < files.len() - 1 {
                assert(pre_files[f] == files[f]);
                let w = choose|w: int|
                    0 <= w < pre.len() && #[trigger] pre[w] == (files[f].0, files[f].1.errors[e].name);
                assert(all[w] == (files[f].0, files[f].1.errors[e].name));
            } else {
                assert(fp[e] == (files[f].0, files[f].1.errors[e].name));
                assert(all[pre.len() + e] == (files[f].0, files[f].1.errors[e].name));
            }
        }
        // every variant of the fold names a file of the table
        assert forall|i: int| #![trigger all[i]] 0 <= i < all.len() implies exists|f: int|
            0 <= f < files.len() && all[i].0 == (#[trigger] files[f]).0 && spec_defs_contain_name(
                files[f].1.errors,
                all[i].1,
            ) by {
            if i < pre.len() {
                assert(all[i] == pre[i]);
                let f = choose|f: int|
                    0 <= f < pre_files.len() && pre[i].0 == (#[trigger] pre_files[f]).0
                        && spec_defs_contain_name(pre_files[f].1.errors, pre[i].1);
                assert(pre_files[f] == files[f]);
                assert(all[i].0 == files[f].0 && spec_defs_contain_name(
                    files[f].1.errors,
                    all[i].1,
                ));
            } else {
                let f = files.len() - 1;
                assert(all[i] == fp[i - pre.len()]);
                assert(all[i].0 == files[f].0);
                assert(files[f].1.errors[i - pre.len()].name == all[i].1);
                assert(spec_defs_contain_name(files[f].1.errors, all[i].1));
            }
        }
        // no two variants coincide
        assert forall|i: int, j: int| 0 <= i < j < all.len() implies #[trigger] all[i]
            != #[trigger] all[j] by {
            if j < pre.len() {
                assert(pre[i] == all[i] && pre[j] == all[j]);
            } else if i >= pre.len() {
                // two entries of the last, well-formed file differ in name
                assert(all[i] == fp[i - pre.len()] && all[j] == fp[j - pre.len()]);
                assert(files.last().1.errors[i - pre.len()].name != files.last().1.errors[j
                    - pre.len()].name);
            } else {
                // an earlier file's variant and the last file's differ in source
                assert(all[i] == pre[i] && all[j] == fp[j - pre.len()]);
                let f = choose|f: int|
                    0 <= f < pre_files.len() && pre[i].0 == (#[trigger] pre_files[f]).0
                        && spec_defs_contain_name(pre_files[f].1.errors, pre[i].1);
                assert(pre_files[f] == files[f]);
                assert(files[f].0 != files.last().0);
                assert(all[j].0 == files.last().0);
            }
        }
    }
}

/// Does a definition with this name stand in the list?
pub open spec fn spec_defs_contain_name(defs: Seq<ErrorDefSpec>, name: Seq<char>) -> bool {
    exists|i: int| 0 <= i < defs.len() && (#[trigger] defs[i]).name == name
}

/// The total count of definitions over the file table.
pub open spec fn spec_multiple_len(files: Seq<(Seq<char>, ErrorListSpec)>) -> int
    decreases files.len(),
{
    if files.len() == 0 {
        0
    } else {
        spec_multiple_len(files.drop_last()) + files.last().1.errors.len()
    }
}

/// The decode law: the wire form of an error decodes against a union
/// exactly when some variant of the union carries that form, and what comes
/// back is such a variant.
pub proof fn lemma_decode_iff(u: Seq<(Seq<char>, Seq<char>)>, w: Seq<char>)
    ensures
        (spec_decode(u, w) is Some) <==> exists|i: int|
            0 <= i < u.len() && ref_target((#[trigger] u[i]).0, u[i].1) == w,
        spec_decode(u, w) is Some ==> spec_pairs_contain(u, spec_decode(u, w)->Some_0)
            && ref_target(spec_decode(u, w)->Some_0.0, spec_decode(u, w)->Some_0.1) == w,
    decreases u.len(),
{
    if u.len() == 0 {
    } else if ref_target(u[0].0, u[0].1) == w {
        assert(spec_pairs_contain(u, u[0]));
    } else {
        lemma_decode_iff(u.drop_first(), w);
        if spec_decode(u, w) is Some {
            let p = spec_decode(u, w)->Some_0;
            let i = choose|i: int| 0 <= i < u.drop_first().len() && #[trigger] u.drop_first()[i] == p;
            assert(u[i + 1] == p);
            assert(spec_pairs_contain(u, p));
        }
        if exists|i: int| 0 <= i < u.len() && ref_target((#[trigger] u[i]).0, u[i].1) == w {
            let i = choose|i: int|
                0 <= i < u.len() && ref_target((#[trigger] u[i]).0, u[i].1) == w;
            assert(i > 0);
            assert(u.drop_first()[i - 1] == u[i]);
            assert(spec_decode(u.drop_first(), w) is Some);
        }
    }
}

/// Does the reference string point at `name` inside `file`?
fn ref_matches(reference: &str, file: &str, name: &str) -> (r: bool)
    ensures
        r == (reference@ == ref_target(file@, name@)),
{
    let mut cand: String = file.to_owned();
    cand.append("#/");
    cand.append(name);
    proof {
        assert(cand@ =~= ref_target(file@, name@));
    }
    str_eq(reference, cand.as_str())
}

/// Finds the first definition of `file` that the reference points at.
fn resolve_in_file(file: &String, defs: &Vec<ErrorDef>, reference: &str) -> (r: Option<String>)
    ensures
        match r {
            Some(n) => spec_resolve_in(file@, crate::error_list::defs_view(defs@), reference@)
                == Some(n@),
            None => spec_resolve_in(file@, crate::error_list::defs_view(defs@), reference@)
                is None,
        },
{
    let ghost all = crate::error_list::defs_view(defs@);
    proof {
        assert(all.skip(0) =~= all);
    }
    let mut i: usize = 0;
    while i < defs.len()
        invariant
            0 <= i <= defs.len(),
            all == crate::error_list::defs_view(defs@),
            all.len() == defs@.len(),
            forall|k: int| 0 <= k < defs@.len() ==> #[trigger] all[k] == defs@[k]@,
            spec_resolve_in(file@, all, reference@) == spec_resolve_in(
                file@,
                all.skip(i as int),
                reference@,
            ),
        decreases defs.len() - i,
    {
        proof {
            assert(all.skip(i as int)[0] == all[i as int]);
        }
        if ref_matches(reference, file.as_str(), defs[i].name.as_str()) {
            return Some(defs[i].name.clone());
        }
        proof {
            assert(all.skip(i as int).drop_first() =~= all.skip(i as int + 1));
        }
        i += 1;
    }
    proof {
        assert(all.skip(i as int) =~= Seq::<ErrorDefSpec>::empty());
    }
    None
}

/// Resolves one error reference against the file table: the first file, in
/// table order, holding a definition whose reference form matches.
pub fn resolve_reference(files: &Vec<(String, ErrorList)>, reference: &str) -> (r: Option<
    (String, String),
>)
    ensures
        match r {
            Some(p) => spec_resolve(files_view(files@), reference@) == Some((p.0@, p.1@)),
            None => spec_resolve(files_view(files@), reference@) is None,
        },
{
    let ghost all = files_view(files@);
    proof {
        assert(all.skip(0) =~= all);
    }
    let mut i: usize = 0;
    while i < files.len()
        invariant
            0 <= i <= files.len(),
            all == files_view(files@),
            all.len() == files@.len(),
            forall|k: int|
                0 <= k < files@.len() ==> #[trigger] all[k] == (files@[k].0@, files@[k].1@),
            spec_resolve(all, reference@) == spec_resolve(all.skip(i as int), reference@),
        decreases files.len() - i,
    {
        proof {
            assert(all.skip(i as int)[0] == all[i as int]);
        }
        match resolve_in_file(&files[i].0, &files[i].1.errors, reference) {
            Some(n) => {
                return Some((files[i].0.clone(), n));
            },
            None => {},
        }
        proof {
            assert(all.skip(i as int).drop_first() =~= all.skip(i as int + 1));
        }
        i += 1;
    }
    proof {
        assert(all.skip(i as int) =~= Seq::<(Seq<char>, ErrorListSpec)>::empty());
    }
    None
}

/// A reference list that fails on some prefix fails as a whole.
proof fn lemma_compile_extends_none(
    files: Seq<(Seq<char>, ErrorListSpec)>,
    refs: Seq<Seq<char>>,
    i: int,
)
    requires
        0 <= i <= refs.len(),
        spec_compile_refs(files, refs.take(i)) is None,
    ensures
        spec_compile_refs(files, refs) is None,
    decreases refs.len() - i,
{
    if i < refs.len() {
        assert(refs.take(i + 1).drop_last() =~= refs.take(i));
        lemma_compile_extends_none(files, refs, i + 1);
    } else {
        assert(refs.take(i) =~= refs);
    }
}

/// Does a variant with this source and name stand in the list?
pub(crate) fn pair_in(v: &Vec<ErrorVariant>, source: &str, name: &str) -> (r: bool)
    ensures
        r == spec_pairs_contain(variants_view(v@), (source@, name@)),
{
    let mut i: usize = 0;
    while i < v.len()
        invariant
            0 <= i <= v.len(),
            forall|j: int| 0 <= j < i ==> #[trigger] v@[j]@ != (source@, name@),
        decreases v.len() - i,
    {
        if str_eq(v[i].source.as_str(), source) && str_eq(v[i].name.as_str(), name) {
            proof {
                assert(variants_view(v@)[i as int] == (source@, name@));
            }
            return true;
        }
        i += 1;
    }
    proof {
        if spec_pairs_contain(variants_view(v@), (source@, name@)) {
            let j = choose|j: int|
                0 <= j < variants_view(v@).len() && #[trigger] variants_view(v@)[j] == (
                    source@,
                    name@,
                );
            assert(v@[j]@ == (source@, name@));
        }
    }
    false
}

/// Compiles the union of a reference list under the `Duplicate` or
/// `Selected` policy: every reference resolved against the file table, each
/// distinct definition emitted exactly once, in first-reference order.
/// Fails, naming the offending reference string, as soon as a reference
/// does not resolve.
pub fn compile_union(files: &Vec<(String, ErrorList)>, refs: &Vec<crate::interface::ErrorReference>)
    -> (r: Result<ErrorUnion, SchemaError>)
    ensures
        match r {
            Ok(u) => spec_compile_refs(files_view(files@), crate::interface::refs_view(refs@))
                == Some(u@),
            Err(e) => {
                &&& spec_compile_refs(files_view(files@), crate::interface::refs_view(refs@))
                    is None
                &&& e.kind == SchemaErrorKind::UnresolvedReference
                &&& exists|k: int|
                    #![trigger crate::interface::refs_view(refs@)[k]]
                    {
                        &&& 0 <= k < refs@.len()
                        &&& spec_resolve(
                            files_view(files@),
                            crate::interface::refs_view(refs@)[k],
                        ) is None
                        &&& e.path@ == crate::interface::refs_view(refs@)[k]
                    }
            },
        },
{
    let ghost fv = files_view(files@);
    let ghost rv = crate::interface::refs_view(refs@);
    proof {
        assert(rv.take(0) =~= Seq::<Seq<char>>::empty());
        assert(variants_view(Seq::<ErrorVariant>::empty()) =~= Seq::<
            (Seq<char>, Seq<char>),
        >::empty());
    }
    let mut out: Vec<ErrorVariant> = Vec::new();
    let mut i: usize = 0;
    while i < refs.len()
        invariant
            0 <= i <= refs.len(),
            fv == files_view(files@),
            rv == crate::interface::refs_view(refs@),
            rv.len() == refs@.len(),
            forall|k: int| 0 <= k < refs@.len() ==> #[trigger] rv[k] == refs@[k].reference@,
            spec_compile_refs(fv, rv.take(i as int)) == Some(variants_view(out@)),
        decreases refs.len() - i,
    {
        let ghost pre = variants_view(out@);
        proof {
            assert(rv.take(i as int + 1).drop_last() =~= rv.take(i as int));
            assert(rv.take(i as int + 1).last() == rv[i as int]);
        }
        match resolve_reference(files, refs[i].reference.as_str()) {
            None => {
                proof {
                    lemma_compile_extends_none(fv, rv, i as int + 1);
                    assert(spec_resolve(fv, rv[i as int]) is None);
                }
                return Err(
                    SchemaError::at(
                        refs[i].reference.as_str(),
                        SchemaErrorKind::UnresolvedReference,
                    ),
                );
            },
            Some((source, name)) => {
                if !pair_in(&out, source.as_str(), name.as_str()) {
                    out.push(ErrorVariant { source, name });
                    proof {
                        assert(variants_view(out@) =~= pre.push(out@.last()@));
                    }
                }
            },
        }
        i += 1;
    }
    proof {
        assert(rv.take(i as int) =~= rv);
    }
    Ok(ErrorUnion { variants: out })
}

/// Compiles the union of the whole contents of several files under the
/// `Multiple` policy: every definition of every file, namespaced by its
/// source, file order and declaration order kept.
pub fn compile_multiple(files: &Vec<(String, ErrorList)>) -> (r: ErrorUnion)
    ensures
        r@ == spec_multiple(files_view(files@)),
{
    let ghost fv = files_view(files@);
    proof {
        assert(fv.take(0) =~= Seq::<(Seq<char>, ErrorListSpec)>::empty());
        assert(variants_view(Seq::<ErrorVariant>::empty()) =~= Seq::<
            (Seq<char>, Seq<char>),
        >::empty());
    }
    let mut out: Vec<ErrorVariant> = Vec::new();
    let mut i: usize = 0;
    while i < files.len()
        invariant
            0 <= i <= files.len(),
            fv == files_view(files@),
            fv.len() == files@.len(),
            forall|k: int|
                0 <= k < files@.len() ==> #[trigger] fv[k] == (files@[k].0@, files@[k].1@),
            variants_view(out@) == spec_multiple(fv.take(i as int)),
        decreases files.len() - i,
    {
        let ghost outer_pre = variants_view(out@);
        let file_name: &String = &files[i].0;
        let defs: &Vec<ErrorDef> = &files[i].1.errors;
        let mut j: usize = 0;
        while j < defs.len()
            invariant
                0 <= j <= defs.len(),
                0 <= i < files.len(),
                fv == files_view(files@),
                fv.len() == files@.len(),
                forall|k: int|
                    0 <= k < files@.len() ==> #[trigger] fv[k] == (files@[k].0@, files@[k].1@),
                file_name@ == files@[i as int].0@,
                defs@ == files@[i as int].1.errors@,
                outer_pre == spec_multiple(fv.take(i as int)),
                variants_view(out@) =~= outer_pre + spec_file_pairs(fv[i as int]).take(j as int),
            decreases defs.len() - j,
        {
            let ghost prev = variants_view(out@);
            out.push(ErrorVariant { source: file_name.clone(), name: defs[j].name.clone() });
            proof {
                let fp = spec_file_pairs(fv[i as int]);
                assert(fv[i as int].1 == files@[i as int].1@);
                assert(fv[i as int].1.errors == crate::error_list::defs_view(defs@));
                assert(fp.len() == defs@.len());
                assert(fp[j as int] == (file_name@, defs@[j as int].name@));
                assert(fp.take(j as int + 1) =~= fp.take(j as int).push(fp[j as int]));
                assert(out@.last()@ == fp[j as int]);
                assert(variants_view(out@) =~= prev.push(fp[j as int]));
                assert((outer_pre + fp.take(j as int)).push(fp[j as int]) =~= outer_pre + fp.take(
                    j as int + 1,
                ));
                assert(variants_view(out@) =~= outer_pre + fp.take(j as int + 1));
            }
            j += 1;
        }
        proof {
            assert(spec_file_pairs(fv[i as int]).take(j as int) =~= spec_file_pairs(fv[i as int]));
            assert(fv.take(i as int + 1).drop_last() =~= fv.take(i as int));
            assert(fv.take(i as int + 1).last() == fv[i as int]);
            assert(variants_view(out@) =~= spec_multiple(fv.take(i as int + 1)));
        }
        i += 1;
    }
    proof {
        assert(fv.take(i as int) =~= fv);
    }
    ErrorUnion { variants: out }
}

/// The compiler stage in one entry point: a file table, a reference list
/// and a combination policy in, an explicit sum-type description out.
/// `Duplicate` and `Selected` resolve and merge the reference list;
/// `Multiple` folds the whole contents of the files into one domain and
/// cannot fail.
pub fn compile(
    files: &Vec<(String, ErrorList)>,
    refs: &Vec<crate::interface::ErrorReference>,
    policy: CombinationPolicy,
) -> (r: Result<ErrorUnion, SchemaError>)
    ensures
        match policy {
            CombinationPolicy::Duplicate | CombinationPolicy::Selected => match r {
                Ok(u) => spec_compile_refs(
                    files_view(files@),
                    crate::interface::refs_view(refs@),
                ) == Some(u@),
                Err(e) => {
                    &&& spec_compile_refs(
                        files_view(files@),
                        crate::interface::refs_view(refs@),
                    ) is None
                    &&& e.kind == SchemaErrorKind::UnresolvedReference
                },
            },
            CombinationPolicy::Multiple => match r {
                Ok(u) => u@ == spec_multiple(files_view(files@)),
                Err(_) => false,
            },
        },
{
    match policy {
        CombinationPolicy::Duplicate | CombinationPolicy::Selected => compile_union(files, refs),
        CombinationPolicy::Multiple => Ok(compile_multiple(files)),
    }
}

/// Decodes the on-wire string form of an error against a compiled union:
/// succeeds exactly on the wire forms of the union's own variants, and
/// fails with a structured error on every other string, unselected
/// definitions included.
pub fn decode_wire(u: &ErrorUnion, wire: &str) -> (r: Result<ErrorVariant, SchemaError>)
    ensures
        match r {
            Ok(v) => spec_decode(u@, wire@) == Some(v@),
            Err(e) => {
                &&& spec_decode(u@, wire@) is None
                &&& e.kind == SchemaErrorKind::UnresolvedReference
                &&& e.path@ == wire@
            },
        },
{
    let ghost all = u@;
    proof {
        assert(all.skip(0) =~= all);
    }
    let mut i: usize = 0;
    while i < u.variants.len()
        invariant
            0 <= i <= u.variants.len(),
            all == u@,
            all.len() == u.variants@.len(),
            forall|k: int| 0 <= k < u.variants@.len() ==> #[trigger] all[k] == u.variants@[k]@,
            spec_decode(all, wire@) == spec_decode(all.skip(i as int), wire@),
        decreases u.variants.len() - i,
    {
        proof {
            assert(all.skip(i as int)[0] == all[i as int]);
        }
        if ref_matches(wire, u.variants[i].source.as_str(), u.variants[i].name.as_str()) {
            return Ok(
                ErrorVariant {
                    source: u.variants[i].source.clone(),
                    name: u.variants[i].name.clone(),
                },
            );
        }
        proof {
            assert(all.skip(i as int).drop_first() =~= all.skip(i as int + 1));
        }
        i += 1;
    }
    proof {
        assert(all.skip(i as int) =~= Seq::<(Seq<char>, Seq<char>)>::empty());
    }
    Err(SchemaError::at(wire, SchemaErrorKind::UnresolvedReference))
}

} // verus!
