//! The raise/clear error flow a live module drives and a peer observes: an
//! active set of currently raised errors, and the accumulated raised and
//! cleared sets an observing peer builds from the notifications.

use vstd::prelude::*;

use crate::taxonomy::ErrorVariant;
use crate::taxonomy::spec_pairs_contain;
use crate::taxonomy::variants_view;

verus! {

/// The set of (source, name) pairs a variant list holds.
pub open spec fn pair_set(s: Seq<ErrorVariant>) -> Set<(Seq<char>, Seq<char>)> {
    Set::new(|p: (Seq<char>, Seq<char>)| spec_pairs_contain(variants_view(s), p))
}

/// Pushing a variant inserts its pair into the set.
proof fn lemma_pair_set_push(s: Seq<ErrorVariant>, v: ErrorVariant)
    ensures
        pair_set(s.push(v)) == pair_set(s).insert(v@),
{
    assert forall|q: (Seq<char>, Seq<char>)| pair_set(s.push(v)).contains(q) implies pair_set(
        s,
    ).insert(v@).contains(q) by {
        let i = choose|i: int|
            0 <= i < variants_view(s.push(v)).len() && #[trigger] variants_view(s.push(v))[i] == q;
        if i < s.len() {
            assert(variants_view(s)[i] == q);
        } else {
            assert(q == v@);
        }
    }
    assert forall|q: (Seq<char>, Seq<char>)| pair_set(s).insert(v@).contains(q) implies pair_set(
        s.push(v),
    ).contains(q) by {
        if q == v@ {
            assert(variants_view(s.push(v))[s.len() as int] == q);
        } else {
            let i = choose|i: int|
                0 <= i < variants_view(s).len() && #[trigger] variants_view(s)[i] == q;
            assert(variants_view(s.push(v))[i] == q);
        }
    }
    assert(pair_set(s.push(v)) =~= pair_set(s).insert(v@));
}

/// The error flow of one live session, as an observing peer accumulates
/// it: which errors are currently active, every error ever seen raised, and
/// every error ever seen cleared.
pub struct ErrorSession {
    pub active: Vec<ErrorVariant>,
    pub raised: Vec<ErrorVariant>,
    pub cleared: Vec<ErrorVariant>,
}

impl ErrorSession {
    /// The session's invariant: everything ever raised is either still
    /// active or has been seen cleared.
    pub open spec fn wf(self) -> bool {
        pair_set(self.raised@) == pair_set(self.active@).union(pair_set(self.cleared@))
    }

    /// A fresh session: nothing raised, nothing cleared.
    pub fn new() -> (r: Self)
        ensures
            r.wf(),
            r.active@.len() == 0,
            r.raised@.len() == 0,
            r.cleared@.len() == 0,
    {
        let r = ErrorSession { active: Vec::new(), raised: Vec::new(), cleared: Vec::new() };
        proof {
            assert(pair_set(r.raised@) =~= pair_set(r.active@).union(pair_set(r.cleared@)));
        }
        r
    }

    /// An error is raised: it becomes active and joins the observer's
    /// raised set. Raising an already-active error changes nothing.
    pub fn raise(&mut self, v: ErrorVariant)
        requires
            old(self).wf(),
        ensures
            final(self).wf(),
            pair_set(final(self).active@) == pair_set(old(self).active@).insert(v@),
            pair_set(final(self).raised@) == pair_set(old(self).raised@).insert(v@),
            final(self).cleared@ == old(self).cleared@,
    {
        let in_active = crate::taxonomy::pair_in(&self.active, v.source.as_str(), v.name.as_str());
        let in_raised = crate::taxonomy::pair_in(&self.raised, v.source.as_str(), v.name.as_str());
        if !in_active {
            let ghost before = self.active@;
            self.active.push(ErrorVariant { source: v.source.clone(), name: v.name.clone() });
            proof {
                lemma_pair_set_push(before, self.active@.last());
                assert(self.active@.last()@ == v@);
                assert(before.push(self.active@.last()) == self.active@);
            }
        } else {
            proof {
                assert(pair_set(self.active@).contains(v@));
                assert(pair_set(self.active@) =~= pair_set(self.active@).insert(v@));
            }
        }
        if !in_raised {
            let ghost before = self.raised@;
            self.raised.push(v);
            proof {
                lemma_pair_set_push(before, self.raised@.last());
                assert(before.push(self.raised@.last()) == self.raised@);
            }
        } else {
            proof {
                assert(pair_set(self.raised@).contains(v@));
                assert(pair_set(self.raised@) =~= pair_set(self.raised@).insert(v@));
            }
        }
        proof {
            assert(pair_set(self.raised@) =~= pair_set(self.active@).union(
                pair_set(self.cleared@),
            ));
        }
    }

    /// An active error is cleared: it leaves the active set and joins the
    /// observer's cleared set. Clearing an error that is not active changes
    /// nothing.
    pub fn clear(&mut self, source: &str, name: &str)
        requires
            old(self).wf(),
        ensures
            final(self).wf(),
            pair_set(final(self).active@) == pair_set(old(self).active@).remove((source@, name@)),
            final(self).raised@ == old(self).raised@,
            pair_set(final(self).cleared@) == if pair_set(old(self).active@).contains(
                (source@, name@),
            ) {
                pair_set(old(self).cleared@).insert((source@, name@))
            } else {
                pair_set(old(self).cleared@)
            },
    {
        let ghost p = (source@, name@);
        let was_active = crate::taxonomy::pair_in(&self.active, source, name);
        if was_active {
            let rebuilt = remove_pair(&self.active, source, name);
            self.active = rebuilt;
            let in_cleared = crate::taxonomy::pair_in(&self.cleared, source, name);
            if !in_cleared {
                let ghost before = self.cleared@;
                self.cleared.push(
                    ErrorVariant { source: source.to_owned(), name: name.to_owned() },
                );
                proof {
                    lemma_pair_set_push(before, self.cleared@.last());
                    assert(self.cleared@.last()@ == p);
                    assert(before.push(self.cleared@.last()) == self.cleared@);
                }
            } else {
                proof {
                    assert(pair_set(self.cleared@).contains(p));
                    assert(pair_set(self.cleared@) =~= pair_set(self.cleared@).insert(p));
                }
            }
            proof {
                assert(pair_set(self.raised@) =~= pair_set(self.active@).union(
                    pair_set(self.cleared@),
                ));
            }
        } else {
            proof {
                assert(!pair_set(self.active@).contains(p));
                assert(pair_set(self.active@) =~= pair_set(self.active@).remove(p));
            }
        }
    }

    /// Every active error is cleared at once: each joins the observer's
    /// cleared set, and nothing stays active.
    pub fn clear_all(&mut self)
        requires
            old(self).wf(),
        ensures
            final(self).wf(),
            final(self).active@.len() == 0,
            final(self).raised@ == old(self).raised@,
            pair_set(final(self).cleared@) == pair_set(old(self).cleared@).union(
                pair_set(old(self).active@),
            ),
    {
        let ghost av = self.active@;
        let ghost cv = self.cleared@;
        proof {
            assert(pair_set(av.take(0)) =~= Set::<(Seq<char>, Seq<char>)>::empty());
            assert(pair_set(cv) =~= pair_set(cv).union(pair_set(av.take(0))));
        }
        let mut i: usize = 0;
        while i < self.active.len()
            invariant
                0 <= i <= self.active.len(),
                av == self.active@,
                self.raised@ == old(self).raised@,
                pair_set(self.cleared@) == pair_set(cv).union(pair_set(av.take(i as int))),
            decreases self.active.len() - i,
        {
            let source: String = self.active[i].source.clone();
            let name: String = self.active[i].name.clone();
            let ghost before = self.cleared@;
            let in_cleared = crate::taxonomy::pair_in(&self.cleared, source.as_str(), name.as_str());
            if !in_cleared {
                self.cleared.push(ErrorVariant { source, name });
                proof {
                    lemma_pair_set_push(before, self.cleared@.last());
                    assert(before.push(self.cleared@.last()) == self.cleared@);
                    assert(self.cleared@.last()@ == av[i as int]@);
                }
            } else {
                proof {
                    assert(pair_set(self.cleared@).contains(av[i as int]@));
                    assert(pair_set(self.cleared@) =~= pair_set(self.cleared@).insert(
                        av[i as int]@,
                    ));
                }
            }
            proof {
                assert(av.take(i as int + 1).drop_last() =~= av.take(i as int));
                assert(av.take(i as int) == av.take(i as int + 1).drop_last());
                lemma_pair_set_push(av.take(i as int), av[i as int]);
                assert(av.take(i as int).push(av[i as int]) =~= av.take(i as int + 1));
                assert(pair_set(av.take(i as int + 1)) == pair_set(av.take(i as int)).insert(
                    av[i as int]@,
                ));
                assert(pair_set(self.cleared@) =~= pair_set(cv).union(
                    pair_set(av.take(i as int + 1)),
                ));
            }
            i += 1;
        }
        proof {
            assert(av.take(i as int) =~= av);
        }
        self.active = Vec::new();
        proof {
            assert(pair_set(self.active@) =~= Set::<(Seq<char>, Seq<char>)>::empty());
            assert(pair_set(self.raised@) =~= pair_set(self.active@).union(
                pair_set(self.cleared@),
            ));
        }
    }
}

/// The variant list without every entry carrying the given pair.
fn remove_pair(v: &Vec<ErrorVariant>, source: &str, name: &str) -> (r: Vec<ErrorVariant>)
    ensures
        pair_set(r@) == pair_set(v@).remove((source@, name@)),
{
    let ghost p = (source@, name@);
    let ghost vv = v@;
    proof {
        assert(pair_set(vv.take(0)) =~= Set::<(Seq<char>, Seq<char>)>::empty());
    }
    let mut out: Vec<ErrorVariant> = Vec::new();
    let mut i: usize = 0;
    proof {
        assert(pair_set(out@) =~= pair_set(vv.take(0)).remove(p));
    }
    while i < v.len()
        invariant
            0 <= i <= v.len(),
            vv == v@,
            p == (source@, name@),
            pair_set(out@) == pair_set(vv.take(i as int)).remove(p),
        decreases v.len() - i,
    {
        let matches_p = crate::value::str_eq(v[i].source.as_str(), source) && crate::value::str_eq(
            v[i].name.as_str(),
            name,
        );
        proof {
            assert(vv.take(i as int + 1).drop_last() =~= vv.take(i as int));
            lemma_pair_set_push(vv.take(i as int), vv[i as int]);
            assert(vv.take(i as int).push(vv[i as int]) =~= vv.take(i as int + 1));
            assert(pair_set(vv.take(i as int + 1)) == pair_set(vv.take(i as int)).insert(
                vv[i as int]@,
            ));
        }
        if !matches_p {
            let ghost before = out@;
            out.push(ErrorVariant { source: v[i].source.clone(), name: v[i].name.clone() });
            proof {
                lemma_pair_set_push(before, out@.last());
                assert(before.push(out@.last()) == out@);
                assert(out@.last()@ == vv[i as int]@);
                assert(vv[i as int]@ != p);
                assert((pair_set(vv.take(i as int)).remove(p)).insert(vv[i as int]@) =~= (pair_set(
                    vv.take(i as int),
                ).insert(vv[i as int]@)).remove(p));
                assert(pair_set(out@) =~= pair_set(vv.take(i as int + 1)).remove(p));
            }
        } else {
            proof {
                assert(vv[i as int]@ == p);
                assert((pair_set(vv.take(i as int)).insert(p)).remove(p) =~= pair_set(
                    vv.take(i as int),
                ).remove(p));
                assert(pair_set(out@) =~= pair_set(vv.take(i as int + 1)).remove(p));
            }
        }
        i += 1;
    }
    proof {
        assert(vv.take(i as int) =~= vv);
    }
    out
}

/// The end-to-end observation law: once every active error has been
/// cleared, an observing peer's cleared set equals its raised set — every
/// error it saw raised it has also seen cleared, and nothing else.
pub proof fn lemma_all_cleared_equals_raised(s: ErrorSession)
    requires
        s.wf(),
        s.active@.len() == 0,
    ensures
        pair_set(s.cleared@) == pair_set(s.raised@),
{
    assert(pair_set(s.active@) =~= Set::<(Seq<char>, Seq<char>)>::empty());
    assert(pair_set(s.raised@) =~= pair_set(s.cleared@));
}

} // verus!
