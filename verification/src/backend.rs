//! Backends: one per supported package-management ecosystem.
//!
//! A backend is created not-loaded, is loaded exactly once from the full
//! group set (keeping the declarations of its own section, as a sorted,
//! duplicate-free set), and is then diffed against the installed and
//! explicitly-installed package sets that the caller observed.  Querying
//! the real system, installing and removing are the caller's work; the
//! diff functions here take the query outcome as an argument.

use vstd::prelude::*;

use crate::group::{Group, entries_declare, group_declares, groups_declare};
use crate::order::{contains_name, has_name, insert_sorted, lemma_sorted_names_unique,
    sorted_names};

verus! {

/// The closed set of supported package ecosystems.
///
/// `Pkg` is the system package manager; `Lang` is the language package
/// manager.  The registry enumerates them in this fixed order.
#[derive(Clone, Copy, PartialEq, Eq, Structural, Debug)]
pub enum BackendKind {
    Pkg,
    Lang,
}

/// Why a backend could not serve a request.
///
/// `Unavailable` and `QueryFailure` arise while collecting (the backend is
/// warned about and skipped); `ActionFailure` arises while executing a
/// confirmed install or remove and ends the run.
#[derive(Clone, Copy, PartialEq, Eq, Structural, Debug)]
pub enum BackendError {
    Unavailable,
    QueryFailure,
    ActionFailure,
}

/// The stable section identifier of a backend kind.
pub open spec fn section_of(kind: BackendKind) -> Seq<char> {
    match kind {
        BackendKind::Pkg => "pkg"@,
        BackendKind::Lang => "lang"@,
    }
}

/// The fixed registry enumeration order.
pub open spec fn registry() -> Seq<BackendKind> {
    seq![BackendKind::Pkg, BackendKind::Lang]
}

/// The position of a backend kind in the registry order.
pub open spec fn kind_index(kind: BackendKind) -> int {
    match kind {
        BackendKind::Pkg => 0,
        BackendKind::Lang => 1,
    }
}

/// Produces one backend kind per supported ecosystem, in the fixed
/// registry order.
pub fn backend_kinds() -> (r: Vec<BackendKind>)
    ensures
        r@ == registry(),
{
    let r = vec![BackendKind::Pkg, BackendKind::Lang];
    proof {
        assert(r@ =~= registry());
    }
    r
}

/// One package-management backend with its declared set.
pub struct Backend {
    pub kind: BackendKind,
    pub declared: Vec<String>,
    pub loaded: bool,
}

/// The backend's declared set is exactly what the groups declare for its
/// section, in canonical sorted form.  This is what `load` establishes.
pub open spec fn loaded_from(b: Backend, gs: Seq<Group>) -> bool {
    &&& b.loaded
    &&& sorted_names(b.declared@)
    &&& forall|p: Seq<char>|
        has_name(b.declared@, p) <==> groups_declare(gs, section_of(b.kind), p)
}

impl Backend {
    /// Creates a not-loaded backend of the given kind with an empty
    /// declared set.
    pub fn new(kind: BackendKind) -> (r: Backend)
        ensures
            r.kind == kind,
            !r.loaded,
            r.declared@.len() == 0,
    {
        Backend { kind, declared: Vec::new(), loaded: false }
    }

    /// The backend's section identifier.
    pub fn get_section(&self) -> (r: String)
        ensures
            r@ == section_of(self.kind),
    {
        match self.kind {
            BackendKind::Pkg => "pkg".to_owned(),
            BackendKind::Lang => "lang".to_owned(),
        }
    }

    /// Re-derives the declared set from the groups: the packages that any
    /// group declares for this backend's section, as a sorted set.  Loading
    /// has no effect on the underlying system, and loading again from the
    /// same groups yields the same declared set (`lemma_load_idempotent`).
    pub fn load(&mut self, groups: &Vec<Group>)
        ensures
            final(self).kind == old(self).kind,
            loaded_from(*final(self), groups@),
    {
        let section = self.get_section();
        self.declared = Vec::new();
        let mut gi: usize = 0;
        while gi < groups.len()
            invariant
                0 <= gi <= groups@.len(),
                self.kind == old(self).kind,
                section@ == section_of(self.kind),
                sorted_names(self.declared@),
                forall|p: Seq<char>|
                    has_name(self.declared@, p) <==> groups_declare(
                        groups@.take(gi as int),
                        section@,
                        p,
                    ),
            decreases groups@.len() - gi,
        {
            let g = &groups[gi];
            let mut ei: usize = 0;
            while ei < g.entries.len()
                invariant
                    0 <= ei <= g.entries@.len(),
                    g == groups@[gi as int],
                    0 <= gi < groups@.len(),
                    self.kind == old(self).kind,
                    section@ == section_of(self.kind),
                    sorted_names(self.declared@),
                    forall|p: Seq<char>|
                        has_name(self.declared@, p) <==> (groups_declare(
                            groups@.take(gi as int),
                            section@,
                            p,
                        ) || entries_declare(
                            g.entries@.take(ei as int),
                            section@,
                            p,
                        )),
                decreases g.entries@.len() - ei,
            {
                let ghost entries_prefix = g.entries@.take(ei as int);
                let e = &g.entries[ei];
                let matches_section = e.section == section;
                if matches_section {
                    insert_sorted(&mut self.declared, e.package.clone());
                }
                proof {
                    let next = g.entries@.take(ei + 1 as int);
                    assert forall|p: Seq<char>|
                        entries_declare(next, section@, p) implies (
                    entries_declare(entries_prefix, section@, p) || (matches_section
                        && p == e.package@)) by {
                        let j = choose|j: int|
                            0 <= j < next.len() && (#[trigger] next[j]).section@ == section@
                                && next[j].package@ == p;
                        if j < ei as int {
                            assert(entries_prefix[j].section@ == section@
                                && entries_prefix[j].package@ == p);
                        }
                    }
                    assert forall|p: Seq<char>|
                        (entries_declare(entries_prefix, section@, p) || (
                        matches_section && p == e.package@)) implies entries_declare(
                        next,
                        section@,
                        p,
                    ) by {
                        if entries_declare(entries_prefix, section@, p) {
                            let j = choose|j: int|
                                0 <= j < entries_prefix.len() && (#[trigger] entries_prefix[j]).section@
                                    == section@ && entries_prefix[j].package@ == p;
                            assert(next[j].section@ == section@ && next[j].package@ == p);
                        } else {
                            assert(next[ei as int].section@ == section@ && next[ei as int].package@
                                == p);
                        }
                    }
                }
                ei = ei + 1;
            }
            proof {
                assert(g.entries@.take(g.entries@.len() as int) =~= g.entries@);
                let prefix = groups@.take(gi as int);
                let next = groups@.take(gi + 1 as int);
                assert forall|p: Seq<char>|
                    groups_declare(next, section@, p) implies (groups_declare(prefix, section@, p)
                    || group_declares(groups@[gi as int], section@, p)) by {
                    let j = choose|j: int|
                        0 <= j < next.len() && group_declares(
                            #[trigger] next[j],
                            section@,
                            p,
                        );
                    if j < gi as int {
                        assert(group_declares(prefix[j], section@, p));
                    }
                }
                assert forall|p: Seq<char>|
                    (groups_declare(prefix, section@, p) || group_declares(
                        groups@[gi as int],
                        section@,
                        p,
                    )) implies groups_declare(next, section@, p) by {
                    if groups_declare(prefix, section@, p) {
                        let j = choose|j: int|
                            0 <= j < prefix.len() && group_declares(
                                #[trigger] prefix[j],
                                section@,
                                p,
                            );
                        assert(group_declares(next[j], section@, p));
                    } else {
                        assert(group_declares(next[gi as int], section@, p));
                    }
                }
            }
            gi = gi + 1;
        }
        proof {
            assert(groups@.take(groups@.len() as int) =~= groups@);
        }
        self.loaded = true;
    }

    /// The sorted set of missing packages: declared but not installed.
    /// The result holds exactly the declared names absent from
    /// `installed`, in ascending order without duplicates.
    pub fn diff_missing(&self, installed: &Vec<String>) -> (r: Vec<String>)
        ensures
            sorted_names(r@),
            forall|p: Seq<char>|
                has_name(r@, p) <==> (has_name(self.declared@, p) && !has_name(installed@, p)),
    {
        let mut r: Vec<String> = Vec::new();
        let mut i: usize = 0;
        while i < self.declared.len()
            invariant
                0 <= i <= self.declared@.len(),
                sorted_names(r@),
                forall|p: Seq<char>|
                    has_name(r@, p) <==> (has_name(self.declared@.take(i as int), p) && !has_name(
                        installed@,
                        p,
                    )),
            decreases self.declared@.len() - i,
        {
            let ghost prefix = self.declared@.take(i as int);
            let keep = !contains_name(installed, self.declared[i].as_str());
            if keep {
                insert_sorted(&mut r, self.declared[i].clone());
            }
            proof {
                let next = self.declared@.take(i + 1 as int);
                assert forall|p: Seq<char>| has_name(next, p) implies (has_name(prefix, p) || p
                    == self.declared@[i as int]@) by {
                    let j = choose|j: int| 0 <= j < next.len() && (#[trigger] next[j])@ == p;
                    if j < i as int {
                        assert(prefix[j]@ == p);
                    }
                }
                assert forall|p: Seq<char>|
                    (has_name(prefix, p) || p == self.declared@[i as int]@) implies has_name(
                    next,
                    p,
                ) by {
                    if has_name(prefix, p) {
                        let j = choose|j: int| 0 <= j < prefix.len() && (#[trigger] prefix[j])@ == p;
                        assert(next[j]@ == p);
                    } else {
                        assert(next[i as int]@ == p);
                    }
                }
            }
            i = i + 1;
        }
        proof {
            assert(self.declared@.take(self.declared@.len() as int) =~= self.declared@);
        }
        r
    }

    /// The sorted set of unmanaged packages: explicitly installed but not
    /// declared.  The result holds exactly the names of `explicit` absent
    /// from the declared set, in ascending order without duplicates.
    pub fn diff_unmanaged(&self, explicit: &Vec<String>) -> (r: Vec<String>)
        ensures
            sorted_names(r@),
            forall|p: Seq<char>|
                has_name(r@, p) <==> (has_name(explicit@, p) && !has_name(self.declared@, p)),
    {
        let mut r: Vec<String> = Vec::new();
        let mut i: usize = 0;
        while i < explicit.len()
            invariant
                0 <= i <= explicit@.len(),
                sorted_names(r@),
                forall|p: Seq<char>|
                    has_name(r@, p) <==> (has_name(explicit@.take(i as int), p) && !has_name(
                        self.declared@,
                        p,
                    )),
            decreases explicit@.len() - i,
        {
            let ghost prefix = explicit@.take(i as int);
            let keep = !contains_name(&self.declared, explicit[i].as_str());
            if keep {
                insert_sorted(&mut r, explicit[i].clone());
            }
            proof {
                let next = explicit@.take(i + 1 as int);
                assert forall|p: Seq<char>| has_name(next, p) implies (has_name(prefix, p) || p
                    == explicit@[i as int]@) by {
                    let j = choose|j: int| 0 <= j < next.len() && (#[trigger] next[j])@ == p;
                    if j < i as int {
                        assert(prefix[j]@ == p);
                    }
                }
                assert forall|p: Seq<char>|
                    (has_name(prefix, p) || p == explicit@[i as int]@) implies has_name(
                    next,
                    p,
                ) by {
                    if has_name(prefix, p) {
                        let j = choose|j: int| 0 <= j < prefix.len() && (#[trigger] prefix[j])@ == p;
                        assert(next[j]@ == p);
                    } else {
                        assert(next[i as int]@ == p);
                    }
                }
            }
            i = i + 1;
        }
        proof {
            assert(explicit@.take(explicit@.len() as int) =~= explicit@);
        }
        r
    }

    /// The missing-package diff, passing a failed installed-set query
    /// through: the result is `Ok` exactly when the query was, and then
    /// holds `diff_missing` of the queried set.
    pub fn get_missing_packages_sorted(&self, installed: &Result<Vec<String>, BackendError>) -> (r:
        Result<Vec<String>, BackendError>)
        ensures
            r is Ok <==> installed is Ok,
            installed is Ok ==> sorted_names(r->Ok_0@) && (forall|p: Seq<char>|
                has_name(r->Ok_0@, p) <==> (has_name(self.declared@, p) && !has_name(
                    installed->Ok_0@,
                    p,
                ))),
            installed is Err ==> r->Err_0 == installed->Err_0,
    {
        match installed {
            Ok(v) => Ok(self.diff_missing(v)),
            Err(e) => Err(*e),
        }
    }

    /// The unmanaged-package diff, passing a failed explicit-set query
    /// through: the result is `Ok` exactly when the query was, and then
    /// holds `diff_unmanaged` of the queried set.
    pub fn get_unmanaged_packages_sorted(&self, explicit: &Result<Vec<String>, BackendError>) -> (r:
        Result<Vec<String>, BackendError>)
        ensures
            r is Ok <==> explicit is Ok,
            explicit is Ok ==> sorted_names(r->Ok_0@) && (forall|p: Seq<char>|
                has_name(r->Ok_0@, p) <==> (has_name(explicit->Ok_0@, p) && !has_name(
                    self.declared@,
                    p,
                ))),
            explicit is Err ==> r->Err_0 == explicit->Err_0,
    {
        match explicit {
            Ok(v) => Ok(self.diff_unmanaged(v)),
            Err(e) => Err(*e),
        }
    }
}

/// Loading is idempotent: two backends of the same kind loaded from the
/// same groups hold the same declared set, name for name.
pub proof fn lemma_load_idempotent(a: Backend, b: Backend, gs: Seq<Group>)
    requires
        loaded_from(a, gs),
        loaded_from(b, gs),
        a.kind == b.kind,
    ensures
        a.declared@.len() == b.declared@.len(),
        forall|i: int| 0 <= i < a.declared@.len() ==> (#[trigger] a.declared@[i])@ == b.declared@[i]@,
{
    lemma_sorted_names_unique(a.declared@, b.declared@);
}

} // verus!
