//! Collection across backends, with per-backend failure isolation.
//!
//! For each backend of the registry, in the fixed registry order, the
//! collection functions load the backend from the groups and diff it
//! against the query outcome the caller observed for it.  A backend whose
//! query failed is excluded from the work list and reported as a warning;
//! it never aborts the collection of the others.

use vstd::prelude::*;

use crate::backend::{Backend, BackendError, BackendKind, backend_kinds, kind_index, loaded_from,
    registry, section_of};
use crate::group::Group;
use crate::order::{has_name, sorted_names};
use crate::todo::ToDoPerBackend;

verus! {

/// A non-fatal report: the named backend was skipped for this reason.
pub struct Warning {
    pub kind: BackendKind,
    pub section: String,
    pub error: BackendError,
}

/// The outcome of one collection pass: the work list, and one warning per
/// skipped backend.
pub struct CollectOutcome {
    pub todo: ToDoPerBackend,
    pub warnings: Vec<Warning>,
}

/// The entry belongs to a backend whose query succeeded, is loaded from
/// the groups, and its package set is the missing diff: declared by the
/// groups for its section and absent from the queried installed set.
pub open spec fn missing_entry_ok(
    groups: Seq<Group>,
    outcomes: Seq<Result<Vec<String>, BackendError>>,
    ent: (Backend, Vec<String>),
) -> bool {
    let i = kind_index(ent.0.kind);
    &&& 0 <= i < outcomes.len()
    &&& outcomes[i] is Ok
    &&& loaded_from(ent.0, groups)
    &&& sorted_names(ent.1@)
    &&& forall|p: Seq<char>|
        has_name(ent.1@, p) <==> (has_name(ent.0.declared@, p) && !has_name(outcomes[i]->Ok_0@, p))
}

/// As `missing_entry_ok`, but the package set is the unmanaged diff: in
/// the queried explicit set and not declared by the groups.
pub open spec fn unmanaged_entry_ok(
    groups: Seq<Group>,
    outcomes: Seq<Result<Vec<String>, BackendError>>,
    ent: (Backend, Vec<String>),
) -> bool {
    let i = kind_index(ent.0.kind);
    &&& 0 <= i < outcomes.len()
    &&& outcomes[i] is Ok
    &&& loaded_from(ent.0, groups)
    &&& sorted_names(ent.1@)
    &&& forall|p: Seq<char>|
        has_name(ent.1@, p) <==> (has_name(outcomes[i]->Ok_0@, p) && !has_name(ent.0.declared@, p))
}

/// The warning names a backend whose query failed, with that failure.
pub open spec fn warning_ok(
    outcomes: Seq<Result<Vec<String>, BackendError>>,
    w: Warning,
) -> bool {
    let i = kind_index(w.kind);
    &&& 0 <= i < outcomes.len()
    &&& outcomes[i] is Err
    &&& w.error == outcomes[i]->Err_0
    &&& w.section@ == section_of(w.kind)
}

/// The work list and warnings together account for every backend exactly
/// once: a backend stands in the work list exactly when its query
/// succeeded, and in the warnings exactly when it failed, both in registry
/// order.
pub open spec fn collection_complete(
    outcomes: Seq<Result<Vec<String>, BackendError>>,
    r: CollectOutcome,
) -> bool {
    &&& forall|j1: int, j2: int|
        0 <= j1 < j2 < r.todo.entries@.len() ==> kind_index(
            (#[trigger] r.todo.entries@[j1]).0.kind,
        ) < kind_index((#[trigger] r.todo.entries@[j2]).0.kind)
    &&& forall|w1: int, w2: int|
        0 <= w1 < w2 < r.warnings@.len() ==> kind_index((#[trigger] r.warnings@[w1]).kind)
            < kind_index((#[trigger] r.warnings@[w2]).kind)
    &&& forall|i: int|
        0 <= i < registry().len() ==> ((#[trigger] outcomes[i]) is Ok <==> exists|j: int|
            0 <= j < r.todo.entries@.len() && (#[trigger] r.todo.entries@[j]).0.kind
                == registry()[i])
    &&& forall|i: int|
        0 <= i < registry().len() ==> ((#[trigger] outcomes[i]) is Err <==> exists|w: int|
            0 <= w < r.warnings@.len() && (#[trigger] r.warnings@[w]).kind == registry()[i])
}

/// Every registry position is the index of its kind.
proof fn lemma_registry_index(i: int)
    requires
        0 <= i < registry().len(),
    ensures
        kind_index(registry()[i]) == i,
{
    assert(registry()[0] == BackendKind::Pkg);
    assert(registry()[1] == BackendKind::Lang);
}

/// After appending an entry for registry position `i`, the work list
/// represents exactly the backends it did before plus that one, for every
/// position up to and including `i`.
proof fn lemma_entry_presence_push(
    outcomes: Seq<Result<Vec<String>, BackendError>>,
    prev: Seq<(Backend, Vec<String>)>,
    ent: (Backend, Vec<String>),
    i: int,
)
    requires
        outcomes.len() == registry().len(),
        0 <= i < registry().len(),
        outcomes[i] is Ok,
        ent.0.kind == registry()[i],
        forall|j: int| 0 <= j < prev.len() ==> kind_index((#[trigger] prev[j]).0.kind) < i,
        forall|ii: int|
            0 <= ii < i ==> ((#[trigger] outcomes[ii]) is Ok <==> exists|j: int|
                0 <= j < prev.len() && (#[trigger] prev[j]).0.kind == registry()[ii]),
    ensures
        forall|ii: int|
            0 <= ii < i + 1 ==> ((#[trigger] outcomes[ii]) is Ok <==> exists|j: int|
                0 <= j < prev.push(ent).len() && (#[trigger] prev.push(ent)[j]).0.kind
                    == registry()[ii]),
{
    let new = prev.push(ent);
    assert forall|ii: int| 0 <= ii < i + 1 implies ((#[trigger] outcomes[ii]) is Ok <==> exists|
        j: int,
    | 0 <= j < new.len() && (#[trigger] new[j]).0.kind == registry()[ii]) by {
        lemma_registry_index(ii);
        lemma_registry_index(i);
        if ii < i {
            if outcomes[ii] is Ok {
                let j = choose|j: int|
                    0 <= j < prev.len() && (#[trigger] prev[j]).0.kind == registry()[ii];
                assert(new[j].0.kind == registry()[ii]);
            } else {
                if exists|j: int| 0 <= j < new.len() && (#[trigger] new[j]).0.kind
                    == registry()[ii] {
                    let j = choose|j: int|
                        0 <= j < new.len() && (#[trigger] new[j]).0.kind == registry()[ii];
                    if j < prev.len() {
                        assert(prev[j].0.kind == registry()[ii]);
                    }
                    assert(false);
                }
            }
        } else {
            assert(new[prev.len() as int].0.kind == registry()[i]);
        }
    }
}

/// After appending a warning for registry position `i`, the warnings name
/// exactly the backends they did before plus that one, for every position
/// up to and including `i`.
proof fn lemma_warning_presence_push(
    outcomes: Seq<Result<Vec<String>, BackendError>>,
    prev: Seq<Warning>,
    w: Warning,
    i: int,
)
    requires
        outcomes.len() == registry().len(),
        0 <= i < registry().len(),
        outcomes[i] is Err,
        w.kind == registry()[i],
        forall|j: int| 0 <= j < prev.len() ==> kind_index((#[trigger] prev[j]).kind) < i,
        forall|ii: int|
            0 <= ii < i ==> ((#[trigger] outcomes[ii]) is Err <==> exists|j: int|
                0 <= j < prev.len() && (#[trigger] prev[j]).kind == registry()[ii]),
    ensures
        forall|ii: int|
            0 <= ii < i + 1 ==> ((#[trigger] outcomes[ii]) is Err <==> exists|j: int|
                0 <= j < prev.push(w).len() && (#[trigger] prev.push(w)[j]).kind == registry()[ii]),
{
    let new = prev.push(w);
    assert forall|ii: int| 0 <= ii < i + 1 implies ((#[trigger] outcomes[ii]) is Err <==> exists|
        j: int,
    | 0 <= j < new.len() && (#[trigger] new[j]).kind == registry()[ii]) by {
        lemma_registry_index(ii);
        lemma_registry_index(i);
        if ii < i {
            if outcomes[ii] is Err {
                let j = choose|j: int|
                    0 <= j < prev.len() && (#[trigger] prev[j]).kind == registry()[ii];
                assert(new[j].kind == registry()[ii]);
            } else {
                if exists|j: int| 0 <= j < new.len() && (#[trigger] new[j]).kind
                    == registry()[ii] {
                    let j = choose|j: int|
                        0 <= j < new.len() && (#[trigger] new[j]).kind == registry()[ii];
                    if j < prev.len() {
                        assert(prev[j].kind == registry()[ii]);
                    }
                    assert(false);
                }
            }
        } else {
            assert(new[prev.len() as int].kind == registry()[i]);
        }
    }
}

/// A work list whose entries all stand before registry position `i` has no
/// entry for position `i`.
proof fn lemma_entry_absent(prev: Seq<(Backend, Vec<String>)>, i: int)
    requires
        0 <= i < registry().len(),
        forall|j: int| 0 <= j < prev.len() ==> kind_index((#[trigger] prev[j]).0.kind) < i,
    ensures
        !(exists|j: int| 0 <= j < prev.len() && (#[trigger] prev[j]).0.kind == registry()[i]),
{
    lemma_registry_index(i);
    if exists|j: int| 0 <= j < prev.len() && (#[trigger] prev[j]).0.kind == registry()[i] {
        let j = choose|j: int| 0 <= j < prev.len() && (#[trigger] prev[j]).0.kind == registry()[i];
        assert(false);
    }
}

/// A warning list whose warnings all stand before registry position `i`
/// has no warning for position `i`.
proof fn lemma_warning_absent(prev: Seq<Warning>, i: int)
    requires
        0 <= i < registry().len(),
        forall|j: int| 0 <= j < prev.len() ==> kind_index((#[trigger] prev[j]).kind) < i,
    ensures
        !(exists|j: int| 0 <= j < prev.len() && (#[trigger] prev[j]).kind == registry()[i]),
{
    lemma_registry_index(i);
    if exists|j: int| 0 <= j < prev.len() && (#[trigger] prev[j]).kind == registry()[i] {
        let j = choose|j: int| 0 <= j < prev.len() && (#[trigger] prev[j]).kind == registry()[i];
        assert(false);
    }
}

/// Loads every backend of the registry from the groups and collects its
/// missing-package diff against the matching query outcome, one outcome
/// per backend in registry order.  A failed query only excludes its own
/// backend: every other backend's entry is still produced.
pub fn get_missing_packages(
    groups: &Vec<Group>,
    outcomes: &Vec<Result<Vec<String>, BackendError>>,
) -> (r: CollectOutcome)
    requires
        outcomes@.len() == registry().len(),
    ensures
        collection_complete(outcomes@, r),
        forall|j: int|
            0 <= j < r.todo.entries@.len() ==> missing_entry_ok(
                groups@,
                outcomes@,
                #[trigger] r.todo.entries@[j],
            ),
        forall|w: int| 0 <= w < r.warnings@.len() ==> warning_ok(outcomes@, #[trigger] r.warnings@[w]),
{
    let kinds = backend_kinds();
    let mut todo = ToDoPerBackend::new();
    let mut warnings: Vec<Warning> = Vec::new();
    let mut i: usize = 0;
    while i < kinds.len()
        invariant
            kinds@ == registry(),
            outcomes@.len() == registry().len(),
            0 <= i <= kinds@.len(),
            forall|j1: int, j2: int|
                0 <= j1 < j2 < todo.entries@.len() ==> kind_index(
                    (#[trigger] todo.entries@[j1]).0.kind,
                ) < kind_index((#[trigger] todo.entries@[j2]).0.kind),
            forall|w1: int, w2: int|
                0 <= w1 < w2 < warnings@.len() ==> kind_index((#[trigger] warnings@[w1]).kind)
                    < kind_index((#[trigger] warnings@[w2]).kind),
            forall|j: int|
                0 <= j < todo.entries@.len() ==> kind_index((#[trigger] todo.entries@[j]).0.kind)
                    < i && missing_entry_ok(groups@, outcomes@, todo.entries@[j]),
            forall|w: int|
                0 <= w < warnings@.len() ==> kind_index((#[trigger] warnings@[w]).kind) < i
                    && warning_ok(outcomes@, warnings@[w]),
            forall|ii: int|
                0 <= ii < i ==> ((#[trigger] outcomes@[ii]) is Ok <==> exists|j: int|
                    0 <= j < todo.entries@.len() && (#[trigger] todo.entries@[j]).0.kind
                        == registry()[ii]),
            forall|ii: int|
                0 <= ii < i ==> ((#[trigger] outcomes@[ii]) is Err <==> exists|w: int|
                    0 <= w < warnings@.len() && (#[trigger] warnings@[w]).kind == registry()[ii]),
        decreases kinds@.len() - i,
    {
        proof {
            assert(kind_index(registry()[i as int]) == i as int) by {
                assert(registry()[0] == BackendKind::Pkg);
                assert(registry()[1] == BackendKind::Lang);
            }
        }
        let mut backend = Backend::new(kinds[i]);
        backend.load(groups);
        match &outcomes[i] {
            Ok(v) => {
                let diff = backend.diff_missing(v);
                let ghost prev = todo.entries@;
                todo.push((backend, diff));
                proof {
                    let ent = todo.entries@.last();
                    assert(todo.entries@ == prev.push(ent));
                    lemma_entry_presence_push(outcomes@, prev, ent, i as int);
                    lemma_warning_absent(warnings@, i as int);
                    lemma_registry_index(i as int);
                }
            },
            Err(e) => {
                let w = Warning { kind: kinds[i], section: backend.get_section(), error: *e };
                let ghost prevw = warnings@;
                warnings.push(w);
                proof {
                    let added = warnings@.last();
                    assert(warnings@ == prevw.push(added));
                    lemma_warning_presence_push(outcomes@, prevw, added, i as int);
                    lemma_entry_absent(todo.entries@, i as int);
                    lemma_registry_index(i as int);
                }
            },
        }
        i = i + 1;
    }
    CollectOutcome { todo, warnings }
}

/// Loads every backend of the registry from the groups and collects its
/// unmanaged-package diff against the matching query outcome, one outcome
/// per backend in registry order.  A failed query only excludes its own
/// backend: every other backend's entry is still produced.
pub fn get_unmanaged_packages(
    groups: &Vec<Group>,
    outcomes: &Vec<Result<Vec<String>, BackendError>>,
) -> (r: CollectOutcome)
    requires
        outcomes@.len() == registry().len(),
    ensures
        collection_complete(outcomes@, r),
        forall|j: int|
            0 <= j < r.todo.entries@.len() ==> unmanaged_entry_ok(
                groups@,
                outcomes@,
                #[trigger] r.todo.entries@[j],
            ),
        forall|w: int| 0 <= w < r.warnings@.len() ==> warning_ok(outcomes@, #[trigger] r.warnings@[w]),
{
    let kinds = backend_kinds();
    let mut todo = ToDoPerBackend::new();
    let mut warnings: Vec<Warning> = Vec::new();
    let mut i: usize = 0;
    while i < kinds.len()
        invariant
            kinds@ == registry(),
            outcomes@.len() == registry().len(),
            0 <= i <= kinds@.len(),
            forall|j1: int, j2: int|
                0 <= j1 < j2 < todo.entries@.len() ==> kind_index(
                    (#[trigger] todo.entries@[j1]).0.kind,
                ) < kind_index((#[trigger] todo.entries@[j2]).0.kind),
            forall|w1: int, w2: int|
                0 <= w1 < w2 < warnings@.len() ==> kind_index((#[trigger] warnings@[w1]).kind)
                    < kind_index((#[trigger] warnings@[w2]).kind),
            forall|j: int|
                0 <= j < todo.entries@.len() ==> kind_index((#[trigger] todo.entries@[j]).0.kind)
                    < i && unmanaged_entry_ok(groups@, outcomes@, todo.entries@[j]),
            forall|w: int|
                0 <= w < warnings@.len() ==> kind_index((#[trigger] warnings@[w]).kind) < i
                    && warning_ok(outcomes@, warnings@[w]),
            forall|ii: int|
                0 <= ii < i ==> ((#[trigger] outcomes@[ii]) is Ok <==> exists|j: int|
                    0 <= j < todo.entries@.len() && (#[trigger] todo.entries@[j]).0.kind
                        == registry()[ii]),
            forall|ii: int|
                0 <= ii < i ==> ((#[trigger] outcomes@[ii]) is Err <==> exists|w: int|
                    0 <= w < warnings@.len() && (#[trigger] warnings@[w]).kind == registry()[ii]),
        decreases kinds@.len() - i,
    {
        proof {
            assert(kind_index(registry()[i as int]) == i as int) by {
                assert(registry()[0] == BackendKind::Pkg);
                assert(registry()[1] == BackendKind::Lang);
            }
        }
        let mut backend = Backend::new(kinds[i]);
        backend.load(groups);
        match &outcomes[i] {
            Ok(v) => {
                let diff = backend.diff_unmanaged(v);
                let ghost prev = todo.entries@;
                todo.push((backend, diff));
                proof {
                    let ent = todo.entries@.last();
                    assert(todo.entries@ == prev.push(ent));
                    lemma_entry_presence_push(outcomes@, prev, ent, i as int);
                    lemma_warning_absent(warnings@, i as int);
                    lemma_registry_index(i as int);
                }
            },
            Err(e) => {
                let w = Warning { kind: kinds[i], section: backend.get_section(), error: *e };
                let ghost prevw = warnings@;
                warnings.push(w);
                proof {
                    let added = warnings@.last();
                    assert(warnings@ == prevw.push(added));
                    lemma_warning_presence_push(outcomes@, prevw, added, i as int);
                    lemma_entry_absent(todo.entries@, i as int);
                    lemma_registry_index(i as int);
                }
            },
        }
        i = i + 1;
    }
    CollectOutcome { todo, warnings }
}

} // verus!
