//! Groups: named, user-authored collections of declared packages.
//!
//! A group is loaded once from its declaration source and is read-only
//! thereafter.  Each entry of a group names a backend section and one
//! package declared for that section.

use vstd::prelude::*;

use crate::order::{has_name, insert_sorted, sorted_names};

verus! {

/// One declared package: the backend section it belongs to and its name.
pub struct Declaration {
    pub section: String,
    pub package: String,
}

/// A named, ordered collection of package declarations.
pub struct Group {
    pub name: String,
    pub entries: Vec<Declaration>,
}

/// The entries declare the package `p` for the backend section `section`.
pub open spec fn entries_declare(es: Seq<Declaration>, section: Seq<char>, p: Seq<char>) -> bool {
    exists|i: int|
        0 <= i < es.len() && (#[trigger] es[i]).section@ == section && es[i].package@ == p
}

/// The group declares the package `p` for the backend section `section`.
pub open spec fn group_declares(g: Group, section: Seq<char>, p: Seq<char>) -> bool {
    entries_declare(g.entries@, section, p)
}

/// Some group of the sequence declares the package `p` for `section`.
pub open spec fn groups_declare(gs: Seq<Group>, section: Seq<char>, p: Seq<char>) -> bool {
    exists|i: int| 0 <= i < gs.len() && group_declares(#[trigger] gs[i], section, p)
}

/// One of the groups is named `n`.
pub open spec fn groups_have_name(gs: Seq<Group>, n: Seq<char>) -> bool {
    exists|i: int| 0 <= i < gs.len() && (#[trigger] gs[i]).name@ == n
}

/// Returns the group names in ascending lexicographic order, without
/// duplicates: exactly the names that occur in `groups`.
pub fn sorted_group_names(groups: &Vec<Group>) -> (r: Vec<String>)
    ensures
        sorted_names(r@),
        forall|p: Seq<char>| has_name(r@, p) <==> groups_have_name(groups@, p),
{
    let mut r: Vec<String> = Vec::new();
    let mut i: usize = 0;
    while i < groups.len()
        invariant
            0 <= i <= groups@.len(),
            sorted_names(r@),
            forall|p: Seq<char>| has_name(r@, p) <==> groups_have_name(groups@.take(i as int), p),
        decreases groups@.len() - i,
    {
        let ghost prefix = groups@.take(i as int);
        insert_sorted(&mut r, groups[i].name.clone());
        proof {
            let next = groups@.take(i + 1 as int);
            assert forall|p: Seq<char>| groups_have_name(next, p) implies (groups_have_name(
                prefix,
                p,
            ) || p == groups@[i as int].name@) by {
                let j = choose|j: int| 0 <= j < next.len() && (#[trigger] next[j]).name@ == p;
                if j < i as int {
                    assert(prefix[j].name@ == p);
                }
            }
            assert forall|p: Seq<char>| (groups_have_name(prefix, p) || p
                == groups@[i as int].name@) implies groups_have_name(next, p) by {
                if groups_have_name(prefix, p) {
                    let j = choose|j: int|
                        0 <= j < prefix.len() && (#[trigger] prefix[j]).name@ == p;
                    assert(next[j].name@ == p);
                } else {
                    assert(next[i as int].name@ == p);
                }
            }
        }
        i = i + 1;
    }
    proof {
        assert(groups@.take(groups@.len() as int) =~= groups@);
    }
    r
}

/// Joins a directory path and each group name into one path per group,
/// separated by a single `/`.
pub fn group_file_paths(dir: &str, names: &Vec<String>) -> (r: Vec<String>)
    ensures
        r@.len() == names@.len(),
        forall|i: int| 0 <= i < names@.len() ==> (#[trigger] r@[i])@ == dir@ + "/"@ + names@[i]@,
{
    let mut r: Vec<String> = Vec::new();
    let mut i: usize = 0;
    while i < names.len()
        invariant
            0 <= i <= names@.len(),
            r@.len() == i,
            forall|j: int| 0 <= j < i ==> (#[trigger] r@[j])@ == dir@ + "/"@ + names@[j]@,
        decreases names@.len() - i,
    {
        let mut path = dir.to_owned();
        path.append("/");
        path.append(names[i].as_str());
        r.push(path);
        i = i + 1;
    }
    r
}

} // verus!
