//! Per-backend work lists.
//!
//! A `ToDoPerBackend` pairs each successfully loaded-and-diffed backend
//! with its package set.  Backends whose query failed are not represented
//! at all; the collection functions report them separately as warnings.

use vstd::prelude::*;

use crate::backend::{Backend, section_of};
use crate::order::clone_names;

verus! {

/// A displayed or executable summary line: one backend and the nonempty
/// package set to act on.
pub struct SummaryEntry {
    pub kind: crate::backend::BackendKind,
    pub section: String,
    pub packages: Vec<String>,
}

/// The entries whose package set is nonempty, in order.
pub open spec fn nonempty_entries(s: Seq<(Backend, Vec<String>)>) -> Seq<(Backend, Vec<String>)>
    decreases s.len(),
{
    if s.len() == 0 {
        Seq::empty()
    } else if s.last().1@.len() == 0 {
        nonempty_entries(s.drop_last())
    } else {
        nonempty_entries(s.drop_last()).push(s.last())
    }
}

/// One (backend, package set) pair per backend that was successfully
/// loaded and diffed.
pub struct ToDoPerBackend {
    pub entries: Vec<(Backend, Vec<String>)>,
}

impl ToDoPerBackend {
    /// An empty work list.
    pub fn new() -> (r: ToDoPerBackend)
        ensures
            r.entries@.len() == 0,
    {
        ToDoPerBackend { entries: Vec::new() }
    }

    /// Appends one (backend, package set) pair.
    pub fn push(&mut self, item: (Backend, Vec<String>))
        ensures
            final(self).entries@ == old(self).entries@.push(item),
    {
        self.entries.push(item);
    }

    /// No backend at all is represented.
    pub fn is_empty(&self) -> (r: bool)
        ensures
            r == (self.entries@.len() == 0),
    {
        self.entries.len() == 0
    }

    /// Every entry's package set is empty.
    pub open spec fn spec_nothing_to_do(self) -> bool {
        forall|i: int| 0 <= i < self.entries@.len() ==> (#[trigger] self.entries@[i]).1@.len() == 0
    }

    /// True exactly when every per-backend package set is empty; a list
    /// with no entries also counts as nothing to do.
    pub fn nothing_to_do_for_all_backends(&self) -> (r: bool)
        ensures
            r == self.spec_nothing_to_do(),
    {
        let mut i: usize = 0;
        while i < self.entries.len()
            invariant
                0 <= i <= self.entries@.len(),
                forall|j: int| 0 <= j < i ==> (#[trigger] self.entries@[j]).1@.len() == 0,
            decreases self.entries@.len() - i,
        {
            if self.entries[i].1.len() > 0 {
                return false;
            }
            i = i + 1;
        }
        true
    }

    /// The summary of the work to do: one line per backend whose package
    /// set is nonempty, in order, with the backend's section identifier and
    /// a copy of its package set.  Entries with nothing to do are skipped.
    pub fn render_summary(&self) -> (r: Vec<SummaryEntry>)
        ensures
            r@.len() == nonempty_entries(self.entries@).len(),
            forall|i: int|
                0 <= i < r@.len() ==> {
                    let e = nonempty_entries(self.entries@)[i];
                    (#[trigger] r@[i]).kind == e.0.kind && r@[i].section@ == section_of(e.0.kind)
                        && r@[i].packages@ == e.1@
                },
    {
        let mut r: Vec<SummaryEntry> = Vec::new();
        let mut i: usize = 0;
        while i < self.entries.len()
            invariant
                0 <= i <= self.entries@.len(),
                r@.len() == nonempty_entries(self.entries@.take(i as int)).len(),
                forall|j: int|
                    0 <= j < r@.len() ==> {
                        let e = nonempty_entries(self.entries@.take(i as int))[j];
                        (#[trigger] r@[j]).kind == e.0.kind && r@[j].section@ == section_of(
                            e.0.kind,
                        ) && r@[j].packages@ == e.1@
                    },
            decreases self.entries@.len() - i,
        {
            let ghost prefix = self.entries@.take(i as int);
            let ghost next = self.entries@.take(i + 1 as int);
            proof {
                assert(next.drop_last() =~= prefix);
                assert(next.last() == self.entries@[i as int]);
            }
            let entry = &self.entries[i];
            if entry.1.len() > 0 {
                let line = SummaryEntry {
                    kind: entry.0.kind,
                    section: entry.0.get_section(),
                    packages: clone_names(&entry.1),
                };
                r.push(line);
            }
            i = i + 1;
        }
        proof {
            assert(self.entries@.take(self.entries@.len() as int) =~= self.entries@);
        }
        r
    }
}

} // verus!
