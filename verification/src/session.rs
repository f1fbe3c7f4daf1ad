//! Decisions of one reconciliation run.
//!
//! A run collects, then either stops because there is nothing to do, asks
//! for confirmation, and either stops as declined or executes the
//! confirmed actions.  The caller performs the outside work (asking,
//! installing, removing) and feeds the results back; the decisions here
//! say what happens next, so that "nothing to do", "declined" and
//! "succeeded" are reported distinctly and a declined run dispatches no
//! action at all.

use vstd::prelude::*;

use crate::backend::BackendError;
use crate::order::str_eq;
use crate::todo::ToDoPerBackend;

verus! {

/// The actions a run can be asked to perform.
#[derive(Clone, Copy, PartialEq, Eq, Structural, Debug)]
pub enum Action {
    Clean,
    Edit,
    Groups,
    Sync,
    Unmanaged,
    Version,
}

impl Action {
    /// Maps a subcommand name to its action: exactly the six known names
    /// are accepted.
    pub fn from_name(name: &str) -> (r: Option<Action>)
        ensures
            r == Some(Action::Clean) <==> name@ == "clean"@,
            r == Some(Action::Edit) <==> name@ == "edit"@,
            r == Some(Action::Groups) <==> name@ == "groups"@,
            r == Some(Action::Sync) <==> name@ == "sync"@,
            r == Some(Action::Unmanaged) <==> name@ == "unmanaged"@,
            r == Some(Action::Version) <==> name@ == "version"@,
            r is None <==> (name@ != "clean"@ && name@ != "edit"@ && name@ != "groups"@ && name@
                != "sync"@ && name@ != "unmanaged"@ && name@ != "version"@),
    {
        proof {
            reveal_strlit("clean");
            reveal_strlit("edit");
            reveal_strlit("groups");
            reveal_strlit("sync");
            reveal_strlit("unmanaged");
            reveal_strlit("version");
            assert("clean"@.len() == 5);
            assert("edit"@.len() == 4);
            assert("groups"@.len() == 6);
            assert("sync"@.len() == 4);
            assert("unmanaged"@.len() == 9);
            assert("version"@.len() == 7);
            assert("edit"@[0] == 'e' && "sync"@[0] == 's');
        }
        if str_eq(name, "clean") {
            Some(Action::Clean)
        } else if str_eq(name, "edit") {
            Some(Action::Edit)
        } else if str_eq(name, "groups") {
            Some(Action::Groups)
        } else if str_eq(name, "sync") {
            Some(Action::Sync)
        } else if str_eq(name, "unmanaged") {
            Some(Action::Unmanaged)
        } else if str_eq(name, "version") {
            Some(Action::Version)
        } else {
            None
        }
    }
}

/// How a run ended.
#[derive(Clone, Copy, PartialEq, Eq, Structural, Debug)]
pub enum RunOutcome {
    NothingToDo,
    Declined,
    Completed,
    Failed,
}

/// What the caller must do next.
#[derive(Clone, Copy, PartialEq, Eq, Structural, Debug)]
pub enum Step {
    AskConfirmation,
    Execute,
    Stop(RunOutcome),
}

/// After collecting: a run with nothing to do stops at once — no
/// confirmation is requested and nothing is executed; otherwise the
/// caller must show the summary and ask for confirmation.
pub fn step_after_collection(todo: &ToDoPerBackend) -> (s: Step)
    ensures
        s == (if todo.spec_nothing_to_do() {
            Step::Stop(RunOutcome::NothingToDo)
        } else {
            Step::AskConfirmation
        }),
{
    if todo.nothing_to_do_for_all_backends() {
        Step::Stop(RunOutcome::NothingToDo)
    } else {
        Step::AskConfirmation
    }
}

/// After asking: a declined confirmation stops the run — no install or
/// remove is dispatched; a confirmed one proceeds to execution.
pub fn step_after_confirmation(confirmed: bool) -> (s: Step)
    ensures
        s == (if confirmed {
            Step::Execute
        } else {
            Step::Stop(RunOutcome::Declined)
        }),
{
    if confirmed {
        Step::Execute
    } else {
        Step::Stop(RunOutcome::Declined)
    }
}

/// After executing: a failure of any confirmed action is surfaced as a
/// failed run, never swallowed; otherwise the run completed.
pub fn outcome_after_execution(result: &Result<(), BackendError>) -> (o: RunOutcome)
    ensures
        o == (if result is Ok {
            RunOutcome::Completed
        } else {
            RunOutcome::Failed
        }),
{
    match result {
        Ok(_) => RunOutcome::Completed,
        Err(_) => RunOutcome::Failed,
    }
}

} // verus!
