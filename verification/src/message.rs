//! The diagnostic message of a fault: which task failed, and how.

use vstd::prelude::*;
use vstd::string::StringExecFns;

verus! {

/// A position in the source of the program.
#[derive(Debug, PartialEq, Eq)]
pub struct SourceLocation {
    pub file: String,
    pub line: u32,
    pub column: u32,
}

/// A fault as the runtime captured it.
#[derive(Debug, PartialEq, Eq)]
pub struct FaultReport {
    /// Where the fault arose, if that is known. The report carries it for
    /// whoever handles the fault; the diagnostic message does not show it.
    pub location: Option<SourceLocation>,
    /// What went wrong, as the text that the diagnostic message shows.
    pub description: String,
}

/// The task in which a fault arose. A task need not have a name.
#[derive(Debug, PartialEq, Eq)]
pub struct TaskIdentity {
    pub name: Option<String>,
}

/// The name that stands for a task of which no name is known.
pub open spec fn unknown_task() -> Seq<char> {
    "<unknown>"@
}

/// The name under which a task is reported: its own, or, where the task
/// could not be looked up or has no name, the one of an unknown task.
pub open spec fn reported_name(task: Option<&TaskIdentity>) -> Seq<char> {
    match task {
        Some(identity) => match identity.name {
            Some(name) => name@,
            None => unknown_task(),
        },
        None => unknown_task(),
    }
}

/// The diagnostic message of a fault with the given description in the task
/// of the given name: `task '<name>' <description>`.
pub open spec fn diagnostic(name: Seq<char>, description: Seq<char>) -> Seq<char> {
    "task '"@ + name + "' "@ + description
}

/// Composes the diagnostic message of a fault. `task` is what looking up the
/// current task gave: `None` where the lookup failed.
pub fn compose_message(report: &FaultReport, task: Option<&TaskIdentity>) -> (message: String)
    ensures
        message@ == diagnostic(reported_name(task), report.description@),
        task is None ==> message@ == "task '"@ + "<unknown>"@ + "' "@ + report.description@,
{
    let name: &str = match task {
        Some(identity) => match &identity.name {
            Some(name) => name.as_str(),
            None => "<unknown>",
        },
        None => "<unknown>",
    };
    let mut message = String::from_str("task '");
    message.append(name);
    message.append("' ");
    message.append(report.description.as_str());
    message
}

} // verus!
