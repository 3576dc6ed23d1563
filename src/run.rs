use vstd::prelude::*;

use crate::history::{trim, trimmed};
use crate::safety::{any_rule_hits, danger_rules, is_dangerous};
use crate::store::{at_index, MemoStore};
use crate::text::{lower_of, lowercase};

verus! {

/// An answer that confirms running a dangerous command: `y` or `yes`, in any
/// case, with white space around it ignored.
pub open spec fn confirms(answer: Seq<char>) -> bool {
    lower_of(trim(answer)) == "y"@ || lower_of(trim(answer)) == "yes"@
}

/// An answer was read and it confirms.
pub open spec fn answer_confirms(answer: Option<&str>) -> bool {
    match answer {
        Some(a) => confirms(a@),
        None => false,
    }
}

/// What `run <index>` does next.
#[derive(Debug, PartialEq, Eq)]
pub enum RunAction {
    /// No entry has that index: fail.
    NotFound,
    /// The command looks dangerous: ask before running it.
    Confirm(String),
    /// Run the command.
    Execute(String),
    /// The operator did not confirm: abort with a failure.
    Declined,
}

/// Whether an operator's answer confirms a dangerous run.
pub fn is_confirmation(answer: &str) -> (r: bool)
    ensures
        r == confirms(answer@),
{
    let t = trimmed(answer);
    let l = lowercase(t.as_str());
    let y = "y".to_owned();
    let yes = "yes".to_owned();
    l == y || l == yes
}

/// The first step of `run <index>`: resolve the index, then run a safe
/// command at once and ask before a dangerous one.
pub fn plan_run(store: &MemoStore, index: i64) -> (r: RunAction)
    ensures
        !(1 <= index <= store.model().len()) ==> r is NotFound,
        1 <= index <= store.model().len() ==> ({
            let c = at_index(store.model(), index as int).cmd;
            if any_rule_hits(danger_rules(), c) {
                r matches RunAction::Confirm(x) && x@ == c
            } else {
                r matches RunAction::Execute(x) && x@ == c
            }
        }),
{
    match store.resolve_index(index) {
        None => RunAction::NotFound,
        Some(e) => {
            let cmd = e.cmd.clone();
            if is_dangerous(cmd.as_str()) {
                RunAction::Confirm(cmd)
            } else {
                RunAction::Execute(cmd)
            }
        },
    }
}

/// The step after asking about `cmd`: run it on a confirming answer; decline
/// on any other answer, or when none could be read (`None`).
pub fn after_answer(cmd: String, answer: Option<&str>) -> (r: RunAction)
    ensures
        answer_confirms(answer) ==> (r matches RunAction::Execute(x) && x@ == cmd@),
        !answer_confirms(answer) ==> r is Declined,
{
    match answer {
        Some(a) => {
            if is_confirmation(a) {
                RunAction::Execute(cmd)
            } else {
                RunAction::Declined
            }
        },
        None => RunAction::Declined,
    }
}

} // verus!
