//! How a handler's successful result reads in the log.

use vstd::prelude::*;

use crate::model::{ActionOutcome, RejectReason};

verus! {

/// A handler's result, as far as its completion is logged.
pub trait HandlerOutcome {
    spec fn reads(&self) -> Seq<char>;

    fn outcome(&self) -> (line: String)
        ensures
            line@ == self.reads(),
    ;
}

impl HandlerOutcome for () {
    open spec fn reads(&self) -> Seq<char> {
        "ok"@
    }

    fn outcome(&self) -> (line: String) {
        "ok".to_owned()
    }
}

/// For handlers whose only interesting result is a count, which they phrase themselves.
impl HandlerOutcome for String {
    open spec fn reads(&self) -> Seq<char> {
        self@
    }

    fn outcome(&self) -> (line: String) {
        self.clone()
    }
}

impl HandlerOutcome for ActionOutcome {
    open spec fn reads(&self) -> Seq<char> {
        match *self {
            ActionOutcome::Succeeded { .. } => "succeeded"@,
            ActionOutcome::Rejected { reason } => "rejected: "@ + reason.spec_text(),
        }
    }

    fn outcome(&self) -> (line: String) {
        match self {
            ActionOutcome::Succeeded { .. } => "succeeded".to_owned(),
            ActionOutcome::Rejected { reason } => {
                let mut line = "rejected: ".to_owned();
                line.append(reason.text().as_str());
                line
            },
        }
    }
}

impl<T> HandlerOutcome for Option<T> {
    open spec fn reads(&self) -> Seq<char> {
        match *self {
            Some(_) => "found"@,
            None => "absent"@,
        }
    }

    fn outcome(&self) -> (line: String) {
        match self {
            Some(_) => "found".to_owned(),
            None => "absent".to_owned(),
        }
    }
}

/// A handler's log line says what came of it: an action that was carried out, or why it was not;
/// and whether what was asked after is there.
pub proof fn law_a_log_line_says_what_came_of_a_handler<T>(
    outcome: ActionOutcome,
    why: String,
    found: Option<T>,
    words: String,
    of_outcome: String,
    of_found: String,
    of_words: String,
    of_nothing: String,
)
    requires
        outcome matches ActionOutcome::Rejected { reason } ==> call_ensures(
            RejectReason::text,
            (&reason,),
            why,
        ),
        call_ensures(ActionOutcome::outcome, (&outcome,), of_outcome),
        call_ensures(Option::<T>::outcome, (&found,), of_found),
        call_ensures(String::outcome, (&words,), of_words),
        call_ensures(<()>::outcome, (&(),), of_nothing),
    ensures
        match outcome {
            ActionOutcome::Succeeded { .. } => of_outcome@ == "succeeded"@,
            ActionOutcome::Rejected { .. } => of_outcome@ == "rejected: "@ + why@,
        },
        found is Some ==> of_found@ == "found"@,
        found is None ==> of_found@ == "absent"@,
        of_words@ == words@,
        of_nothing@ == "ok"@,
{
}

} // verus!
