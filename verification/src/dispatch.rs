//! The dispatcher: turns one action into the ordered requests handed to
//! the executor capability, one action in flight at a time, and
//! classifies the executor's outcome without ever retrying.

use vstd::prelude::*;

use crate::process::Action;

verus! {

/// One concrete request for the executor: erase already-typed characters,
/// or insert replacement text at the cursor.
pub enum OutputRequest {
    DeleteChars { count: usize },
    InsertText { text: String },
}

/// The exact translation of an action: nothing for no-op; first the
/// deletion of the typed trigger, then the insertion of the replacement.
pub open spec fn plan_ok(a: Action, reqs: Seq<OutputRequest>) -> bool {
    match a {
        Action::NoOp => reqs.len() == 0,
        Action::Inject { delete_count, text } => {
            &&& reqs.len() == 2
            &&& reqs[0] matches OutputRequest::DeleteChars { count } && count == delete_count
            &&& reqs[1] matches OutputRequest::InsertText { text: t } && t@ == text@
        },
    }
}

/// Translates an action into its ordered executor requests.
pub fn plan_action(a: Action) -> (reqs: Vec<OutputRequest>)
    ensures
        plan_ok(a, reqs@),
{
    match a {
        Action::NoOp => Vec::new(),
        Action::Inject { delete_count, text } => {
            let mut reqs: Vec<OutputRequest> = Vec::new();
            reqs.push(OutputRequest::DeleteChars { count: delete_count });
            reqs.push(OutputRequest::InsertText { text });
            reqs
        },
    }
}

/// How one dispatched injection ended. A partial application (the typed
/// trigger was erased but the replacement was not inserted) is reported,
/// never silently retried: replaying edits into an unknown application
/// state risks corruption.
#[derive(Clone, Copy, PartialEq, Eq, Structural, Debug)]
pub enum DispatchReport {
    Applied,
    Rejected,
    PartiallyApplied,
}

/// The classification of an injection from its two steps' outcomes.
pub open spec fn report_spec(delete_ok: bool, insert_ok: bool) -> DispatchReport {
    if !delete_ok {
        DispatchReport::Rejected
    } else if !insert_ok {
        DispatchReport::PartiallyApplied
    } else {
        DispatchReport::Applied
    }
}

/// The dispatcher's serialization state: at most one action is in flight
/// at any time; the next one is not issued until the previous completed.
pub struct Dispatcher {
    pub in_flight: bool,
}

impl Dispatcher {
    pub fn new() -> (d: Dispatcher)
        ensures
            !d.in_flight,
    {
        Dispatcher { in_flight: false }
    }

    /// Accepts an action for dispatch. While a previous action is still
    /// in flight nothing is planned and the action is refused, preserving
    /// per-event ordering. A no-op completes immediately and leaves
    /// nothing in flight.
    pub fn begin(&mut self, a: Action) -> (reqs: Option<Vec<OutputRequest>>)
        ensures
            old(self).in_flight ==> (reqs matches None) && final(self).in_flight,
            !old(self).in_flight ==> match reqs {
                Some(r) => {
                    &&& plan_ok(a, r@)
                    &&& final(self).in_flight == (r@.len() > 0)
                },
                None => false,
            },
    {
        if self.in_flight {
            return None;
        }
        let reqs = plan_action(a);
        self.in_flight = reqs.len() > 0;
        Some(reqs)
    }

    /// Records the executor's outcome for the action in flight and frees
    /// the dispatcher for the next one. The report is exactly the
    /// classification of the two steps.
    pub fn complete(&mut self, delete_ok: bool, insert_ok: bool) -> (r: DispatchReport)
        requires
            old(self).in_flight,
        ensures
            !final(self).in_flight,
            r == report_spec(delete_ok, insert_ok),
    {
        self.in_flight = false;
        if !delete_ok {
            DispatchReport::Rejected
        } else if !insert_ok {
            DispatchReport::PartiallyApplied
        } else {
            DispatchReport::Applied
        }
    }
}

} // verus!
