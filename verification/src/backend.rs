//! The rendering backend as this crate sees it: the calls that can be asked
//! of it and what it can answer.
//!
//! The crate never talks to a backend itself.  It says which calls are due
//! ([`Step`]), whoever drives the frame makes them and reports how each one
//! went ([`Outcome`]).

use vstd::prelude::*;
use crate::element::{Angle, Color, ElementId};

verus! {

/// The handle of one object that the backend keeps.
#[derive(Clone, Copy, Debug, PartialEq, Eq, Hash, Structural)]
pub struct ObjectId(pub u64);

/// One thing to do for a node.  Positions and sizes are in backend pixels.
#[derive(Debug, PartialEq, Eq)]
pub enum Op {
    /// Create a rectangle; the backend answers with its handle.
    CreateRect,
    /// Create a text; the backend answers with its handle.
    CreateText,
    SetPosition { x: i64, y: i64 },
    SetSize { width: u64, height: u64 },
    SetColor { color: Color },
    SetRotation { angle: Angle },
    SetRoundedness { value: i8 },
    SetTextContent { content: String },
    SetTextSize { font_size: u32 },
    /// Destroy the object behind the handle.
    Destroy { handle: ObjectId },
    /// Drop what is remembered of the node.  No call to the backend is due.
    Forget,
}

/// One thing to do, and the node it is done for.  A `Set..` step is meant
/// for every object that the node holds.
#[derive(Debug, PartialEq, Eq)]
pub struct Step {
    pub element: ElementId,
    pub op: Op,
}

/// How a step went.
#[derive(Clone, Copy, Debug, PartialEq, Eq, Structural)]
pub enum Outcome {
    /// The backend created an object and gave it this handle.
    Created(ObjectId),
    /// The step was carried out.
    Done,
    /// The backend refused.
    Failed,
}

/// What kind of step the backend refused.
#[derive(Clone, Copy, Debug, PartialEq, Eq, Structural)]
pub enum Failure {
    Create,
    Update,
    Destroy,
}

/// A refusal of the backend, with the node it concerns.  It does not stop
/// the frame.
#[derive(Clone, Copy, Debug, PartialEq, Eq, Structural)]
pub struct Diagnostic {
    pub element: ElementId,
    pub failure: Failure,
}

/// The step asks the backend for a new object.
pub open spec fn is_create(op: Op) -> bool {
    op is CreateRect || op is CreateText
}

/// The outcome says that the step was carried out.
pub open spec fn succeeded(op: Op, outcome: Outcome) -> bool {
    if is_create(op) {
        outcome is Created
    } else {
        outcome is Done
    }
}

/// What is reported of a step with the given outcome: nothing if it was
/// carried out or if no call was due, else the kind of step that failed.
pub open spec fn report(step: Step, outcome: Outcome) -> Option<Diagnostic> {
    if succeeded(step.op, outcome) || step.op is Forget {
        None
    } else if is_create(step.op) {
        Some(Diagnostic { element: step.element, failure: Failure::Create })
    } else if step.op is Destroy {
        Some(Diagnostic { element: step.element, failure: Failure::Destroy })
    } else {
        Some(Diagnostic { element: step.element, failure: Failure::Update })
    }
}

/// How a set step went, given how the call went on each object of the
/// node: it was carried out if the node holds an object and no call was
/// refused.
pub open spec fn outcome_of_calls(accepted: Seq<bool>) -> Outcome {
    if accepted.len() > 0 && forall|i: int| 0 <= i < accepted.len() ==> accepted[i] {
        Outcome::Done
    } else {
        Outcome::Failed
    }
}

impl Outcome {
    /// The outcome of a create step: the handle that the backend gave, or
    /// failure if it gave none.
    pub fn of_create(handle: Option<ObjectId>) -> (outcome: Outcome)
        ensures
            outcome == (match handle {
                Some(h) => Outcome::Created(h),
                None => Outcome::Failed,
            }),
    {
        match handle {
            Some(h) => Outcome::Created(h),
            None => Outcome::Failed,
        }
    }

    /// The outcome of a destroy step, given whether the backend accepted it.
    pub fn of_call(accepted: bool) -> (outcome: Outcome)
        ensures
            outcome == (if accepted {
                Outcome::Done
            } else {
                Outcome::Failed
            }),
    {
        if accepted {
            Outcome::Done
        } else {
            Outcome::Failed
        }
    }

    /// See [`outcome_of_calls`].
    pub fn of_calls(accepted: &Vec<bool>) -> (outcome: Outcome)
        ensures
            outcome == outcome_of_calls(accepted@),
    {
        if accepted.len() == 0 {
            return Outcome::Failed;
        }
        let mut i: usize = 0;
        while i < accepted.len()
            invariant
                i <= accepted.len(),
                forall|j: int| 0 <= j < i ==> accepted@[j],
            decreases accepted.len() - i,
        {
            if !accepted[i] {
                return Outcome::Failed;
            }
            i += 1;
        }
        Outcome::Done
    }
}

impl Step {
    /// See [`report`].
    pub fn report(&self, outcome: Outcome) -> (d: Option<Diagnostic>)
        ensures
            d == report(*self, outcome),
    {
        let failure = match &self.op {
            Op::Forget => {
                return None;
            },
            Op::CreateRect | Op::CreateText => {
                match outcome {
                    Outcome::Created(_) => {
                        return None;
                    },
                    _ => Failure::Create,
                }
            },
            Op::Destroy { .. } => {
                match outcome {
                    Outcome::Done => {
                        return None;
                    },
                    _ => Failure::Destroy,
                }
            },
            _ => {
                match outcome {
                    Outcome::Done => {
                        return None;
                    },
                    _ => Failure::Update,
                }
            },
        };
        Some(Diagnostic { element: self.element, failure })
    }
}

} // verus!
