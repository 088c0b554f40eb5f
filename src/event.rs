//! The events that a running operation streams back to the controller.
use vstd::prelude::*;

verus! {

/// Progress is counted in thousandths: `FULL` stands for a finished phase.
pub const FULL: u16 = 1000;

/// A named sub-stage of an operation.
#[derive(Clone, Copy, Debug, PartialEq, Eq, Structural)]
pub enum Phase {
    Burning,
    Verifying,
    CreatingBootableSetup,
    CreatingImage,
    Ejecting,
    Erasing,
}

/// One message from a running operation, in the order it was produced.
#[derive(Debug)]
pub enum ProgressEvent {
    /// An informational line.
    Log(String),
    /// The operation entered a phase.
    Started(Phase),
    /// Progress within a phase, in thousandths (`0..=FULL`).
    Progress(Phase, u16),
    /// Terminal success.
    Completed,
    /// Terminal failure, with a message for the user.
    Failed(String),
}

/// `Completed` and `Failed` end an invocation's stream.
pub open spec fn is_terminal(e: ProgressEvent) -> bool {
    e is Completed || e is Failed
}

/// No event but possibly the last one is terminal.
pub open spec fn terminal_only_last(s: Seq<ProgressEvent>) -> bool {
    forall|i: int| 0 <= i < s.len() - 1 ==> !is_terminal(#[trigger] s[i])
}

/// The stream has ended: its last event is terminal.
pub open spec fn ends_terminal(s: Seq<ProgressEvent>) -> bool {
    s.len() > 0 && is_terminal(s.last())
}

/// How many terminal events the stream holds.
pub open spec fn terminal_count(s: Seq<ProgressEvent>) -> nat
    decreases s.len(),
{
    if s.len() == 0 {
        0
    } else {
        terminal_count(s.drop_last()) + if is_terminal(s.last()) { 1nat } else { 0nat }
    }
}

impl ProgressEvent {
    /// Whether this event ends the stream.
    pub fn is_terminal(&self) -> (r: bool)
        ensures
            r == is_terminal(*self),
    {
        match self {
            ProgressEvent::Completed => true,
            ProgressEvent::Failed(_) => true,
            _ => false,
        }
    }

    /// A deep copy of the event.
    pub fn duplicate(&self) -> (r: ProgressEvent)
        ensures
            r == *self,
    {
        match self {
            ProgressEvent::Log(m) => ProgressEvent::Log(m.clone()),
            ProgressEvent::Started(p) => ProgressEvent::Started(*p),
            ProgressEvent::Progress(p, f) => ProgressEvent::Progress(*p, *f),
            ProgressEvent::Completed => ProgressEvent::Completed,
            ProgressEvent::Failed(m) => ProgressEvent::Failed(m.clone()),
        }
    }
}

} // verus!
